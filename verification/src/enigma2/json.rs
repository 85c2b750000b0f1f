//! JSON documents of the receiver's API, and the records read from them.
//!
//! `serde_json` parses the text; the records are read from the parsed value
//! here, field by field, as the API's field rules say: a missing field takes
//! its default, a field of the wrong type makes the whole record invalid,
//! and fields that nothing reads are ignored.
use crate::enigma2::epg_text::normalized_text;
use crate::enigma2::model::{
    ApiBouquet, ApiBouquetView, ApiChannel, ApiChannelView, EpgEvent, EpgEventView,
    ServicesResponse, ServicesResponseView, normalize_epg_text,
};
use vstd::prelude::*;

verus! {

/// A parsed JSON value. A number is kept as its integer value when it is an
/// integer (of `i64` or `u64` range), else as `None`.
pub enum JsonValue {
    Null,
    Bool(bool),
    Number(Option<i128>),
    Str(String),
    Array(Vec<JsonValue>),
    Object(Vec<(String, JsonValue)>),
}

/// The mathematical content of a `JsonValue`.
pub enum JsonData {
    Null,
    Bool(bool),
    Number(Option<int>),
    Str(Seq<char>),
    Array(Seq<JsonData>),
    Object(Seq<(Seq<char>, JsonData)>),
}

pub open spec fn json_view(v: JsonValue) -> JsonData
    decreases v,
{
    match v {
        JsonValue::Null => JsonData::Null,
        JsonValue::Bool(b) => JsonData::Bool(b),
        JsonValue::Number(n) => JsonData::Number(
            match n {
                Some(i) => Some(i as int),
                None => None,
            },
        ),
        JsonValue::Str(s) => JsonData::Str(s@),
        JsonValue::Array(a) => JsonData::Array(
            Seq::new(
                a@.len(),
                |i: int|
                    if 0 <= i < a@.len() {
                        json_view(a@[i])
                    } else {
                        JsonData::Null
                    },
            ),
        ),
        JsonValue::Object(o) => JsonData::Object(
            Seq::new(
                o@.len(),
                |i: int|
                    if 0 <= i < o@.len() {
                        (o@[i].0@, json_view(o@[i].1))
                    } else {
                        (Seq::empty(), JsonData::Null)
                    },
            ),
        ),
    }
}

impl View for JsonValue {
    type V = JsonData;

    open spec fn view(&self) -> JsonData {
        json_view(*self)
    }
}

/// What `serde_json` makes of a text: the parsed document, or its error
/// message.
pub uninterp spec fn json_document(text: Seq<char>) -> Result<JsonData, Seq<char>>;

#[verifier::external_type_specification]
#[verifier::external_body]
pub struct ExSerdeJsonValue(serde_json::Value);

/// Parses `text` as JSON (`serde_json::from_str::<serde_json::Value>`); the
/// result is `json_document(text)`, the error as its message.
#[verifier::external_body]
fn parse_json(text: &str) -> (r: Result<JsonValue, String>)
    ensures
        match r {
            Ok(v) => json_document(text@) == Ok::<JsonData, Seq<char>>(v@),
            Err(e) => json_document(text@) == Err::<JsonData, Seq<char>>(e@),
        },
{
    match serde_json::from_str::<serde_json::Value>(text) {
        Ok(v) => Ok(from_serde(v)),
        Err(e) => Err(e.to_string()),
    }
}

/// Moves a `serde_json::Value` into a `JsonValue`, variant by variant.
#[verifier::external_body]
fn from_serde(v: serde_json::Value) -> JsonValue {
    match v {
        serde_json::Value::Null => JsonValue::Null,
        serde_json::Value::Bool(b) => JsonValue::Bool(b),
        serde_json::Value::Number(n) => JsonValue::Number(n.as_i128()),
        serde_json::Value::String(s) => JsonValue::Str(s),
        serde_json::Value::Array(a) => JsonValue::Array(a.into_iter().map(from_serde).collect()),
        serde_json::Value::Object(m) => JsonValue::Object(
            m.into_iter().map(|(k, v)| (k, from_serde(v))).collect(),
        ),
    }
}

/// The members of an object (none for other values).
pub open spec fn members(d: JsonData) -> Seq<(Seq<char>, JsonData)> {
    match d {
        JsonData::Object(o) => o,
        _ => Seq::empty(),
    }
}

/// The value of the first member named `key`.
pub open spec fn lookup(o: Seq<(Seq<char>, JsonData)>, key: Seq<char>) -> Option<JsonData>
    decreases o.len(),
{
    if o.len() == 0 {
        None
    } else if o[0].0 == key {
        Some(o[0].1)
    } else {
        lookup(o.drop_first(), key)
    }
}

/// The value of a record's field: in object form the member named `key`;
/// in array form, which `serde` also reads as a record, the element at
/// `index` (the field's place in the record).
pub open spec fn field(d: JsonData, index: int, key: Seq<char>) -> Option<JsonData> {
    match d {
        JsonData::Object(o) => lookup(o, key),
        JsonData::Array(a) => if 0 <= index < a.len() {
            Some(a[index])
        } else {
            None
        },
        _ => None,
    }
}

/// `d` can be read as a record of `fields` fields whose first `required`
/// fields have no default: an object, or an array of `required` to
/// `fields` elements.
pub open spec fn record_shape(d: JsonData, required: int, fields: int) -> bool {
    match d {
        JsonData::Object(_) => true,
        JsonData::Array(a) => required <= a.len() <= fields,
        _ => false,
    }
}

/// A `bool` field with default `false`.
pub open spec fn read_bool(f: Option<JsonData>) -> Result<bool, ()> {
    match f {
        None => Ok(false),
        Some(JsonData::Bool(b)) => Ok(b),
        _ => Err(()),
    }
}

/// A string field with default `""`.
pub open spec fn read_string(f: Option<JsonData>) -> Result<Seq<char>, ()> {
    match f {
        None => Ok(Seq::empty()),
        Some(JsonData::Str(s)) => Ok(s),
        _ => Err(()),
    }
}

/// A display-text field: missing or `null` give `""`, a string is
/// normalized (`normalized_text`).
pub open spec fn read_text(f: Option<JsonData>) -> Result<Seq<char>, ()> {
    match f {
        None => Ok(Seq::empty()),
        Some(JsonData::Null) => Ok(Seq::empty()),
        Some(JsonData::Str(s)) => Ok(normalized_text(s)),
        _ => Err(()),
    }
}

/// A `u32` field with default 0.
pub open spec fn read_u32(f: Option<JsonData>) -> Result<u32, ()> {
    match f {
        None => Ok(0),
        Some(JsonData::Number(Some(i))) => if 0 <= i <= u32::MAX {
            Ok(i as u32)
        } else {
            Err(())
        },
        _ => Err(()),
    }
}

/// An optional `u32` field: missing or `null` give `None`.
pub open spec fn read_opt_u32(f: Option<JsonData>) -> Result<Option<u32>, ()> {
    match f {
        None => Ok(None),
        Some(JsonData::Null) => Ok(None),
        Some(JsonData::Number(Some(i))) => if 0 <= i <= u32::MAX {
            Ok(Some(i as u32))
        } else {
            Err(())
        },
        _ => Err(()),
    }
}

/// An optional `u64` field: missing or `null` give `None`.
pub open spec fn read_opt_u64(f: Option<JsonData>) -> Result<Option<u64>, ()> {
    match f {
        None => Ok(None),
        Some(JsonData::Null) => Ok(None),
        Some(JsonData::Number(Some(i))) => if 0 <= i <= u64::MAX {
            Ok(Some(i as u64))
        } else {
            Err(())
        },
        _ => Err(()),
    }
}

/// An `i64` field with default 0.
pub open spec fn read_i64(f: Option<JsonData>) -> Result<i64, ()> {
    match f {
        None => Ok(0),
        Some(JsonData::Number(Some(i))) => if i64::MIN <= i <= i64::MAX {
            Ok(i as i64)
        } else {
            Err(())
        },
        _ => Err(()),
    }
}

/// An array field with default `[]`.
pub open spec fn read_array(f: Option<JsonData>) -> Result<Seq<JsonData>, ()> {
    match f {
        None => Ok(Seq::empty()),
        Some(JsonData::Array(a)) => Ok(a),
        _ => Err(()),
    }
}

/// An API channel record.
pub open spec fn api_channel_of(d: JsonData) -> Result<ApiChannelView, ()> {
    if !record_shape(d, 4, 4) {
        Err(())
    } else {
        match (
            read_u32(field(d, 0, "pos"@)),
            read_text(field(d, 1, "servicename"@)),
            read_string(field(d, 2, "servicereference"@)),
            read_opt_u32(field(d, 3, "program"@)),
        ) {
            (Ok(pos), Ok(name), Ok(reference), Ok(program)) => Ok(
                ApiChannelView {
                    pos,
                    servicename: name,
                    servicereference: reference,
                    program,
                },
            ),
            _ => Err(()),
        }
    }
}

/// A list of API channel records.
pub open spec fn api_channels_of(items: Seq<JsonData>) -> Result<Seq<ApiChannelView>, ()>
    decreases items.len(),
{
    if items.len() == 0 {
        Ok(Seq::empty())
    } else {
        match (api_channels_of(items.drop_last()), api_channel_of(items.last())) {
            (Ok(a), Ok(c)) => Ok(a.push(c)),
            _ => Err(()),
        }
    }
}

/// An API bouquet record.
pub open spec fn api_bouquet_of(d: JsonData) -> Result<ApiBouquetView, ()> {
    if !record_shape(d, 0, 3) {
        Err(())
    } else {
        match (
            read_text(field(d, 0, "servicename"@)),
            read_string(field(d, 1, "servicereference"@)),
            read_array(field(d, 2, "subservices"@)),
        ) {
            (Ok(name), Ok(reference), Ok(subs)) => match api_channels_of(subs) {
                Ok(channels) => Ok(
                    ApiBouquetView {
                        servicename: name,
                        servicereference: reference,
                        subservices: channels,
                    },
                ),
                Err(_) => Err(()),
            },
            _ => Err(()),
        }
    }
}

/// A list of API bouquet records.
pub open spec fn api_bouquets_of(items: Seq<JsonData>) -> Result<Seq<ApiBouquetView>, ()>
    decreases items.len(),
{
    if items.len() == 0 {
        Ok(Seq::empty())
    } else {
        match (api_bouquets_of(items.drop_last()), api_bouquet_of(items.last())) {
            (Ok(a), Ok(b)) => Ok(a.push(b)),
            _ => Err(()),
        }
    }
}

/// The answer of `/api/getallservices`.
pub open spec fn services_response_of(d: JsonData) -> Result<ServicesResponseView, ()> {
    if !record_shape(d, 0, 2) {
        Err(())
    } else {
        match (read_bool(field(d, 0, "result"@)), read_array(field(d, 1, "services"@))) {
            (Ok(result), Ok(items)) => match api_bouquets_of(items) {
                Ok(services) => Ok(ServicesResponseView { result, services }),
                Err(_) => Err(()),
            },
            _ => Err(()),
        }
    }
}

/// An EPG event record.
pub open spec fn epg_event_of(d: JsonData) -> Result<EpgEventView, ()> {
    if !record_shape(d, 1, 11) {
        Err(())
    } else {
        match (
            read_opt_u64(field(d, 0, "id"@)),
            read_i64(field(d, 1, "begin_timestamp"@)),
            read_i64(field(d, 2, "duration_sec"@)),
            read_text(field(d, 3, "title"@)),
            read_text(field(d, 4, "shortdesc"@)),
            read_text(field(d, 5, "longdesc"@)),
        ) {
            (Ok(id), Ok(begin), Ok(duration), Ok(title), Ok(shortdesc), Ok(longdesc)) => match (
                read_text(field(d, 6, "genre"@)),
                read_string(field(d, 7, "sref"@)),
                read_text(field(d, 8, "sname"@)),
                read_i64(field(d, 9, "now_timestamp"@)),
                read_i64(field(d, 10, "remaining"@)),
            ) {
                (Ok(genre), Ok(sref), Ok(sname), Ok(now), Ok(remaining)) => Ok(
                    EpgEventView {
                        id,
                        begin_timestamp: begin,
                        duration_sec: duration,
                        title,
                        shortdesc,
                        longdesc,
                        genre,
                        sref,
                        sname,
                        now_timestamp: now,
                        remaining,
                    },
                ),
                _ => Err(()),
            },
            _ => Err(()),
        }
    }
}

/// A list of EPG event records.
pub open spec fn epg_events_of(items: Seq<JsonData>) -> Result<Seq<EpgEventView>, ()>
    decreases items.len(),
{
    if items.len() == 0 {
        Ok(Seq::empty())
    } else {
        match (epg_events_of(items.drop_last()), epg_event_of(items.last())) {
            (Ok(a), Ok(e)) => Ok(a.push(e)),
            _ => Err(()),
        }
    }
}

/// The events of an `/api/epgnow` or `/api/epgservice` answer.
pub open spec fn epg_response_of(d: JsonData) -> Result<Seq<EpgEventView>, ()> {
    if !record_shape(d, 0, 1) {
        Err(())
    } else {
        match read_array(field(d, 0, "events"@)) {
            Ok(items) => epg_events_of(items),
            Err(_) => Err(()),
        }
    }
}

/// The field of record `v` named `key`, at `index` in array form, if
/// there is one.
fn record_field<'a>(v: &'a JsonValue, index: usize, key: &str) -> (r: Option<&'a JsonValue>)
    ensures
        match r {
            Some(x) => field(v@, index as int, key@) == Some(x@),
            None => field(v@, index as int, key@) is None,
        },
{
    match v {
        JsonValue::Object(o) => {
            let k = key.to_owned();
            let ghost m = members(v@);
            let mut i: usize = 0;
            assert(m.skip(0) =~= m);
            while i < o.len()
                invariant
                    i <= o.len(),
                    m == members(v@),
                    m.len() == o@.len(),
                    forall|j: int| 0 <= j < o@.len() ==> #[trigger] m[j] == (o@[j].0@, o@[j].1@),
                    k@ == key@,
                    lookup(m, key@) == lookup(m.skip(i as int), key@),
                decreases o.len() - i,
            {
                let entry = &o[i];
                assert(m.skip(i as int)[0] == m[i as int]);
                if entry.0 == k {
                    return Some(&entry.1);
                }
                assert(m.skip(i as int).drop_first() =~= m.skip(i + 1));
                i = i + 1;
            }
            None
        },
        JsonValue::Array(a) => {
            if index < a.len() {
                Some(&a[index])
            } else {
                None
            }
        },
        _ => None,
    }
}

/// `v` can be read as a record of `fields` fields, the first `required`
/// without a default.
fn has_record_shape(v: &JsonValue, required: usize, fields: usize) -> (r: bool)
    ensures
        r == record_shape(v@, required as int, fields as int),
{
    match v {
        JsonValue::Object(_) => true,
        JsonValue::Array(a) => required <= a.len() && a.len() <= fields,
        _ => false,
    }
}

fn get_bool(v: &JsonValue, index: usize, key: &str) -> (r: Result<bool, ()>)
    ensures
        r == read_bool(field(v@, index as int, key@)),
{
    match record_field(v, index, key) {
        None => Ok(false),
        Some(JsonValue::Bool(b)) => Ok(*b),
        Some(_) => Err(()),
    }
}

fn get_string(v: &JsonValue, index: usize, key: &str) -> (r: Result<String, ()>)
    ensures
        match r {
            Ok(s) => read_string(field(v@, index as int, key@)) == Ok::<Seq<char>, ()>(s@),
            Err(_) => read_string(field(v@, index as int, key@)) is Err,
        },
{
    match record_field(v, index, key) {
        None => Ok(String::new()),
        Some(JsonValue::Str(s)) => Ok(s.clone()),
        Some(_) => Err(()),
    }
}

fn get_text(v: &JsonValue, index: usize, key: &str) -> (r: Result<String, ()>)
    ensures
        match r {
            Ok(s) => read_text(field(v@, index as int, key@)) == Ok::<Seq<char>, ()>(s@),
            Err(_) => read_text(field(v@, index as int, key@)) is Err,
        },
{
    match record_field(v, index, key) {
        None => Ok(String::new()),
        Some(JsonValue::Null) => Ok(String::new()),
        Some(JsonValue::Str(s)) => Ok(normalize_epg_text(s.as_str())),
        Some(_) => Err(()),
    }
}

fn get_u32(v: &JsonValue, index: usize, key: &str) -> (r: Result<u32, ()>)
    ensures
        r == read_u32(field(v@, index as int, key@)),
{
    match record_field(v, index, key) {
        None => Ok(0),
        Some(JsonValue::Number(Some(i))) => if 0 <= *i && *i <= 0xFFFF_FFFF {
            Ok(*i as u32)
        } else {
            Err(())
        },
        Some(_) => Err(()),
    }
}

fn get_opt_u32(v: &JsonValue, index: usize, key: &str) -> (r: Result<Option<u32>, ()>)
    ensures
        r == read_opt_u32(field(v@, index as int, key@)),
{
    match record_field(v, index, key) {
        None => Ok(None),
        Some(JsonValue::Null) => Ok(None),
        Some(JsonValue::Number(Some(i))) => if 0 <= *i && *i <= 0xFFFF_FFFF {
            Ok(Some(*i as u32))
        } else {
            Err(())
        },
        Some(_) => Err(()),
    }
}

fn get_opt_u64(v: &JsonValue, index: usize, key: &str) -> (r: Result<Option<u64>, ()>)
    ensures
        r == read_opt_u64(field(v@, index as int, key@)),
{
    match record_field(v, index, key) {
        None => Ok(None),
        Some(JsonValue::Null) => Ok(None),
        Some(JsonValue::Number(Some(i))) => if 0 <= *i && *i <= 0xFFFF_FFFF_FFFF_FFFF {
            Ok(Some(*i as u64))
        } else {
            Err(())
        },
        Some(_) => Err(()),
    }
}

fn get_i64(v: &JsonValue, index: usize, key: &str) -> (r: Result<i64, ()>)
    ensures
        r == read_i64(field(v@, index as int, key@)),
{
    match record_field(v, index, key) {
        None => Ok(0),
        Some(JsonValue::Number(Some(i))) => if -0x8000_0000_0000_0000 <= *i && *i <= 0x7FFF_FFFF_FFFF_FFFF {
            Ok(*i as i64)
        } else {
            Err(())
        },
        Some(_) => Err(()),
    }
}

/// The elements of an array field (none when the field is missing).
fn get_array<'a>(v: &'a JsonValue, index: usize, key: &str) -> (r: Result<Option<&'a Vec<JsonValue>>, ()>)
    ensures
        match r {
            Ok(Some(a)) => read_array(field(v@, index as int, key@)) == Ok::<Seq<JsonData>, ()>(
                a@.map_values(|x: JsonValue| x@),
            ),
            Ok(None) => read_array(field(v@, index as int, key@)) == Ok::<Seq<JsonData>, ()>(
                Seq::empty(),
            ),
            Err(_) => read_array(field(v@, index as int, key@)) is Err,
        },
{
    match record_field(v, index, key) {
        None => Ok(None),
        Some(x) => match x {
            JsonValue::Array(a) => {
                let ghost s = match x@ {
                    JsonData::Array(s) => s,
                    _ => Seq::empty(),
                };
                assert(x@ is Array);
                assert(s.len() == a@.len());
                assert forall|i: int| 0 <= i < a@.len() implies s[i] == a@[i]@ by {}
                assert(s =~= a@.map_values(|x: JsonValue| x@));
                Ok(Some(a))
            },
            _ => Err(()),
        },
    }
}

fn read_api_channel(v: &JsonValue) -> (r: Result<ApiChannel, ()>)
    ensures
        match r {
            Ok(c) => api_channel_of(v@) == Ok::<ApiChannelView, ()>(c@),
            Err(_) => api_channel_of(v@) is Err,
        },
{
    if !has_record_shape(v, 4, 4) {
        return Err(());
    }
    let pos = get_u32(v, 0, "pos");
    let name = get_text(v, 1, "servicename");
    let reference = get_string(v, 2, "servicereference");
    let program = get_opt_u32(v, 3, "program");
    match (pos, name, reference, program) {
        (Ok(pos), Ok(servicename), Ok(servicereference), Ok(program)) => Ok(
            ApiChannel { pos, servicename, servicereference, program },
        ),
        _ => Err(()),
    }
}

fn read_api_channels(items: &Vec<JsonValue>) -> (r: Result<Vec<ApiChannel>, ()>)
    ensures
        match r {
            Ok(cs) => api_channels_of(items@.map_values(|x: JsonValue| x@)) == Ok::<
                Seq<ApiChannelView>,
                (),
            >(cs@.map_values(|c: ApiChannel| c@)),
            Err(_) => api_channels_of(items@.map_values(|x: JsonValue| x@)) is Err,
        },
{
    let ghost iv = items@.map_values(|x: JsonValue| x@);
    let mut out: Vec<ApiChannel> = Vec::new();
    let mut i: usize = 0;
    assert(iv.take(0) =~= Seq::<JsonData>::empty());
    assert(out@.map_values(|c: ApiChannel| c@) =~= Seq::<ApiChannelView>::empty());
    while i < items.len()
        invariant
            i <= items.len(),
            iv == items@.map_values(|x: JsonValue| x@),
            api_channels_of(iv.take(i as int)) == Ok::<Seq<ApiChannelView>, ()>(
                out@.map_values(|c: ApiChannel| c@),
            ),
        decreases items.len() - i,
    {
        assert(iv.take(i + 1).drop_last() =~= iv.take(i as int));
        assert(iv.take(i + 1).last() == items@[i as int]@);
        match read_api_channel(&items[i]) {
            Ok(c) => {
                let ghost before = out@.map_values(|c: ApiChannel| c@);
                out.push(c);
                assert(out@.map_values(|c: ApiChannel| c@) =~= before.push(c@));
            },
            Err(_) => {
                proof {
                    lemma_list_err_channels(iv, i as int + 1);
                }
                return Err(());
            },
        }
        i = i + 1;
    }
    assert(iv.take(items.len() as int) =~= iv);
    Ok(out)
}

proof fn lemma_list_err_channels(items: Seq<JsonData>, k: int)
    requires
        0 < k <= items.len(),
        api_channels_of(items.take(k)) is Err,
    ensures
        api_channels_of(items) is Err,
    decreases items.len() - k,
{
    if k < items.len() {
        assert(items.take(k + 1).drop_last() =~= items.take(k));
        lemma_list_err_channels(items, k + 1);
    } else {
        assert(items.take(k) =~= items);
    }
}

proof fn lemma_list_err_bouquets(items: Seq<JsonData>, k: int)
    requires
        0 < k <= items.len(),
        api_bouquets_of(items.take(k)) is Err,
    ensures
        api_bouquets_of(items) is Err,
    decreases items.len() - k,
{
    if k < items.len() {
        assert(items.take(k + 1).drop_last() =~= items.take(k));
        lemma_list_err_bouquets(items, k + 1);
    } else {
        assert(items.take(k) =~= items);
    }
}

proof fn lemma_list_err_events(items: Seq<JsonData>, k: int)
    requires
        0 < k <= items.len(),
        epg_events_of(items.take(k)) is Err,
    ensures
        epg_events_of(items) is Err,
    decreases items.len() - k,
{
    if k < items.len() {
        assert(items.take(k + 1).drop_last() =~= items.take(k));
        lemma_list_err_events(items, k + 1);
    } else {
        assert(items.take(k) =~= items);
    }
}

fn read_api_bouquet(v: &JsonValue) -> (r: Result<ApiBouquet, ()>)
    ensures
        match r {
            Ok(b) => api_bouquet_of(v@) == Ok::<ApiBouquetView, ()>(b@),
            Err(_) => api_bouquet_of(v@) is Err,
        },
{
    if !has_record_shape(v, 0, 3) {
        return Err(());
    }
    let name = get_text(v, 0, "servicename");
    let reference = get_string(v, 1, "servicereference");
    let subs = get_array(v, 2, "subservices");
    match (name, reference, subs) {
        (Ok(servicename), Ok(servicereference), Ok(subs)) => {
            let channels = match subs {
                Some(items) => read_api_channels(items),
                None => {
                    let e: Vec<ApiChannel> = Vec::new();
                    assert(e@.map_values(|c: ApiChannel| c@) =~= Seq::<ApiChannelView>::empty());
                    Ok(e)
                },
            };
            match channels {
                Ok(subservices) => Ok(ApiBouquet { servicename, servicereference, subservices }),
                Err(_) => Err(()),
            }
        },
        _ => Err(()),
    }
}

fn read_api_bouquets(items: &Vec<JsonValue>) -> (r: Result<Vec<ApiBouquet>, ()>)
    ensures
        match r {
            Ok(bs) => api_bouquets_of(items@.map_values(|x: JsonValue| x@)) == Ok::<
                Seq<ApiBouquetView>,
                (),
            >(bs@.map_values(|b: ApiBouquet| b@)),
            Err(_) => api_bouquets_of(items@.map_values(|x: JsonValue| x@)) is Err,
        },
{
    let ghost iv = items@.map_values(|x: JsonValue| x@);
    let mut out: Vec<ApiBouquet> = Vec::new();
    let mut i: usize = 0;
    assert(iv.take(0) =~= Seq::<JsonData>::empty());
    assert(out@.map_values(|b: ApiBouquet| b@) =~= Seq::<ApiBouquetView>::empty());
    while i < items.len()
        invariant
            i <= items.len(),
            iv == items@.map_values(|x: JsonValue| x@),
            api_bouquets_of(iv.take(i as int)) == Ok::<Seq<ApiBouquetView>, ()>(
                out@.map_values(|b: ApiBouquet| b@),
            ),
        decreases items.len() - i,
    {
        assert(iv.take(i + 1).drop_last() =~= iv.take(i as int));
        assert(iv.take(i + 1).last() == items@[i as int]@);
        match read_api_bouquet(&items[i]) {
            Ok(b) => {
                let ghost before = out@.map_values(|b: ApiBouquet| b@);
                out.push(b);
                assert(out@.map_values(|b: ApiBouquet| b@) =~= before.push(b@));
            },
            Err(_) => {
                proof {
                    lemma_list_err_bouquets(iv, i as int + 1);
                }
                return Err(());
            },
        }
        i = i + 1;
    }
    assert(iv.take(items.len() as int) =~= iv);
    Ok(out)
}

fn read_services_response(v: &JsonValue) -> (r: Result<ServicesResponse, ()>)
    ensures
        match r {
            Ok(s) => services_response_of(v@) == Ok::<ServicesResponseView, ()>(s@),
            Err(_) => services_response_of(v@) is Err,
        },
{
    if !has_record_shape(v, 0, 2) {
        return Err(());
    }
    let result = get_bool(v, 0, "result");
    let items = get_array(v, 1, "services");
    match (result, items) {
        (Ok(result), Ok(items)) => {
            let services = match items {
                Some(items) => read_api_bouquets(items),
                None => {
                    let e: Vec<ApiBouquet> = Vec::new();
                    assert(e@.map_values(|b: ApiBouquet| b@) =~= Seq::<ApiBouquetView>::empty());
                    Ok(e)
                },
            };
            match services {
                Ok(services) => Ok(ServicesResponse { result, services }),
                Err(_) => Err(()),
            }
        },
        _ => Err(()),
    }
}

fn read_epg_event(v: &JsonValue) -> (r: Result<EpgEvent, ()>)
    ensures
        match r {
            Ok(e) => epg_event_of(v@) == Ok::<EpgEventView, ()>(e@),
            Err(_) => epg_event_of(v@) is Err,
        },
{
    if !has_record_shape(v, 1, 11) {
        return Err(());
    }
    let id = get_opt_u64(v, 0, "id");
    let begin = get_i64(v, 1, "begin_timestamp");
    let duration = get_i64(v, 2, "duration_sec");
    let title = get_text(v, 3, "title");
    let shortdesc = get_text(v, 4, "shortdesc");
    let longdesc = get_text(v, 5, "longdesc");
    let genre = get_text(v, 6, "genre");
    let sref = get_string(v, 7, "sref");
    let sname = get_text(v, 8, "sname");
    let now = get_i64(v, 9, "now_timestamp");
    let remaining = get_i64(v, 10, "remaining");
    match (id, begin, duration, title, shortdesc, longdesc) {
        (Ok(id), Ok(begin), Ok(duration), Ok(title), Ok(shortdesc), Ok(longdesc)) => {
            match (genre, sref, sname, now, remaining) {
                (Ok(genre), Ok(sref), Ok(sname), Ok(now), Ok(remaining)) => Ok(
                    EpgEvent {
                        id,
                        begin_timestamp: begin,
                        duration_sec: duration,
                        title,
                        shortdesc,
                        longdesc,
                        genre,
                        sref,
                        sname,
                        now_timestamp: now,
                        remaining,
                    },
                ),
                _ => Err(()),
            }
        },
        _ => Err(()),
    }
}

fn read_epg_events(items: &Vec<JsonValue>) -> (r: Result<Vec<EpgEvent>, ()>)
    ensures
        match r {
            Ok(es) => epg_events_of(items@.map_values(|x: JsonValue| x@)) == Ok::<
                Seq<EpgEventView>,
                (),
            >(es@.map_values(|e: EpgEvent| e@)),
            Err(_) => epg_events_of(items@.map_values(|x: JsonValue| x@)) is Err,
        },
{
    let ghost iv = items@.map_values(|x: JsonValue| x@);
    let mut out: Vec<EpgEvent> = Vec::new();
    let mut i: usize = 0;
    assert(iv.take(0) =~= Seq::<JsonData>::empty());
    assert(out@.map_values(|e: EpgEvent| e@) =~= Seq::<EpgEventView>::empty());
    while i < items.len()
        invariant
            i <= items.len(),
            iv == items@.map_values(|x: JsonValue| x@),
            epg_events_of(iv.take(i as int)) == Ok::<Seq<EpgEventView>, ()>(
                out@.map_values(|e: EpgEvent| e@),
            ),
        decreases items.len() - i,
    {
        assert(iv.take(i + 1).drop_last() =~= iv.take(i as int));
        assert(iv.take(i + 1).last() == items@[i as int]@);
        match read_epg_event(&items[i]) {
            Ok(e) => {
                let ghost before = out@.map_values(|e: EpgEvent| e@);
                out.push(e);
                assert(out@.map_values(|e: EpgEvent| e@) =~= before.push(e@));
            },
            Err(_) => {
                proof {
                    lemma_list_err_events(iv, i as int + 1);
                }
                return Err(());
            },
        }
        i = i + 1;
    }
    assert(iv.take(items.len() as int) =~= iv);
    Ok(out)
}

fn read_epg_response(v: &JsonValue) -> (r: Result<Vec<EpgEvent>, ()>)
    ensures
        match r {
            Ok(es) => epg_response_of(v@) == Ok::<Seq<EpgEventView>, ()>(
                es@.map_values(|e: EpgEvent| e@),
            ),
            Err(_) => epg_response_of(v@) is Err,
        },
{
    if !has_record_shape(v, 0, 1) {
        return Err(());
    }
    match get_array(v, 0, "events") {
        Ok(Some(items)) => read_epg_events(items),
        Ok(None) => {
            let e: Vec<EpgEvent> = Vec::new();
            assert(e@.map_values(|e: EpgEvent| e@) =~= Seq::<EpgEventView>::empty());
            Ok(e)
        },
        Err(_) => Err(()),
    }
}

/// Why a receiver answer could not be read.
pub open spec fn shape_error() -> Seq<char> {
    "unexpected JSON structure"@
}

fn shape_error_message() -> (r: String)
    ensures
        r@ == shape_error(),
{
    "unexpected JSON structure".to_owned()
}

/// Reads the answer of `/api/getallservices`. The error is `serde_json`'s
/// message when the text is no JSON, else a note that the records do not
/// have the expected shape.
pub fn parse_services_response(text: &str) -> (r: Result<ServicesResponse, String>)
    ensures
        match r {
            Ok(s) => json_document(text@) matches Ok(d) && services_response_of(d) == Ok::<
                ServicesResponseView,
                (),
            >(s@),
            Err(m) => match json_document(text@) {
                Ok(d) => services_response_of(d) is Err && m@ == shape_error(),
                Err(e) => m@ == e,
            },
        },
{
    match parse_json(text) {
        Ok(v) => match read_services_response(&v) {
            Ok(s) => Ok(s),
            Err(_) => Err(shape_error_message()),
        },
        Err(e) => Err(e),
    }
}

/// Reads the events of an `/api/epgnow` or `/api/epgservice` answer; errors
/// as for `parse_services_response`.
pub fn parse_epg_response(text: &str) -> (r: Result<Vec<EpgEvent>, String>)
    ensures
        match r {
            Ok(es) => json_document(text@) matches Ok(d) && epg_response_of(d) == Ok::<
                Seq<EpgEventView>,
                (),
            >(es@.map_values(|e: EpgEvent| e@)),
            Err(m) => match json_document(text@) {
                Ok(d) => epg_response_of(d) is Err && m@ == shape_error(),
                Err(e) => m@ == e,
            },
        },
{
    match parse_json(text) {
        Ok(v) => match read_epg_response(&v) {
            Ok(es) => Ok(es),
            Err(_) => Err(shape_error_message()),
        },
        Err(e) => Err(e),
    }
}

} // verus!
