//! The receiver client: base URL, short-lived caches of the service list and
//! of EPG answers, and the HTTP requests behind them.
//!
//! The client state sits behind a mutex that all clones share. Each request
//! decides from the state, asks the injected HTTP getter, reads the answer
//! with the verified readers of `json`, and records the result in the state.
use crate::enigma2::json::{
    epg_response_of, json_document, parse_epg_response, parse_services_response,
    services_response_of, shape_error,
};
use crate::enigma2::model::{
    attach_epg, bouquet_from_api, bouquet_with_events, events_view, ApiBouquetView, Bouquet,
    BouquetView, EpgEvent, EpgEventView,
};
use crate::enigma2::urls::{
    epg_now_url, epg_service_url, extract_stream_url, first_playable, normalize_base_url,
    normalized_base, normalized_base_is_clean, query_value, services_url, stream_m3u_url,
};
use crate::text::{is_blank, is_ws, lines, trim};
use std::sync::{Arc, Mutex, MutexGuard};
use std::time::Instant;
use vstd::prelude::*;

verus! {

/// Seconds for which a fetched service list is reused.
pub const SERVICES_CACHE_TTL_SECS: u64 = 60;

/// Seconds for which a fetched EPG answer is reused.
pub const EPG_CACHE_TTL_SECS: u64 = 90;

/// What went wrong with a receiver request.
#[derive(Debug)]
pub enum Enigma2Error {
    MissingSettings(String),
    Http(String),
    Json(String),
    InvalidResponse(String),
}

impl Enigma2Error {
    /// The message the error carries, as it is shown to the user.
    pub fn message(&self) -> (r: String)
        ensures
            r@ == error_message(*self),
    {
        match self {
            Enigma2Error::MissingSettings(m) => m.clone(),
            Enigma2Error::Http(m) => m.clone(),
            Enigma2Error::Json(m) => m.clone(),
            Enigma2Error::InvalidResponse(m) => m.clone(),
        }
    }
}

pub open spec fn error_message(e: Enigma2Error) -> Seq<char> {
    match e {
        Enigma2Error::MissingSettings(m) => m@,
        Enigma2Error::Http(m) => m@,
        Enigma2Error::Json(m) => m@,
        Enigma2Error::InvalidResponse(m) => m@,
    }
}

pub open spec fn missing_settings_message() -> Seq<char> {
    "Dreambox URL is not configured in settings"@
}

pub open spec fn services_refused_message() -> Seq<char> {
    "Dreambox did not accept getallservices"@
}

pub open spec fn bouquet_not_found_message() -> Seq<char> {
    "Bouquet not found"@
}

pub open spec fn no_stream_message() -> Seq<char> {
    "Dreambox stream playlist did not contain a URL"@
}

fn missing_settings() -> (e: Enigma2Error)
    ensures
        e matches Enigma2Error::MissingSettings(m) && m@ == missing_settings_message(),
{
    Enigma2Error::MissingSettings("Dreambox URL is not configured in settings".to_owned())
}

/// A bouquet that the player lists: a name that is not blank, and channels.
pub open spec fn is_listed(b: BouquetView) -> bool {
    trim(b.name).len() > 0 && b.channels.len() > 0
}

/// The bouquets of a service list, in order, without those not listed.
pub open spec fn listed_bouquets(services: Seq<ApiBouquetView>) -> Seq<BouquetView>
    decreases services.len(),
{
    if services.len() == 0 {
        seq![]
    } else {
        let b = bouquet_from_api(services.last());
        let rest = listed_bouquets(services.drop_last());
        if is_listed(b) {
            rest.push(b)
        } else {
            rest
        }
    }
}

pub open spec fn bouquets_view(bs: Seq<Bouquet>) -> Seq<BouquetView> {
    bs.map_values(|b: Bouquet| b@)
}

/// Every bouquet of the list is listed.
pub open spec fn all_listed(bs: Seq<BouquetView>) -> bool {
    forall|i: int| 0 <= i < bs.len() ==> #[trigger] is_listed(bs[i])
}

/// What an answer to `/api/getallservices` gives: the listed bouquets when
/// the receiver accepted the request; a JSON error (with `serde_json`'s
/// message or a note on the shape) when the text is not a valid answer.
pub open spec fn services_outcome(body: Seq<char>) -> Result<Seq<BouquetView>, Enigma2ErrorKind> {
    match json_document(body) {
        Err(m) => Err(Enigma2ErrorKind::Json(m)),
        Ok(d) => match services_response_of(d) {
            Err(_) => Err(Enigma2ErrorKind::Json(shape_error())),
            Ok(sr) => if sr.result {
                Ok(listed_bouquets(sr.services))
            } else {
                Err(Enigma2ErrorKind::InvalidResponse(services_refused_message()))
            },
        },
    }
}

/// What an EPG answer gives: its events, or a JSON error.
pub open spec fn events_outcome(body: Seq<char>) -> Result<Seq<EpgEventView>, Enigma2ErrorKind> {
    match json_document(body) {
        Err(m) => Err(Enigma2ErrorKind::Json(m)),
        Ok(d) => match epg_response_of(d) {
            Err(_) => Err(Enigma2ErrorKind::Json(shape_error())),
            Ok(es) => Ok(es),
        },
    }
}

/// What a stream playlist gives: its first playable line.
pub open spec fn stream_outcome(body: Seq<char>) -> Result<Seq<char>, Enigma2ErrorKind> {
    match first_playable(lines(body)) {
        Some(u) => Ok(u),
        None => Err(Enigma2ErrorKind::InvalidResponse(no_stream_message())),
    }
}

/// `bs` are the listed bouquets of some answer to `/api/getallservices`.
pub open spec fn answered_services(bs: Seq<BouquetView>) -> bool {
    exists|body: Seq<char>| services_outcome(body) == Ok::<Seq<BouquetView>, Enigma2ErrorKind>(bs)
}

/// `es` are the events of some EPG answer.
pub open spec fn answered_events(es: Seq<EpgEventView>) -> bool {
    exists|body: Seq<char>| events_outcome(body) == Ok::<Seq<EpgEventView>, Enigma2ErrorKind>(es)
}

/// Every entry of an EPG cache holds the events of some answer.
pub open spec fn answered_cache(cache: Seq<CacheEntry>) -> bool {
    forall|k: Seq<char>|
        #[trigger] cache_entry(cache, k) matches Some(e) ==> answered_events(e.0)
}

/// An error as a value of specs: its kind and message.
pub enum Enigma2ErrorKind {
    MissingSettings(Seq<char>),
    Http(Seq<char>),
    Json(Seq<char>),
    InvalidResponse(Seq<char>),
}

/// The message an error of kind `k` carries.
pub open spec fn kind_message(k: Enigma2ErrorKind) -> Seq<char> {
    match k {
        Enigma2ErrorKind::MissingSettings(m) => m,
        Enigma2ErrorKind::Http(m) => m,
        Enigma2ErrorKind::Json(m) => m,
        Enigma2ErrorKind::InvalidResponse(m) => m,
    }
}

pub open spec fn error_kind(e: Enigma2Error) -> Enigma2ErrorKind {
    match e {
        Enigma2Error::MissingSettings(m) => Enigma2ErrorKind::MissingSettings(m@),
        Enigma2Error::Http(m) => Enigma2ErrorKind::Http(m@),
        Enigma2Error::Json(m) => Enigma2ErrorKind::Json(m@),
        Enigma2Error::InvalidResponse(m) => Enigma2ErrorKind::InvalidResponse(m@),
    }
}

/// The bouquets after fetching the service list: a failed fetch passes its
/// error on, a fetched answer gives `services_outcome`.
pub open spec fn services_after_fetch(fetched: Result<Seq<char>, Enigma2ErrorKind>) -> Result<
    Seq<BouquetView>,
    Enigma2ErrorKind,
> {
    match fetched {
        Err(e) => Err(e),
        Ok(body) => services_outcome(body),
    }
}

/// The events after fetching an EPG answer.
pub open spec fn events_after_fetch(fetched: Result<Seq<char>, Enigma2ErrorKind>) -> Result<
    Seq<EpgEventView>,
    Enigma2ErrorKind,
> {
    match fetched {
        Err(e) => Err(e),
        Ok(body) => events_outcome(body),
    }
}

/// The stream address after fetching a playlist.
pub open spec fn stream_after_fetch(fetched: Result<Seq<char>, Enigma2ErrorKind>) -> Result<
    Seq<char>,
    Enigma2ErrorKind,
> {
    match fetched {
        Err(e) => Err(e),
        Ok(body) => stream_outcome(body),
    }
}

pub open spec fn outcome_of<T, V>(r: Result<T, Enigma2Error>, view: spec_fn(T) -> V) -> Result<
    V,
    Enigma2ErrorKind,
> {
    match r {
        Ok(v) => Ok(view(v)),
        Err(e) => Err(error_kind(e)),
    }
}

fn listed_from(services: Vec<crate::enigma2::model::ApiBouquet>) -> (r: Vec<Bouquet>)
    ensures
        bouquets_view(r@) == listed_bouquets(
            services@.map_values(|b: crate::enigma2::model::ApiBouquet| b@),
        ),
{
    let ghost sv = services@.map_values(|b: crate::enigma2::model::ApiBouquet| b@);
    let mut out: Vec<Bouquet> = Vec::new();
    assert(bouquets_view(out@) =~= listed_bouquets(sv.take(0)));
    for b in it: services.into_iter()
        invariant
            sv == it.seq().map_values(|b: crate::enigma2::model::ApiBouquet| b@),
            bouquets_view(out@) == listed_bouquets(sv.take(it.index() as int)),
    {
        let ghost before = bouquets_view(out@);
        let ghost i = it.index() as int;
        assert(sv.take(i + 1).drop_last() =~= sv.take(i));
        assert(sv.take(i + 1).last() == b@);
        let bouquet = Bouquet::from_api(b);
        if !is_blank(bouquet.name.as_str()) && bouquet.channels.len() > 0 {
            out.push(bouquet);
            assert(bouquets_view(out@) =~= before.push(bouquet@));
        }
    }
    assert(sv.take(sv.len() as int) =~= sv);
    out
}

/// The bouquets listed by an answer to `/api/getallservices`.
pub fn bouquets_from_body(body: &str) -> (r: Result<Vec<Bouquet>, Enigma2Error>)
    ensures
        outcome_of(r, |v: Vec<Bouquet>| bouquets_view(v@)) == services_outcome(body@),
{
    match parse_services_response(body) {
        Err(m) => Err(Enigma2Error::Json(m)),
        Ok(sr) => {
            if !sr.result {
                return Err(
                    Enigma2Error::InvalidResponse(
                        "Dreambox did not accept getallservices".to_owned(),
                    ),
                );
            }
            Ok(listed_from(sr.services))
        },
    }
}

/// The events of an EPG answer.
pub fn events_from_body(body: &str) -> (r: Result<Vec<EpgEvent>, Enigma2Error>)
    ensures
        outcome_of(r, |v: Vec<EpgEvent>| events_view(v@)) == events_outcome(body@),
{
    match parse_epg_response(body) {
        Err(m) => Err(Enigma2Error::Json(m)),
        Ok(es) => Ok(es),
    }
}

/// The stream address in a playlist answer.
pub fn stream_url_from_body(body: &str) -> (r: Result<String, Enigma2Error>)
    ensures
        outcome_of(r, |s: String| s@) == stream_outcome(body@),
{
    match extract_stream_url(body) {
        Some(u) => Ok(u),
        None => Err(
            Enigma2Error::InvalidResponse(
                "Dreambox stream playlist did not contain a URL".to_owned(),
            ),
        ),
    }
}

/// A list of bouquets that are all listed.
pub struct BouquetList {
    items: Vec<Bouquet>,
}

impl BouquetList {
    #[verifier::type_invariant]
    spec fn inv(self) -> bool {
        all_listed(bouquets_view(self.items@))
    }

    pub closed spec fn view_items(self) -> Seq<BouquetView> {
        bouquets_view(self.items@)
    }

    /// The list of `items` when every one of them is listed, else `None`.
    pub fn new(items: Vec<Bouquet>) -> (r: Option<BouquetList>)
        ensures
            match r {
                Some(l) => l.view_items() == bouquets_view(items@),
                None => !all_listed(bouquets_view(items@)),
            },
    {
        let mut i: usize = 0;
        while i < items.len()
            invariant
                i <= items.len(),
                forall|j: int| 0 <= j < i ==> #[trigger] is_listed(bouquets_view(items@)[j]),
            decreases items.len() - i,
        {
            if is_blank(items[i].name.as_str()) || items[i].channels.len() == 0 {
                assert(!is_listed(bouquets_view(items@)[i as int]));
                return None;
            }
            i = i + 1;
        }
        Some(BouquetList { items })
    }

    /// A copy of the bouquets.
    pub fn to_vec(&self) -> (r: Vec<Bouquet>)
        ensures
            bouquets_view(r@) == self.view_items(),
            all_listed(bouquets_view(r@)),
    {
        proof {
            use_type_invariant(self);
        }
        let r = self.items.clone();
        assert(bouquets_view(r@) =~= bouquets_view(self.items@)) by {
            assert forall|i: int| 0 <= i < r@.len() implies r@[i]@ == self.items@[i]@ by {
                assert(vstd::pervasive::cloned::<Bouquet>(self.items@[i], r@[i]));
            }
        }
        r
    }
}

/// A reused answer and when it was fetched.
pub struct CacheEntry {
    pub key: String,
    pub events: Vec<EpgEvent>,
    pub fetched_at: Instant,
}

/// The events cached for `key` and when they were fetched, if any; a later
/// entry for a key hides an earlier one.
pub open spec fn cache_entry(cache: Seq<CacheEntry>, key: Seq<char>) -> Option<
    (Seq<EpgEventView>, Instant),
>
    decreases cache.len(),
{
    if cache.len() == 0 {
        None
    } else if cache.last().key@ == key {
        Some((events_view(cache.last().events@), cache.last().fetched_at))
    } else {
        cache_entry(cache.drop_last(), key)
    }
}

/// Both caches hold the same entry for every key.
pub open spec fn same_entries(a: Seq<CacheEntry>, b: Seq<CacheEntry>) -> bool {
    forall|k: Seq<char>| #[trigger] cache_entry(a, k) == cache_entry(b, k)
}

/// State shared by the clones of a client: the receiver's base URL and the
/// cached answers.
pub struct ClientState {
    pub(crate) base_url: String,
    pub(crate) services_cache: Option<(BouquetList, Instant)>,
    pub(crate) epg_cache: Vec<CacheEntry>,
    pub(crate) service_epg_cache: Vec<CacheEntry>,
}

/// A base URL as normalizing leaves it: empty, or neither beginning with
/// white space nor ending with a slash.
pub open spec fn clean_base(u: Seq<char>) -> bool {
    u.len() == 0 || (u.last() != '/' && !is_ws(u[0]))
}

/// The bouquets cached in `s` and when they were fetched.
pub closed spec fn services_entry(s: ClientState) -> Option<(Seq<BouquetView>, Instant)> {
    match s.services_cache {
        Some((l, t)) => Some((l.view_items(), t)),
        None => None,
    }
}

/// The EPG cache of `s` for one service (`epgservice`) or for a bouquet
/// (`epgnow`).
pub closed spec fn epg_cache_of(s: ClientState, per_service: bool) -> Seq<CacheEntry> {
    if per_service {
        s.service_epg_cache@
    } else {
        s.epg_cache@
    }
}

/// Nothing is cached in `s`.
pub open spec fn nothing_cached(s: ClientState) -> bool {
    &&& services_entry(s) is None
    &&& epg_cache_of(s, false).len() == 0
    &&& epg_cache_of(s, true).len() == 0
}

/// What a request does next: reuse a cached answer, fail for want of a
/// base URL, or ask the receiver at a URL.
pub enum Step<T> {
    Cached(T),
    Missing,
    Fetch(String),
}

/// A `Step` as a value of specs.
pub enum StepView<T> {
    Cached(T),
    Missing,
    Fetch(Seq<char>),
}

/// `r` is the step `v`, its cached value seen through `view`.
pub open spec fn step_is<T, V>(r: Step<T>, v: StepView<V>, view: spec_fn(T) -> V) -> bool {
    match (r, v) {
        (Step::Cached(x), StepView::Cached(y)) => view(x) == y,
        (Step::Missing, StepView::Missing) => true,
        (Step::Fetch(u), StepView::Fetch(w)) => u@ == w,
        _ => false,
    }
}

/// An answer fetched `age` whole seconds ago (none when nothing is cached)
/// is reused while it is younger than `ttl`.
pub open spec fn fresh(age: Option<u64>, ttl: u64) -> bool {
    age matches Some(a) && a < ttl
}

/// What a service-list request on state `s` does, the cached list being
/// `age` seconds old: reuse a fresh list; else fail when the base URL is
/// blank; else ask for `/api/getallservices`.
pub open spec fn services_step_of(s: ClientState, age: Option<u64>) -> StepView<Seq<BouquetView>> {
    if services_entry(s) is Some && fresh(age, SERVICES_CACHE_TTL_SECS) {
        StepView::Cached(services_entry(s).unwrap().0)
    } else if trim(s.base()).len() == 0 {
        StepView::Missing
    } else {
        StepView::Fetch(normalized_base(s.base()) + "/api/getallservices"@)
    }
}

/// The URL of an EPG request: `/api/epgservice?sRef=` for one service,
/// `/api/epgnow?bRef=` for a bouquet, the key form-encoded.
pub open spec fn epg_request_url(base: Seq<char>, per_service: bool, key: Seq<char>) -> Seq<char> {
    if per_service {
        normalized_base(base) + "/api/epgservice?sRef="@ + query_value(key)
    } else {
        normalized_base(base) + "/api/epgnow?bRef="@ + query_value(key)
    }
}

/// What an EPG request for `key` on state `s` does, the cached answer for
/// `key` being `age` seconds old: reuse a fresh answer; else fail when the
/// base URL is blank; else ask the receiver.
pub open spec fn epg_step_of(s: ClientState, per_service: bool, key: Seq<char>, age: Option<u64>) -> StepView<
    Seq<EpgEventView>,
> {
    let entry = cache_entry(epg_cache_of(s, per_service), key);
    if entry is Some && fresh(age, EPG_CACHE_TTL_SECS) {
        StepView::Cached(entry.unwrap().0)
    } else if trim(s.base()).len() == 0 {
        StepView::Missing
    } else {
        StepView::Fetch(epg_request_url(s.base(), per_service, key))
    }
}

/// The missing-settings error as a value of specs.
pub open spec fn missing_settings_kind() -> Enigma2ErrorKind {
    Enigma2ErrorKind::MissingSettings(missing_settings_message())
}

/// What a service-list request on state `s` with getter `g` may give: the
/// cached list, the missing-settings error without a request, or what the
/// getter's answer for the service-list URL gives.
pub open spec fn services_request_outcome<G: Fn(&str) -> Result<String, Enigma2Error>>(
    g: G,
    s: ClientState,
    age: Option<u64>,
    o: Result<Seq<BouquetView>, Enigma2ErrorKind>,
) -> bool {
    match services_step_of(s, age) {
        StepView::Cached(bs) => o == Ok::<Seq<BouquetView>, Enigma2ErrorKind>(bs),
        StepView::Missing => o == Err::<Seq<BouquetView>, Enigma2ErrorKind>(missing_settings_kind()),
        StepView::Fetch(url) => exists|a: Result<String, Enigma2Error>|
            #[trigger] may_answer(g, url, a) && o == services_after_fetch(answer_outcome(a)),
    }
}

/// What an EPG request for `key` on state `s` with getter `g` may give.
pub open spec fn epg_request_outcome<G: Fn(&str) -> Result<String, Enigma2Error>>(
    g: G,
    s: ClientState,
    per_service: bool,
    key: Seq<char>,
    age: Option<u64>,
    o: Result<Seq<EpgEventView>, Enigma2ErrorKind>,
) -> bool {
    match epg_step_of(s, per_service, key, age) {
        StepView::Cached(es) => o == Ok::<Seq<EpgEventView>, Enigma2ErrorKind>(es),
        StepView::Missing => o == Err::<Seq<EpgEventView>, Enigma2ErrorKind>(missing_settings_kind()),
        StepView::Fetch(url) => exists|a: Result<String, Enigma2Error>|
            #[trigger] may_answer(g, url, a) && o == events_after_fetch(answer_outcome(a)),
    }
}

/// What the service-list request of a client with getter `g` may give, in
/// whatever state the shared client is and however old its cache is.
pub open spec fn services_outcome_for<G: Fn(&str) -> Result<String, Enigma2Error>>(
    g: G,
    o: Result<Seq<BouquetView>, Enigma2ErrorKind>,
) -> bool {
    exists|s: ClientState, age: Option<u64>| #[trigger] services_request_outcome(g, s, age, o)
}

/// What an EPG request for `key` of a client with getter `g` may give.
pub open spec fn epg_outcome_for<G: Fn(&str) -> Result<String, Enigma2Error>>(
    g: G,
    per_service: bool,
    key: Seq<char>,
    o: Result<Seq<EpgEventView>, Enigma2ErrorKind>,
) -> bool {
    exists|s: ClientState, age: Option<u64>|
        #[trigger] epg_request_outcome(g, s, per_service, key, age, o)
}

/// What asking for the bouquet at `index` gives once the service list is
/// `listed`: its error; "Bouquet not found" past the list; else what the
/// bouquet's `epgnow` request gives, its events attached to the bouquet.
pub open spec fn bouquet_epg_outcome<G: Fn(&str) -> Result<String, Enigma2Error>>(
    g: G,
    index: usize,
    listed: Result<Seq<BouquetView>, Enigma2ErrorKind>,
    o: Result<BouquetView, Enigma2ErrorKind>,
) -> bool {
    match listed {
        Err(k) => o == Err::<BouquetView, Enigma2ErrorKind>(k),
        Ok(bs) => if index >= bs.len() {
            o == Err::<BouquetView, Enigma2ErrorKind>(
                Enigma2ErrorKind::InvalidResponse(bouquet_not_found_message()),
            )
        } else {
            exists|eo: Result<Seq<EpgEventView>, Enigma2ErrorKind>|
                #[trigger] epg_outcome_for(g, false, bs[index as int].service_ref, eo) && o
                    == match eo {
                    Err(k) => Err::<BouquetView, Enigma2ErrorKind>(k),
                    Ok(es) => Ok::<BouquetView, Enigma2ErrorKind>(
                        bouquet_with_events(bs[index as int], es),
                    ),
                }
        },
    }
}

/// A service list recorded in a state is given back while it is younger
/// than `SERVICES_CACHE_TTL_SECS`; after that the receiver is asked again
/// (or, with a blank base URL, the missing-settings error comes).
pub proof fn recorded_services_are_reused(
    s: ClientState,
    list: Seq<BouquetView>,
    at: Instant,
    age: u64,
)
    requires
        services_entry(s) == Some((list, at)),
    ensures
        services_step_of(s, Some(age)) == if age < SERVICES_CACHE_TTL_SECS {
            StepView::Cached(list)
        } else if trim(s.base()).len() == 0 {
            StepView::<Seq<BouquetView>>::Missing
        } else {
            StepView::Fetch(normalized_base(s.base()) + "/api/getallservices"@)
        },
{
}

/// The events recorded for a key are given back for that key while they
/// are younger than `EPG_CACHE_TTL_SECS`; after that the receiver is asked
/// again (or, with a blank base URL, the missing-settings error comes).
pub proof fn recorded_events_are_reused(
    s: ClientState,
    per_service: bool,
    key: Seq<char>,
    events: Seq<EpgEventView>,
    at: Instant,
    age: u64,
)
    requires
        cache_entry(epg_cache_of(s, per_service), key) == Some((events, at)),
    ensures
        epg_step_of(s, per_service, key, Some(age)) == if age < EPG_CACHE_TTL_SECS {
            StepView::Cached(events)
        } else if trim(s.base()).len() == 0 {
            StepView::<Seq<EpgEventView>>::Missing
        } else {
            StepView::Fetch(epg_request_url(s.base(), per_service, key))
        },
{
}

/// A state with nothing cached reuses nothing: every request asks the
/// receiver, or fails for want of a base URL.
pub proof fn empty_state_reuses_nothing(
    s: ClientState,
    per_service: bool,
    key: Seq<char>,
    age: Option<u64>,
)
    requires
        nothing_cached(s),
    ensures
        !(services_step_of(s, age) is Cached),
        !(epg_step_of(s, per_service, key, age) is Cached),
{
    assert(cache_entry(epg_cache_of(s, per_service), key) is None);
}

/// The bouquet at `index`, or "Bouquet not found" past the end of `bs`.
pub fn bouquet_at(bs: Vec<Bouquet>, index: usize) -> (r: Result<Bouquet, Enigma2Error>)
    ensures
        match r {
            Ok(b) => index < bs.len() && b@ == bs@[index as int]@,
            Err(e) => index >= bs.len() && (e matches Enigma2Error::InvalidResponse(m) && m@
                == bouquet_not_found_message()),
        },
{
    if index >= bs.len() {
        return Err(Enigma2Error::InvalidResponse("Bouquet not found".to_owned()));
    }
    Ok(bs[index].clone())
}

fn clone_events(es: &Vec<EpgEvent>) -> (r: Vec<EpgEvent>)
    ensures
        events_view(r@) == events_view(es@),
{
    let r = es.clone();
    assert(events_view(r@) =~= events_view(es@)) by {
        assert forall|i: int| 0 <= i < r@.len() implies r@[i]@ == es@[i]@ by {
            assert(vstd::pervasive::cloned::<EpgEvent>(es@[i], r@[i]));
        }
    }
    r
}

fn copy_entry(e: &CacheEntry) -> (r: CacheEntry)
    ensures
        r.key@ == e.key@,
        events_view(r.events@) == events_view(e.events@),
        r.fetched_at == e.fetched_at,
{
    CacheEntry { key: e.key.clone(), events: clone_events(&e.events), fetched_at: e.fetched_at }
}

/// The cache with `events`, fetched at `at`, recorded for `key` in place
/// of what was there.
pub fn cache_with(cache: &Vec<CacheEntry>, key: &str, events: &Vec<EpgEvent>, at: Instant) -> (r:
    Vec<CacheEntry>)
    ensures
        cache_entry(r@, key@) == Some((events_view(events@), at)),
        forall|k: Seq<char>| k != key@ ==> #[trigger] cache_entry(r@, k) == cache_entry(cache@, k),
{
    let k = key.to_owned();
    let mut out: Vec<CacheEntry> = Vec::new();
    let mut i: usize = 0;
    while i < cache.len()
        invariant
            i <= cache.len(),
            k@ == key@,
            forall|kk: Seq<char>| kk != key@ ==> #[trigger] cache_entry(out@, kk) == cache_entry(
                cache@.take(i as int),
                kk,
            ),
            cache_entry(out@, key@) is None,
        decreases cache.len() - i,
    {
        let e = &cache[i];
        let ghost before = out@;
        let ghost prefix = cache@.take(i + 1);
        assert(prefix.drop_last() =~= cache@.take(i as int));
        assert(prefix.last() == cache@[i as int]);
        if e.key != k {
            out.push(copy_entry(e));
            assert(out@.drop_last() =~= before);
            assert forall|kk: Seq<char>| kk != key@ implies #[trigger] cache_entry(out@, kk)
                == cache_entry(prefix, kk) by {
                assert(cache_entry(before, kk) == cache_entry(cache@.take(i as int), kk));
                assert(cache_entry(out@.drop_last(), kk) == cache_entry(before, kk));
            }
            assert(out@.last().key@ != key@);
        } else {
            assert forall|kk: Seq<char>| kk != key@ implies #[trigger] cache_entry(out@, kk)
                == cache_entry(prefix, kk) by {
                assert(prefix.last().key@ == key@);
                assert(cache_entry(prefix, kk) == cache_entry(cache@.take(i as int), kk));
            }
        }
        i = i + 1;
    }
    assert(cache@.take(cache.len() as int) =~= cache@);
    let ghost before = out@;
    out.push(CacheEntry { key: k, events: clone_events(events), fetched_at: at });
    assert(out@.drop_last() =~= before);
    assert forall|kk: Seq<char>| kk != key@ implies #[trigger] cache_entry(out@, kk) == cache_entry(
        cache@,
        kk,
    ) by {
        assert(cache_entry(before, kk) == cache_entry(cache@.take(cache.len() as int), kk));
        assert(cache_entry(out@.drop_last(), kk) == cache_entry(before, kk));
    }
    out
}

/// Index of the entry cached for `key`, if any.
fn find_entry(cache: &Vec<CacheEntry>, key: &str) -> (r: Option<usize>)
    ensures
        match r {
            Some(i) => i < cache.len() && cache_entry(cache@, key@) == Some(
                (events_view(cache@[i as int].events@), cache@[i as int].fetched_at),
            ),
            None => cache_entry(cache@, key@) is None,
        },
{
    let k = key.to_owned();
    let mut j = cache.len();
    assert(cache@.take(j as int) =~= cache@);
    while j > 0
        invariant
            j <= cache.len(),
            k@ == key@,
            cache_entry(cache@, key@) == cache_entry(cache@.take(j as int), key@),
        decreases j,
    {
        assert(cache@.take(j as int).drop_last() =~= cache@.take(j - 1));
        assert(cache@.take(j as int).last() == cache@[j - 1]);
        if cache[j - 1].key == k {
            return Some(j - 1);
        }
        j = j - 1;
    }
    None
}

/// A copy of a cache, with the same entry for every key.
fn copy_cache(cache: &Vec<CacheEntry>) -> (r: Vec<CacheEntry>)
    ensures
        same_entries(r@, cache@),
{
    let mut out: Vec<CacheEntry> = Vec::new();
    let mut i: usize = 0;
    while i < cache.len()
        invariant
            i <= cache.len(),
            same_entries(out@, cache@.take(i as int)),
        decreases cache.len() - i,
    {
        let ghost before = out@;
        let ghost prefix = cache@.take(i + 1);
        assert(prefix.drop_last() =~= cache@.take(i as int));
        assert(prefix.last() == cache@[i as int]);
        out.push(copy_entry(&cache[i]));
        assert(out@.drop_last() =~= before);
        assert forall|kk: Seq<char>| #[trigger] cache_entry(out@, kk) == cache_entry(prefix, kk) by {
            assert(cache_entry(before, kk) == cache_entry(cache@.take(i as int), kk));
            assert(cache_entry(out@.drop_last(), kk) == cache_entry(before, kk));
        }
        i = i + 1;
    }
    assert(cache@.take(cache.len() as int) =~= cache@);
    out
}

fn copy_services(c: &Option<(BouquetList, Instant)>) -> (r: Option<(BouquetList, Instant)>)
    ensures
        match (r, *c) {
            (Some(a), Some(b)) => a.0.view_items() == b.0.view_items() && a.1 == b.1,
            (None, None) => true,
            _ => false,
        },
{
    match c {
        Some((l, at)) => {
            let items = l.to_vec();
            match BouquetList::new(items) {
                Some(copy) => Some((copy, *at)),
                None => {
                    assert(false);
                    None
                },
            }
        },
        None => None,
    }
}

impl ClientState {
    #[verifier::type_invariant]
    spec fn inv(self) -> bool {
        &&& clean_base(self.base_url@)
        &&& (services_entry(self) matches Some(e) ==> answered_services(e.0))
        &&& answered_cache(self.epg_cache@)
        &&& answered_cache(self.service_epg_cache@)
    }

    /// The receiver's base URL.
    pub closed spec fn base(self) -> Seq<char> {
        self.base_url@
    }

    /// A state for `base_url` with nothing cached.
    pub fn new(base_url: String) -> (r: ClientState)
        requires
            clean_base(base_url@),
        ensures
            r.base() == base_url@,
            nothing_cached(r),
    {
        ClientState {
            base_url,
            services_cache: None,
            epg_cache: Vec::new(),
            service_epg_cache: Vec::new(),
        }
    }

    /// Pointing the client at `base_url`: `None` when the normalized URL is
    /// the current one, and everything is kept; else a state for the new URL
    /// with nothing cached.
    pub fn for_base_url(&self, base_url: &str) -> (r: Option<ClientState>)
        ensures
            match r {
                None => normalized_base(base_url@) == self.base(),
                Some(n) => normalized_base(base_url@) != self.base() && n.base()
                    == normalized_base(base_url@) && nothing_cached(n),
            },
    {
        let normalized = normalize_base_url(base_url);
        proof {
            normalized_base_is_clean(base_url@);
        }
        if self.base_url == normalized {
            None
        } else {
            Some(ClientState::new(normalized))
        }
    }

    /// The same base URL with nothing cached.
    pub fn cleared(&self) -> (r: ClientState)
        ensures
            r.base() == self.base(),
            nothing_cached(r),
    {
        proof {
            use_type_invariant(self);
        }
        ClientState::new(self.base_url.clone())
    }

    /// The receiver's base URL, which is always clean.
    pub fn base_url(&self) -> (r: String)
        ensures
            r@ == self.base(),
            clean_base(r@),
    {
        proof {
            use_type_invariant(self);
        }
        self.base_url.clone()
    }

    /// The cached bouquets and when they were fetched.
    pub fn cached_services(&self) -> (r: Option<(Vec<Bouquet>, Instant)>)
        ensures
            match r {
                Some((v, t)) => services_entry(*self) == Some((bouquets_view(v@), t)) && all_listed(
                    bouquets_view(v@),
                ) && answered_services(bouquets_view(v@)),
                None => services_entry(*self) is None,
            },
    {
        proof {
            use_type_invariant(self);
        }
        match &self.services_cache {
            Some((list, at)) => Some((list.to_vec(), *at)),
            None => None,
        }
    }

    /// The events cached for `key` and when they were fetched.
    pub fn cached_epg(&self, per_service: bool, key: &str) -> (r: Option<(Vec<EpgEvent>, Instant)>)
        ensures
            match r {
                Some((v, t)) => cache_entry(epg_cache_of(*self, per_service), key@) == Some(
                    (events_view(v@), t),
                ) && answered_events(events_view(v@)),
                None => cache_entry(epg_cache_of(*self, per_service), key@) is None,
            },
    {
        proof {
            use_type_invariant(self);
            assert(cache_entry(epg_cache_of(*self, per_service), key@) matches Some(e)
                ==> answered_events(e.0));
        }
        let cache = if per_service {
            &self.service_epg_cache
        } else {
            &self.epg_cache
        };
        match find_entry(cache, key) {
            Some(i) => Some((clone_events(&cache[i].events), cache[i].fetched_at)),
            None => None,
        }
    }

    /// When the cached bouquets were fetched, if any are cached.
    pub fn services_fetched_at(&self) -> (r: Option<Instant>)
        ensures
            match services_entry(*self) {
                Some(e) => r == Some(e.1),
                None => r is None,
            },
    {
        match &self.services_cache {
            Some((_, at)) => Some(*at),
            None => None,
        }
    }

    /// What a service-list request does next, the cached list being `age`
    /// whole seconds old.
    pub fn services_step(&self, age: Option<u64>) -> (r: Step<Vec<Bouquet>>)
        ensures
            step_is(r, services_step_of(*self, age), |v: Vec<Bouquet>| bouquets_view(v@)),
            r matches Step::Cached(v) ==> all_listed(bouquets_view(v@)) && answered_services(
                bouquets_view(v@),
            ),
    {
        proof {
            use_type_invariant(self);
        }
        if let Some((list, _)) = &self.services_cache {
            if let Some(a) = age {
                if a < SERVICES_CACHE_TTL_SECS {
                    return Step::Cached(list.to_vec());
                }
            }
        }
        if is_blank(self.base_url.as_str()) {
            return Step::Missing;
        }
        Step::Fetch(services_url(self.base_url.as_str()))
    }

    /// When the events cached for `key` were fetched, if any are cached.
    pub fn epg_fetched_at(&self, per_service: bool, key: &str) -> (r: Option<Instant>)
        ensures
            match cache_entry(epg_cache_of(*self, per_service), key@) {
                Some(e) => r == Some(e.1),
                None => r is None,
            },
    {
        let cache = if per_service {
            &self.service_epg_cache
        } else {
            &self.epg_cache
        };
        match find_entry(cache, key) {
            Some(i) => Some(cache[i].fetched_at),
            None => None,
        }
    }

    /// What an EPG request for `key` does next, the cached answer for it
    /// being `age` whole seconds old.
    pub fn epg_step(&self, per_service: bool, key: &str, age: Option<u64>) -> (r: Step<
        Vec<EpgEvent>,
    >)
        ensures
            step_is(r, epg_step_of(*self, per_service, key@, age), |v: Vec<EpgEvent>| events_view(v@)),
            r matches Step::Cached(v) ==> answered_events(events_view(v@)),
    {
        if let Some(a) = age {
            if a < EPG_CACHE_TTL_SECS {
                if let Some((events, _)) = self.cached_epg(per_service, key) {
                    return Step::Cached(events);
                }
            }
        }
        if is_blank(self.base_url.as_str()) {
            return Step::Missing;
        }
        if per_service {
            Step::Fetch(epg_service_url(self.base_url.as_str(), key))
        } else {
            Step::Fetch(epg_now_url(self.base_url.as_str(), key))
        }
    }

    /// Records a service list fetched from `fetched_for` at `at`: the new
    /// state, with the list cached and the EPG caches kept, when the client
    /// still points at that URL; else `None`, and nothing is recorded.
    pub fn with_services(&self, fetched_for: &str, list: BouquetList, at: Instant) -> (r: Option<
        ClientState,
    >)
        requires
            answered_services(list.view_items()),
        ensures
            match r {
                Some(n) => fetched_for@ == self.base() && n.base() == self.base()
                    && services_entry(n) == Some((list.view_items(), at)) && same_entries(
                    epg_cache_of(n, false),
                    epg_cache_of(*self, false),
                ) && same_entries(epg_cache_of(n, true), epg_cache_of(*self, true)),
                None => fetched_for@ != self.base(),
            },
    {
        if self.base_url != fetched_for.to_owned() {
            return None;
        }
        proof {
            use_type_invariant(self);
        }
        let epg_cache = copy_cache(&self.epg_cache);
        let service_epg_cache = copy_cache(&self.service_epg_cache);
        proof {
            lemma_answered_same(epg_cache@, self.epg_cache@);
            lemma_answered_same(service_epg_cache@, self.service_epg_cache@);
        }
        Some(
            ClientState {
                base_url: self.base_url.clone(),
                services_cache: Some((list, at)),
                epg_cache,
                service_epg_cache,
            },
        )
    }

    /// Records EPG events for `key` fetched from `fetched_for` at `at`: the
    /// new state, with the events cached for `key` and everything else
    /// kept, when the client still points at that URL; else `None`.
    pub fn with_epg(
        &self,
        fetched_for: &str,
        per_service: bool,
        key: &str,
        events: &Vec<EpgEvent>,
        at: Instant,
    ) -> (r: Option<ClientState>)
        requires
            answered_events(events_view(events@)),
        ensures
            match r {
                Some(n) => {
                    &&& fetched_for@ == self.base()
                    &&& n.base() == self.base()
                    &&& services_entry(n) == services_entry(*self)
                    &&& cache_entry(epg_cache_of(n, per_service), key@) == Some(
                        (events_view(events@), at),
                    )
                    &&& forall|k: Seq<char>|
                        k != key@ ==> #[trigger] cache_entry(epg_cache_of(n, per_service), k)
                            == cache_entry(epg_cache_of(*self, per_service), k)
                    &&& same_entries(
                        epg_cache_of(n, !per_service),
                        epg_cache_of(*self, !per_service),
                    )
                },
                None => fetched_for@ != self.base(),
            },
    {
        if self.base_url != fetched_for.to_owned() {
            return None;
        }
        proof {
            use_type_invariant(self);
        }
        let services_cache = copy_services(&self.services_cache);
        if per_service {
            let epg_cache = copy_cache(&self.epg_cache);
            let service_epg_cache = cache_with(&self.service_epg_cache, key, events, at);
            proof {
                lemma_answered_same(epg_cache@, self.epg_cache@);
                lemma_answered_with(service_epg_cache@, self.service_epg_cache@, key@);
            }
            Some(
                ClientState {
                    base_url: self.base_url.clone(),
                    services_cache,
                    epg_cache,
                    service_epg_cache,
                },
            )
        } else {
            let epg_cache = cache_with(&self.epg_cache, key, events, at);
            let service_epg_cache = copy_cache(&self.service_epg_cache);
            proof {
                lemma_answered_with(epg_cache@, self.epg_cache@, key@);
                lemma_answered_same(service_epg_cache@, self.service_epg_cache@);
            }
            Some(
                ClientState {
                    base_url: self.base_url.clone(),
                    services_cache,
                    epg_cache,
                    service_epg_cache,
                },
            )
        }
    }
}

proof fn lemma_answered_same(a: Seq<CacheEntry>, b: Seq<CacheEntry>)
    requires
        same_entries(a, b),
        answered_cache(b),
    ensures
        answered_cache(a),
{
    assert forall|k: Seq<char>| #[trigger] cache_entry(a, k) is Some implies answered_events(
        cache_entry(a, k).unwrap().0,
    ) by {
        assert(cache_entry(a, k) == cache_entry(b, k));
    }
}

proof fn lemma_answered_with(a: Seq<CacheEntry>, b: Seq<CacheEntry>, key: Seq<char>)
    requires
        cache_entry(a, key) matches Some(e) && answered_events(e.0),
        forall|k: Seq<char>| k != key ==> #[trigger] cache_entry(a, k) == cache_entry(b, k),
        answered_cache(b),
    ensures
        answered_cache(a),
{
    assert forall|k: Seq<char>| #[trigger] cache_entry(a, k) is Some implies answered_events(
        cache_entry(a, k).unwrap().0,
    ) by {
        if k != key {
            assert(cache_entry(a, k) == cache_entry(b, k));
        }
    }
}

#[verifier::external_type_specification]
#[verifier::external_body]
#[verifier::reject_recursive_types(T)]
pub struct ExMutex<T: ?Sized>(Mutex<T>);

#[verifier::external_type_specification]
#[verifier::external_body]
#[verifier::reject_recursive_types(T)]
pub struct ExMutexGuard<'a, T: ?Sized + 'a>(MutexGuard<'a, T>);

#[verifier::external_type_specification]
#[verifier::external_body]
pub struct ExInstant(Instant);

/// A new mutex holding `s` (`Mutex::new`).
#[verifier::external_body]
fn new_mutex(s: ClientState) -> Mutex<ClientState> {
    Mutex::new(s)
}

/// Locks the shared state (`Mutex::lock`); a poisoned lock panics, as a
/// panic in another holder of the lock left the state unknown.
#[verifier::external_body]
fn lock_state(m: &Mutex<ClientState>) -> MutexGuard<'_, ClientState> {
    m.lock().unwrap()
}

/// The state behind a held lock (`Deref` of the guard).
#[verifier::external_body]
fn guarded<'a, 'b>(g: &'a MutexGuard<'b, ClientState>) -> &'a ClientState {
    g
}

/// Replaces the state behind a held lock (`DerefMut` of the guard).
#[verifier::external_body]
fn store_state(g: &mut MutexGuard<'_, ClientState>, s: ClientState) {
    **g = s;
}

/// The current instant (`Instant::now`).
#[verifier::external_body]
fn now() -> Instant {
    Instant::now()
}

/// Whole seconds passed since `at` (`Instant::elapsed`).
#[verifier::external_body]
fn elapsed_secs(at: &Instant) -> u64 {
    at.elapsed().as_secs()
}

/// Calls the HTTP getter with `url`: the result is what `get` returns for
/// it (`call_ensures`), the receiver's answer or the getter's error.
#[verifier::external_body]
fn fetch<G: Fn(&str) -> Result<String, Enigma2Error>>(get: &G, url: &str) -> (r: Result<
    String,
    Enigma2Error,
>)
    requires
        call_requires(*get, (url,)),
    ensures
        call_ensures(*get, (url,), r),
{
    get(url)
}

/// What the getter's answer is as a value of specs.
pub open spec fn answer_outcome(a: Result<String, Enigma2Error>) -> Result<Seq<char>, Enigma2ErrorKind> {
    match a {
        Ok(b) => Ok(b@),
        Err(e) => Err(error_kind(e)),
    }
}

/// The getter `g`, asked for `url`, may give the answer `a`.
pub open spec fn may_answer<G: Fn(&str) -> Result<String, Enigma2Error>>(
    g: G,
    url: Seq<char>,
    a: Result<String, Enigma2Error>,
) -> bool {
    exists|u: &str| u@ == url && #[trigger] call_ensures(g, (u,), a)
}

/// The playlist request for `service_ref` at a receiver whose base URL is
/// `base`: none when the base URL is blank, else the playlist URL.
pub open spec fn stream_request_of(base: Seq<char>, service_ref: Seq<char>) -> Option<Seq<char>> {
    if trim(base).len() == 0 {
        None
    } else {
        Some(normalized_base(base) + "/web/stream.m3u?ref="@ + query_value(service_ref))
    }
}

/// The missing-settings error, or the playlist URL to ask for.
pub fn stream_request(base: &str, service_ref: &str) -> (r: Result<String, Enigma2Error>)
    ensures
        match stream_request_of(base@, service_ref@) {
            None => r matches Err(Enigma2Error::MissingSettings(m)) && m@
                == missing_settings_message(),
            Some(u) => r matches Ok(s) && s@ == u,
        },
{
    if is_blank(base) {
        return Err(missing_settings());
    }
    Ok(stream_m3u_url(base, service_ref))
}

/// What resolving the stream of `service_ref` with getter `g` may give:
/// for a receiver with a blank base URL the missing-settings error and no
/// request; else the address read from the getter's answer for the
/// playlist URL.
pub open spec fn stream_outcome_for<G: Fn(&str) -> Result<String, Enigma2Error>>(
    g: G,
    service_ref: Seq<char>,
    o: Result<Seq<char>, Enigma2ErrorKind>,
) -> bool {
    exists|base: Seq<char>|
        match #[trigger] stream_request_of(base, service_ref) {
            None => o == Err::<Seq<char>, Enigma2ErrorKind>(
                Enigma2ErrorKind::MissingSettings(missing_settings_message()),
            ),
            Some(url) => exists|a: Result<String, Enigma2Error>|
                #[trigger] may_answer(g, url, a) && o == stream_after_fetch(answer_outcome(a)),
        }
}

/// The getter may be asked for any URL.
pub open spec fn accepts_every_url<G: Fn(&str) -> Result<String, Enigma2Error>>(g: G) -> bool {
    forall|u: &str| #[trigger] call_requires(g, (u,))
}

/// A client of one receiver. Clones share the base URL and the caches.
pub struct Enigma2Client<G: Fn(&str) -> Result<String, Enigma2Error>> {
    state: Arc<Mutex<ClientState>>,
    http_get: Arc<G>,
}

impl<G: Fn(&str) -> Result<String, Enigma2Error>> Enigma2Client<G> {
    #[verifier::type_invariant]
    spec fn getter_inv(self) -> bool {
        accepts_every_url(*self.http_get)
    }

    /// The HTTP getter that the client asks for every answer.
    pub closed spec fn getter(self) -> G {
        *self.http_get
    }
}

impl<G: Fn(&str) -> Result<String, Enigma2Error>> Clone for Enigma2Client<G> {
    fn clone(&self) -> (r: Self)
        ensures
            r.getter() == self.getter(),
    {
        proof {
            use_type_invariant(self);
        }
        Enigma2Client { state: self.state.clone(), http_get: self.http_get.clone() }
    }
}

impl<G: Fn(&str) -> Result<String, Enigma2Error>> Enigma2Client<G> {
    /// A client of the receiver at `base_url` (normalized) that asks
    /// `http_get` for every answer.
    pub fn new_with_http_getter(base_url: &str, http_get: G) -> (r: Self)
        requires
            accepts_every_url(http_get),
        ensures
            r.getter() == http_get,
    {
        proof {
            normalized_base_is_clean(base_url@);
        }
        let state = ClientState::new(normalize_base_url(base_url));
        Enigma2Client { state: Arc::new(new_mutex(state)), http_get: Arc::new(http_get) }
    }

    /// The receiver's base URL: empty, or neither beginning with white
    /// space nor ending with a slash, as normalizing leaves it.
    pub fn base_url(&self) -> (r: String)
        ensures
            clean_base(r@),
    {
        let g = lock_state(&self.state);
        let s = guarded(&g).base_url();
        s
    }

    /// Points the client to another receiver; when the normalized URL
    /// changes, every cache is dropped.
    pub fn set_base_url(&self, base_url: &str) {
        let mut g = lock_state(&self.state);
        let next = guarded(&g).for_base_url(base_url);
        if let Some(next) = next {
            store_state(&mut g, next);
        }
    }

    /// Drops every cached answer.
    pub fn clear_cache(&self) {
        let mut g = lock_state(&self.state);
        let next = guarded(&g).cleared();
        store_state(&mut g, next);
    }

    /// The bouquets of the receiver that have a name and channels, reused
    /// from an answer at most `SERVICES_CACHE_TTL_SECS` old.
    pub fn bouquets(&self) -> (r: Result<Vec<Bouquet>, Enigma2Error>)
        ensures
            services_outcome_for(self.getter(), outcome_of(r, |v: Vec<Bouquet>| bouquets_view(v@))),
            r matches Ok(v) ==> all_listed(bouquets_view(v@)) && answered_services(bouquets_view(v@)),
            outcome_of(r, |v: Vec<Bouquet>| bouquets_view(v@)) == Err::<
                Seq<BouquetView>,
                Enigma2ErrorKind,
            >(missing_settings_kind()) || exists|f: Result<Seq<char>, Enigma2ErrorKind>|
                outcome_of(r, |v: Vec<Bouquet>| bouquets_view(v@)) == #[trigger] services_after_fetch(f),
    {
        let (step, base_url, Ghost(st), Ghost(age)) = {
            let g = lock_state(&self.state);
            let s = guarded(&g);
            let age = match s.services_fetched_at() {
                Some(at) => Some(elapsed_secs(&at)),
                None => None,
            };
            (s.services_step(age), s.base_url(), Ghost(*s), Ghost(age))
        };
        let url = match step {
            Step::Cached(list) => {
                let ghost answer = choose|b: Seq<char>|
                    services_outcome(b) == Ok::<Seq<BouquetView>, Enigma2ErrorKind>(
                        bouquets_view(list@),
                    );
                let r: Result<Vec<Bouquet>, Enigma2Error> = Ok(list);
                assert(outcome_of(r, |v: Vec<Bouquet>| bouquets_view(v@)) == services_after_fetch(
                    Ok::<Seq<char>, Enigma2ErrorKind>(answer),
                ));
                assert(services_request_outcome(
                    self.getter(),
                    st,
                    age,
                    outcome_of(r, |v: Vec<Bouquet>| bouquets_view(v@)),
                ));
                return r;
            },
            Step::Missing => {
                let r: Result<Vec<Bouquet>, Enigma2Error> = Err(missing_settings());
                assert(services_request_outcome(
                    self.getter(),
                    st,
                    age,
                    outcome_of(r, |v: Vec<Bouquet>| bouquets_view(v@)),
                ));
                return r;
            },
            Step::Fetch(url) => url,
        };
        proof {
            use_type_invariant(self);
        }
        let fetched = fetch(&*self.http_get, url.as_str());
        proof {
            assert(may_answer(self.getter(), url@, fetched));
        }
        let body = match fetched {
            Ok(body) => body,
            Err(e) => {
                let r: Result<Vec<Bouquet>, Enigma2Error> = Err(e);
                assert(outcome_of(r, |v: Vec<Bouquet>| bouquets_view(v@)) == services_after_fetch(
                    answer_outcome(fetched),
                ));
                assert(services_request_outcome(
                    self.getter(),
                    st,
                    age,
                    outcome_of(r, |v: Vec<Bouquet>| bouquets_view(v@)),
                ));
                return r;
            },
        };
        let parsed = bouquets_from_body(body.as_str());
        assert(outcome_of(parsed, |v: Vec<Bouquet>| bouquets_view(v@)) == services_after_fetch(
            answer_outcome(fetched),
        ));
        assert(services_request_outcome(
            self.getter(),
            st,
            age,
            outcome_of(parsed, |v: Vec<Bouquet>| bouquets_view(v@)),
        ));
        let bouquets = match parsed {
            Ok(b) => b,
            Err(e) => {
                return Err(e);
            },
        };
        proof {
            lemma_listed_bouquets_are_listed(
                match json_document(body@) {
                    Ok(d) => match services_response_of(d) {
                        Ok(sr) => sr.services,
                        Err(_) => Seq::empty(),
                    },
                    Err(_) => Seq::empty(),
                },
            );
        }
        let copy = match BouquetList::new(clone_bouquets(&bouquets)) {
            Some(l) => l,
            None => {
                assert(false);
                return Ok(bouquets);
            },
        };
        let mut g = lock_state(&self.state);
        let next = guarded(&g).with_services(base_url.as_str(), copy, now());
        if let Some(next) = next {
            store_state(&mut g, next);
        }
        Ok(bouquets)
    }

    /// The bouquet at `bouquet_index`, each channel with its current EPG
    /// event.
    pub fn bouquet_with_epg(&self, bouquet_index: usize) -> (r: Result<Bouquet, Enigma2Error>)
        ensures
            exists|listed: Result<Seq<BouquetView>, Enigma2ErrorKind>|
                #[trigger] services_outcome_for(self.getter(), listed) && bouquet_epg_outcome(
                    self.getter(),
                    bouquet_index,
                    listed,
                    outcome_of(r, |b: Bouquet| b@),
                ),
            r matches Ok(b) ==> is_listed(b@),
            r matches Ok(b) ==> exists|bs: Seq<BouquetView>, es: Seq<EpgEventView>|
                {
                    &&& answered_services(bs)
                    &&& bouquet_index < bs.len()
                    &&& answered_events(es)
                    &&& b@ == bouquet_with_events(bs[bouquet_index as int], es)
                },
    {
        let listed = self.bouquets();
        let ghost lo = outcome_of(listed, |v: Vec<Bouquet>| bouquets_view(v@));
        let bouquets = match listed {
            Ok(v) => v,
            Err(e) => {
                let r: Result<Bouquet, Enigma2Error> = Err(e);
                assert(bouquet_epg_outcome(self.getter(), bouquet_index, lo, outcome_of(r, |b: Bouquet| b@)));
                return r;
            },
        };
        let ghost bs = bouquets_view(bouquets@);
        let bouquet = match bouquet_at(bouquets, bouquet_index) {
            Ok(b) => b,
            Err(e) => {
                let r: Result<Bouquet, Enigma2Error> = Err(e);
                assert(bouquet_epg_outcome(self.getter(), bouquet_index, lo, outcome_of(r, |b: Bouquet| b@)));
                return r;
            },
        };
        assert(bouquet@ == bs[bouquet_index as int]);
        assert(is_listed(bs[bouquet_index as int]));
        let got = self.epg_now(bouquet.service_ref.as_str());
        let ghost eo = outcome_of(got, |v: Vec<EpgEvent>| events_view(v@));
        let events = match got {
            Ok(es) => es,
            Err(e) => {
                let r: Result<Bouquet, Enigma2Error> = Err(e);
                assert(epg_outcome_for(self.getter(), false, bs[bouquet_index as int].service_ref, eo));
                assert(bouquet_epg_outcome(self.getter(), bouquet_index, lo, outcome_of(r, |b: Bouquet| b@)));
                return r;
            },
        };
        let ghost plain = bouquet@;
        let r = attach_epg(bouquet, events.as_slice());
        assert(r@.channels.len() == plain.channels.len());
        assert(epg_outcome_for(self.getter(), false, bs[bouquet_index as int].service_ref, eo));
        assert(bouquet_epg_outcome(self.getter(), bouquet_index, lo, outcome_of(Ok::<Bouquet, Enigma2Error>(r), |b: Bouquet| b@)));
        assert(answered_services(bs) && answered_events(events_view(events@)) && r@
            == bouquet_with_events(bs[bouquet_index as int], events_view(events@)));
        Ok(r)
    }

    /// The current EPG events of a bouquet (`/api/epgnow`), reused from an
    /// answer at most `EPG_CACHE_TTL_SECS` old.
    pub fn epg_now(&self, bouquet_ref: &str) -> (r: Result<Vec<EpgEvent>, Enigma2Error>)
        ensures
            epg_outcome_for(self.getter(), false, bouquet_ref@, outcome_of(r, |v: Vec<EpgEvent>| events_view(v@))),
            r matches Ok(v) ==> answered_events(events_view(v@)),
    {
        self.cached_epg(bouquet_ref, false)
    }

    /// The EPG of one service (`/api/epgservice`), reused from an answer at
    /// most `EPG_CACHE_TTL_SECS` old.
    pub fn service_epg(&self, service_ref: &str) -> (r: Result<Vec<EpgEvent>, Enigma2Error>)
        ensures
            epg_outcome_for(self.getter(), true, service_ref@, outcome_of(r, |v: Vec<EpgEvent>| events_view(v@))),
            r matches Ok(v) ==> answered_events(events_view(v@)),
    {
        self.cached_epg(service_ref, true)
    }

    fn cached_epg(&self, key: &str, per_service: bool) -> (r: Result<Vec<EpgEvent>, Enigma2Error>)
        ensures
            epg_outcome_for(self.getter(), per_service, key@, outcome_of(r, |v: Vec<EpgEvent>| events_view(v@))),
            r matches Ok(v) ==> answered_events(events_view(v@)),
    {
        let (step, base_url, Ghost(st), Ghost(age)) = {
            let g = lock_state(&self.state);
            let s = guarded(&g);
            let age = match s.epg_fetched_at(per_service, key) {
                Some(at) => Some(elapsed_secs(&at)),
                None => None,
            };
            (s.epg_step(per_service, key, age), s.base_url(), Ghost(*s), Ghost(age))
        };
        let url = match step {
            Step::Cached(events) => {
                let r: Result<Vec<EpgEvent>, Enigma2Error> = Ok(events);
                assert(epg_request_outcome(
                    self.getter(),
                    st,
                    per_service,
                    key@,
                    age,
                    outcome_of(r, |v: Vec<EpgEvent>| events_view(v@)),
                ));
                return r;
            },
            Step::Missing => {
                let r: Result<Vec<EpgEvent>, Enigma2Error> = Err(missing_settings());
                assert(epg_request_outcome(
                    self.getter(),
                    st,
                    per_service,
                    key@,
                    age,
                    outcome_of(r, |v: Vec<EpgEvent>| events_view(v@)),
                ));
                return r;
            },
            Step::Fetch(url) => url,
        };
        proof {
            use_type_invariant(self);
        }
        let fetched = fetch(&*self.http_get, url.as_str());
        proof {
            assert(may_answer(self.getter(), url@, fetched));
        }
        let body = match fetched {
            Ok(body) => body,
            Err(e) => {
                let r: Result<Vec<EpgEvent>, Enigma2Error> = Err(e);
                assert(outcome_of(r, |v: Vec<EpgEvent>| events_view(v@)) == events_after_fetch(
                    answer_outcome(fetched),
                ));
                assert(epg_request_outcome(
                    self.getter(),
                    st,
                    per_service,
                    key@,
                    age,
                    outcome_of(r, |v: Vec<EpgEvent>| events_view(v@)),
                ));
                return r;
            },
        };
        let parsed = events_from_body(body.as_str());
        assert(outcome_of(parsed, |v: Vec<EpgEvent>| events_view(v@)) == events_after_fetch(
            answer_outcome(fetched),
        ));
        assert(epg_request_outcome(
            self.getter(),
            st,
            per_service,
            key@,
            age,
            outcome_of(parsed, |v: Vec<EpgEvent>| events_view(v@)),
        ));
        let events = match parsed {
            Ok(es) => es,
            Err(e) => {
                return Err(e);
            },
        };
        let mut g = lock_state(&self.state);
        let next = guarded(&g).with_epg(base_url.as_str(), per_service, key, &events, now());
        if let Some(next) = next {
            store_state(&mut g, next);
        }
        Ok(events)
    }

    /// The stream address of a service: the first playable line of the
    /// receiver's playlist for it.
    pub fn resolve_stream_url(&self, service_ref: &str) -> (r: Result<String, Enigma2Error>)
        ensures
            r matches Ok(u) ==> u@.len() > 0 && u@[0] != '#',
            stream_outcome_for(self.getter(), service_ref@, outcome_of(r, |s: String| s@)),
    {
        let base_url = self.base_url();
        let url = match stream_request(base_url.as_str(), service_ref) {
            Ok(u) => u,
            Err(e) => {
                let r: Result<String, Enigma2Error> = Err(e);
                assert(stream_request_of(base_url@, service_ref@) is None);
                return r;
            },
        };
        proof {
            use_type_invariant(self);
        }
        let fetched = fetch(&*self.http_get, url.as_str());
        proof {
            assert(may_answer(self.getter(), url@, fetched));
        }
        let r = match fetched {
            Ok(body) => {
                let r = stream_url_from_body(body.as_str());
                proof {
                    crate::enigma2::urls::playable_line_is_not_comment(lines(body@));
                }
                r
            },
            Err(e) => Err(e),
        };
        assert(outcome_of(r, |s: String| s@) == stream_after_fetch(answer_outcome(fetched)));
        assert(stream_request_of(base_url@, service_ref@) == Some(url@));
        r
    }
}

fn clone_bouquets(bs: &Vec<Bouquet>) -> (r: Vec<Bouquet>)
    ensures
        bouquets_view(r@) == bouquets_view(bs@),
{
    let r = bs.clone();
    assert(bouquets_view(r@) =~= bouquets_view(bs@)) by {
        assert forall|i: int| 0 <= i < r@.len() implies r@[i]@ == bs@[i]@ by {
            assert(vstd::pervasive::cloned::<Bouquet>(bs@[i], r@[i]));
        }
    }
    r
}

/// Every bouquet that a service list yields has a name and channels.
pub proof fn lemma_listed_bouquets_are_listed(services: Seq<ApiBouquetView>)
    ensures
        all_listed(listed_bouquets(services)),
    decreases services.len(),
{
    if services.len() > 0 {
        lemma_listed_bouquets_are_listed(services.drop_last());
    }
}

} // verus!
