//! Bouquets, channels and EPG events as the player uses them, and the
//! records of the receiver's JSON API that they are built from.
use crate::enigma2::epg_text::{description_chars, description_text, normalize_chars, normalized_text};
use crate::num::{parse_i64, parse_i64_range, push_two_digits, two_digits};
use crate::text::{chars_of, string_from};
use vstd::prelude::*;

verus! {

/// One programme of a service's EPG.
#[derive(Debug, PartialEq, Eq)]
pub struct EpgEvent {
    pub id: Option<u64>,
    pub begin_timestamp: i64,
    pub duration_sec: i64,
    pub title: String,
    pub shortdesc: String,
    pub longdesc: String,
    pub genre: String,
    pub sref: String,
    pub sname: String,
    pub now_timestamp: i64,
    pub remaining: i64,
}

/// A channel of a bouquet, with the EPG event attached to it, if any.
#[derive(Debug, PartialEq, Eq)]
pub struct Channel {
    pub position: u32,
    pub name: String,
    pub service_ref: String,
    pub program: Option<u32>,
    pub epg: Option<EpgEvent>,
}

/// A named list of channels.
#[derive(Debug, PartialEq, Eq)]
pub struct Bouquet {
    pub name: String,
    pub service_ref: String,
    pub channels: Vec<Channel>,
}

/// A channel as `/api/getallservices` lists it.
#[derive(Debug, PartialEq, Eq)]
pub struct ApiChannel {
    pub pos: u32,
    pub servicename: String,
    pub servicereference: String,
    pub program: Option<u32>,
}

/// A bouquet as `/api/getallservices` lists it.
#[derive(Debug, PartialEq, Eq)]
pub struct ApiBouquet {
    pub servicename: String,
    pub servicereference: String,
    pub subservices: Vec<ApiChannel>,
}

/// The answer of `/api/getallservices`.
#[derive(Debug, PartialEq, Eq)]
pub struct ServicesResponse {
    pub result: bool,
    pub services: Vec<ApiBouquet>,
}

/// The answer of `/api/epgnow` and `/api/epgservice`.
#[derive(Debug, PartialEq, Eq)]
pub struct EpgNowResponse {
    pub events: Vec<EpgEvent>,
}

pub struct EpgEventView {
    pub id: Option<u64>,
    pub begin_timestamp: i64,
    pub duration_sec: i64,
    pub title: Seq<char>,
    pub shortdesc: Seq<char>,
    pub longdesc: Seq<char>,
    pub genre: Seq<char>,
    pub sref: Seq<char>,
    pub sname: Seq<char>,
    pub now_timestamp: i64,
    pub remaining: i64,
}

pub struct ChannelView {
    pub position: u32,
    pub name: Seq<char>,
    pub service_ref: Seq<char>,
    pub program: Option<u32>,
    pub epg: Option<EpgEventView>,
}

pub struct BouquetView {
    pub name: Seq<char>,
    pub service_ref: Seq<char>,
    pub channels: Seq<ChannelView>,
}

pub struct ApiChannelView {
    pub pos: u32,
    pub servicename: Seq<char>,
    pub servicereference: Seq<char>,
    pub program: Option<u32>,
}

pub struct ApiBouquetView {
    pub servicename: Seq<char>,
    pub servicereference: Seq<char>,
    pub subservices: Seq<ApiChannelView>,
}

pub struct ServicesResponseView {
    pub result: bool,
    pub services: Seq<ApiBouquetView>,
}

impl View for EpgEvent {
    type V = EpgEventView;

    open spec fn view(&self) -> EpgEventView {
        EpgEventView {
            id: self.id,
            begin_timestamp: self.begin_timestamp,
            duration_sec: self.duration_sec,
            title: self.title@,
            shortdesc: self.shortdesc@,
            longdesc: self.longdesc@,
            genre: self.genre@,
            sref: self.sref@,
            sname: self.sname@,
            now_timestamp: self.now_timestamp,
            remaining: self.remaining,
        }
    }
}

pub open spec fn opt_event_view(e: Option<EpgEvent>) -> Option<EpgEventView> {
    match e {
        Some(e) => Some(e@),
        None => None,
    }
}

impl View for Channel {
    type V = ChannelView;

    open spec fn view(&self) -> ChannelView {
        ChannelView {
            position: self.position,
            name: self.name@,
            service_ref: self.service_ref@,
            program: self.program,
            epg: opt_event_view(self.epg),
        }
    }
}

pub open spec fn channels_view(cs: Seq<Channel>) -> Seq<ChannelView> {
    cs.map_values(|c: Channel| c@)
}

pub open spec fn events_view(es: Seq<EpgEvent>) -> Seq<EpgEventView> {
    es.map_values(|e: EpgEvent| e@)
}

impl View for Bouquet {
    type V = BouquetView;

    open spec fn view(&self) -> BouquetView {
        BouquetView {
            name: self.name@,
            service_ref: self.service_ref@,
            channels: channels_view(self.channels@),
        }
    }
}

impl View for ApiChannel {
    type V = ApiChannelView;

    open spec fn view(&self) -> ApiChannelView {
        ApiChannelView {
            pos: self.pos,
            servicename: self.servicename@,
            servicereference: self.servicereference@,
            program: self.program,
        }
    }
}

impl View for ApiBouquet {
    type V = ApiBouquetView;

    open spec fn view(&self) -> ApiBouquetView {
        ApiBouquetView {
            servicename: self.servicename@,
            servicereference: self.servicereference@,
            subservices: self.subservices@.map_values(|c: ApiChannel| c@),
        }
    }
}

impl View for ServicesResponse {
    type V = ServicesResponseView;

    open spec fn view(&self) -> ServicesResponseView {
        ServicesResponseView {
            result: self.result,
            services: self.services@.map_values(|b: ApiBouquet| b@),
        }
    }
}

impl Clone for EpgEvent {
    fn clone(&self) -> (r: Self)
        ensures
            r == *self,
    {
        EpgEvent {
            id: self.id,
            begin_timestamp: self.begin_timestamp,
            duration_sec: self.duration_sec,
            title: self.title.clone(),
            shortdesc: self.shortdesc.clone(),
            longdesc: self.longdesc.clone(),
            genre: self.genre.clone(),
            sref: self.sref.clone(),
            sname: self.sname.clone(),
            now_timestamp: self.now_timestamp,
            remaining: self.remaining,
        }
    }
}

impl Clone for Channel {
    fn clone(&self) -> (r: Self)
        ensures
            r == *self,
    {
        let epg = match &self.epg {
            Some(e) => Some(e.clone()),
            None => None,
        };
        Channel {
            position: self.position,
            name: self.name.clone(),
            service_ref: self.service_ref.clone(),
            program: self.program,
            epg,
        }
    }
}

impl Clone for Bouquet {
    fn clone(&self) -> (r: Self)
        ensures
            r@ == self@,
    {
        let channels = self.channels.clone();
        assert(channels@ =~= self.channels@);
        Bouquet { name: self.name.clone(), service_ref: self.service_ref.clone(), channels }
    }
}

/// The channel that an API channel record describes, with no EPG yet.
pub open spec fn channel_from_api(c: ApiChannelView) -> ChannelView {
    ChannelView {
        position: c.pos,
        name: c.servicename,
        service_ref: c.servicereference,
        program: c.program,
        epg: None,
    }
}

/// The bouquet that an API bouquet record describes.
pub open spec fn bouquet_from_api(b: ApiBouquetView) -> BouquetView {
    BouquetView {
        name: b.servicename,
        service_ref: b.servicereference,
        channels: b.subservices.map_values(|c: ApiChannelView| channel_from_api(c)),
    }
}

impl Channel {
    pub fn from_api(value: ApiChannel) -> (r: Channel)
        ensures
            r@ == channel_from_api(value@),
    {
        Channel {
            position: value.pos,
            name: value.servicename,
            service_ref: value.servicereference,
            program: value.program,
            epg: None,
        }
    }
}

impl Bouquet {
    pub fn from_api(value: ApiBouquet) -> (r: Bouquet)
        ensures
            r@ == bouquet_from_api(value@),
    {
        let ghost subs = value.subservices@.map_values(|c: ApiChannel| c@);
        let mut channels: Vec<Channel> = Vec::new();
        for c in it: value.subservices.into_iter()
            invariant
                subs == it.seq().map_values(|c: ApiChannel| c@),
                channels_view(channels@) =~= subs.take(it.index() as int).map_values(
                    |c: ApiChannelView| channel_from_api(c),
                ),
        {
            let ghost before = channels_view(channels@);
            let ch = Channel::from_api(c);
            channels.push(ch);
            assert(channels_view(channels@) =~= before.push(ch@));
            assert(subs.take(it.index() + 1) =~= subs.take(it.index() as int).push(subs[it.index() as int]));
        }
        assert(subs.take(subs.len() as int) =~= subs);
        Bouquet { name: value.servicename, service_ref: value.servicereference, channels }
    }
}

/// End of an event: begin plus a non-negative duration, saturating.
pub open spec fn event_end(e: EpgEventView) -> int {
    let d: int = if e.duration_sec > 0 {
        e.duration_sec as int
    } else {
        0
    };
    if e.begin_timestamp + d > i64::MAX {
        i64::MAX as int
    } else {
        e.begin_timestamp + d
    }
}

/// Seconds of the event that have passed at `now_timestamp`, between 0 and
/// the duration; 0 for an event without a positive duration.
pub open spec fn event_elapsed(e: EpgEventView) -> int {
    if e.duration_sec <= 0 {
        0
    } else {
        let raw = e.now_timestamp - e.begin_timestamp;
        let sat: int = if raw < i64::MIN {
            i64::MIN as int
        } else if raw > i64::MAX {
            i64::MAX as int
        } else {
            raw
        };
        if sat < 0 {
            0
        } else if sat > e.duration_sec {
            e.duration_sec as int
        } else {
            sat
        }
    }
}

/// Clock label `HH:MM` of a Unix time shifted by `offset` seconds, or
/// `--:--` for a time that is not positive.
pub open spec fn time_label(timestamp: int, offset: int) -> Seq<char> {
    if timestamp <= 0 {
        seq!['-', '-', ':', '-', '-']
    } else {
        let local = timestamp + offset;
        two_digits((local / 3600) % 24) + seq![':'] + two_digits((local / 60) % 60)
    }
}

/// The local time offset in seconds from the text of `TZ_OFFSET_SECONDS`:
/// two hours when it is missing or no integer, and never negative.
pub open spec fn offset_from_setting(value: Option<Seq<char>>) -> int {
    let parsed: int = match value {
        Some(v) => match parse_i64(v) {
            Some(x) => x as int,
            None => 7200,
        },
        None => 7200,
    };
    if parsed < 0 {
        0
    } else {
        parsed
    }
}

pub fn local_offset_from(value: Option<&str>) -> (r: u64)
    ensures
        r as int == offset_from_setting(
            match value {
                Some(v) => Some(v@),
                None => None,
            },
        ),
{
    let parsed: i64 = match value {
        Some(v) => {
            let chars = chars_of(v);
            assert(chars@.subrange(0, chars@.len() as int) =~= chars@);
            match parse_i64_range(chars.as_slice(), 0, chars.len()) {
                Some(x) => x,
                None => 7200,
            }
        },
        None => 7200,
    };
    if parsed < 0 {
        0
    } else {
        parsed as u64
    }
}

/// `HH:MM` of `timestamp` shifted by `offset_seconds`, or `--:--` for a
/// time that is not positive.
pub fn format_time(timestamp: i64, offset_seconds: u64) -> (r: String)
    requires
        offset_seconds <= i64::MAX,
    ensures
        r@ == time_label(timestamp as int, offset_seconds as int),
{
    let mut s = String::new();
    if timestamp <= 0 {
        crate::text::push_char(&mut s, '-');
        crate::text::push_char(&mut s, '-');
        crate::text::push_char(&mut s, ':');
        crate::text::push_char(&mut s, '-');
        crate::text::push_char(&mut s, '-');
        assert(s@ =~= seq!['-', '-', ':', '-', '-']);
        return s;
    }
    let local = chrono_like_local_time(timestamp as u64, offset_seconds);
    push_two_digits(&mut s, local.0);
    crate::text::push_char(&mut s, ':');
    push_two_digits(&mut s, local.1);
    assert(s@ =~= time_label(timestamp as int, offset_seconds as int));
    s
}

/// Hour and minute of the day of `seconds` shifted by `offset`.
pub fn chrono_like_local_time(seconds: u64, offset: u64) -> (r: (u64, u64))
    requires
        seconds <= i64::MAX,
        offset <= i64::MAX,
    ensures
        r.0 == ((seconds + offset) / 3600) % 24,
        r.1 == ((seconds + offset) / 60) % 60,
        r.0 < 24,
        r.1 < 60,
{
    let local = seconds + offset;
    ((local / 3600) % 24, (local / 60) % 60)
}

impl EpgEvent {
    /// End of the event, `begin_timestamp + max(duration_sec, 0)`, saturating.
    pub fn end_timestamp(&self) -> (r: i64)
        ensures
            r as int == event_end(self@),
    {
        let d: i64 = if self.duration_sec > 0 {
            self.duration_sec
        } else {
            0
        };
        let sum = self.begin_timestamp as i128 + d as i128;
        if sum > i64::MAX as i128 {
            i64::MAX
        } else {
            sum as i64
        }
    }

    /// Seconds of the event that have passed at `now_timestamp`, clamped to
    /// the event; the progress fraction is this over `duration_sec`.
    pub fn elapsed_seconds(&self) -> (r: i64)
        ensures
            r as int == event_elapsed(self@),
            self.duration_sec > 0 ==> 0 <= r <= self.duration_sec,
            self.duration_sec <= 0 ==> r == 0,
    {
        if self.duration_sec <= 0 {
            return 0;
        }
        let raw = self.now_timestamp as i128 - self.begin_timestamp as i128;
        let sat: i64 = if raw < i64::MIN as i128 {
            i64::MIN
        } else if raw > i64::MAX as i128 {
            i64::MAX
        } else {
            raw as i64
        };
        if sat < 0 {
            0
        } else if sat > self.duration_sec {
            self.duration_sec
        } else {
            sat
        }
    }

    /// `HH:MM - HH:MM` of begin and end.
    pub fn time_range(&self, offset_seconds: u64) -> (r: String)
        requires
            offset_seconds <= i64::MAX,
        ensures
            r@ == time_label(self.begin_timestamp as int, offset_seconds as int) + seq![
                ' ',
                '-',
                ' ',
            ] + time_label(event_end(self@), offset_seconds as int),
    {
        let mut s = format_time(self.begin_timestamp, offset_seconds);
        crate::text::push_char(&mut s, ' ');
        crate::text::push_char(&mut s, '-');
        crate::text::push_char(&mut s, ' ');
        let e = format_time(self.end_timestamp(), offset_seconds);
        s.append(e.as_str());
        assert(s@ =~= time_label(self.begin_timestamp as int, offset_seconds as int) + seq![
            ' ',
            '-',
            ' ',
        ] + time_label(event_end(self@), offset_seconds as int));
        s
    }

    /// Short and long description for display; see `description_text`.
    pub fn description(&self) -> (r: String)
        ensures
            r@ == description_text(self.shortdesc@, self.longdesc@, self.title@),
    {
        let s = chars_of(self.shortdesc.as_str());
        let l = chars_of(self.longdesc.as_str());
        let t = chars_of(self.title.as_str());
        let d = description_chars(s.as_slice(), l.as_slice(), t.as_slice());
        string_from(d.as_slice())
    }
}

/// EPG text for display: escaped line breaks unescaped, HTML entities
/// decoded, trailing white space of each line dropped, the whole trimmed.
pub fn normalize_epg_text(value: &str) -> (r: String)
    ensures
        r@ == normalized_text(value@),
{
    let v = chars_of(value);
    let n = normalize_chars(v.as_slice());
    string_from(n.as_slice())
}

/// The last of `events` whose (non-empty) service reference is `sref`.
pub open spec fn last_event_for(events: Seq<EpgEventView>, sref: Seq<char>) -> Option<EpgEventView>
    decreases events.len(),
{
    if events.len() == 0 {
        None
    } else if events.last().sref.len() > 0 && events.last().sref == sref {
        Some(events.last())
    } else {
        last_event_for(events.drop_last(), sref)
    }
}

/// `c` with the EPG event of its service among `events`, if there is one.
pub open spec fn channel_with_epg(c: ChannelView, events: Seq<EpgEventView>) -> ChannelView {
    ChannelView { epg: last_event_for(events, c.service_ref), ..c }
}

/// `b` with each channel carrying the EPG event of its service.
pub open spec fn bouquet_with_events(b: BouquetView, events: Seq<EpgEventView>) -> BouquetView {
    BouquetView {
        channels: b.channels.map_values(|c: ChannelView| channel_with_epg(c, events)),
        ..b
    }
}

/// Index of the last event with service reference `sref` (non-empty).
fn last_event_index(events: &[EpgEvent], sref: &String) -> (r: Option<usize>)
    ensures
        match r {
            Some(i) => i < events.len() && last_event_for(events_view(events@), sref@) == Some(
                events@[i as int]@,
            ),
            None => last_event_for(events_view(events@), sref@) is None,
        },
{
    let mut j = events.len();
    assert(events@.take(j as int) =~= events@);
    while j > 0
        invariant
            j <= events.len(),
            last_event_for(events_view(events@), sref@) == last_event_for(
                events_view(events@.take(j as int)),
                sref@,
            ),
        decreases j,
    {
        let e = &events[j - 1];
        let ghost ev = events_view(events@.take(j as int));
        assert(ev.last() == e@);
        assert(ev.drop_last() =~= events_view(events@.take(j - 1)));
        if !e.sref.as_str().is_empty() && e.sref == *sref {
            return Some(j - 1);
        }
        j = j - 1;
    }
    assert(events_view(events@.take(0)) =~= Seq::<EpgEventView>::empty());
    None
}

/// Attaches to each channel of `bouquet` the last of `events` whose service
/// reference is the channel's; channels without one get no event.
pub fn attach_epg(bouquet: Bouquet, events: &[EpgEvent]) -> (r: Bouquet)
    ensures
        r@ == bouquet_with_events(bouquet@, events_view(events@)),
{
    let ghost target = bouquet_with_events(bouquet@, events_view(events@));
    let mut channels: Vec<Channel> = Vec::new();
    let mut i: usize = 0;
    while i < bouquet.channels.len()
        invariant
            i <= bouquet.channels.len(),
            target == bouquet_with_events(bouquet@, events_view(events@)),
            channels_view(channels@) =~= target.channels.take(i as int),
        decreases bouquet.channels.len() - i,
    {
        let c = &bouquet.channels[i];
        let ghost before = channels_view(channels@);
        let epg = match last_event_index(events, &c.service_ref) {
            Some(k) => Some(events[k].clone()),
            None => None,
        };
        let ch = Channel {
            position: c.position,
            name: c.name.clone(),
            service_ref: c.service_ref.clone(),
            program: c.program,
            epg,
        };
        assert(ch@ == channel_with_epg(c@, events_view(events@)));
        channels.push(ch);
        assert(channels_view(channels@) =~= before.push(ch@));
        assert(target.channels.take(i + 1) =~= target.channels.take(i as int).push(
            target.channels[i as int],
        ));
        i = i + 1;
    }
    assert(target.channels.take(bouquet.channels.len() as int) =~= target.channels);
    Bouquet { name: bouquet.name, service_ref: bouquet.service_ref, channels }
}

/// Attaching EPG keeps the bouquet: its name, reference and channels, in
/// order, with only their EPG events replaced.
pub proof fn attach_epg_keeps_channels(b: BouquetView, events: Seq<EpgEventView>)
    ensures
        bouquet_with_events(b, events).name == b.name,
        bouquet_with_events(b, events).service_ref == b.service_ref,
        bouquet_with_events(b, events).channels.len() == b.channels.len(),
        forall|i: int|
            0 <= i < b.channels.len() ==> {
                let c = #[trigger] bouquet_with_events(b, events).channels[i];
                &&& c.position == b.channels[i].position
                &&& c.name == b.channels[i].name
                &&& c.service_ref == b.channels[i].service_ref
                &&& c.program == b.channels[i].program
            },
{
}

/// An attached event always belongs to its channel's service.
pub proof fn attached_event_matches_channel(events: Seq<EpgEventView>, sref: Seq<char>)
    ensures
        last_event_for(events, sref) matches Some(e) ==> e.sref == sref && sref.len() > 0
            && events.contains(e),
    decreases events.len(),
{
    if events.len() > 0 {
        attached_event_matches_channel(events.drop_last(), sref);
        if last_event_for(events, sref) is Some && !(events.last().sref.len() > 0
            && events.last().sref == sref) {
            let e = last_event_for(events, sref).unwrap();
            let k = choose|k: int| 0 <= k < events.drop_last().len() && events.drop_last()[k] == e;
            assert(events[k] == e);
        } else if last_event_for(events, sref) is Some {
            assert(events[events.len() - 1] == events.last());
        }
    }
}

/// Attaching the same events twice changes nothing the second time.
pub proof fn attach_epg_idempotent(b: BouquetView, events: Seq<EpgEventView>)
    ensures
        bouquet_with_events(bouquet_with_events(b, events), events) == bouquet_with_events(
            b,
            events,
        ),
{
    assert(bouquet_with_events(bouquet_with_events(b, events), events).channels =~= bouquet_with_events(
        b,
        events,
    ).channels);
}

/// Without events no channel carries one.
pub proof fn attach_no_events(b: BouquetView)
    ensures
        forall|i: int|
            0 <= i < b.channels.len() ==> (#[trigger] bouquet_with_events(
                b,
                Seq::empty(),
            ).channels[i]).epg is None,
{
}

/// A bouquet read from the receiver keeps its channels as the receiver
/// sent them: as many as there are subservices, the `i`-th channel made from
/// the `i`-th subservice (its position, name, reference and program), none
/// carrying an EPG event yet.
pub proof fn api_bouquet_keeps_receiver_order(b: ApiBouquetView)
    ensures
        bouquet_from_api(b).name == b.servicename,
        bouquet_from_api(b).service_ref == b.servicereference,
        bouquet_from_api(b).channels.len() == b.subservices.len(),
        forall|i: int|
            0 <= i < b.subservices.len() ==> {
                let c = #[trigger] bouquet_from_api(b).channels[i];
                &&& c.position == b.subservices[i].pos
                &&& c.name == b.subservices[i].servicename
                &&& c.service_ref == b.subservices[i].servicereference
                &&& c.program == b.subservices[i].program
                &&& c.epg is None
            },
{
}

/// What `last_event_for` picks: an event for `sref` exists exactly when
/// some event has that (non-empty) reference, and it is the last such one.
proof fn lemma_last_event_for(events: Seq<EpgEventView>, sref: Seq<char>)
    ensures
        last_event_for(events, sref) is Some <==> exists|k: int|
            0 <= k < events.len() && (#[trigger] events[k]).sref.len() > 0 && events[k].sref == sref,
        last_event_for(events, sref) matches Some(e) ==> exists|k: int|
            {
                &&& 0 <= k < events.len()
                &&& #[trigger] events[k] == e
                &&& e.sref == sref
                &&& sref.len() > 0
                &&& forall|j: int| k < j < events.len() ==> (#[trigger] events[j]).sref != sref
            },
    decreases events.len(),
{
    if events.len() > 0 {
        let d = events.drop_last();
        lemma_last_event_for(d, sref);
        let l = events.len() - 1;
        assert(events[l] == events.last());
        if events.last().sref.len() > 0 && events.last().sref == sref {
        } else {
            if exists|k: int| 0 <= k < events.len() && (#[trigger] events[k]).sref.len() > 0
                && events[k].sref == sref {
                let k = choose|k: int| 0 <= k < events.len() && (#[trigger] events[k]).sref.len()
                    > 0 && events[k].sref == sref;
                assert(k < l);
                assert(d[k] == events[k]);
            }
            if exists|k: int| 0 <= k < d.len() && (#[trigger] d[k]).sref.len() > 0 && d[k].sref
                == sref {
                let k = choose|k: int| 0 <= k < d.len() && (#[trigger] d[k]).sref.len() > 0
                    && d[k].sref == sref;
                assert(events[k] == d[k]);
            }
            if last_event_for(d, sref) is Some {
                let e = last_event_for(d, sref).unwrap();
                let k = choose|k: int|
                    {
                        &&& 0 <= k < d.len()
                        &&& #[trigger] d[k] == e
                        &&& e.sref == sref
                        &&& sref.len() > 0
                        &&& forall|j: int| k < j < d.len() ==> (#[trigger] d[j]).sref != sref
                    };
                assert(events[k] == e);
                assert forall|j: int| k < j < events.len() implies (#[trigger] events[j]).sref
                    != sref by {
                    if j < l {
                        assert(events[j] == d[j]);
                    }
                }
            }
        }
    }
}

/// Attaching EPG gives each channel the last of the events whose
/// (non-empty) service reference is the channel's, and no event exactly
/// when none has it.
pub proof fn attach_epg_gives_each_channel_its_event(b: BouquetView, events: Seq<EpgEventView>)
    ensures
        forall|i: int|
            0 <= i < b.channels.len() ==> {
                let c = #[trigger] bouquet_with_events(b, events).channels[i];
                let sref = b.channels[i].service_ref;
                &&& (c.epg is Some <==> exists|k: int|
                    0 <= k < events.len() && (#[trigger] events[k]).sref.len() > 0
                        && events[k].sref == sref)
                &&& (c.epg matches Some(e) ==> exists|k: int|
                    {
                        &&& 0 <= k < events.len()
                        &&& #[trigger] events[k] == e
                        &&& e.sref == sref
                        &&& forall|j: int| k < j < events.len() ==> (#[trigger] events[j]).sref != sref
                    })
            },
{
    assert forall|i: int| 0 <= i < b.channels.len() implies {
        let c = #[trigger] bouquet_with_events(b, events).channels[i];
        let sref = b.channels[i].service_ref;
        &&& (c.epg is Some <==> exists|k: int|
            0 <= k < events.len() && (#[trigger] events[k]).sref.len() > 0 && events[k].sref == sref)
        &&& (c.epg matches Some(e) ==> exists|k: int|
            {
                &&& 0 <= k < events.len()
                &&& #[trigger] events[k] == e
                &&& e.sref == sref
                &&& forall|j: int| k < j < events.len() ==> (#[trigger] events[j]).sref != sref
            })
    } by {
        lemma_last_event_for(events, b.channels[i].service_ref);
    }
}

} // verus!
