//! The EPG list of one channel: events in time order, starting with the
//! programme that runs now.
use crate::enigma2::model::{event_end, events_view, EpgEvent, EpgEventView};
use vstd::multiset::Multiset;
use vstd::prelude::*;

verus! {

/// At most this many events are listed.
pub const EPG_MAX_EVENTS: usize = 50;

/// The order key of an event: begin time (negative counts as 0), then id
/// (missing counts as 0).
pub open spec fn sort_key(e: EpgEventView) -> (int, int) {
    (
        if e.begin_timestamp > 0 {
            e.begin_timestamp as int
        } else {
            0
        },
        match e.id {
            Some(i) => i as int,
            None => 0,
        },
    )
}

/// `a` comes no later than `b` by their keys.
pub open spec fn key_le(a: EpgEventView, b: EpgEventView) -> bool {
    sort_key(a).0 < sort_key(b).0 || (sort_key(a).0 == sort_key(b).0 && sort_key(a).1 <= sort_key(
        b,
    ).1)
}

/// `x` inserted into the ordered `s` after every event that is not later.
pub open spec fn insert_by_key(s: Seq<EpgEventView>, x: EpgEventView) -> Seq<EpgEventView>
    decreases s.len(),
{
    if s.len() == 0 {
        seq![x]
    } else if key_le(s.last(), x) {
        s.push(x)
    } else {
        insert_by_key(s.drop_last(), x).push(s.last())
    }
}

/// `s` in key order; events with equal keys keep their order (a stable sort).
pub open spec fn sort_by_key(s: Seq<EpgEventView>) -> Seq<EpgEventView>
    decreases s.len(),
{
    if s.len() == 0 {
        seq![]
    } else {
        insert_by_key(sort_by_key(s.drop_last()), s.last())
    }
}

/// The first `now_timestamp` that the receiver sent along, if any.
pub open spec fn first_now(s: Seq<EpgEventView>) -> Option<i64>
    decreases s.len(),
{
    if s.len() == 0 {
        None
    } else if s[0].now_timestamp > 0 {
        Some(s[0].now_timestamp)
    } else {
        first_now(s.drop_first())
    }
}

/// The time the list is built for: the receiver's, else `fallback`.
pub open spec fn effective_now(s: Seq<EpgEventView>, fallback: i64) -> int {
    match first_now(s) {
        Some(n) => n as int,
        None => fallback as int,
    }
}

/// The event runs at `now`.
pub open spec fn is_current(e: EpgEventView, now: int) -> bool {
    e.begin_timestamp > 0 && e.duration_sec > 0 && e.begin_timestamp <= now && event_end(e) > now
}

/// Index of the first event running at `now`, or `s.len()`.
pub open spec fn first_current(s: Seq<EpgEventView>, now: int) -> int
    decreases s.len(),
{
    if s.len() == 0 {
        0
    } else if is_current(s[0], now) {
        0
    } else {
        1 + first_current(s.drop_first(), now)
    }
}

/// The event has not ended at `now` (or has no known begin).
pub open spec fn is_upcoming(e: EpgEventView, now: int) -> bool {
    e.begin_timestamp <= 0 || event_end(e) >= now
}

/// The events of `s` that have not ended, in order.
pub open spec fn upcoming(s: Seq<EpgEventView>, now: int) -> Seq<EpgEventView>
    decreases s.len(),
{
    if s.len() == 0 {
        seq![]
    } else if is_upcoming(s.last(), now) {
        upcoming(s.drop_last(), now).push(s.last())
    } else {
        upcoming(s.drop_last(), now)
    }
}

/// At most the first `EPG_MAX_EVENTS` of `s`.
pub open spec fn take_max(s: Seq<EpgEventView>) -> Seq<EpgEventView> {
    if s.len() <= EPG_MAX_EVENTS {
        s
    } else {
        s.take(EPG_MAX_EVENTS as int)
    }
}

/// From an ordered list: the events from the one running at `now` on; when
/// none runs, those that have not ended; when none is left, all of them.
/// Never more than `EPG_MAX_EVENTS`.
pub open spec fn onward(sorted: Seq<EpgEventView>, now: int) -> Seq<EpgEventView> {
    let k = first_current(sorted, now);
    if 0 <= k < sorted.len() {
        take_max(sorted.skip(k))
    } else if upcoming(sorted, now).len() == 0 {
        take_max(sorted)
    } else {
        take_max(upcoming(sorted, now))
    }
}

/// The EPG list of `events` when the receiver gave no time and the clock
/// says `fallback`.
pub open spec fn events_onward(events: Seq<EpgEventView>, fallback: i64) -> Seq<EpgEventView> {
    let s = sort_by_key(events);
    onward(s, effective_now(s, fallback))
}

proof fn lemma_insert_at(s: Seq<EpgEventView>, x: EpgEventView, p: int)
    requires
        0 <= p <= s.len(),
        p == 0 || key_le(s[p - 1], x),
        forall|j: int| p <= j < s.len() ==> !key_le(#[trigger] s[j], x),
    ensures
        insert_by_key(s, x) == s.take(p).push(x) + s.skip(p),
    decreases s.len(),
{
    if s.len() == 0 {
        assert(s.take(p).push(x) + s.skip(p) =~= seq![x]);
    } else if p == s.len() {
        assert(key_le(s.last(), x));
        assert(s.take(p).push(x) + s.skip(p) =~= s.push(x));
    } else {
        assert(!key_le(s[s.len() - 1], x));
        let d = s.drop_last();
        assert forall|j: int| p <= j < d.len() implies !key_le(#[trigger] d[j], x) by {
            assert(d[j] == s[j]);
        }
        if p > 0 {
            assert(d[p - 1] == s[p - 1]);
        }
        lemma_insert_at(d, x, p);
        assert(d.take(p).push(x) + d.skip(p) + seq![s.last()] =~= s.take(p).push(x) + s.skip(p));
        assert((d.take(p).push(x) + d.skip(p)).push(s.last()) =~= d.take(p).push(x) + d.skip(p)
            + seq![s.last()]);
    }
}

fn key_le_exec(a: &EpgEvent, b: &EpgEvent) -> (r: bool)
    ensures
        r == key_le(a@, b@),
{
    let a0: i64 = if a.begin_timestamp > 0 {
        a.begin_timestamp
    } else {
        0
    };
    let b0: i64 = if b.begin_timestamp > 0 {
        b.begin_timestamp
    } else {
        0
    };
    let a1: u64 = match a.id {
        Some(i) => i,
        None => 0,
    };
    let b1: u64 = match b.id {
        Some(i) => i,
        None => 0,
    };
    a0 < b0 || (a0 == b0 && a1 <= b1)
}

/// The events in key order, stably (`sort_by_key` on the key).
pub fn sort_events(events: Vec<EpgEvent>) -> (r: Vec<EpgEvent>)
    ensures
        events_view(r@) == sort_by_key(events_view(events@)),
{
    let ghost ev = events_view(events@);
    let mut out: Vec<EpgEvent> = Vec::new();
    assert(ev.take(0) =~= Seq::<EpgEventView>::empty());
    assert(events_view(out@) =~= Seq::<EpgEventView>::empty());
    for e in it: events.into_iter()
        invariant
            ev == events_view(it.seq()),
            events_view(out@) == sort_by_key(ev.take(it.index() as int)),
    {
        let ghost i = it.index() as int;
        let ghost before = events_view(out@);
        let mut p = out.len();
        while p > 0 && !key_le_exec(&out[p - 1], &e)
            invariant
                p <= out.len(),
                before == events_view(out@),
                forall|j: int| p <= j < out.len() ==> !key_le(#[trigger] before[j], e@),
            decreases p,
        {
            p = p - 1;
        }
        proof {
            if p > 0 {
                assert(before[p - 1] == out@[p - 1]@);
            }
            lemma_insert_at(before, e@, p as int);
        }
        let ghost ex = e@;
        out.insert(p, e);
        assert(events_view(out@) =~= before.take(p as int).push(ex) + before.skip(p as int));
        assert(ev.take(i + 1).drop_last() =~= ev.take(i));
        assert(ev.take(i + 1).last() == ex);
    }
    assert(ev.take(ev.len() as int) =~= ev);
    out
}

fn first_now_exec(s: &Vec<EpgEvent>) -> (r: Option<i64>)
    ensures
        r == first_now(events_view(s@)),
{
    let ghost ev = events_view(s@);
    let mut i: usize = 0;
    assert(ev.skip(0) =~= ev);
    while i < s.len()
        invariant
            i <= s.len(),
            ev == events_view(s@),
            first_now(ev) == first_now(ev.skip(i as int)),
        decreases s.len() - i,
    {
        assert(ev.skip(i as int)[0] == s@[i as int]@);
        if s[i].now_timestamp > 0 {
            return Some(s[i].now_timestamp);
        }
        assert(ev.skip(i as int).drop_first() =~= ev.skip(i + 1));
        i = i + 1;
    }
    None
}

fn is_current_exec(e: &EpgEvent, now: i64) -> (r: bool)
    ensures
        r == is_current(e@, now as int),
{
    e.begin_timestamp > 0 && e.duration_sec > 0 && e.begin_timestamp <= now && e.end_timestamp()
        > now
}

fn first_current_exec(s: &Vec<EpgEvent>, now: i64) -> (r: usize)
    ensures
        r as int == first_current(events_view(s@), now as int),
        r <= s.len(),
{
    let ghost ev = events_view(s@);
    let mut i: usize = 0;
    assert(ev.skip(0) =~= ev);
    while i < s.len()
        invariant
            i <= s.len(),
            ev == events_view(s@),
            first_current(ev, now as int) == i + first_current(ev.skip(i as int), now as int),
        decreases s.len() - i,
    {
        assert(ev.skip(i as int)[0] == s@[i as int]@);
        if is_current_exec(&s[i], now) {
            return i;
        }
        assert(ev.skip(i as int).drop_first() =~= ev.skip(i + 1));
        i = i + 1;
    }
    i
}

fn upcoming_exec(s: &Vec<EpgEvent>, now: i64) -> (r: Vec<EpgEvent>)
    ensures
        events_view(r@) == upcoming(events_view(s@), now as int),
{
    let ghost ev = events_view(s@);
    let mut out: Vec<EpgEvent> = Vec::new();
    let mut i: usize = 0;
    assert(ev.take(0) =~= Seq::<EpgEventView>::empty());
    assert(events_view(out@) =~= Seq::<EpgEventView>::empty());
    while i < s.len()
        invariant
            i <= s.len(),
            ev == events_view(s@),
            events_view(out@) == upcoming(ev.take(i as int), now as int),
        decreases s.len() - i,
    {
        let e = &s[i];
        assert(ev.take(i + 1).drop_last() =~= ev.take(i as int));
        assert(ev.take(i + 1).last() == e@);
        if e.begin_timestamp <= 0 || e.end_timestamp() >= now {
            let ghost before = events_view(out@);
            out.push(e.clone());
            assert(events_view(out@) =~= before.push(e@));
        }
        i = i + 1;
    }
    assert(ev.take(s.len() as int) =~= ev);
    out
}

fn take_max_exec(v: &mut Vec<EpgEvent>)
    ensures
        events_view(final(v)@) == take_max(events_view(old(v)@)),
{
    let ghost before = events_view(v@);
    if v.len() > EPG_MAX_EVENTS {
        v.truncate(EPG_MAX_EVENTS);
        assert(events_view(v@) =~= before.take(EPG_MAX_EVENTS as int));
    }
}

/// The EPG list of `events` for the time `fallback_now`, unless an event
/// carries the receiver's time: ordered, starting with the current event.
pub fn events_from_current_onward_at(events: Vec<EpgEvent>, fallback_now: i64) -> (r: Vec<
    EpgEvent,
>)
    ensures
        events_view(r@) == events_onward(events_view(events@), fallback_now),
{
    let sorted = sort_events(events);
    let now = match first_now_exec(&sorted) {
        Some(n) => n,
        None => fallback_now,
    };
    select_onward(sorted, now)
}

fn select_onward(sorted: Vec<EpgEvent>, now: i64) -> (r: Vec<EpgEvent>)
    ensures
        events_view(r@) == onward(events_view(sorted@), now as int),
{
    let ghost sv = events_view(sorted@);
    let k = first_current_exec(&sorted, now);
    if k < sorted.len() {
        let mut rest = sorted;
        let mut tail = rest.split_off(k);
        assert(events_view(tail@) =~= sv.skip(k as int));
        take_max_exec(&mut tail);
        return tail;
    }
    let mut up = upcoming_exec(&sorted, now);
    if up.len() == 0 {
        let mut all = sorted;
        take_max_exec(&mut all);
        all
    } else {
        take_max_exec(&mut up);
        up
    }
}

/// Whole seconds from 1970 to now (`SystemTime::now`, `duration_since`
/// `UNIX_EPOCH`, `as_secs`), or `None` when the clock is set before 1970.
/// Nothing is stated of the value: it is the time.
#[verifier::external_body]
fn seconds_since_epoch() -> Option<u64> {
    match std::time::SystemTime::now().duration_since(std::time::UNIX_EPOCH) {
        Ok(d) => Some(d.as_secs()),
        Err(_) => None,
    }
}

/// A clock reading as a Unix timestamp: the seconds since 1970 (cast to
/// `i64`), 0 for a clock set before 1970.
fn unix_timestamp_of(since_epoch: Option<u64>) -> (r: i64)
    ensures
        r == match since_epoch {
            Some(s) => s as i64,
            None => 0i64,
        },
{
    match since_epoch {
        Some(s) => s as i64,
        None => 0,
    }
}

/// The EPG list of `events`: ordered by begin time and id, starting with
/// the event that runs now, at most `EPG_MAX_EVENTS` long. "Now" is the
/// time the receiver sent with the events; only when none came is the clock
/// read, so the list is then that of some instant.
pub fn events_from_current_onward(events: Vec<EpgEvent>) -> (r: Vec<EpgEvent>)
    ensures
        exists|t: i64| events_view(r@) == #[trigger] events_onward(events_view(events@), t),
        first_now(sort_by_key(events_view(events@))) is Some ==> events_view(r@)
            == events_onward(events_view(events@), 0),
{
    let sorted = sort_events(events);
    let now = match first_now_exec(&sorted) {
        Some(n) => n,
        None => unix_timestamp_of(seconds_since_epoch()),
    };
    let r = select_onward(sorted, now);
    assert(events_view(r@) == events_onward(events_view(events@), now));
    r
}

/// Each event comes no later than the ones after it.
pub open spec fn ordered(s: Seq<EpgEventView>) -> bool {
    forall|i: int, j: int| 0 <= i < j < s.len() ==> key_le(#[trigger] s[i], #[trigger] s[j])
}

proof fn lemma_insert_bounded(d: Seq<EpgEventView>, x: EpgEventView, b: EpgEventView)
    requires
        forall|i: int| 0 <= i < d.len() ==> key_le(#[trigger] d[i], b),
        key_le(x, b),
    ensures
        forall|i: int|
            0 <= i < insert_by_key(d, x).len() ==> key_le(#[trigger] insert_by_key(d, x)[i], b),
    decreases d.len(),
{
    if d.len() > 0 && !key_le(d.last(), x) {
        let dd = d.drop_last();
        assert forall|i: int| 0 <= i < dd.len() implies key_le(#[trigger] dd[i], b) by {
            assert(dd[i] == d[i]);
        }
        lemma_insert_bounded(dd, x, b);
        let r = insert_by_key(dd, x);
        assert forall|i: int| 0 <= i < r.push(d.last()).len() implies key_le(
            #[trigger] r.push(d.last())[i],
            b,
        ) by {
            if i < r.len() {
                assert(r.push(d.last())[i] == r[i]);
            } else {
                assert(r.push(d.last())[i] == d[d.len() - 1]);
            }
        }
    } else if d.len() > 0 {
        assert forall|i: int| 0 <= i < d.push(x).len() implies key_le(#[trigger] d.push(x)[i], b) by {
            if i < d.len() {
                assert(d.push(x)[i] == d[i]);
            }
        }
    }
}

proof fn lemma_insert_props(s: Seq<EpgEventView>, x: EpgEventView)
    requires
        ordered(s),
    ensures
        ordered(insert_by_key(s, x)),
        insert_by_key(s, x).len() == s.len() + 1,
        insert_by_key(s, x).to_multiset() == s.to_multiset().insert(x),
    decreases s.len(),
{
    if s.len() == 0 {
        vstd::seq_lib::to_multiset_build(s, x);
        assert(s.push(x) =~= seq![x]);
        assert(s.to_multiset() =~= Multiset::empty()) by {
            vstd::seq_lib::to_multiset_len(s);
        }
    } else if key_le(s.last(), x) {
        vstd::seq_lib::to_multiset_build(s, x);
        assert forall|i: int, j: int| 0 <= i < j < s.push(x).len() implies key_le(
            #[trigger] s.push(x)[i],
            #[trigger] s.push(x)[j],
        ) by {
            if j == s.len() {
                if i < s.len() - 1 {
                    assert(key_le(s[i], s[s.len() - 1]));
                }
            } else {
                assert(s.push(x)[i] == s[i] && s.push(x)[j] == s[j]);
            }
        }
    } else {
        let d = s.drop_last();
        let l = s.last();
        assert(ordered(d)) by {
            assert forall|i: int, j: int| 0 <= i < j < d.len() implies key_le(
                #[trigger] d[i],
                #[trigger] d[j],
            ) by {
                assert(d[i] == s[i] && d[j] == s[j]);
            }
        }
        lemma_insert_props(d, x);
        let r = insert_by_key(d, x);
        assert forall|i: int| 0 <= i < d.len() implies key_le(#[trigger] d[i], l) by {
            assert(d[i] == s[i]);
            assert(key_le(s[i], s[s.len() - 1]));
        }
        lemma_insert_bounded(d, x, l);
        assert forall|i: int, j: int| 0 <= i < j < r.push(l).len() implies key_le(
            #[trigger] r.push(l)[i],
            #[trigger] r.push(l)[j],
        ) by {
            if j == r.len() {
                assert(r.push(l)[i] == r[i]);
            } else {
                assert(r.push(l)[i] == r[i] && r.push(l)[j] == r[j]);
            }
        }
        vstd::seq_lib::to_multiset_build(r, l);
        vstd::seq_lib::to_multiset_build(d, l);
        assert(d.push(l) =~= s);
        assert(r.push(l).to_multiset() =~= s.to_multiset().insert(x));
    }
}

/// The EPG order is a stable sort: it orders the events by key and keeps
/// every event, each as often as it came.
pub proof fn sort_by_key_orders_and_keeps(s: Seq<EpgEventView>)
    ensures
        ordered(sort_by_key(s)),
        sort_by_key(s).len() == s.len(),
        sort_by_key(s).to_multiset() == s.to_multiset(),
    decreases s.len(),
{
    if s.len() == 0 {
        assert(s.to_multiset() =~= Multiset::empty()) by {
            vstd::seq_lib::to_multiset_len(s);
        }
        let e: Seq<EpgEventView> = seq![];
        assert(e.to_multiset() =~= Multiset::empty()) by {
            vstd::seq_lib::to_multiset_len(e);
        }
    } else {
        sort_by_key_orders_and_keeps(s.drop_last());
        lemma_insert_props(sort_by_key(s.drop_last()), s.last());
        vstd::seq_lib::to_multiset_build(s.drop_last(), s.last());
        assert(s.drop_last().push(s.last()) =~= s);
    }
}

proof fn lemma_upcoming_len(s: Seq<EpgEventView>, now: int)
    ensures
        upcoming(s, now).len() <= s.len(),
    decreases s.len(),
{
    if s.len() > 0 {
        lemma_upcoming_len(s.drop_last(), now);
    }
}

proof fn lemma_first_current(s: Seq<EpgEventView>, now: int)
    ensures
        0 <= first_current(s, now) <= s.len(),
        first_current(s, now) < s.len() ==> is_current(s[first_current(s, now)], now),
    decreases s.len(),
{
    if s.len() > 0 && !is_current(s[0], now) {
        lemma_first_current(s.drop_first(), now);
    }
}

/// The EPG list holds at most `EPG_MAX_EVENTS` events, none when there were
/// none, and some when there were some; when an event runs at the list's
/// time, the list starts with it.
pub proof fn events_onward_bounds(events: Seq<EpgEventView>, fallback: i64)
    ensures
        events_onward(events, fallback).len() <= EPG_MAX_EVENTS,
        events.len() == 0 <==> events_onward(events, fallback).len() == 0,
        ({
            let s = sort_by_key(events);
            let now = effective_now(s, fallback);
            first_current(s, now) < s.len() ==> is_current(events_onward(events, fallback)[0], now)
        }),
{
    let s = sort_by_key(events);
    let now = effective_now(s, fallback);
    sort_by_key_orders_and_keeps(events);
    lemma_upcoming_len(s, now);
    lemma_first_current(s, now);
}

proof fn lemma_ordered_drop_last(s: Seq<EpgEventView>)
    requires
        ordered(s),
        s.len() > 0,
    ensures
        ordered(s.drop_last()),
{
    let d = s.drop_last();
    assert forall|i: int, j: int| 0 <= i < j < d.len() implies key_le(#[trigger] d[i], #[trigger] d[j]) by {
        assert(d[i] == s[i] && d[j] == s[j]);
    }
}

proof fn lemma_upcoming_ordered(s: Seq<EpgEventView>, now: int)
    requires
        ordered(s),
    ensures
        ordered(upcoming(s, now)),
        forall|i: int|
            0 <= i < upcoming(s, now).len() ==> exists|k: int|
                0 <= k < s.len() && s[k] == #[trigger] upcoming(s, now)[i],
    decreases s.len(),
{
    if s.len() > 0 {
        let d = s.drop_last();
        let l = s.last();
        lemma_ordered_drop_last(s);
        lemma_upcoming_ordered(d, now);
        let u = upcoming(d, now);
        assert forall|i: int| 0 <= i < u.len() implies exists|k: int|
            0 <= k < s.len() && s[k] == #[trigger] u[i] by {
            let k = choose|k: int| 0 <= k < d.len() && d[k] == u[i];
            assert(s[k] == d[k]);
        }
        if is_upcoming(l, now) {
            let r = u.push(l);
            assert forall|i: int| 0 <= i < u.len() implies key_le(#[trigger] u[i], l) by {
                let k = choose|k: int| 0 <= k < d.len() && d[k] == u[i];
                assert(s[k] == d[k]);
                assert(key_le(s[k], s[s.len() - 1]));
            }
            assert forall|i: int, j: int| 0 <= i < j < r.len() implies key_le(#[trigger] r[i], #[trigger] r[j]) by {
                assert(r[i] == u[i]);
                if j < u.len() {
                    assert(r[j] == u[j]);
                }
            }
            assert forall|i: int| 0 <= i < r.len() implies exists|k: int|
                0 <= k < s.len() && s[k] == #[trigger] r[i] by {
                if i < u.len() {
                    assert(r[i] == u[i]);
                    let k = choose|k: int| 0 <= k < s.len() && s[k] == u[i];
                } else {
                    assert(s[s.len() - 1] == r[i]);
                }
            }
        }
    }
}

proof fn lemma_onward_ordered(s: Seq<EpgEventView>, now: int)
    requires
        ordered(s),
    ensures
        ordered(onward(s, now)),
{
    let k = first_current(s, now);
    lemma_first_current(s, now);
    lemma_upcoming_ordered(s, now);
    let base = if 0 <= k < s.len() {
        s.skip(k)
    } else if upcoming(s, now).len() == 0 {
        s
    } else {
        upcoming(s, now)
    };
    assert(ordered(base)) by {
        if 0 <= k < s.len() {
            assert forall|i: int, j: int| 0 <= i < j < base.len() implies key_le(#[trigger] base[i], #[trigger] base[j]) by {
                assert(base[i] == s[k + i] && base[j] == s[k + j]);
            }
        }
    }
    assert(onward(s, now) == take_max(base));
    let r = take_max(base);
    assert forall|i: int, j: int| 0 <= i < j < r.len() implies key_le(#[trigger] r[i], #[trigger] r[j]) by {
        assert(r[i] == base[i] && r[j] == base[j]);
    }
}

/// The EPG list is in begin-time order, whatever time it is built for: a
/// begin before 1970 counts as 0, and events that begin together are in
/// the order of their ids (a missing id counting as 0).
pub proof fn events_onward_in_time_order(events: Seq<EpgEventView>, fallback: i64)
    ensures
        forall|i: int, j: int|
            0 <= i < j < events_onward(events, fallback).len() ==> {
                let a = #[trigger] events_onward(events, fallback)[i];
                let b = #[trigger] events_onward(events, fallback)[j];
                let ba: int = if a.begin_timestamp > 0 { a.begin_timestamp as int } else { 0 };
                let bb: int = if b.begin_timestamp > 0 { b.begin_timestamp as int } else { 0 };
                let ia: int = match a.id { Some(x) => x as int, None => 0 };
                let ib: int = match b.id { Some(x) => x as int, None => 0 };
                ba < bb || (ba == bb && ia <= ib)
            },
{
    let s = sort_by_key(events);
    sort_by_key_orders_and_keeps(events);
    lemma_onward_ordered(s, effective_now(s, fallback));
}

} // verus!
