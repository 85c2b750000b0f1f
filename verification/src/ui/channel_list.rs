//! Which channels of a bouquet the channel overlay lists for a search text,
//! which of them is the one playing, which one the detail pane shows, and
//! the texts of a row.
use crate::enigma2::model::{channels_view, Channel, ChannelView};
use crate::num::{decimal, push_decimal};
use crate::text::{chars_eq, chars_of, starts_with_at, string_from_range, trim, trim_bounds};
use vstd::prelude::*;

verus! {

/// Colour of the event title in a channel row.
pub const CHANNEL_ROW_EVENT_COLOR: &'static str = "#b6b6b6";

/// The lower-case form of `s` (`str::to_lowercase`).
pub uninterp spec fn lowercase(s: Seq<char>) -> Seq<char>;

/// `str::to_lowercase`: the text with each character replaced by its Unicode
/// lower-case mapping. The mapping is the standard library's tables; the
/// contract names the result and states nothing of those tables.
#[verifier::external_body]
fn to_lowercase(s: &str) -> (r: String)
    ensures
        r@ == lowercase(s@),
{
    s.to_lowercase()
}

/// `needle` occurs in `hay` as a run of consecutive characters.
pub open spec fn contains_text(hay: Seq<char>, needle: Seq<char>) -> bool {
    exists|i: int|
        0 <= i && i + needle.len() <= hay.len() && #[trigger] hay.subrange(i, i + needle.len())
            == needle
}

/// Whether `needle` occurs in `hay`.
pub fn contains_chars(hay: &[char], needle: &[char]) -> (r: bool)
    ensures
        r == contains_text(hay@, needle@),
{
    if needle.len() > hay.len() {
        return false;
    }
    let last = hay.len() - needle.len();
    let mut i: usize = 0;
    loop
        invariant
            last == hay.len() - needle.len(),
            i <= last,
            forall|k: int|
                0 <= k < i ==> #[trigger] hay@.subrange(k, k + needle@.len()) != needle@,
        decreases last - i,
    {
        assert(hay@.subrange(i as int, hay.len() as int).take(needle.len() as int)
            =~= hay@.subrange(i as int, i + needle.len()));
        if starts_with_at(hay, i, needle) {
            return true;
        }
        if i == last {
            return false;
        }
        i = i + 1;
    }
}

/// The lower-cased search text `filter` matches channel `c`: it is empty,
/// or it occurs in the lower-cased channel name or in the lower-cased title
/// of the channel's EPG event.
pub open spec fn channel_matches(c: ChannelView, filter: Seq<char>) -> bool {
    ||| filter.len() == 0
    ||| contains_text(lowercase(c.name), filter)
    ||| (c.epg matches Some(e) && contains_text(lowercase(e.title), filter))
}

/// Two service references name the same service: equal once trimmed.
pub open spec fn same_service(a: Seq<char>, b: Seq<char>) -> bool {
    trim(a) == trim(b)
}

/// Channel `c` is the one playing, whose service reference is `current`.
pub open spec fn is_playing_channel(c: ChannelView, current: Option<Seq<char>>) -> bool {
    current matches Some(r) && same_service(r, c.service_ref)
}

/// A listed channel: its index in the bouquet, and whether it is the one
/// playing.
#[derive(Clone, Copy, Debug, PartialEq, Eq)]
pub struct ChannelRow {
    pub index: usize,
    pub selected: bool,
}

/// The rows the overlay lists and the row whose channel the detail pane
/// shows.
pub struct ChannelListing {
    pub rows: Vec<ChannelRow>,
    pub detail: Option<usize>,
}

/// The rows for `channels`: one for each channel that `filter` matches, in
/// bouquet order.
pub open spec fn rows_of(channels: Seq<ChannelView>, filter: Seq<char>, current: Option<Seq<char>>) -> Seq<
    ChannelRow,
>
    decreases channels.len(),
{
    if channels.len() == 0 {
        seq![]
    } else {
        let before = rows_of(channels.drop_last(), filter, current);
        let c = channels.last();
        if channel_matches(c, filter) {
            before.push(
                ChannelRow {
                    index: (channels.len() - 1) as usize,
                    selected: is_playing_channel(c, current),
                },
            )
        } else {
            before
        }
    }
}

/// The channel the detail pane shows: the last listed one that plays, else
/// the first listed one; none when nothing is listed.
pub open spec fn detail_of(rows: Seq<ChannelRow>) -> Option<usize>
    decreases rows.len(),
{
    if rows.len() == 0 {
        None
    } else {
        let before = detail_of(rows.drop_last());
        if before is None || rows.last().selected {
            Some(rows.last().index)
        } else {
            before
        }
    }
}

pub open spec fn opt_text(s: Option<&str>) -> Option<Seq<char>> {
    match s {
        Some(t) => Some(t@),
        None => None,
    }
}

/// Whether `left` and `right` name the same service (equal once trimmed).
pub fn same_service_ref(left: &str, right: &str) -> (r: bool)
    ensures
        r == same_service(left@, right@),
{
    let a = chars_of(left);
    let b = chars_of(right);
    let (a0, a1) = trim_bounds(a.as_slice(), 0, a.len());
    let (b0, b1) = trim_bounds(b.as_slice(), 0, b.len());
    assert(a@.subrange(0, a@.len() as int) =~= a@);
    assert(b@.subrange(0, b@.len() as int) =~= b@);
    let ta = crate::text::copy_range(a.as_slice(), a0, a1);
    let tb = crate::text::copy_range(b.as_slice(), b0, b1);
    chars_eq(ta.as_slice(), tb.as_slice())
}

/// The service reference to mark as playing: `service_ref` trimmed, none
/// when it is missing or blank.
pub fn current_service_ref_from(service_ref: Option<&str>) -> (r: Option<String>)
    ensures
        match service_ref {
            Some(s) => if trim(s@).len() > 0 {
                r matches Some(t) && t@ == trim(s@)
            } else {
                r is None
            },
            None => r is None,
        },
{
    match service_ref {
        Some(s) => {
            let v = chars_of(s);
            let (a, b) = trim_bounds(v.as_slice(), 0, v.len());
            assert(v@.subrange(0, v@.len() as int) =~= v@);
            if a == b {
                None
            } else {
                Some(string_from_range(v.as_slice(), a, b))
            }
        },
        None => None,
    }
}

/// Whether the lower-cased search text `filter` matches `channel`.
fn matches_filter(channel: &Channel, filter: &[char]) -> (r: bool)
    ensures
        r == channel_matches(channel@, filter@),
{
    if filter.len() == 0 {
        return true;
    }
    let name = to_lowercase(channel.name.as_str());
    let name_chars = chars_of(name.as_str());
    if contains_chars(name_chars.as_slice(), filter) {
        return true;
    }
    match &channel.epg {
        Some(e) => {
            let title = to_lowercase(e.title.as_str());
            let title_chars = chars_of(title.as_str());
            contains_chars(title_chars.as_slice(), filter)
        },
        None => false,
    }
}

/// The channels of a bouquet that the overlay lists for `search_text`, in
/// order, each marked when its service is `current_service_ref`, and the
/// channel that the detail pane shows.
pub fn channel_listing(channels: &[Channel], search_text: &str, current_service_ref: Option<&str>) -> (r:
    ChannelListing)
    ensures
        r.rows@ == rows_of(channels_view(channels@), lowercase(search_text@), opt_text(current_service_ref)),
        r.detail == detail_of(r.rows@),
{
    let lowered = to_lowercase(search_text);
    let filter = chars_of(lowered.as_str());
    let ghost f = lowercase(search_text@);
    let ghost cur = opt_text(current_service_ref);
    let ghost all = channels_view(channels@);
    let mut rows: Vec<ChannelRow> = Vec::new();
    let mut detail: Option<usize> = None;
    let mut i: usize = 0;
    while i < channels.len()
        invariant
            i <= channels.len(),
            filter@ == f,
            f == lowercase(search_text@),
            cur == opt_text(current_service_ref),
            all == channels_view(channels@),
            rows@ == rows_of(all.take(i as int), f, cur),
            detail == detail_of(rows@),
        decreases channels.len() - i,
    {
        let c = &channels[i];
        assert(all.take(i + 1).drop_last() =~= all.take(i as int));
        assert(all.take(i + 1).last() == c@);
        if matches_filter(c, filter.as_slice()) {
            let selected = match current_service_ref {
                Some(r) => same_service_ref(r, c.service_ref.as_str()),
                None => false,
            };
            let ghost before = rows@;
            rows.push(ChannelRow { index: i, selected });
            assert(rows@.drop_last() =~= before);
            if detail.is_none() || selected {
                detail = Some(i);
            }
        }
        i = i + 1;
    }
    assert(all.take(channels.len() as int) =~= all);
    ChannelListing { rows, detail }
}

/// Every listed channel matches the search text, the rows follow bouquet
/// order, and the detail pane shows a listed channel: the playing one when
/// one is listed.
pub proof fn listing_is_consistent(
    channels: Seq<ChannelView>,
    filter: Seq<char>,
    current: Option<Seq<char>>,
)
    requires
        channels.len() <= usize::MAX,
    ensures
        forall|k: int|
            0 <= k < rows_of(channels, filter, current).len() ==> {
                let row = #[trigger] rows_of(channels, filter, current)[k];
                &&& row.index < channels.len()
                &&& channel_matches(channels[row.index as int], filter)
                &&& row.selected == is_playing_channel(channels[row.index as int], current)
            },
        forall|k: int, l: int|
            0 <= k < l < rows_of(channels, filter, current).len() ==> (#[trigger] rows_of(
                channels,
                filter,
                current,
            )[k]).index < (#[trigger] rows_of(channels, filter, current)[l]).index,
        detail_of(rows_of(channels, filter, current)) is Some <==> rows_of(
            channels,
            filter,
            current,
        ).len() > 0,
    decreases channels.len(),
{
    let rows = rows_of(channels, filter, current);
    lemma_detail_listed(rows);
    if channels.len() > 0 {
        let init = channels.drop_last();
        listing_is_consistent(init, filter, current);
        let before = rows_of(init, filter, current);
        assert forall|k: int| 0 <= k < before.len() implies channels[(#[trigger] before[k]).index as int]
            == init[before[k].index as int] by {}
        assert forall|k: int| 0 <= k < rows.len() implies {
            let row = #[trigger] rows[k];
            &&& row.index < channels.len()
            &&& channel_matches(channels[row.index as int], filter)
            &&& row.selected == is_playing_channel(channels[row.index as int], current)
        } by {
            if k < before.len() {
                assert(rows[k] == before[k]);
            }
        }
        assert forall|k: int, l: int| 0 <= k < l < rows.len() implies (#[trigger] rows[k]).index
            < (#[trigger] rows[l]).index by {
            assert(rows[k] == before[k]);
            if l < before.len() {
                assert(rows[l] == before[l]);
            }
        }
    }
}

/// Every channel that the search text matches is listed: when `filter` (the
/// lower-cased search text) is empty, or occurs in the lower-cased name or
/// in the lower-cased title of the channel's EPG event, some row has the
/// channel's index, marked exactly when the channel is the one playing.
pub proof fn every_matching_channel_is_listed(
    channels: Seq<ChannelView>,
    filter: Seq<char>,
    current: Option<Seq<char>>,
)
    requires
        channels.len() <= usize::MAX,
    ensures
        forall|i: int|
            0 <= i < channels.len() && (filter.len() == 0 || contains_text(
                lowercase(channels[i].name),
                filter,
            ) || (channels[i].epg matches Some(e) && contains_text(lowercase(e.title), filter)))
                ==> exists|k: int|
                0 <= k < rows_of(channels, filter, current).len() && (#[trigger] rows_of(
                    channels,
                    filter,
                    current,
                )[k]).index == i && rows_of(channels, filter, current)[k].selected == (
                current matches Some(r) && trim(r) == trim(channels[i].service_ref)),
    decreases channels.len(),
{
    let rows = rows_of(channels, filter, current);
    if channels.len() > 0 {
        let init = channels.drop_last();
        every_matching_channel_is_listed(init, filter, current);
        let before = rows_of(init, filter, current);
        let l = channels.len() - 1;
        assert(channels[l] == channels.last());
        assert forall|i: int|
            0 <= i < channels.len() && (filter.len() == 0 || contains_text(
                lowercase(channels[i].name),
                filter,
            ) || (channels[i].epg matches Some(e) && contains_text(lowercase(e.title), filter)))
                implies exists|k: int|
                0 <= k < rows.len() && (#[trigger] rows[k]).index == i && rows[k].selected == (
                current matches Some(r) && trim(r) == trim(channels[i].service_ref)) by {
            if i < l {
                assert(init[i] == channels[i]);
                let k = choose|k: int|
                    0 <= k < before.len() && (#[trigger] before[k]).index == i && before[k].selected
                        == (current matches Some(r) && trim(r) == trim(init[i].service_ref));
                assert(rows[k] == before[k]);
            } else {
                assert(channel_matches(channels.last(), filter));
                assert(rows[rows.len() - 1] == rows.last());
            }
        }
    }
}

/// The detail channel is one of the rows, the playing one when a row plays.
pub proof fn lemma_detail_listed(rows: Seq<ChannelRow>)
    ensures
        detail_of(rows) is Some <==> rows.len() > 0,
        detail_of(rows) matches Some(d) ==> exists|k: int|
            0 <= k < rows.len() && (#[trigger] rows[k]).index == d,
        (exists|k: int| 0 <= k < rows.len() && (#[trigger] rows[k]).selected) ==> (detail_of(rows) matches Some(d)
            && exists|k: int| 0 <= k < rows.len() && (#[trigger] rows[k]).selected && rows[k].index == d),
    decreases rows.len(),
{
    if rows.len() > 0 {
        let before = rows.drop_last();
        lemma_detail_listed(before);
        if detail_of(before) is Some && !rows.last().selected {
            let d = detail_of(before).unwrap();
            let k = choose|k: int| 0 <= k < before.len() && (#[trigger] before[k]).index == d;
            assert(rows[k] == before[k]);
            if exists|k: int| 0 <= k < rows.len() && (#[trigger] rows[k]).selected {
                let j = choose|j: int| 0 <= j < rows.len() && (#[trigger] rows[j]).selected;
                assert(j < before.len());
                assert(before[j].selected);
                let m = choose|m: int|
                    0 <= m < before.len() && (#[trigger] before[m]).selected && before[m].index == d;
                assert(rows[m] == before[m]);
            }
        } else {
            assert(rows[rows.len() - 1] == rows.last());
        }
    }
}

/// The text of a channel row: position, a space, the name.
pub open spec fn row_text(c: ChannelView) -> Seq<char> {
    decimal(c.position as nat) + seq![' '] + c.name
}

pub fn channel_row_text(channel: &Channel) -> (r: String)
    ensures
        r@ == row_text(channel@),
{
    let mut s = String::new();
    push_decimal(&mut s, channel.position as u64);
    crate::text::push_char(&mut s, ' ');
    s.append(channel.name.as_str());
    assert(s@ =~= row_text(channel@));
    s
}

/// The EPG title shown beside a channel row: the trimmed title of its
/// event, empty when it has none.
pub open spec fn row_event_title(c: ChannelView) -> Seq<char> {
    match c.epg {
        Some(e) => trim(e.title),
        None => seq![],
    }
}

pub fn channel_row_event_title(channel: &Channel) -> (r: String)
    ensures
        r@ == row_event_title(channel@),
{
    match &channel.epg {
        Some(e) => crate::text::trim_str(e.title.as_str()),
        None => String::new(),
    }
}

/// Pango markup of a channel row from its escaped texts: the channel text,
/// and the event title in grey after two spaces when there is one.
pub open spec fn row_markup(channel_text: Seq<char>, event_text: Seq<char>) -> Seq<char> {
    if event_text.len() == 0 {
        channel_text
    } else {
        channel_text + "  <span foreground=\""@ + CHANNEL_ROW_EVENT_COLOR@ + "\">"@ + event_text
            + "</span>"@
    }
}

pub fn channel_row_markup(channel_text: &str, event_text: &str) -> (r: String)
    ensures
        r@ == row_markup(channel_text@, event_text@),
{
    let mut s = channel_text.to_owned();
    if !event_text.is_empty() {
        s.append("  <span foreground=\"");
        s.append(CHANNEL_ROW_EVENT_COLOR);
        s.append("\">");
        s.append(event_text);
        s.append("</span>");
    }
    s
}

/// The heading of the overlay for a bouquet: `TV - ` and its trimmed name.
pub fn bouquet_heading(name: &str) -> (r: String)
    ensures
        r@ == "TV - "@ + trim(name@),
{
    let mut s = "TV - ".to_owned();
    let t = crate::text::trim_str(name);
    s.append(t.as_str());
    s
}

/// The time line of the detail pane for a channel with an event: its name
/// and the event's time range, two spaces apart.
pub fn channel_detail_time(channel_name: &str, time_range: &str) -> (r: String)
    ensures
        r@ == channel_name@ + "  "@ + time_range@,
{
    let mut s = channel_name.to_owned();
    s.append("  ");
    s.append(time_range);
    s
}

} // verus!
