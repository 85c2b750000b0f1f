//! Layout and text decisions of the EPG overlay.
use crate::enigma2::epg_text::description_text;
use crate::enigma2::model::EpgEvent;
use crate::text::{chars_of, copy_range, lines, split_lines, string_from, trim, trim_bounds};
use vstd::prelude::*;

pub use crate::ui::epg_order::{events_from_current_onward, events_from_current_onward_at, EPG_MAX_EVENTS};

verus! {

/// Margin left free beside the EPG panel.
pub const EPG_OVERLAY_HORIZONTAL_MARGIN: i32 = 36;

/// Widest the EPG panel grows.
pub const EPG_OVERLAY_MAX_WIDTH: i32 = 1244;

/// Characters shown at most per line of detail text.
pub const EPG_DETAIL_TEXT_MAX_CHARS: i32 = 86;

/// Lines the detail title may take.
pub const EPG_DETAIL_TITLE_MAX_LINES: i32 = 2;

/// Width in characters that the detail title asks for.
pub const EPG_DETAIL_TITLE_REQUEST_CHARS: i32 = 1;

/// Delay before a hovered event is shown in the detail pane.
pub const EPG_HOVER_DETAIL_DELAY_MS: u64 = 50;

/// Width of the EPG panel in a window `root_width` wide: the window less the
/// margin (or the maximum before the window has a width), between 1 and the
/// maximum.
pub open spec fn panel_width(root_width: int) -> int {
    let available = if root_width > 0 {
        root_width - EPG_OVERLAY_HORIZONTAL_MARGIN
    } else {
        EPG_OVERLAY_MAX_WIDTH as int
    };
    if available < 1 {
        1
    } else if available > EPG_OVERLAY_MAX_WIDTH {
        EPG_OVERLAY_MAX_WIDTH as int
    } else {
        available
    }
}

pub fn epg_panel_width(root_width: i32) -> (r: i32)
    ensures
        r as int == panel_width(root_width as int),
        1 <= r <= EPG_OVERLAY_MAX_WIDTH,
{
    let available = if root_width > 0 {
        root_width - EPG_OVERLAY_HORIZONTAL_MARGIN
    } else {
        EPG_OVERLAY_MAX_WIDTH
    };
    if available < 1 {
        1
    } else if available > EPG_OVERLAY_MAX_WIDTH {
        EPG_OVERLAY_MAX_WIDTH
    } else {
        available
    }
}

/// Width to lay the EPG body out in: the body's own width, at most the
/// panel's; the panel's before the body has a width.
pub fn epg_body_layout_width(body_width: i32, root_width: i32) -> (r: i32)
    ensures
        body_width <= 0 ==> r as int == panel_width(root_width as int),
        body_width > 0 ==> r as int == if body_width < panel_width(root_width as int) {
            body_width as int
        } else {
            panel_width(root_width as int)
        },
        1 <= r <= EPG_OVERLAY_MAX_WIDTH,
{
    let panel_width = epg_panel_width(root_width);
    if body_width <= 0 {
        panel_width
    } else if body_width < panel_width {
        body_width
    } else {
        panel_width
    }
}

/// Width of the event list in a body `width` wide: 48 % of it, rounded.
pub fn epg_list_width(width: i32) -> (r: i32)
    requires
        width > 0,
    ensures
        r as int == (48 * width as int + 50) / 100,
        0 <= r <= width,
{
    ((48 * (width as i64) + 50) / 100) as i32
}

/// The title shown for an event: its trimmed title, or a placeholder.
pub open spec fn display_title(title: Seq<char>) -> Seq<char> {
    if trim(title).len() == 0 {
        "Untitled EPG event"@
    } else {
        trim(title)
    }
}

pub fn event_display_title(event: &EpgEvent) -> (r: String)
    ensures
        r@ == display_title(event.title@),
{
    let v = chars_of(event.title.as_str());
    let (a, b) = trim_bounds(v.as_slice(), 0, v.len());
    assert(v@.subrange(0, v@.len() as int) =~= v@);
    if a == b {
        "Untitled EPG event".to_owned()
    } else {
        crate::text::string_from_range(v.as_slice(), a, b)
    }
}

/// The first trimmed line of `value` that is not empty and, when a title is
/// given, not the title.
pub open spec fn meaningful_line(ls: Seq<Seq<char>>, title: Seq<char>) -> Option<Seq<char>>
    decreases ls.len(),
{
    if ls.len() == 0 {
        None
    } else if trim(ls[0]).len() > 0 && (title.len() == 0 || trim(ls[0]) != title) {
        Some(trim(ls[0]))
    } else {
        meaningful_line(ls.drop_first(), title)
    }
}

pub fn first_meaningful_line(value: &str, title: &str) -> (r: Option<String>)
    ensures
        match r {
            Some(l) => meaningful_line(lines(value@), title@) == Some(l@),
            None => meaningful_line(lines(value@), title@) is None,
        },
{
    let v = chars_of(value);
    let t = chars_of(title);
    let ls = split_lines(v.as_slice());
    let ghost lv = ls@.map_values(|l: Vec<char>| l@);
    let mut i: usize = 0;
    assert(lv.skip(0) =~= lv);
    while i < ls.len()
        invariant
            i <= ls.len(),
            lv == ls@.map_values(|l: Vec<char>| l@),
            lv == lines(value@),
            t@ == title@,
            meaningful_line(lv, title@) == meaningful_line(lv.skip(i as int), title@),
        decreases ls.len() - i,
    {
        let line = &ls[i];
        let (a, b) = trim_bounds(line.as_slice(), 0, line.len());
        assert(line@.subrange(0, line@.len() as int) =~= line@);
        assert(lv.skip(i as int)[0] == line@);
        let trimmed = copy_range(line.as_slice(), a, b);
        if b > a && (t.len() == 0 || !crate::text::chars_eq(trimmed.as_slice(), t.as_slice())) {
            return Some(string_from(trimmed.as_slice()));
        }
        assert(lv.skip(i as int).drop_first() =~= lv.skip(i + 1));
        i = i + 1;
    }
    None
}

/// The second line of an event row: the genre when there is one, else the
/// first meaningful description line, else `-`.
pub open spec fn row_meta_text(e: crate::enigma2::model::EpgEventView) -> Seq<char> {
    if trim(e.genre).len() > 0 {
        trim(e.genre)
    } else {
        match meaningful_line(
            lines(description_text(e.shortdesc, e.longdesc, e.title)),
            trim(e.title),
        ) {
            Some(l) => l,
            None => "-"@,
        }
    }
}

pub fn event_row_meta_text(event: &EpgEvent) -> (r: String)
    ensures
        r@ == row_meta_text(event@),
{
    let genre = crate::text::trim_str(event.genre.as_str());
    if !genre.as_str().is_empty() {
        return genre;
    }
    let title = crate::text::trim_str(event.title.as_str());
    let description = event.description();
    match first_meaningful_line(description.as_str(), title.as_str()) {
        Some(l) => l,
        None => "-".to_owned(),
    }
}

/// The channel name shown in the detail pane: the event's service name, or
/// the name of the channel whose EPG is shown.
pub open spec fn detail_channel_name(sname: Seq<char>, channel_name: Option<Seq<char>>) -> Seq<
    char,
> {
    if trim(sname).len() == 0 {
        match channel_name {
            Some(n) => n,
            None => Seq::empty(),
        }
    } else {
        sname
    }
}

pub fn event_channel_name(event: &EpgEvent, channel_name: Option<&str>) -> (r: String)
    ensures
        r@ == detail_channel_name(
            event.sname@,
            match channel_name {
                Some(n) => Some(n@),
                None => None,
            },
        ),
{
    if crate::text::is_blank(event.sname.as_str()) {
        match channel_name {
            Some(n) => n.to_owned(),
            None => String::new(),
        }
    } else {
        event.sname.clone()
    }
}

/// Colour of the time in an event row.
pub const EPG_ROW_TIME_COLOR: &'static str = "#b6b6b6";

/// The heading of the overlay for a channel: `EPG - ` and its trimmed name.
pub fn epg_heading(channel_name: &str) -> (r: String)
    ensures
        r@ == "EPG - "@ + trim(channel_name@),
{
    let mut s = "EPG - ".to_owned();
    let t = crate::text::trim_str(channel_name);
    s.append(t.as_str());
    s
}

/// The time line of the detail pane: the trimmed channel name and the time
/// range two spaces apart, or the time range alone without a name.
pub open spec fn detail_time_text(channel_name: Seq<char>, time_range: Seq<char>) -> Seq<char> {
    if trim(channel_name).len() == 0 {
        time_range
    } else {
        trim(channel_name) + "  "@ + time_range
    }
}

pub fn event_detail_time(channel_name: &str, time_range: &str) -> (r: String)
    ensures
        r@ == detail_time_text(channel_name@, time_range@),
{
    let name = crate::text::trim_str(channel_name);
    if name.as_str().is_empty() {
        return time_range.to_owned();
    }
    let mut s = name;
    s.append("  ");
    s.append(time_range);
    s
}

/// Pango markup of an event row from its escaped texts: the time in grey,
/// two spaces, the title.
pub open spec fn event_markup(time_text: Seq<char>, title_text: Seq<char>) -> Seq<char> {
    "<span foreground=\""@ + EPG_ROW_TIME_COLOR@ + "\">"@ + time_text + "</span>  "@ + title_text
}

pub fn event_row_markup(time_text: &str, title_text: &str) -> (r: String)
    ensures
        r@ == event_markup(time_text@, title_text@),
{
    let mut s = "<span foreground=\"".to_owned();
    s.append(EPG_ROW_TIME_COLOR);
    s.append("\">");
    s.append(time_text);
    s.append("</span>  ");
    s.append(title_text);
    s
}

} // verus!
