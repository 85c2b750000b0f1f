//! Layout and list decisions of the channel overlay.
use vstd::prelude::*;

verus! {

/// Margin left free beside the channel panel.
pub const CHANNEL_OVERLAY_PANEL_HORIZONTAL_MARGIN: i32 = 36;

/// Width to lay the channel body out in: the body's own width, at most the
/// window less the margin; before the body has a width, the window less the
/// margin; before the window has one, the body's.
pub open spec fn body_layout_width(body_width: int, root_width: int) -> int {
    if root_width <= 0 {
        body_width
    } else {
        let available = if root_width - CHANNEL_OVERLAY_PANEL_HORIZONTAL_MARGIN < 1 {
            1
        } else {
            root_width - CHANNEL_OVERLAY_PANEL_HORIZONTAL_MARGIN
        };
        if body_width <= 0 {
            available
        } else if body_width < available {
            body_width
        } else {
            available
        }
    }
}

pub fn channel_body_layout_width(body_width: i32, root_width: i32) -> (r: i32)
    ensures
        r as int == body_layout_width(body_width as int, root_width as int),
{
    if root_width <= 0 {
        return body_width;
    }
    let available = if root_width - CHANNEL_OVERLAY_PANEL_HORIZONTAL_MARGIN < 1 {
        1
    } else {
        root_width - CHANNEL_OVERLAY_PANEL_HORIZONTAL_MARGIN
    };
    if body_width <= 0 {
        available
    } else if body_width < available {
        body_width
    } else {
        available
    }
}

/// Width of the channel list in a body `width` wide: 60 % of it, rounded.
pub fn channel_list_width(width: i32) -> (r: i32)
    requires
        width > 0,
    ensures
        r as int == (6 * width as int + 5) / 10,
        0 <= r <= width,
{
    ((6 * (width as i64) + 5) / 10) as i32
}

/// Width of the detail pane beside a list `list_width` wide: the rest of
/// the body, at least 1.
pub fn detail_width(width: i32, list_width: i32) -> (r: i32)
    requires
        0 <= list_width <= width,
    ensures
        r == if width - list_width < 1 {
            1
        } else {
            width - list_width
        },
{
    if width - list_width < 1 {
        1
    } else {
        width - list_width
    }
}

/// The bouquet `direction` steps away from `current`, wrapping around at
/// both ends (`(current + direction).rem_euclid(count)`).
pub fn shifted_bouquet_index(current: usize, direction: i64, count: usize) -> (r: usize)
    requires
        count > 0,
        count <= i64::MAX,
        current <= i64::MAX,
        i64::MIN <= current + direction <= i64::MAX,
    ensures
        r < count,
        r as int == (current + direction) % (count as int),
{
    let n: i64 = current as i64 + direction;
    let c: u64 = count as u64;
    if n >= 0 {
        let m: u64 = (n as u64) % c;
        m as usize
    } else {
        let p: u64 = (-(n + 1)) as u64;
        let k: u64 = p % c;
        let m: u64 = c - 1 - k;
        proof {
            let q: int = p as int / c as int;
            vstd::arithmetic::div_mod::lemma_fundamental_div_mod(p as int, c as int);
            assert(p as int == (c as int) * q + k as int);
            assert(n as int == (-q - 1) * (c as int) + m as int) by (nonlinear_arith)
                requires
                    p as int == (c as int) * q + k as int,
                    n as int == -(p as int) - 1,
                    m as int == c as int - 1 - k as int,
            ;
            vstd::arithmetic::div_mod::lemma_fundamental_div_mod_converse(
                n as int,
                c as int,
                -q - 1,
                m as int,
            );
        }
        m as usize
    }
}

} // verus!
