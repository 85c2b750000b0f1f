//! The handles along the edges of the undecorated window that let the user
//! resize it.
use vstd::prelude::*;

verus! {

/// The edge or corner of the window a handle resizes.
#[derive(Clone, Copy, Debug, PartialEq, Eq, Structural)]
pub enum ResizeEdge {
    North,
    South,
    West,
    East,
    NorthWest,
    NorthEast,
    SouthWest,
    SouthEast,
}

/// How a handle is placed along one axis of the window.
#[derive(Clone, Copy, Debug, PartialEq, Eq, Structural)]
pub enum HandleAlign {
    Fill,
    Start,
    End,
}

/// Thickness of a handle along a side.
pub const SIDE_HANDLE_SIZE: i32 = 6;

/// Width and height of a corner handle.
pub const CORNER_HANDLE_SIZE: i32 = 12;

/// A resize handle: the edge it resizes, where it sits, its size (`-1`
/// along the axis it spans) and the cursor shown over it.
#[derive(Clone, Copy, Debug, PartialEq, Eq)]
pub struct ResizeHandleSpec {
    pub edge: ResizeEdge,
    pub halign: HandleAlign,
    pub valign: HandleAlign,
    pub width: i32,
    pub height: i32,
    pub cursor: &'static str,
}

/// The edges in the order their handles are added.
pub open spec fn handle_edges() -> Seq<ResizeEdge> {
    seq![
        ResizeEdge::North,
        ResizeEdge::South,
        ResizeEdge::West,
        ResizeEdge::East,
        ResizeEdge::NorthWest,
        ResizeEdge::NorthEast,
        ResizeEdge::SouthWest,
        ResizeEdge::SouthEast,
    ]
}

/// Where the handle of `e` sits across the window.
pub open spec fn halign_of(e: ResizeEdge) -> HandleAlign {
    match e {
        ResizeEdge::North | ResizeEdge::South => HandleAlign::Fill,
        ResizeEdge::West | ResizeEdge::NorthWest | ResizeEdge::SouthWest => HandleAlign::Start,
        ResizeEdge::East | ResizeEdge::NorthEast | ResizeEdge::SouthEast => HandleAlign::End,
    }
}

/// Where the handle of `e` sits down the window.
pub open spec fn valign_of(e: ResizeEdge) -> HandleAlign {
    match e {
        ResizeEdge::West | ResizeEdge::East => HandleAlign::Fill,
        ResizeEdge::North | ResizeEdge::NorthWest | ResizeEdge::NorthEast => HandleAlign::Start,
        ResizeEdge::South | ResizeEdge::SouthWest | ResizeEdge::SouthEast => HandleAlign::End,
    }
}

/// Size of a handle along an axis: unset (`-1`) where it spans the window,
/// the side thickness across a side, the corner size for a corner.
pub open spec fn size_along(along: HandleAlign, across: HandleAlign) -> i32 {
    if along == HandleAlign::Fill {
        -1i32
    } else if across == HandleAlign::Fill {
        SIDE_HANDLE_SIZE
    } else {
        CORNER_HANDLE_SIZE
    }
}

/// The cursor name shown over the handle of `e`.
pub open spec fn cursor_of(e: ResizeEdge) -> Seq<char> {
    match e {
        ResizeEdge::North => "n-resize"@,
        ResizeEdge::South => "s-resize"@,
        ResizeEdge::West => "w-resize"@,
        ResizeEdge::East => "e-resize"@,
        ResizeEdge::NorthWest => "nw-resize"@,
        ResizeEdge::NorthEast => "ne-resize"@,
        ResizeEdge::SouthWest => "sw-resize"@,
        ResizeEdge::SouthEast => "se-resize"@,
    }
}

/// The handle for `e` is as described above.
pub open spec fn handle_is(h: ResizeHandleSpec, e: ResizeEdge) -> bool {
    &&& h.edge == e
    &&& h.halign == halign_of(e)
    &&& h.valign == valign_of(e)
    &&& h.width == size_along(halign_of(e), valign_of(e))
    &&& h.height == size_along(valign_of(e), halign_of(e))
    &&& h.cursor@ == cursor_of(e)
}

fn handle(
    edge: ResizeEdge,
    halign: HandleAlign,
    valign: HandleAlign,
    width: i32,
    height: i32,
    cursor: &'static str,
) -> (r: ResizeHandleSpec)
    ensures
        r == (ResizeHandleSpec { edge, halign, valign, width, height, cursor }),
{
    ResizeHandleSpec { edge, halign, valign, width, height, cursor }
}

/// The eight resize handles: one for each side and corner.
pub fn resize_specs() -> (r: [ResizeHandleSpec; 8])
    ensures
        forall|i: int| 0 <= i < 8 ==> handle_is(#[trigger] r@[i], handle_edges()[i]),
{
    let r = [
        handle(ResizeEdge::North, HandleAlign::Fill, HandleAlign::Start, -1, SIDE_HANDLE_SIZE, "n-resize"),
        handle(ResizeEdge::South, HandleAlign::Fill, HandleAlign::End, -1, SIDE_HANDLE_SIZE, "s-resize"),
        handle(ResizeEdge::West, HandleAlign::Start, HandleAlign::Fill, SIDE_HANDLE_SIZE, -1, "w-resize"),
        handle(ResizeEdge::East, HandleAlign::End, HandleAlign::Fill, SIDE_HANDLE_SIZE, -1, "e-resize"),
        handle(
            ResizeEdge::NorthWest,
            HandleAlign::Start,
            HandleAlign::Start,
            CORNER_HANDLE_SIZE,
            CORNER_HANDLE_SIZE,
            "nw-resize",
        ),
        handle(
            ResizeEdge::NorthEast,
            HandleAlign::End,
            HandleAlign::Start,
            CORNER_HANDLE_SIZE,
            CORNER_HANDLE_SIZE,
            "ne-resize",
        ),
        handle(
            ResizeEdge::SouthWest,
            HandleAlign::Start,
            HandleAlign::End,
            CORNER_HANDLE_SIZE,
            CORNER_HANDLE_SIZE,
            "sw-resize",
        ),
        handle(
            ResizeEdge::SouthEast,
            HandleAlign::End,
            HandleAlign::End,
            CORNER_HANDLE_SIZE,
            CORNER_HANDLE_SIZE,
            "se-resize",
        ),
    ];
    proof {
        reveal_strlit("n-resize");
        reveal_strlit("s-resize");
        reveal_strlit("w-resize");
        reveal_strlit("e-resize");
        reveal_strlit("nw-resize");
        reveal_strlit("ne-resize");
        reveal_strlit("sw-resize");
        reveal_strlit("se-resize");
    }
    r
}

/// A handle spans the window along an axis exactly where it is set to fill
/// it, and then grows with the window.
pub fn expands(align: HandleAlign) -> (r: bool)
    ensures
        r == (align == HandleAlign::Fill),
{
    match align {
        HandleAlign::Fill => true,
        _ => false,
    }
}

/// A press on a handle starts a resize only when it is a single press and
/// the window is not fullscreen.
pub fn should_begin_resize(n_press: i32, fullscreen: bool) -> (r: bool)
    ensures
        r == (n_press == 1 && !fullscreen),
{
    n_press == 1 && !fullscreen
}

/// Every side and corner has exactly one handle; side handles are thin
/// and span their side, corner handles are squares.
pub proof fn each_edge_has_one_handle(e: ResizeEdge)
    ensures
        exists|i: int| 0 <= i < 8 && handle_edges()[i] == e,
        forall|i: int, j: int|
            0 <= i < j < 8 ==> #[trigger] handle_edges()[i] != #[trigger] handle_edges()[j],
        (halign_of(e) == HandleAlign::Fill || valign_of(e) == HandleAlign::Fill) ==> (size_along(
            halign_of(e),
            valign_of(e),
        ) == -1 || size_along(valign_of(e), halign_of(e)) == -1),
        (halign_of(e) != HandleAlign::Fill && valign_of(e) != HandleAlign::Fill) ==> (size_along(
            halign_of(e),
            valign_of(e),
        ) == CORNER_HANDLE_SIZE && size_along(valign_of(e), halign_of(e)) == CORNER_HANDLE_SIZE),
{
    let s = handle_edges();
    match e {
        ResizeEdge::North => assert(s[0] == e),
        ResizeEdge::South => assert(s[1] == e),
        ResizeEdge::West => assert(s[2] == e),
        ResizeEdge::East => assert(s[3] == e),
        ResizeEdge::NorthWest => assert(s[4] == e),
        ResizeEdge::NorthEast => assert(s[5] == e),
        ResizeEdge::SouthWest => assert(s[6] == e),
        ResizeEdge::SouthEast => assert(s[7] == e),
    }
}

} // verus!
