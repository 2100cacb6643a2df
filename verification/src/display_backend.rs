//! What eww tells an X server about a window: the space at the edge of the
//! screen that the window reserves (its struts), as the twelve values of the
//! `_NET_WM_STRUT_PARTIAL` property, and the bytes that carry them. The
//! first four values are the older `_NET_WM_STRUT` property. On wayland,
//! how a window is anchored to the edges of its monitor.

use vstd::prelude::*;

verus! {

/// The side of the screen that a window's struts reserve space at.
#[derive(Debug, PartialEq, Eq, Structural, Clone, Copy)]
pub enum Side {
    Top,
    Left,
    Right,
    Bottom,
}

/// A rectangle of the screen, in pixels: its corner and its size.
#[derive(Debug, PartialEq, Eq, Structural, Clone, Copy)]
pub struct Rectangle {
    pub x: i32,
    pub y: i32,
    pub width: i32,
    pub height: i32,
}

/// What `as u32` makes of the 32-bit signed value `v`: the same value
/// modulo 2^32.
pub open spec fn as_u32(v: int) -> int {
    if v < 0 {
        v + 0x1_0000_0000
    } else {
        v
    }
}

/// The last pixel of a monitor along one axis, from its start and its
/// length.
pub open spec fn monitor_end(start: i32, len: i32) -> int {
    as_u32(start + len) - 1
}

/// The values of the `_NET_WM_STRUT_PARTIAL` property of a window that
/// reserves `dist` pixels at the side `side` of the monitor `m`, on a root
/// window of `root_width` by `root_height`: the space at the left, right,
/// top and bottom, then the start and end of each strut along its side.
pub open spec fn strut_values(side: Side, m: Rectangle, root_width: u16, root_height: u16, dist: u32) -> Seq<int> {
    let end_x = monitor_end(m.x, m.width);
    let end_y = monitor_end(m.y, m.height);
    match side {
        Side::Left => seq![dist + as_u32(m.x as int), 0, 0, 0, as_u32(m.y as int), end_y, 0, 0, 0, 0, 0, 0],
        Side::Right => seq![0, root_width - end_x + dist, 0, 0, 0, 0, as_u32(m.y as int), end_y, 0, 0, 0, 0],
        Side::Top => seq![0, 0, dist + as_u32(m.y as int), 0, 0, 0, 0, 0, as_u32(m.x as int), end_x, 0, 0],
        Side::Bottom => seq![0, 0, 0, root_height - end_y + dist, 0, 0, 0, 0, 0, 0, as_u32(m.x as int), end_x],
    }
}

/// Whether the values can be computed in 32 bits: the monitor's ends
/// neither overflow nor lie before the first pixel, and the value for the
/// side neither goes below zero nor past `u32::MAX`.
pub open spec fn strut_computable(side: Side, m: Rectangle, root_width: u16, root_height: u16, dist: u32) -> bool {
    let end_x = monitor_end(m.x, m.width);
    let end_y = monitor_end(m.y, m.height);
    &&& i32::MIN <= m.x + m.width <= i32::MAX
    &&& i32::MIN <= m.y + m.height <= i32::MAX
    &&& m.x + m.width != 0
    &&& m.y + m.height != 0
    &&& match side {
        Side::Left => dist + as_u32(m.x as int) <= u32::MAX,
        Side::Right => end_x <= root_width && root_width - end_x + dist <= u32::MAX,
        Side::Top => dist + as_u32(m.y as int) <= u32::MAX,
        Side::Bottom => end_y <= root_height && root_height - end_y + dist <= u32::MAX,
    }
}

/// `v as u32`.
fn wrap_u32(v: i32) -> (r: u32)
    ensures
        r == as_u32(v as int),
{
    if v < 0 {
        let w: i64 = v as i64 + 0x1_0000_0000i64;
        w as u32
    } else {
        v as u32
    }
}

/// The last pixel of a monitor along one axis.
fn monitor_end_of(start: i32, len: i32) -> (r: u32)
    requires
        i32::MIN <= start + len <= i32::MAX,
        start + len != 0,
    ensures
        r == monitor_end(start, len),
{
    wrap_u32(start + len) - 1
}

/// The values of the `_NET_WM_STRUT_PARTIAL` property for a window that
/// reserves `dist` pixels at the side `side` of the monitor `monitor`.
pub fn strut_list(side: Side, monitor: &Rectangle, root_width: u16, root_height: u16, dist: u32) -> (r: Vec<u32>)
    requires
        strut_computable(side, *monitor, root_width, root_height, dist),
    ensures
        r@.len() == 12,
        forall|i: int| 0 <= i < 12 ==> r@[i] == #[trigger] strut_values(side, *monitor, root_width, root_height, dist)[i],
{
    let end_x = monitor_end_of(monitor.x, monitor.width);
    let end_y = monitor_end_of(monitor.y, monitor.height);
    let x = wrap_u32(monitor.x);
    let y = wrap_u32(monitor.y);
    let r = match side {
        Side::Left => {
            let left = dist + x;
            vec![left, 0, 0, 0, y, end_y, 0, 0, 0, 0, 0, 0]
        },
        Side::Right => {
            let right = root_width as u32 - end_x + dist;
            vec![0, right, 0, 0, 0, 0, y, end_y, 0, 0, 0, 0]
        },
        Side::Top => {
            let top = dist + y;
            vec![0, 0, top, 0, 0, 0, 0, 0, x, end_x, 0, 0]
        },
        Side::Bottom => {
            let bottom = root_height as u32 - end_y + dist;
            vec![0, 0, 0, bottom, 0, 0, 0, 0, 0, 0, x, end_x]
        },
    };
    proof {
        let s = strut_values(side, *monitor, root_width, root_height, dist);
        assert forall|i: int| 0 <= i < 12 implies r@[i] == #[trigger] s[i] by {}
    }
    r
}

/// The strut of a window spans exactly its monitor along the side it
/// reserves space at: from the monitor's first pixel (its `x` for the top
/// and the bottom, its `y` for the left and the right, as the X server reads
/// a negative one) to its last pixel; the space reserved at that side is
/// `dist` from the monitor's edge; every other value is zero.
pub proof fn law_strut_spans_the_monitor(side: Side, m: Rectangle, root_width: u16, root_height: u16, dist: u32)
    ensures
        ({
            let v = strut_values(side, m, root_width, root_height, dist);
            let first_x = if m.x >= 0 { m.x as int } else { m.x + 0x1_0000_0000 };
            let first_y = if m.y >= 0 { m.y as int } else { m.y + 0x1_0000_0000 };
            &&& v.len() == 12
            &&& side is Top ==> {
                &&& v[8] == first_x
                &&& (m.x + m.width > 0 ==> v[9] == m.x + m.width - 1)
                &&& (m.y >= 0 ==> v[2] == dist + m.y)
                &&& forall|i: int| 0 <= i < 12 && i != 2 && i != 8 && i != 9 ==> v[i] == 0
            }
            &&& side is Bottom ==> {
                &&& v[10] == first_x
                &&& (m.x + m.width > 0 ==> v[11] == m.x + m.width - 1)
                &&& (m.y + m.height > 0 ==> v[3] == root_height - (m.y + m.height - 1) + dist)
                &&& forall|i: int| 0 <= i < 12 && i != 3 && i != 10 && i != 11 ==> v[i] == 0
            }
            &&& side is Left ==> {
                &&& v[4] == first_y
                &&& (m.y + m.height > 0 ==> v[5] == m.y + m.height - 1)
                &&& (m.x >= 0 ==> v[0] == dist + m.x)
                &&& forall|i: int| 0 <= i < 12 && i != 0 && i != 4 && i != 5 ==> v[i] == 0
            }
            &&& side is Right ==> {
                &&& v[6] == first_y
                &&& (m.y + m.height > 0 ==> v[7] == m.y + m.height - 1)
                &&& (m.x + m.width > 0 ==> v[1] == root_width - (m.x + m.width - 1) + dist)
                &&& forall|i: int| 0 <= i < 12 && i != 1 && i != 6 && i != 7 ==> v[i] == 0
            }
        }),
{
}

/// Byte `k` (from the least significant) of `v`.
pub open spec fn byte_of(v: u32, k: int) -> int {
    let n = v as int;
    if k == 0 {
        n % 256
    } else if k == 1 {
        (n / 256) % 256
    } else if k == 2 {
        (n / 65536) % 256
    } else {
        n / 16777216
    }
}

/// The values one after the other, each as its four bytes in little-endian
/// order, as a property of 32-bit items travels to the X server.
pub fn le_bytes(values: &Vec<u32>) -> (r: Vec<u8>)
    requires
        4 * values@.len() <= usize::MAX,
    ensures
        r@.len() == 4 * values@.len(),
        forall|i: int, k: int| 0 <= i < values@.len() && 0 <= k < 4 ==> #[trigger] r@[4 * i + k] == byte_of(
            #[trigger] values@[i],
            k,
        ),
{
    let mut r: Vec<u8> = Vec::new();
    let mut i: usize = 0;
    while i < values.len()
        invariant
            0 <= i <= values@.len(),
            4 * values@.len() <= usize::MAX,
            r@.len() == 4 * i,
            forall|j: int, k: int| 0 <= j < i && 0 <= k < 4 ==> #[trigger] r@[4 * j + k] == byte_of(#[trigger] values@[j], k),
        decreases values.len() - i,
    {
        let v = values[i];
        let ghost before = r@;
        r.push((v % 256) as u8);
        r.push(((v / 256) % 256) as u8);
        r.push(((v / 65536) % 256) as u8);
        r.push((v / 16777216) as u8);
        proof {
            assert forall|j: int, k: int| 0 <= j < i + 1 && 0 <= k < 4 implies #[trigger] r@[4 * j + k] == byte_of(
                #[trigger] values@[j],
                k,
            ) by {
                if j < i {
                    assert(r@[4 * j + k] == before[4 * j + k]);
                } else {
                    assert(j == i);
                }
            }
        }
        i = i + 1;
    }
    r
}

/// Where a window lies along one axis of its monitor.
#[derive(Debug, PartialEq, Eq, Structural, Clone, Copy)]
pub enum AnchorAlignment {
    Start,
    Center,
    End,
}

/// An edge of a monitor.
#[derive(Debug, PartialEq, Eq, Structural, Clone, Copy)]
pub enum Edge {
    Left,
    Right,
    Top,
    Bottom,
}

/// How a layer-shell surface (on wayland) is placed: the edges that it is
/// anchored to, and the edges that its horizontal and vertical offsets are
/// margins from.
#[derive(Debug, PartialEq, Eq, Structural, Clone, Copy)]
pub struct LayerPlacement {
    pub left: bool,
    pub right: bool,
    pub top: bool,
    pub bottom: bool,
    pub x_margin_edge: Edge,
    pub y_margin_edge: Edge,
}

/// The placement of a window anchored at `x` and `y`: a start anchors it to
/// the left or top edge, an end to the right or bottom one, a center to
/// neither. The horizontal offset is a margin from the left edge when the
/// window is anchored there, else from the right one; the vertical offset
/// from the bottom edge when it is anchored there, else from the top one.
pub fn layer_placement(x: AnchorAlignment, y: AnchorAlignment) -> (r: LayerPlacement)
    ensures
        r.left == (x is Start),
        r.right == (x is End),
        r.top == (y is Start),
        r.bottom == (y is End),
        r.x_margin_edge == (if x is Start { Edge::Left } else { Edge::Right }),
        r.y_margin_edge == (if y is End { Edge::Bottom } else { Edge::Top }),
{
    let left = matches!(x, AnchorAlignment::Start);
    let right = matches!(x, AnchorAlignment::End);
    let top = matches!(y, AnchorAlignment::Start);
    let bottom = matches!(y, AnchorAlignment::End);
    LayerPlacement {
        left,
        right,
        top,
        bottom,
        x_margin_edge: if left { Edge::Left } else { Edge::Right },
        y_margin_edge: if bottom { Edge::Bottom } else { Edge::Top },
    }
}

} // verus!
