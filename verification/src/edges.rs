//! The edges of a frame: the lines that are drawn between the rectangles
//! of a layout.

use crate::layout::{AreaId, Axis, Frame, Insets, Layout, RectView, Side};
use crate::print::Coord;
use vstd::prelude::*;

verus! {

/// A line of the frame: the rectangle along which it runs, the side of
/// the rectangle at which it lies, the axis along which it runs, and the
/// frame that it belongs to.
#[derive(Clone, Copy, Debug, PartialEq, Eq, Structural)]
pub struct Edge {
    pub area: AreaId,
    pub side: Side,
    pub axis: Axis,
    pub frame: Frame,
}

/// The line at a side of the rectangle `i`, if the frame takes room
/// there.
pub open spec fn side_edge(i: usize, room: usize, side: Side, axis: Axis, frame: Frame) -> Seq<Edge> {
    if room > 0 {
        seq![Edge { area: AreaId { id: i }, side, axis, frame }]
    } else {
        Seq::empty()
    }
}

/// The lines around the rectangle `i`: to its right, above it, to its
/// left and below it, where the frame takes room.
pub open spec fn rect_edges(i: usize, insets: Insets, frame: Frame) -> Seq<Edge> {
    side_edge(i, insets.right, Side::Right, Axis::Vertical, frame) + side_edge(
        i,
        insets.up,
        Side::Above,
        Axis::Horizontal,
        frame,
    ) + side_edge(i, insets.left, Side::Left, Axis::Vertical, frame) + side_edge(
        i,
        insets.down,
        Side::Below,
        Axis::Horizontal,
        frame,
    )
}

/// The lines around the first `n` rectangles.
pub open spec fn edges_upto(views: Seq<RectView>, n: int, frame: Frame) -> Seq<Edge>
    decreases n,
{
    if n <= 0 || n > views.len() {
        Seq::empty()
    } else {
        edges_upto(views, n - 1, frame) + rect_edges((n - 1) as usize, views[n - 1].insets, frame)
    }
}

/// Adds the line at a side of the rectangle `i`, if the frame takes room
/// there.
fn push_side(out: &mut Vec<Edge>, i: usize, room: usize, side: Side, axis: Axis, frame: Frame)
    ensures
        final(out)@ == old(out)@ + side_edge(i, room, side, axis, frame),
{
    if room > 0 {
        out.push(Edge { area: AreaId { id: i }, side, axis, frame });
        assert(out@ =~= old(out)@ + side_edge(i, room, side, axis, frame));
    } else {
        assert(out@ =~= old(out)@ + side_edge(i, room, side, axis, frame));
    }
}

impl Layout {
    /// The lines of the frame that are drawn on the screen.
    pub fn edges(&self) -> (r: Vec<Edge>)
        ensures
            r@ == edges_upto(self.views(), self.rects@.len() as int, self.frame),
    {
        let mut out: Vec<Edge> = Vec::new();
        let mut i: usize = 0;
        while i < self.rects.len()
            invariant
                i <= self.rects@.len(),
                out@ == edges_upto(self.views(), i as int, self.frame),
            decreases self.rects.len() - i,
        {
            let insets = self.rects[i].insets;
            let ghost before = out@;
            proof {
                assert(self.views()[i as int].insets == insets);
            }
            push_side(&mut out, i, insets.right, Side::Right, Axis::Vertical, self.frame);
            push_side(&mut out, i, insets.up, Side::Above, Axis::Horizontal, self.frame);
            push_side(&mut out, i, insets.left, Side::Left, Axis::Vertical, self.frame);
            push_side(&mut out, i, insets.down, Side::Below, Axis::Horizontal, self.frame);
            proof {
                assert(out@ =~= before + rect_edges(i, insets, self.frame));
            }
            i += 1;
        }
        out
    }

    /// Whether a rectangle holds others.
    pub fn is_parent(&self, id: AreaId) -> (r: Option<bool>)
        ensures
            r == if id.id < self.rects@.len() {
                Some(self.rects@[id.id as int].is_parent)
            } else {
                None
            },
    {
        if id.id < self.rects.len() {
            Some(self.rects[id.id].is_parent)
        } else {
            None
        }
    }

    /// The upper left corner of a rectangle.
    pub fn tl(&self, id: AreaId) -> (r: Option<Coord>)
        ensures
            r == if id.id < self.rects@.len() {
                Some(self.rects@[id.id as int].tl)
            } else {
                None
            },
    {
        if id.id < self.rects.len() {
            Some(self.rects[id.id].tl)
        } else {
            None
        }
    }

    /// The corner beyond the lower right cell of a rectangle.
    pub fn br(&self, id: AreaId) -> (r: Option<Coord>)
        ensures
            r == if id.id < self.rects@.len() {
                Some(self.rects@[id.id as int].br)
            } else {
                None
            },
    {
        if id.id < self.rects.len() {
            Some(self.rects[id.id].br)
        } else {
            None
        }
    }
}

} // verus!
