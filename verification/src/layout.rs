//! The layout of a window: a tree of rectangles whose edges a constraint
//! solver places, and the rules that tie the edges of children to each
//! other and to their parent.

use crate::print::Coord;
use vstd::prelude::*;

verus! {

/// No layout holds more rectangles than this.
pub const MAX_RECTS: usize = 0x0fff_ffff;

/// No screen is wider or taller than this.
pub const MAX_COORD: usize = 0xffff;

/// A direction in which rectangles follow each other.
#[derive(Clone, Copy, Debug, PartialEq, Eq, Structural)]
pub enum Axis {
    Horizontal,
    Vertical,
}

impl Axis {
    /// The other axis.
    pub open spec fn spec_perp(self) -> Axis {
        match self {
            Axis::Horizontal => Axis::Vertical,
            Axis::Vertical => Axis::Horizontal,
        }
    }

    /// The other axis.
    pub fn perp(self) -> (r: Axis)
        ensures
            r == self.spec_perp(),
    {
        match self {
            Axis::Horizontal => Axis::Vertical,
            Axis::Vertical => Axis::Horizontal,
        }
    }
}

/// The side of a rectangle at which a new one is pushed.
#[derive(Clone, Copy, Debug, PartialEq, Eq, Structural)]
pub enum Side {
    Above,
    Below,
    Left,
    Right,
}

/// What a user asks of the length of a rectangle along the axis of its
/// parent.
#[derive(Clone, Copy, Debug, PartialEq, Eq, Structural)]
pub enum Constraint {
    /// The length is this fraction of the length of the parent.
    Ratio(u16, u16),
    /// The length is so many hundredths of the length of the parent.
    Percent(u16),
    /// The length is this.
    Length(u32),
    /// The length is at least this.
    Min(u32),
    /// The length is at most this.
    Max(u32),
}

/// Whether a rectangle with this constraint can change its length: it
/// has none, or only a bound.
pub open spec fn spec_is_resizable(c: Option<Constraint>) -> bool {
    match c {
        None => true,
        Some(Constraint::Min(_)) => true,
        Some(Constraint::Max(_)) => true,
        _ => false,
    }
}

/// Whether a rectangle with this constraint can change its length.
pub fn is_resizable(c: Option<Constraint>) -> (r: bool)
    ensures
        r == spec_is_resizable(c),
{
    match c {
        None => true,
        Some(Constraint::Min(_)) => true,
        Some(Constraint::Max(_)) => true,
        _ => false,
    }
}

/// Where and how a new rectangle is pushed: the side, and what is asked
/// of its height and of its width.
#[derive(Clone, Copy, Debug, PartialEq, Eq, Structural)]
pub struct PushSpecs {
    pub side: Side,
    pub ver_con: Option<Constraint>,
    pub hor_con: Option<Constraint>,
}

impl PushSpecs {
    /// A push above, with nothing asked.
    pub fn above() -> (r: Self)
        ensures
            r == (PushSpecs { side: Side::Above, ver_con: None, hor_con: None }),
    {
        PushSpecs { side: Side::Above, ver_con: None, hor_con: None }
    }

    /// A push below, with nothing asked.
    pub fn below() -> (r: Self)
        ensures
            r == (PushSpecs { side: Side::Below, ver_con: None, hor_con: None }),
    {
        PushSpecs { side: Side::Below, ver_con: None, hor_con: None }
    }

    /// A push to the left, with nothing asked.
    pub fn left() -> (r: Self)
        ensures
            r == (PushSpecs { side: Side::Left, ver_con: None, hor_con: None }),
    {
        PushSpecs { side: Side::Left, ver_con: None, hor_con: None }
    }

    /// A push to the right, with nothing asked.
    pub fn right() -> (r: Self)
        ensures
            r == (PushSpecs { side: Side::Right, ver_con: None, hor_con: None }),
    {
        PushSpecs { side: Side::Right, ver_con: None, hor_con: None }
    }

    /// The same push, of a rectangle of this height.
    pub fn with_ver_len(self, len: u32) -> (r: Self)
        ensures
            r == (PushSpecs { ver_con: Some(Constraint::Length(len)), ..self }),
    {
        PushSpecs { ver_con: Some(Constraint::Length(len)), ..self }
    }

    /// The same push, of a rectangle of at least this height.
    pub fn with_ver_min(self, min: u32) -> (r: Self)
        ensures
            r == (PushSpecs { ver_con: Some(Constraint::Min(min)), ..self }),
    {
        PushSpecs { ver_con: Some(Constraint::Min(min)), ..self }
    }

    /// The same push, of a rectangle of at most this height.
    pub fn with_ver_max(self, max: u32) -> (r: Self)
        ensures
            r == (PushSpecs { ver_con: Some(Constraint::Max(max)), ..self }),
    {
        PushSpecs { ver_con: Some(Constraint::Max(max)), ..self }
    }

    /// The same push, of a rectangle of this fraction of the height of
    /// its parent.
    pub fn with_ver_ratio(self, num: u16, den: u16) -> (r: Self)
        ensures
            r == (PushSpecs { ver_con: Some(Constraint::Ratio(num, den)), ..self }),
    {
        PushSpecs { ver_con: Some(Constraint::Ratio(num, den)), ..self }
    }

    /// The same push, of a rectangle of this width.
    pub fn with_hor_len(self, len: u32) -> (r: Self)
        ensures
            r == (PushSpecs { hor_con: Some(Constraint::Length(len)), ..self }),
    {
        PushSpecs { hor_con: Some(Constraint::Length(len)), ..self }
    }

    /// The same push, of a rectangle of at least this width.
    pub fn with_hor_min(self, min: u32) -> (r: Self)
        ensures
            r == (PushSpecs { hor_con: Some(Constraint::Min(min)), ..self }),
    {
        PushSpecs { hor_con: Some(Constraint::Min(min)), ..self }
    }

    /// The same push, of a rectangle of at most this width.
    pub fn with_hor_max(self, max: u32) -> (r: Self)
        ensures
            r == (PushSpecs { hor_con: Some(Constraint::Max(max)), ..self }),
    {
        PushSpecs { hor_con: Some(Constraint::Max(max)), ..self }
    }

    /// The same push, of a rectangle of this fraction of the width of its
    /// parent.
    pub fn with_hor_ratio(self, num: u16, den: u16) -> (r: Self)
        ensures
            r == (PushSpecs { hor_con: Some(Constraint::Ratio(num, den)), ..self }),
    {
        PushSpecs { hor_con: Some(Constraint::Ratio(num, den)), ..self }
    }

    /// The axis along which the new rectangle joins.
    pub open spec fn spec_axis(self) -> Axis {
        match self.side {
            Side::Above => Axis::Vertical,
            Side::Below => Axis::Vertical,
            Side::Left => Axis::Horizontal,
            Side::Right => Axis::Horizontal,
        }
    }

    /// The axis along which the new rectangle joins.
    pub fn axis(&self) -> (r: Axis)
        ensures
            r == self.spec_axis(),
    {
        match self.side {
            Side::Above => Axis::Vertical,
            Side::Below => Axis::Vertical,
            Side::Left => Axis::Horizontal,
            Side::Right => Axis::Horizontal,
        }
    }

    /// Whether the new rectangle comes before the one it is pushed on.
    pub open spec fn spec_comes_earlier(self) -> bool {
        self.side == Side::Above || self.side == Side::Left
    }

    /// Whether the new rectangle comes before the one it is pushed on.
    pub fn comes_earlier(&self) -> (r: bool)
        ensures
            r == self.spec_comes_earlier(),
    {
        matches!(self.side, Side::Above | Side::Left)
    }

    /// What is asked of the length of the new rectangle along its axis.
    pub open spec fn spec_constraint(self) -> Option<Constraint> {
        match self.spec_axis() {
            Axis::Vertical => self.ver_con,
            Axis::Horizontal => self.hor_con,
        }
    }

    /// What is asked of the length of the new rectangle along its axis.
    pub fn constraint(&self) -> (r: Option<Constraint>)
        ensures
            r == self.spec_constraint(),
    {
        match self.axis() {
            Axis::Vertical => self.ver_con,
            Axis::Horizontal => self.hor_con,
        }
    }
}

/// Which edges between rectangles are drawn.
#[derive(Clone, Copy, Debug, PartialEq, Eq, Structural)]
pub enum Frame {
    /// No edge is drawn.
    Empty,
    /// Every edge is drawn, those around the screen too.
    Surround,
    /// The edges between rectangles are drawn.
    Regular,
    /// The vertical edges between rectangles are drawn.
    VerOnly,
    /// The horizontal edges between rectangles are drawn.
    HorOnly,
}

/// The room that the frame takes at each side of a rectangle, in cells.
#[derive(Clone, Copy, Debug, PartialEq, Eq, Structural)]
pub struct Insets {
    pub left: usize,
    pub up: usize,
    pub right: usize,
    pub down: usize,
}

impl Frame {
    /// The room that the frame takes around a rectangle with the corners
    /// `tl` and `br` on a screen that ends at `max`: an edge between
    /// rectangles lies to the right of and below the rectangle before it,
    /// where that rectangle does not reach the end of the screen; a
    /// surrounding frame also lies at the start and the end of the
    /// screen.
    pub open spec fn spec_insets(self, tl: Coord, br: Coord, max: Coord) -> Insets {
        let one = |b: bool| if b {
            1usize
        } else {
            0usize
        };
        match self {
            Frame::Empty => Insets { left: 0, up: 0, right: 0, down: 0 },
            Frame::Surround => Insets {
                left: one(tl.x == 0),
                up: one(tl.y == 0),
                right: 1,
                down: 1,
            },
            Frame::Regular => Insets {
                left: 0,
                up: 0,
                right: one(br.x != max.x),
                down: one(br.y != max.y),
            },
            Frame::VerOnly => Insets { left: 0, up: 0, right: one(br.x != max.x), down: 0 },
            Frame::HorOnly => Insets { left: 0, up: 0, right: 0, down: one(br.y != max.y) },
        }
    }

    /// The room that the frame takes around a rectangle.
    pub fn insets(self, tl: Coord, br: Coord, max: Coord) -> (r: Insets)
        ensures
            r == self.spec_insets(tl, br, max),
    {
        let right = if br.x != max.x {
            1
        } else {
            0
        };
        let down = if br.y != max.y {
            1
        } else {
            0
        };
        match self {
            Frame::Empty => Insets { left: 0, up: 0, right: 0, down: 0 },
            Frame::Surround => Insets {
                left: if tl.x == 0 {
                    1
                } else {
                    0
                },
                up: if tl.y == 0 {
                    1
                } else {
                    0
                },
                right: 1,
                down: 1,
            },
            Frame::Regular => Insets { left: 0, up: 0, right, down },
            Frame::VerOnly => Insets { left: 0, up: 0, right, down: 0 },
            Frame::HorOnly => Insets { left: 0, up: 0, right: 0, down },
        }
    }
}

/// The name of a rectangle of a layout.
#[derive(Clone, Copy, Debug, PartialEq, Eq, Structural)]
pub struct AreaId {
    pub id: usize,
}

impl AreaId {
    /// The name with the given number.
    pub fn new(id: usize) -> (r: Self)
        ensures
            r.id == id,
    {
        AreaId { id }
    }
}

/// A corner of the screen, to which a floating rectangle holds.
#[derive(Clone, Copy, Debug, PartialEq, Eq, Structural)]
pub enum Anchor {
    TopLeft,
    TopRight,
    BottomLeft,
    BottomRight,
}

/// Why the constraint of a rectangle could not be changed.
#[derive(Clone, Copy, Debug, PartialEq, Eq, Structural)]
pub enum ConstraintChangeErr {
    /// The rectangle has no parent, so that nothing can be asked of its
    /// length.
    NoParent,
    /// The solver found no placement.
    Impossible,
}

/// A rectangle of a layout as specifications see it.
pub struct RectView {
    pub parent: Option<usize>,
    pub children: Seq<usize>,
    pub axis: Axis,
    pub clustered: bool,
    pub is_parent: bool,
    pub defined: Option<Constraint>,
    pub ratio: Option<(u32, u32)>,
    pub insets: Insets,
    pub tl: Coord,
    pub br: Coord,
}

/// A rectangle of a layout: its place in the tree, what is asked of its
/// length, the room that the frame takes around it, and its corners as
/// the solver placed them.
#[derive(Debug)]
pub struct Rect {
    /// The rectangle that holds this one.
    pub parent: Option<usize>,
    /// The rectangles that this one holds, in their order along `axis`.
    pub children: Vec<usize>,
    pub axis: Axis,
    /// Whether the children move as one.
    pub clustered: bool,
    /// Whether the rectangle holds others.
    pub is_parent: bool,
    /// What the user asks of the length.
    pub defined: Option<Constraint>,
    /// The length of this rectangle to that of the next one that can
    /// change its length, as a fraction.
    pub ratio: Option<(u32, u32)>,
    pub insets: Insets,
    pub tl: Coord,
    pub br: Coord,
}

impl View for Rect {
    type V = RectView;

    open spec fn view(&self) -> RectView {
        RectView {
            parent: self.parent,
            children: self.children@,
            axis: self.axis,
            clustered: self.clustered,
            is_parent: self.is_parent,
            defined: self.defined,
            ratio: self.ratio,
            insets: self.insets,
            tl: self.tl,
            br: self.br,
        }
    }
}

/// The start of a rectangle along an axis: its left or its upper edge.
pub open spec fn start_of(r: RectView, a: Axis) -> int {
    match a {
        Axis::Horizontal => r.tl.x as int,
        Axis::Vertical => r.tl.y as int,
    }
}

/// The end of a rectangle along an axis: its right or its lower edge.
pub open spec fn end_of(r: RectView, a: Axis) -> int {
    match a {
        Axis::Horizontal => r.br.x as int,
        Axis::Vertical => r.br.y as int,
    }
}

/// The room that the frame takes before a rectangle along an axis.
pub open spec fn inset_before(r: RectView, a: Axis) -> int {
    match a {
        Axis::Horizontal => r.insets.left as int,
        Axis::Vertical => r.insets.up as int,
    }
}

/// The room that the frame takes after a rectangle along an axis.
pub open spec fn inset_after(r: RectView, a: Axis) -> int {
    match a {
        Axis::Horizontal => r.insets.right as int,
        Axis::Vertical => r.insets.down as int,
    }
}

/// The edge equalities of the child `k` of the rectangle `p`: along the
/// axis of the parent, the first child begins where the parent begins,
/// after the frame before it; each child ends, with the frame after it,
/// where the next one begins, and the last one where the parent ends;
/// across the axis, the child reaches from one edge of the parent to the
/// other, less the frame.
pub open spec fn child_edges_hold(rects: Seq<RectView>, p: int, k: int) -> bool {
    let parent = rects[p];
    let a = parent.axis;
    let c = rects[parent.children[k] as int];
    &&& k == 0 ==> start_of(c, a) == start_of(parent, a) + inset_before(c, a)
    &&& k + 1 < parent.children.len() ==> end_of(c, a) + inset_after(c, a) == start_of(
        rects[parent.children[k + 1] as int],
        a,
    )
    &&& k + 1 == parent.children.len() ==> end_of(c, a) + inset_after(c, a) == end_of(parent, a)
    &&& start_of(c, a.spec_perp()) == start_of(parent, a.spec_perp()) + inset_before(
        c,
        a.spec_perp(),
    )
    &&& end_of(c, a.spec_perp()) + inset_after(c, a.spec_perp()) == end_of(parent, a.spec_perp())
}

/// The edge equalities of the main rectangle: it fills the screen, less
/// the frame around it.
pub open spec fn main_edges_hold(r: RectView, max: Coord) -> bool {
    &&& r.tl.x == r.insets.left
    &&& r.tl.y == r.insets.up
    &&& r.br.x + r.insets.right == max.x
    &&& r.br.y + r.insets.down == max.y
}

/// The edge equalities of a layout: those of the main rectangle and those
/// of every child of every rectangle.
pub open spec fn edges_hold(rects: Seq<RectView>, main: int, max: Coord) -> bool {
    &&& main_edges_hold(rects[main], max)
    &&& forall|p: int, k: int|
        0 <= p < rects.len() && 0 <= k < rects[p].children.len() ==> #[trigger] child_edges_hold(
            rects,
            p,
            k,
        )
}

/// Whether the rectangles form a tree below `main`: every child is a
/// rectangle that names its parent, and only rectangles that hold others
/// have children.
pub open spec fn tree_wf(rects: Seq<RectView>, main: int) -> bool {
    &&& 0 <= main < rects.len()
    &&& rects.len() <= MAX_RECTS
    &&& rects[main].parent is None
    &&& forall|i: int|
        0 <= i < rects.len() ==> ((#[trigger] rects[i]).parent matches Some(p) ==> p < rects.len())
            && rects[i].children.len() <= rects.len()
    &&& forall|i: int, k: int|
        0 <= i < rects.len() && 0 <= k < rects[i].children.len() ==> (#[trigger] rects[i].children[k])
            < rects.len() && rects[rects[i].children[k] as int].parent == Some(i as usize)
    &&& forall|i: int|
        0 <= i < rects.len() ==> (#[trigger] rects[i]).tl.x <= MAX_COORD && rects[i].tl.y
            <= MAX_COORD && rects[i].br.x <= MAX_COORD && rects[i].br.y <= MAX_COORD
            && rects[i].insets.left <= 1 && rects[i].insets.up <= 1 && rects[i].insets.right <= 1
            && rects[i].insets.down <= 1
}

/// The index of the first of `children` from `from` on that is `c`, or
/// their number where none is.
pub open spec fn index_in(children: Seq<usize>, c: usize, from: int) -> int
    decreases children.len() - from,
{
    if from < 0 || from >= children.len() {
        children.len() as int
    } else if children[from] == c {
        from
    } else {
        index_in(children, c, from + 1)
    }
}

/// The index that `index_in` finds lies between `from` and the number of
/// children, and the child at it is the one looked for.
pub proof fn lemma_index_in(children: Seq<usize>, c: usize, from: int)
    requires
        0 <= from <= children.len(),
    ensures
        from <= index_in(children, c, from) <= children.len(),
        index_in(children, c, from) < children.len() ==> children[index_in(children, c, from)] == c,
    decreases children.len() - from,
{
    if from < children.len() && children[from] != c {
        lemma_index_in(children, c, from + 1);
    }
}

/// The index of `c` among `children`, if it is one of them.
pub fn position_in(children: &Vec<usize>, c: usize) -> (r: Option<usize>)
    ensures
        r == if index_in(children@, c, 0) < children@.len() {
            Some(index_in(children@, c, 0) as usize)
        } else {
            None
        },
{
    proof {
        lemma_index_in(children@, c, 0);
    }
    let mut i: usize = 0;
    while i < children.len()
        invariant
            i <= children@.len(),
            index_in(children@, c, 0) == index_in(children@, c, i as int),
        decreases children.len() - i,
    {
        if children[i] == c {
            return Some(i);
        }
        i += 1;
    }
    None
}

/// Where a new rectangle joins the tree.
#[derive(Clone, Copy, Debug, PartialEq, Eq, Structural)]
pub enum Target {
    /// As a child of this rectangle, at this place among its children.
    ChildOf(usize, usize),
    /// As a child of a new parent, which takes the place of the rectangle
    /// that is bisected and holds it too; at this place, 0 or 1, among
    /// the two.
    NewParent(usize),
}

/// Where the new rectangle joins when the rectangle `index` is bisected:
/// beside it, if its parent has the axis of the push and is clustered as
/// the new rectangle is to be; else within it, if it holds rectangles
/// along that axis and is clustered so; and else within a new parent.
pub open spec fn spec_target(rects: Seq<RectView>, index: int, specs: PushSpecs, cluster_new: bool) -> Target {
    let r = rects[index];
    let axis = specs.spec_axis();
    let parent_clustered = match r.parent {
        Some(p) => rects[p as int].clustered,
        None => cluster_new,
    };
    let child_clustered = r.is_parent && r.clustered;
    let sibling = match r.parent {
        Some(p) => if parent_clustered == cluster_new && rects[p as int].axis == axis && index_in(
            rects[p as int].children,
            index as usize,
            0,
        ) < rects[p as int].children.len() {
            Some(
                (
                    p,
                    index_in(rects[p as int].children, index as usize, 0) + if specs.spec_comes_earlier() {
                        0int
                    } else {
                        1int
                    },
                ),
            )
        } else {
            None
        },
        None => None,
    };
    match sibling {
        Some((p, pos)) => Target::ChildOf(p, pos as usize),
        None => if child_clustered == cluster_new && r.is_parent && r.axis == axis {
            Target::ChildOf(
                index as usize,
                if specs.spec_comes_earlier() {
                    0
                } else {
                    r.children.len() as usize
                },
            )
        } else {
            Target::NewParent(
                if specs.spec_comes_earlier() {
                    0
                } else {
                    1
                },
            )
        },
    }
}

/// A layout: its rectangles, each named by its index, the main one among
/// them, the end of the screen, the frame, and whether the corners of the
/// rectangles are those of a solution.
pub struct Layout {
    pub rects: Vec<Rect>,
    pub main: usize,
    pub max: Coord,
    pub frame: Frame,
    /// Whether the corners were placed by the solver for the tree as it
    /// is.
    pub solved: bool,
}

impl Layout {
    /// The rectangles as specifications see them.
    pub open spec fn views(&self) -> Seq<RectView> {
        Seq::new(self.rects@.len(), |i: int| self.rects@[i]@)
    }

    /// Whether the rectangles form a tree within the screen, and, if the
    /// layout is solved, the edge equalities hold.
    pub open spec fn wf(&self) -> bool {
        &&& tree_wf(self.views(), self.main as int)
        &&& self.max.x <= MAX_COORD
        &&& self.max.y <= MAX_COORD
        &&& self.solved ==> edges_hold(self.views(), self.main as int, self.max)
    }

    /// The layout of a screen of the given size: one rectangle, which
    /// fills it.
    pub fn new(frame: Frame, width: usize, height: usize) -> (r: Self)
        requires
            width <= MAX_COORD,
            height <= MAX_COORD,
        ensures
            r.wf(),
            r.solved,
            r.main == 0,
            r.frame == frame,
            r.max == (Coord { x: width, y: height }),
            r.views() == seq![
                RectView {
                    parent: None,
                    children: Seq::empty(),
                    axis: Axis::Horizontal,
                    clustered: false,
                    is_parent: false,
                    defined: None,
                    ratio: None,
                    insets: Insets { left: 0, up: 0, right: 0, down: 0 },
                    tl: Coord { x: 0, y: 0 },
                    br: Coord { x: width, y: height },
                },
            ],
    {
        let mut rects: Vec<Rect> = Vec::new();
        rects.push(
            Rect {
                parent: None,
                children: Vec::new(),
                axis: Axis::Horizontal,
                clustered: false,
                is_parent: false,
                defined: None,
                ratio: None,
                insets: Insets { left: 0, up: 0, right: 0, down: 0 },
                tl: Coord { x: 0, y: 0 },
                br: Coord { x: width, y: height },
            },
        );
        let r = Layout { rects, main: 0, max: Coord { x: width, y: height }, frame, solved: true };
        proof {
            assert(r.views() =~= seq![r.rects@[0]@]);
            assert(r.rects@[0]@.children =~= Seq::empty());
        }
        r
    }

    /// The name of the main rectangle.
    pub fn main_index(&self) -> (r: AreaId)
        ensures
            r.id == self.main,
    {
        AreaId { id: self.main }
    }

    /// The number of rectangles.
    pub fn len(&self) -> (r: usize)
        ensures
            r == self.rects@.len(),
    {
        self.rects.len()
    }

    /// The corners of a rectangle, if there is one of that name.
    pub fn coords(&self, id: AreaId) -> (r: Option<(Coord, Coord)>)
        ensures
            r == if id.id < self.rects@.len() {
                Some((self.rects@[id.id as int].tl, self.rects@[id.id as int].br))
            } else {
                None
            },
    {
        if id.id < self.rects.len() {
            Some((self.rects[id.id].tl, self.rects[id.id].br))
        } else {
            None
        }
    }

    /// The parent of a rectangle and the place of the rectangle among its
    /// children, if it has a parent.
    pub fn fetch_parent(&self, id: AreaId) -> (r: Option<(AreaId, usize)>)
        requires
            self.wf(),
        ensures
            r == if id.id < self.rects@.len() {
                match self.rects@[id.id as int].parent {
                    Some(p) => if index_in(self.rects@[p as int].children@, id.id, 0)
                        < self.rects@[p as int].children@.len() {
                        Some(
                            (
                                AreaId { id: p },
                                index_in(self.rects@[p as int].children@, id.id, 0) as usize,
                            ),
                        )
                    } else {
                        None
                    },
                    None => None,
                }
            } else {
                None
            },
    {
        if id.id >= self.rects.len() {
            return None;
        }
        match self.rects[id.id].parent {
            Some(p) => {
                proof {
                    assert(self.views()[id.id as int].parent == Some(p));
                }
                match position_in(&self.rects[p].children, id.id) {
                    Some(k) => Some((AreaId { id: p }, k)),
                    None => None,
                }
            },
            None => None,
        }
    }

    /// Whether the edge equalities of the child `k` of the rectangle `p`
    /// hold.
    fn child_edges_ok(&self, p: usize, k: usize) -> (r: bool)
        requires
            tree_wf(self.views(), self.main as int),
            p < self.rects@.len(),
            k < self.rects@[p as int].children@.len(),
        ensures
            r == child_edges_hold(self.views(), p as int, k as int),
    {
        let parent = &self.rects[p];
        proof {
            assert(self.views()[p as int] == parent@);
            assert(self.views()[p as int].children[k as int] < self.rects@.len());
            if k + 1 < parent.children@.len() {
                assert(self.views()[p as int].children[k + 1] < self.rects@.len());
            }
        }
        let c = &self.rects[parent.children[k]];
        proof {
            assert(self.views()[parent.children@[k as int] as int] == c@);
        }
        let (cs, ce, ps, pe, ib, ia, qs, qe, rs, re, jb, ja) = match parent.axis {
            Axis::Horizontal => (
                c.tl.x,
                c.br.x,
                parent.tl.x,
                parent.br.x,
                c.insets.left,
                c.insets.right,
                c.tl.y,
                c.br.y,
                parent.tl.y,
                parent.br.y,
                c.insets.up,
                c.insets.down,
            ),
            Axis::Vertical => (
                c.tl.y,
                c.br.y,
                parent.tl.y,
                parent.br.y,
                c.insets.up,
                c.insets.down,
                c.tl.x,
                c.br.x,
                parent.tl.x,
                parent.br.x,
                c.insets.left,
                c.insets.right,
            ),
        };
        let first = k != 0 || cs == ps + ib;
        let nc = parent.children.len();
        let next = if k + 1 < nc {
            let n = &self.rects[parent.children[k + 1]];
            proof {
                assert(self.views()[parent.children@[k + 1] as int] == n@);
            }
            let ns = match parent.axis {
                Axis::Horizontal => n.tl.x,
                Axis::Vertical => n.tl.y,
            };
            ce + ia == ns
        } else {
            ce + ia == pe
        };
        first && next && qs == rs + jb && qe + ja == re
    }

    /// Whether the corners of the rectangles satisfy the edge equalities.
    pub fn check_edges(&self) -> (r: bool)
        requires
            tree_wf(self.views(), self.main as int),
            self.max.x <= MAX_COORD,
            self.max.y <= MAX_COORD,
        ensures
            r == edges_hold(self.views(), self.main as int, self.max),
    {
        let m = &self.rects[self.main];
        proof {
            assert(self.views()[self.main as int] == m@);
        }
        if !(m.tl.x == m.insets.left && m.tl.y == m.insets.up && m.br.x + m.insets.right
            == self.max.x && m.br.y + m.insets.down == self.max.y) {
            return false;
        }
        let mut p: usize = 0;
        while p < self.rects.len()
            invariant
                p <= self.rects@.len(),
                tree_wf(self.views(), self.main as int),
                main_edges_hold(self.views()[self.main as int], self.max),
                forall|i: int, k: int|
                    0 <= i < p && 0 <= k < self.views()[i].children.len()
                        ==> #[trigger] child_edges_hold(self.views(), i, k),
            decreases self.rects.len() - p,
        {
            let mut k: usize = 0;
            proof {
                assert(self.views()[p as int] == self.rects@[p as int]@);
            }
            while k < self.rects[p].children.len()
                invariant
                    p < self.rects@.len(),
                    k <= self.rects@[p as int].children@.len(),
                    self.views()[p as int].children == self.rects@[p as int].children@,
                    tree_wf(self.views(), self.main as int),
                    main_edges_hold(self.views()[self.main as int], self.max),
                    forall|i: int, k: int|
                        0 <= i < p && 0 <= k < self.views()[i].children.len()
                            ==> #[trigger] child_edges_hold(self.views(), i, k),
                    forall|j: int| 0 <= j < k ==> #[trigger] child_edges_hold(self.views(), p as int, j),
                decreases self.rects[p as int].children.len() - k,
            {
                if !self.child_edges_ok(p, k) {
                    return false;
                }
                k += 1;
            }
            p += 1;
        }
        true
    }

    /// Takes the corners that the solver gave, one pair for each
    /// rectangle in the order of their names, if they fit the screen and
    /// satisfy the edge equalities. Otherwise the layout stays as it was,
    /// and the solver is said to have found nothing.
    pub fn apply_solution(&mut self, corners: &Vec<(Coord, Coord)>) -> (r: Result<
        (),
        ConstraintChangeErr,
    >)
        requires
            old(self).wf(),
        ensures
            final(self).wf(),
            final(self).main == old(self).main,
            final(self).max == old(self).max,
            final(self).frame == old(self).frame,
            final(self).rects@.len() == old(self).rects@.len(),
            r is Ok <==> corners@.len() == old(self).rects@.len() && (forall|i: int|
                0 <= i < corners@.len() ==> (#[trigger] corners@[i]).0.x <= MAX_COORD && corners@[i].0.y
                    <= MAX_COORD && corners@[i].1.x <= MAX_COORD && corners@[i].1.y <= MAX_COORD)
                && edges_hold(placed(old(self).views(), corners@), old(self).main as int, old(self).max),
            r is Ok ==> final(self).solved && final(self).views() == placed(
                old(self).views(),
                corners@,
            ),
            r is Err ==> r == Err::<(), ConstraintChangeErr>(ConstraintChangeErr::Impossible)
                && final(self).views() == old(self).views() && final(self).solved == old(self).solved,
    {
        let n = self.rects.len();
        if corners.len() != n {
            return Err(ConstraintChangeErr::Impossible);
        }
        let mut i: usize = 0;
        while i < n
            invariant
                i <= n == corners@.len(),
                *self == *old(self),
                self.wf(),
                forall|j: int|
                    0 <= j < i ==> (#[trigger] corners@[j]).0.x <= MAX_COORD && corners@[j].0.y
                        <= MAX_COORD && corners@[j].1.x <= MAX_COORD && corners@[j].1.y <= MAX_COORD,
            decreases n - i,
        {
            let (tl, br) = corners[i];
            if tl.x > MAX_COORD || tl.y > MAX_COORD || br.x > MAX_COORD || br.y > MAX_COORD {
                return Err(ConstraintChangeErr::Impossible);
            }
            i += 1;
        }
        let ghost before = self.views();
        let mut saved: Vec<(Coord, Coord)> = Vec::new();
        let mut j: usize = 0;
        while j < n
            invariant
                j <= n == corners@.len() == self.rects@.len(),
                before.len() == n,
                self.main == old(self).main,
                self.max == old(self).max,
                self.frame == old(self).frame,
                self.solved == old(self).solved,
                saved@.len() == j,
                forall|k: int| 0 <= k < j ==> #[trigger] saved@[k] == (before[k].tl, before[k].br),
                forall|k: int|
                    0 <= k < n ==> #[trigger] self.views()[k] == if k < j {
                        RectView { tl: corners@[k].0, br: corners@[k].1, ..before[k] }
                    } else {
                        before[k]
                    },
            decreases n - j,
        {
            let ghost prev = self.views();
            saved.push((self.rects[j].tl, self.rects[j].br));
            let (tl, br) = corners[j];
            let r = &mut self.rects[j];
            r.tl = tl;
            r.br = br;
            proof {
                assert(prev[j as int] == before[j as int]);
                assert forall|k: int| 0 <= k < n implies #[trigger] self.views()[k] == if k < j + 1 {
                    RectView { tl: corners@[k].0, br: corners@[k].1, ..before[k] }
                } else {
                    before[k]
                } by {
                    if k != j {
                        assert(self.views()[k] == prev[k]);
                    }
                }
            }
            j += 1;
        }
        proof {
            assert(self.views() =~= placed(before, corners@));
            lemma_placed_tree(before, corners@, self.main as int);
        }
        if self.check_edges() {
            self.solved = true;
            Ok(())
        } else {
            let mut k: usize = 0;
            while k < n
                invariant
                    k <= n == saved@.len() == self.rects@.len(),
                    before.len() == n,
                    corners@.len() == n,
                    self.main == old(self).main,
                    self.max == old(self).max,
                    self.frame == old(self).frame,
                    self.solved == old(self).solved,
                    forall|i: int| 0 <= i < n ==> #[trigger] saved@[i] == (before[i].tl, before[i].br),
                    forall|i: int|
                        0 <= i < n ==> #[trigger] self.views()[i] == if i < k {
                            before[i]
                        } else {
                            RectView { tl: corners@[i].0, br: corners@[i].1, ..before[i] }
                        },
                decreases n - k,
            {
                let ghost prev = self.views();
                let (tl, br) = saved[k];
                let r = &mut self.rects[k];
                r.tl = tl;
                r.br = br;
                proof {
                    assert forall|i: int| 0 <= i < n implies #[trigger] self.views()[i] == if i < k
                        + 1 {
                        before[i]
                    } else {
                        RectView { tl: corners@[i].0, br: corners@[i].1, ..before[i] }
                    } by {
                        if i != k {
                            assert(self.views()[i] == prev[i]);
                        } else {
                            assert(saved@[k as int] == (before[k as int].tl, before[k as int].br));
                            assert(prev[k as int] == RectView {
                                tl: corners@[k as int].0,
                                br: corners@[k as int].1,
                                ..before[k as int]
                            });
                        }
                    }
                }
                k += 1;
            }
            proof {
                assert(self.views() =~= before);
            }
            Err(ConstraintChangeErr::Impossible)
        }
    }
}

/// The rectangles with the corners that a solution gives them.
pub open spec fn placed(rects: Seq<RectView>, corners: Seq<(Coord, Coord)>) -> Seq<RectView> {
    Seq::new(
        rects.len(),
        |i: int| RectView { tl: corners[i].0, br: corners[i].1, ..rects[i] },
    )
}

/// New corners within the screen leave a tree what it is.
pub proof fn lemma_placed_tree(rects: Seq<RectView>, corners: Seq<(Coord, Coord)>, main: int)
    requires
        tree_wf(rects, main),
        corners.len() == rects.len(),
        forall|i: int|
            0 <= i < corners.len() ==> (#[trigger] corners[i]).0.x <= MAX_COORD && corners[i].0.y
                <= MAX_COORD && corners[i].1.x <= MAX_COORD && corners[i].1.y <= MAX_COORD,
    ensures
        tree_wf(placed(rects, corners), main),
{
    let new = placed(rects, corners);
    assert forall|i: int| 0 <= i < new.len() implies ((#[trigger] new[i]).parent matches Some(p)
        ==> p < new.len()) && new[i].children.len() <= new.len() by {
        assert(rects[i].parent == new[i].parent);
        assert(rects[i].children == new[i].children);
    }
    assert forall|i: int, k: int| 0 <= i < new.len() && 0 <= k < new[i].children.len() implies (
    #[trigger] new[i].children[k]) < new.len() && new[new[i].children[k] as int].parent == Some(
        i as usize,
    ) by {
        assert(rects[i].children[k] < rects.len());
    }
    assert forall|i: int| 0 <= i < new.len() implies (#[trigger] new[i]).tl.x <= MAX_COORD
        && new[i].tl.y <= MAX_COORD && new[i].br.x <= MAX_COORD && new[i].br.y <= MAX_COORD
        && new[i].insets.left <= 1 && new[i].insets.up <= 1 && new[i].insets.right <= 1
        && new[i].insets.down <= 1 by {
        assert(rects[i].insets == new[i].insets);
        assert(corners[i].0.x <= MAX_COORD);
    }
}

/// A rectangle without children, as it is when it joins the tree.
pub open spec fn new_leaf(parent: usize, defined: Option<Constraint>) -> RectView {
    RectView {
        parent: Some(parent),
        children: Seq::empty(),
        axis: Axis::Horizontal,
        clustered: false,
        is_parent: false,
        defined,
        ratio: None,
        insets: Insets { left: 0, up: 0, right: 0, down: 0 },
        tl: Coord { x: 0, y: 0 },
        br: Coord { x: 0, y: 0 },
    }
}

/// `children` with `to` in the place of every `from`.
pub open spec fn replaced(children: Seq<usize>, from: usize, to: usize) -> Seq<usize> {
    children.map_values(
        |c: usize|
            if c == from {
                to
            } else {
                c
            },
    )
}

/// The rectangles after the rectangle `index` was bisected.
pub open spec fn bisected(rects: Seq<RectView>, index: int, specs: PushSpecs, cluster_new: bool) -> Seq<
    RectView,
> {
    let n = rects.len() as usize;
    match spec_target(rects, index, specs, cluster_new) {
        Target::ChildOf(p, pos) => rects.update(
            p as int,
            RectView { children: rects[p as int].children.insert(pos as int, n), ..rects[p as int] },
        ).push(new_leaf(p, specs.spec_constraint())),
        Target::NewParent(pos) => {
            let old = rects[index];
            let held = RectView {
                parent: Some(n),
                defined: None,
                ratio: None,
                insets: Insets { left: 0, up: 0, right: 0, down: 0 },
                ..old
            };
            let parent = RectView {
                parent: old.parent,
                children: if pos == 0 {
                    seq![(n + 1) as usize, index as usize]
                } else {
                    seq![index as usize, (n + 1) as usize]
                },
                axis: specs.spec_axis(),
                clustered: cluster_new,
                is_parent: true,
                defined: old.defined,
                ratio: old.ratio,
                insets: old.insets,
                tl: old.tl,
                br: old.br,
            };
            let below = rects.update(index, held);
            let above = match old.parent {
                Some(g) => below.update(
                    g as int,
                    RectView {
                        children: replaced(below[g as int].children, index as usize, n),
                        ..below[g as int]
                    },
                ),
                None => below,
            };
            above.push(parent).push(new_leaf(n, specs.spec_constraint()))
        },
    }
}

/// The main rectangle after the rectangle `index` was bisected: the new
/// parent, if the main rectangle itself got one.
pub open spec fn main_after(rects: Seq<RectView>, main: usize, index: int, specs: PushSpecs, cluster_new: bool) -> usize {
    match spec_target(rects, index, specs, cluster_new) {
        Target::ChildOf(_, _) => main,
        Target::NewParent(_) => if index == main {
            rects.len() as usize
        } else {
            main
        },
    }
}

impl Layout {
    /// Where the new rectangle joins when the rectangle `index` is
    /// bisected.
    pub fn target(&self, index: usize, specs: PushSpecs, cluster_new: bool) -> (r: Target)
        requires
            self.wf(),
            index < self.rects@.len(),
        ensures
            r == spec_target(self.views(), index as int, specs, cluster_new),
            r matches Target::ChildOf(p, pos) ==> p < self.rects@.len() && pos
                <= self.rects@[p as int].children@.len(),
    {
        let r = &self.rects[index];
        let axis = specs.axis();
        proof {
            assert(self.views()[index as int] == r@);
        }
        let child_clustered = r.is_parent && r.clustered;
        if let Some(p) = r.parent {
            proof {
                assert(self.views()[p as int] == self.rects@[p as int]@);
                lemma_index_in(self.rects@[p as int].children@, index, 0);
            }
            let parent = &self.rects[p];
            if parent.clustered == cluster_new && parent.axis == axis {
                if let Some(k) = position_in(&parent.children, index) {
                    let m = parent.children.len();
                    assert(k < m);
                    return Target::ChildOf(
                        p,
                        if specs.comes_earlier() {
                            k
                        } else {
                            k + 1
                        },
                    );
                }
            }
        }
        if child_clustered == cluster_new && r.is_parent && r.axis == axis {
            Target::ChildOf(
                index,
                if specs.comes_earlier() {
                    0
                } else {
                    r.children.len()
                },
            )
        } else {
            Target::NewParent(
                if specs.comes_earlier() {
                    0
                } else {
                    1
                },
            )
        }
    }

    /// Puts `to` in the place of every `from` among the children of the
    /// rectangle `g`.
    fn replace_child(&mut self, g: usize, from: usize, to: usize)
        requires
            g < old(self).rects@.len(),
        ensures
            final(self).views() == old(self).views().update(
                g as int,
                RectView {
                    children: replaced(old(self).views()[g as int].children, from, to),
                    ..old(self).views()[g as int]
                },
            ),
            final(self).main == old(self).main,
            final(self).max == old(self).max,
            final(self).frame == old(self).frame,
            final(self).solved == old(self).solved,
    {
        let ghost before = self.views();
        proof {
            assert(before[g as int] == old(self).rects@[g as int]@);
        }
        let mut kids: Vec<usize> = Vec::new();
        let r = &mut self.rects[g];
        core::mem::swap(&mut r.children, &mut kids);
        let m = kids.len();
        let ghost orig = kids@;
        let mut k: usize = 0;
        while k < m
            invariant
                k <= m == kids@.len() == orig.len(),
                forall|j: int|
                    0 <= j < m ==> #[trigger] kids@[j] == if j < k && orig[j] == from {
                        to
                    } else {
                        orig[j]
                    },
            decreases m - k,
        {
            if kids[k] == from {
                kids.set(k, to);
            }
            k += 1;
        }
        proof {
            assert(kids@ =~= replaced(orig, from, to));
        }
        let r = &mut self.rects[g];
        core::mem::swap(&mut r.children, &mut kids);
        proof {
            assert(self.views() =~= before.update(
                g as int,
                RectView { children: replaced(before[g as int].children, from, to), ..before[g as int] },
            ));
        }
    }

    /// Puts `c` at the place `pos` among the children of the rectangle
    /// `p`.
    fn insert_child(&mut self, p: usize, pos: usize, c: usize)
        requires
            p < old(self).rects@.len(),
            pos <= old(self).rects@[p as int].children@.len(),
        ensures
            final(self).views() == old(self).views().update(
                p as int,
                RectView {
                    children: old(self).views()[p as int].children.insert(pos as int, c),
                    ..old(self).views()[p as int]
                },
            ),
            final(self).main == old(self).main,
            final(self).max == old(self).max,
            final(self).frame == old(self).frame,
            final(self).solved == old(self).solved,
    {
        let ghost before = self.views();
        let r = &mut self.rects[p];
        r.children.insert(pos, c);
        proof {
            assert(before[p as int] == old(self).rects@[p as int]@);
            assert(self.views() =~= before.update(
                p as int,
                RectView {
                    children: before[p as int].children.insert(pos as int, c),
                    ..before[p as int]
                },
            ));
        }
    }

    /// Makes the rectangle `i` a child of the rectangle `n`, with nothing
    /// asked of it and no frame: what it had goes to the parent that
    /// takes its place.
    fn hold(&mut self, i: usize, n: usize)
        requires
            i < old(self).rects@.len(),
        ensures
            final(self).views() == old(self).views().update(
                i as int,
                RectView {
                    parent: Some(n),
                    defined: None,
                    ratio: None,
                    insets: Insets { left: 0, up: 0, right: 0, down: 0 },
                    ..old(self).views()[i as int]
                },
            ),
            final(self).main == old(self).main,
            final(self).max == old(self).max,
            final(self).frame == old(self).frame,
            final(self).solved == old(self).solved,
    {
        let ghost before = self.views();
        let held = &mut self.rects[i];
        held.parent = Some(n);
        held.defined = None;
        held.ratio = None;
        held.insets = Insets { left: 0, up: 0, right: 0, down: 0 };
        proof {
            assert(before[i as int] == old(self).rects@[i as int]@);
            assert(self.views() =~= before.update(
                i as int,
                RectView {
                    parent: Some(n),
                    defined: None,
                    ratio: None,
                    insets: Insets { left: 0, up: 0, right: 0, down: 0 },
                    ..before[i as int]
                },
            ));
        }
    }

    /// Adds a rectangle at the end.
    fn push_rect(&mut self, r: Rect)
        ensures
            final(self).views() == old(self).views().push(r@),
            final(self).main == old(self).main,
            final(self).max == old(self).max,
            final(self).frame == old(self).frame,
            final(self).solved == old(self).solved,
    {
        let ghost before = self.views();
        self.rects.push(r);
        proof {
            assert(self.views() =~= before.push(r@));
        }
    }

    /// Adds a rectangle without children at the end.
    fn push_leaf(&mut self, parent: usize, defined: Option<Constraint>)
        ensures
            final(self).views() == old(self).views().push(new_leaf(parent, defined)),
            final(self).main == old(self).main,
            final(self).max == old(self).max,
            final(self).frame == old(self).frame,
            final(self).solved == old(self).solved,
    {
        let r = Rect {
            parent: Some(parent),
            children: Vec::new(),
            axis: Axis::Horizontal,
            clustered: false,
            is_parent: false,
            defined,
            ratio: None,
            insets: Insets { left: 0, up: 0, right: 0, down: 0 },
            tl: Coord { x: 0, y: 0 },
            br: Coord { x: 0, y: 0 },
        };
        proof {
            assert(r@.children =~= Seq::empty());
        }
        self.push_rect(r);
    }

    /// Bisects the rectangle `index`: a new rectangle joins the tree at
    /// the side that `specs` names, beside the rectangle, within it, or
    /// with it within a new parent that takes its place. Returns the name
    /// of the new rectangle and that of the new parent, if there is one;
    /// or `None`, with the layout unchanged, where there is no rectangle
    /// of that name or no room for more. Afterwards the layout awaits a
    /// solution.
    pub fn bisect(&mut self, index: AreaId, specs: PushSpecs, cluster_new: bool) -> (r: Option<
        (AreaId, Option<AreaId>),
    >)
        requires
            old(self).wf(),
        ensures
            final(self).wf(),
            final(self).max == old(self).max,
            final(self).frame == old(self).frame,
            r is None <==> index.id >= old(self).rects@.len() || old(self).rects@.len() + 2
                > MAX_RECTS,
            r is None ==> final(self).views() == old(self).views() && final(self).main == old(self).main && final(self).solved == old(self).solved,
            r is Some ==> {
                &&& !final(self).solved
                &&& final(self).views() == bisected(
                    old(self).views(),
                    index.id as int,
                    specs,
                    cluster_new,
                )
                &&& final(self).main == main_after(
                    old(self).views(),
                    old(self).main,
                    index.id as int,
                    specs,
                    cluster_new,
                )
                &&& r.unwrap() == match spec_target(
                    old(self).views(),
                    index.id as int,
                    specs,
                    cluster_new,
                ) {
                    Target::ChildOf(_, _) => (AreaId { id: old(self).rects@.len() as usize }, None),
                    Target::NewParent(_) => (
                        AreaId { id: (old(self).rects@.len() + 1) as usize },
                        Some(AreaId { id: old(self).rects@.len() as usize }),
                    ),
                }
            },
    {
        let n = self.rects.len();
        if index.id >= n || n + 2 > MAX_RECTS {
            return None;
        }
        let ghost before = self.views();
        let i = index.id;
        let target = self.target(i, specs, cluster_new);
        proof {
            lemma_bisected_tree(before, self.main as int, i as int, specs, cluster_new);
        }
        self.solved = false;
        match target {
            Target::ChildOf(p, pos) => {
                proof {
                    assert(before[p as int] == self.rects@[p as int]@);
                }
                self.insert_child(p, pos, n);
                self.push_leaf(p, specs.constraint());
                Some((AreaId { id: n }, None))
            },
            Target::NewParent(pos) => {
                proof {
                    assert(before[i as int] == self.rects@[i as int]@);
                }
                let held = &self.rects[i];
                let parent = held.parent;
                let defined = held.defined;
                let ratio = held.ratio;
                let insets = held.insets;
                let tl = held.tl;
                let br = held.br;
                self.hold(i, n);
                if let Some(g) = parent {
                    self.replace_child(g, i, n);
                }
                let mut children: Vec<usize> = Vec::new();
                if pos == 0 {
                    children.push(n + 1);
                    children.push(i);
                } else {
                    children.push(i);
                    children.push(n + 1);
                }
                let r = Rect {
                    parent,
                    children,
                    axis: specs.axis(),
                    clustered: cluster_new,
                    is_parent: true,
                    defined,
                    ratio,
                    insets,
                    tl,
                    br,
                };
                proof {
                    assert(r@.children =~= if pos == 0 {
                        seq![(n + 1) as usize, i]
                    } else {
                        seq![i, (n + 1) as usize]
                    });
                }
                self.push_rect(r);
                self.push_leaf(n, specs.constraint());
                if i == self.main {
                    self.main = n;
                }
                Some((AreaId { id: n + 1 }, Some(AreaId { id: n })))
            },
        }
    }
}

/// Bisecting a rectangle of a tree leaves a tree.
pub proof fn lemma_bisected_tree(rects: Seq<RectView>, main: int, index: int, specs: PushSpecs, cluster_new: bool)
    requires
        tree_wf(rects, main),
        0 <= index < rects.len(),
        rects.len() + 2 <= MAX_RECTS,
    ensures
        tree_wf(
            bisected(rects, index, specs, cluster_new),
            main_after(rects, main as usize, index, specs, cluster_new) as int,
        ),
{
    let after = bisected(rects, index, specs, cluster_new);
    let n = rects.len() as int;
    match spec_target(rects, index, specs, cluster_new) {
        Target::ChildOf(p, pos) => {
            if let Some(q) = rects[index].parent {
                lemma_index_in(rects[q as int].children, index as usize, 0);
            }
            assert(0 <= p < n);
            assert(0 <= pos <= rects[p as int].children.len());
            assert forall|i: int| 0 <= i < after.len() implies ((#[trigger] after[i]).parent matches Some(
                q,
            ) ==> q < after.len()) && after[i].children.len() <= after.len() by {
                if i < n {
                    assert(after[i].parent == rects[i].parent);
                    assert(rects[i].children.len() <= rects.len());
                }
            }
            assert forall|i: int, k: int|
                0 <= i < after.len() && 0 <= k < after[i].children.len() implies (
            #[trigger] after[i].children[k]) < after.len() && after[after[i].children[k] as int].parent
                == Some(i as usize) by {
                if i == p {
                    if k < pos {
                        assert(after[i].children[k] == rects[i].children[k]);
                    } else if k > pos {
                        assert(after[i].children[k] == rects[i].children[k - 1]);
                    }
                } else {
                    assert(after[i].children[k] == rects[i].children[k]);
                }
                let c = after[i].children[k] as int;
                if c < n {
                    assert(after[c].parent == rects[c].parent);
                }
            }
            assert forall|i: int| 0 <= i < after.len() implies (#[trigger] after[i]).tl.x
                <= MAX_COORD && after[i].tl.y <= MAX_COORD && after[i].br.x <= MAX_COORD
                && after[i].br.y <= MAX_COORD && after[i].insets.left <= 1 && after[i].insets.up
                <= 1 && after[i].insets.right <= 1 && after[i].insets.down <= 1 by {
                if i < n {
                    assert(after[i].tl == rects[i].tl && after[i].br == rects[i].br
                        && after[i].insets == rects[i].insets);
                }
            }
        },
        Target::NewParent(pos) => {
            let old = rects[index];
            assert forall|i: int| 0 <= i < after.len() implies ((#[trigger] after[i]).parent matches Some(
                q,
            ) ==> q < after.len()) && after[i].children.len() <= after.len() by {
                if i < n {
                    assert(rects[i].children.len() <= rects.len());
                    if i != index {
                        assert(after[i].parent == rects[i].parent);
                    }
                } else if i == n {
                    assert(after[i].parent == old.parent);
                }
            }
            assert forall|i: int, k: int|
                0 <= i < after.len() && 0 <= k < after[i].children.len() implies (
            #[trigger] after[i].children[k]) < after.len() && after[after[i].children[k] as int].parent
                == Some(i as usize) by {
                if i < n {
                    assert(rects[i].children[k] < rects.len());
                    let c0 = rects[i].children[k] as int;
                    if Some(i as usize) == old.parent {
                        if c0 == index {
                            assert(after[i].children[k] == n);
                        } else {
                            assert(after[i].children[k] == c0);
                            assert(after[c0].parent == rects[c0].parent);
                        }
                    } else {
                        assert(after[i].children[k] == c0);
                        assert(rects[c0].parent == Some(i as usize));
                        assert(c0 != index);
                        assert(after[c0].parent == rects[c0].parent);
                    }
                }
            }
            assert forall|i: int| 0 <= i < after.len() implies (#[trigger] after[i]).tl.x
                <= MAX_COORD && after[i].tl.y <= MAX_COORD && after[i].br.x <= MAX_COORD
                && after[i].br.y <= MAX_COORD && after[i].insets.left <= 1 && after[i].insets.up
                <= 1 && after[i].insets.right <= 1 && after[i].insets.down <= 1 by {
                if i < n && i != index {
                    assert(after[i].tl == rects[i].tl && after[i].br == rects[i].br
                        && after[i].insets == rects[i].insets);
                }
            }
            let m = main_after(rects, main as usize, index, specs, cluster_new) as int;
            if index != main {
                assert(after[m].parent == rects[m].parent);
            }
        },
    }
}

/// How the two sides of a constraint relate.
#[derive(Clone, Copy, Debug, PartialEq, Eq, Structural)]
pub enum Relation {
    Eq,
    Ge,
    Le,
}

/// How much a constraint weighs, from the strongest to the weakest.
#[derive(Clone, Copy, Debug, PartialEq, Eq, Structural)]
pub enum Strength {
    Required,
    Strong,
    Medium,
    /// Twice as much as weak.
    WeakTwice,
    Weak,
}

/// A variable of the solver with its factor.
#[derive(Clone, Copy, Debug, PartialEq, Eq, Structural)]
pub struct Term {
    pub var: usize,
    pub coef: i64,
}

/// A linear constraint for the solver: the sum of its four terms and its
/// constant relates to 0. The variables are the edges of the rectangles:
/// the rectangle `i` has the variables `4 * i` for its left edge, and the
/// three after it for its upper, its right and its lower edge.
#[derive(Clone, Copy, Debug, PartialEq, Eq, Structural)]
pub struct LinConstraint {
    pub a: Term,
    pub b: Term,
    pub c: Term,
    pub d: Term,
    pub constant: i64,
    pub rel: Relation,
    pub strength: Strength,
}

/// The variable of the start of the rectangle `i` along an axis.
pub open spec fn start_var(i: int, a: Axis) -> usize {
    match a {
        Axis::Horizontal => (4 * i) as usize,
        Axis::Vertical => (4 * i + 1) as usize,
    }
}

/// The variable of the end of the rectangle `i` along an axis.
pub open spec fn end_var(i: int, a: Axis) -> usize {
    match a {
        Axis::Horizontal => (4 * i + 2) as usize,
        Axis::Vertical => (4 * i + 3) as usize,
    }
}

/// The variable of the start of the rectangle `i` along an axis.
pub fn start_var_of(i: usize, a: Axis) -> (r: usize)
    requires
        i <= MAX_RECTS,
    ensures
        r == start_var(i as int, a),
{
    match a {
        Axis::Horizontal => 4 * i,
        Axis::Vertical => 4 * i + 1,
    }
}

/// The variable of the end of the rectangle `i` along an axis.
pub fn end_var_of(i: usize, a: Axis) -> (r: usize)
    requires
        i <= MAX_RECTS,
    ensures
        r == end_var(i as int, a),
{
    match a {
        Axis::Horizontal => 4 * i + 2,
        Axis::Vertical => 4 * i + 3,
    }
}

/// The constraint `x + k` relates to `y`.
pub open spec fn spec_two(x: usize, y: usize, k: i64, rel: Relation, strength: Strength) -> LinConstraint {
    LinConstraint {
        a: Term { var: x, coef: 1 },
        b: Term { var: y, coef: -1i64 },
        c: Term { var: 0, coef: 0 },
        d: Term { var: 0, coef: 0 },
        constant: k,
        rel,
        strength,
    }
}

/// The constraint `x + k` relates to `y`.
pub fn two(x: usize, y: usize, k: i64, rel: Relation, strength: Strength) -> (r: LinConstraint)
    ensures
        r == spec_two(x, y, k, rel, strength),
{
    LinConstraint {
        a: Term { var: x, coef: 1 },
        b: Term { var: y, coef: -1 },
        c: Term { var: 0, coef: 0 },
        d: Term { var: 0, coef: 0 },
        constant: k,
        rel,
        strength,
    }
}

/// The constraint `x + k` relates to 0.
pub open spec fn spec_one(x: usize, k: i64, rel: Relation, strength: Strength) -> LinConstraint {
    LinConstraint {
        a: Term { var: x, coef: 1 },
        b: Term { var: 0, coef: 0 },
        c: Term { var: 0, coef: 0 },
        d: Term { var: 0, coef: 0 },
        constant: k,
        rel,
        strength,
    }
}

/// The constraint `x + k` relates to 0.
pub fn one(x: usize, k: i64, rel: Relation, strength: Strength) -> (r: LinConstraint)
    ensures
        r == spec_one(x, k, rel, strength),
{
    LinConstraint {
        a: Term { var: x, coef: 1 },
        b: Term { var: 0, coef: 0 },
        c: Term { var: 0, coef: 0 },
        d: Term { var: 0, coef: 0 },
        constant: k,
        rel,
        strength,
    }
}

/// The constraint `m` times the length of the rectangle `i`, less `n`
/// times the length of the rectangle `j`, plus `k`, relates to 0, the
/// lengths taken along an axis.
pub open spec fn spec_lens(
    i: int,
    m: i64,
    j: int,
    n: i64,
    k: i64,
    a: Axis,
    rel: Relation,
    strength: Strength,
) -> LinConstraint {
    LinConstraint {
        a: Term { var: end_var(i, a), coef: m },
        b: Term { var: start_var(i, a), coef: (-m) as i64 },
        c: Term { var: end_var(j, a), coef: (-n) as i64 },
        d: Term { var: start_var(j, a), coef: n },
        constant: k,
        rel,
        strength,
    }
}

/// The constraint on the lengths of two rectangles.
pub fn lens(i: usize, m: i64, j: usize, n: i64, k: i64, a: Axis, rel: Relation, strength: Strength) -> (r:
    LinConstraint)
    requires
        i <= MAX_RECTS,
        j <= MAX_RECTS,
        -0x1_0000_0000 <= m <= 0x1_0000_0000,
        -0x1_0000_0000 <= n <= 0x1_0000_0000,
    ensures
        r == spec_lens(i as int, m, j as int, n, k, a, rel, strength),
{
    LinConstraint {
        a: Term { var: end_var_of(i, a), coef: m },
        b: Term { var: start_var_of(i, a), coef: -m },
        c: Term { var: end_var_of(j, a), coef: -n },
        d: Term { var: start_var_of(j, a), coef: n },
        constant: k,
        rel,
        strength,
    }
}

/// The constraint that stands for what a user asks of the length of the
/// child `c` of the rectangle `p` along an axis: a fraction of the length
/// of the parent, twice as strong as weak; a length, strong; a bound,
/// medium.
pub open spec fn spec_defined(c: int, p: int, a: Axis, con: Constraint) -> LinConstraint {
    match con {
        Constraint::Ratio(num, den) => spec_lens(
            c,
            den as i64,
            p,
            num as i64,
            0,
            a,
            Relation::Eq,
            Strength::WeakTwice,
        ),
        Constraint::Percent(pc) => spec_lens(
            c,
            100,
            p,
            pc as i64,
            0,
            a,
            Relation::Eq,
            Strength::WeakTwice,
        ),
        Constraint::Length(len) => spec_lens(
            c,
            1,
            p,
            0,
            (-(len as int)) as i64,
            a,
            Relation::Eq,
            Strength::Strong,
        ),
        Constraint::Min(min) => spec_lens(
            c,
            1,
            p,
            0,
            (-(min as int)) as i64,
            a,
            Relation::Ge,
            Strength::Medium,
        ),
        Constraint::Max(max) => spec_lens(
            c,
            1,
            p,
            0,
            (-(max as int)) as i64,
            a,
            Relation::Le,
            Strength::Medium,
        ),
    }
}

/// The constraint that stands for what a user asks of the length of a
/// child.
pub fn defined_constraint(c: usize, p: usize, a: Axis, con: Constraint) -> (r: LinConstraint)
    requires
        c <= MAX_RECTS,
        p <= MAX_RECTS,
    ensures
        r == spec_defined(c as int, p as int, a, con),
{
    match con {
        Constraint::Ratio(num, den) => lens(
            c,
            den as i64,
            p,
            num as i64,
            0,
            a,
            Relation::Eq,
            Strength::WeakTwice,
        ),
        Constraint::Percent(pc) => lens(c, 100, p, pc as i64, 0, a, Relation::Eq, Strength::WeakTwice),
        Constraint::Length(len) => lens(c, 1, p, 0, -(len as i64), a, Relation::Eq, Strength::Strong),
        Constraint::Min(min) => lens(c, 1, p, 0, -(min as i64), a, Relation::Ge, Strength::Medium),
        Constraint::Max(max) => lens(c, 1, p, 0, -(max as i64), a, Relation::Le, Strength::Medium),
    }
}

/// The constraints of the child `k` of the rectangle `p`. Required: no
/// edge lies before the start of the screen, and no rectangle ends before
/// it begins; across the axis of the parent the child reaches from one
/// edge of the parent to the other, less the frame; along it the first
/// child begins where the parent begins, after the frame, and each child
/// ends, with the frame after it, where the next one begins or the
/// parent ends. Then what the user asks of its length, and the ratio of
/// its length to that of the rectangle `ratio.0`, which is weak.
pub open spec fn child_constraints(rects: Seq<RectView>, p: int, k: int) -> Seq<LinConstraint> {
    let parent = rects[p];
    let a = parent.axis;
    let q = a.spec_perp();
    let ci = parent.children[k] as int;
    let c = rects[ci];
    let req = Strength::Required;
    let bounds = seq![
        spec_one(start_var(ci, Axis::Horizontal), 0, Relation::Ge, req),
        spec_one(start_var(ci, Axis::Vertical), 0, Relation::Ge, req),
        spec_two(
            end_var(ci, Axis::Horizontal),
            start_var(ci, Axis::Horizontal),
            0,
            Relation::Ge,
            req,
        ),
        spec_two(end_var(ci, Axis::Vertical), start_var(ci, Axis::Vertical), 0, Relation::Ge, req),
        spec_two(
            start_var(p, q),
            start_var(ci, q),
            inset_before(c, q) as i64,
            Relation::Eq,
            req,
        ),
        spec_two(end_var(ci, q), end_var(p, q), inset_after(c, q) as i64, Relation::Eq, req),
        spec_two(
            end_var(ci, a),
            if k + 1 < parent.children.len() {
                start_var(parent.children[k + 1] as int, a)
            } else {
                end_var(p, a)
            },
            inset_after(c, a) as i64,
            Relation::Eq,
            req,
        ),
    ];
    let first = if k == 0 {
        seq![
            spec_two(
                start_var(p, a),
                start_var(ci, a),
                inset_before(c, a) as i64,
                Relation::Eq,
                req,
            ),
        ]
    } else {
        Seq::empty()
    };
    let defined = match c.defined {
        Some(con) => seq![spec_defined(ci, p, a, con)],
        None => Seq::empty(),
    };
    let next = next_resizable(rects, p, k + 1);
    let ratio = match c.ratio {
        Some((m, n)) => if next < parent.children.len() {
            seq![
                spec_lens(
                    ci,
                    n as i64,
                    parent.children[next] as int,
                    m as i64,
                    0,
                    a,
                    Relation::Eq,
                    Strength::Weak,
                ),
            ]
        } else {
            Seq::empty()
        },
        None => Seq::empty(),
    };
    bounds + first + defined + ratio
}

/// Whether the child `k` of the rectangle `p` can change its length.
pub open spec fn resizable_at(rects: Seq<RectView>, p: int, k: int) -> bool {
    spec_is_resizable(rects[rects[p].children[k] as int].defined)
}

/// The place of the first child of the rectangle `p` from `k` on that can
/// change its length, or the number of children.
pub open spec fn next_resizable(rects: Seq<RectView>, p: int, k: int) -> int
    decreases rects[p].children.len() - k,
{
    if k < 0 || k >= rects[p].children.len() {
        rects[p].children.len() as int
    } else if resizable_at(rects, p, k) {
        k
    } else {
        next_resizable(rects, p, k + 1)
    }
}

/// The place of the last child of the rectangle `p` before `k` that can
/// change its length, or -1.
pub open spec fn prev_resizable(rects: Seq<RectView>, p: int, k: int) -> int
    decreases k,
{
    if k <= 0 || k > rects[p].children.len() {
        -1
    } else if resizable_at(rects, p, k - 1) {
        k - 1
    } else {
        prev_resizable(rects, p, k - 1)
    }
}

/// The place that `prev_resizable` finds lies before `k`.
pub proof fn lemma_prev_resizable(rects: Seq<RectView>, p: int, k: int)
    ensures
        -1 <= prev_resizable(rects, p, k),
        prev_resizable(rects, p, k) < k || prev_resizable(rects, p, k) == -1,
    decreases k,
{
    if 0 < k <= rects[p].children.len() && !resizable_at(rects, p, k - 1) {
        lemma_prev_resizable(rects, p, k - 1);
    }
}

/// The length of a rectangle along an axis, which is 0 where it ends
/// before it begins.
pub open spec fn len_of(r: RectView, a: Axis) -> int {
    if end_of(r, a) >= start_of(r, a) {
        end_of(r, a) - start_of(r, a)
    } else {
        0
    }
}

/// The ratio of two lengths as a fraction, which is 1 where the second
/// length is 0.
pub open spec fn ratio_of(a: int, b: int) -> (u32, u32) {
    if b == 0 {
        (1, 1)
    } else {
        (a as u32, b as u32)
    }
}

/// The number of the first `n` children of the rectangle `p` that can
/// change their lengths.
pub open spec fn count_resizable(rects: Seq<RectView>, p: int, n: int) -> int
    decreases n,
{
    if n <= 0 {
        0
    } else {
        count_resizable(rects, p, n - 1) + if resizable_at(rects, p, n - 1) {
            1int
        } else {
            0int
        }
    }
}

/// The sum of the lengths of those of the first `n` children of the
/// rectangle `p` that can change their lengths.
pub open spec fn sum_resizable(rects: Seq<RectView>, p: int, n: int) -> int
    decreases n,
{
    if n <= 0 {
        0
    } else {
        sum_resizable(rects, p, n - 1) + if resizable_at(rects, p, n - 1) {
            len_of(rects[rects[p].children[n - 1] as int], rects[p].axis)
        } else {
            0
        }
    }
}

/// The room that the frame takes around the rectangle `i`: none where it
/// is not framed, because its parent is clustered or it holds rectangles
/// that are not; around the main rectangle a surrounding frame takes one
/// cell at each side; any other rectangle has what the frame gives to its
/// corners.
pub open spec fn frame_of(rects: Seq<RectView>, i: int, main: int, frame: Frame, max: Coord) -> Insets {
    let r = rects[i];
    let parent_clustered = match r.parent {
        Some(p) => rects[p as int].clustered,
        None => false,
    };
    let framed = if parent_clustered {
        false
    } else if r.is_parent {
        r.clustered
    } else {
        true
    };
    if !framed {
        Insets { left: 0, up: 0, right: 0, down: 0 }
    } else if i == main {
        if frame == Frame::Surround {
            Insets { left: 1, up: 1, right: 1, down: 1 }
        } else {
            Insets { left: 0, up: 0, right: 0, down: 0 }
        }
    } else {
        frame.spec_insets(r.tl, r.br, max)
    }
}

/// The rectangles with the room that a frame takes around each.
pub open spec fn framed(rects: Seq<RectView>, main: int, frame: Frame, max: Coord) -> Seq<RectView> {
    Seq::new(
        rects.len(),
        |i: int| RectView { insets: frame_of(rects, i, main, frame, max), ..rects[i] },
    )
}

/// The value of a term where the variables have the values that `val`
/// gives them.
pub open spec fn term_value(t: Term, val: spec_fn(usize) -> int) -> int {
    t.coef * val(t.var)
}

/// Whether a constraint holds where the variables have the values that
/// `val` gives them.
pub open spec fn holds(c: LinConstraint, val: spec_fn(usize) -> int) -> bool {
    let sum = term_value(c.a, val) + term_value(c.b, val) + term_value(c.c, val) + term_value(
        c.d,
        val,
    ) + c.constant;
    match c.rel {
        Relation::Eq => sum == 0,
        Relation::Ge => sum >= 0,
        Relation::Le => sum <= 0,
    }
}

/// The values that the corners of the rectangles give to the variables.
pub open spec fn values_of(rects: Seq<RectView>) -> spec_fn(usize) -> int {
    |v: usize|
        {
            let r = rects[(v / 4) as int];
            if v % 4 == 0 {
                r.tl.x as int
            } else if v % 4 == 1 {
                r.tl.y as int
            } else if v % 4 == 2 {
                r.br.x as int
            } else {
                r.br.y as int
            }
        }
}

/// Layout edge equalities: where the corners of the rectangles satisfy
/// the required constraints of a child, the edge equalities of that child
/// hold.
pub proof fn lemma_required_give_edges(rects: Seq<RectView>, main: int, p: int, k: int)
    requires
        tree_wf(rects, main),
        0 <= p < rects.len(),
        0 <= k < rects[p].children.len(),
        forall|i: int|
            0 <= i < child_constraints(rects, p, k).len() && (#[trigger] child_constraints(
                rects,
                p,
                k,
            )[i]).strength == Strength::Required ==> holds(
                child_constraints(rects, p, k)[i],
                values_of(rects),
            ),
    ensures
        child_edges_hold(rects, p, k),
{
    let cs = child_constraints(rects, p, k);
    let val = values_of(rects);
    let parent = rects[p];
    let a = parent.axis;
    let q = a.spec_perp();
    let ci = parent.children[k] as int;
    let c = rects[ci];
    let req = Strength::Required;
    assert(0 <= ci < rects.len());
    lemma_values(rects, p);
    lemma_values(rects, ci);
    let e4 = spec_two(start_var(p, q), start_var(ci, q), inset_before(c, q) as i64, Relation::Eq, req);
    let e5 = spec_two(end_var(ci, q), end_var(p, q), inset_after(c, q) as i64, Relation::Eq, req);
    let nv = if k + 1 < parent.children.len() {
        start_var(parent.children[k + 1] as int, a)
    } else {
        end_var(p, a)
    };
    let e6 = spec_two(end_var(ci, a), nv, inset_after(c, a) as i64, Relation::Eq, req);
    assert(cs[4] == e4);
    assert(cs[5] == e5);
    assert(cs[6] == e6);
    assert(holds(cs[4], val));
    assert(holds(cs[5], val));
    assert(holds(cs[6], val));
    lemma_two_holds(start_var(p, q), start_var(ci, q), inset_before(c, q) as i64, req, val);
    lemma_two_holds(end_var(ci, q), end_var(p, q), inset_after(c, q) as i64, req, val);
    lemma_two_holds(end_var(ci, a), nv, inset_after(c, a) as i64, req, val);
    if k + 1 < parent.children.len() {
        let ni = parent.children[k + 1] as int;
        assert(0 <= ni < rects.len());
        lemma_values(rects, ni);
    }
    if k == 0 {
        let e7 = spec_two(start_var(p, a), start_var(ci, a), inset_before(c, a) as i64, Relation::Eq, req);
        assert(cs[7] == e7);
        assert(holds(cs[7], val));
        lemma_two_holds(start_var(p, a), start_var(ci, a), inset_before(c, a) as i64, req, val);
    }
}

/// An equality between two variables holds where the first, with the
/// constant, has the value of the second.
pub proof fn lemma_two_holds(x: usize, y: usize, k: i64, strength: Strength, val: spec_fn(usize) -> int)
    ensures
        holds(spec_two(x, y, k, Relation::Eq, strength), val) <==> val(x) + k == val(y),
{
    let c = spec_two(x, y, k, Relation::Eq, strength);
    assert(term_value(c.a, val) == val(x)) by (nonlinear_arith)
        requires
            term_value(c.a, val) == c.a.coef * val(x),
            c.a.coef == 1,
    ;
    assert(term_value(c.b, val) == -val(y)) by (nonlinear_arith)
        requires
            term_value(c.b, val) == c.b.coef * val(y),
            c.b.coef == -1,
    ;
    assert(term_value(c.c, val) == 0) by (nonlinear_arith)
        requires
            term_value(c.c, val) == c.c.coef * val(0),
            c.c.coef == 0,
    ;
    assert(term_value(c.d, val) == 0) by (nonlinear_arith)
        requires
            term_value(c.d, val) == c.d.coef * val(0),
            c.d.coef == 0,
    ;
}

/// The values of the variables of the rectangle `i` are its edges.
pub proof fn lemma_values(rects: Seq<RectView>, i: int)
    requires
        0 <= i < rects.len(),
        rects.len() <= MAX_RECTS,
    ensures
        values_of(rects)(start_var(i, Axis::Horizontal)) == rects[i].tl.x,
        values_of(rects)(start_var(i, Axis::Vertical)) == rects[i].tl.y,
        values_of(rects)(end_var(i, Axis::Horizontal)) == rects[i].br.x,
        values_of(rects)(end_var(i, Axis::Vertical)) == rects[i].br.y,
{
    assert((4 * i) as usize / 4 == i && (4 * i) as usize % 4 == 0);
    assert((4 * i + 1) as usize / 4 == i && (4 * i + 1) as usize % 4 == 1);
    assert((4 * i + 2) as usize / 4 == i && (4 * i + 2) as usize % 4 == 2);
    assert((4 * i + 3) as usize / 4 == i && (4 * i + 3) as usize % 4 == 3);
}

/// The constraints of the main rectangle `m`: it begins after the frame
/// at the start of the screen and ends, with the frame after it, at the
/// end of the screen. All are required.
pub open spec fn main_constraints(rects: Seq<RectView>, m: int, max: Coord) -> Seq<LinConstraint> {
    let r = rects[m];
    let req = Strength::Required;
    seq![
        spec_one(start_var(m, Axis::Horizontal), (-(r.insets.left as int)) as i64, Relation::Eq, req),
        spec_one(start_var(m, Axis::Vertical), (-(r.insets.up as int)) as i64, Relation::Eq, req),
        spec_one(
            end_var(m, Axis::Horizontal),
            (r.insets.right - max.x) as i64,
            Relation::Eq,
            req,
        ),
        spec_one(end_var(m, Axis::Vertical), (r.insets.down - max.y) as i64, Relation::Eq, req),
    ]
}

/// The constraints of the first `k` children of the rectangle `p`.
pub open spec fn children_constraints(rects: Seq<RectView>, p: int, k: int) -> Seq<LinConstraint>
    decreases k,
{
    if k <= 0 {
        Seq::empty()
    } else {
        children_constraints(rects, p, k - 1) + child_constraints(rects, p, k - 1)
    }
}

/// The constraints of the children of the first `p` rectangles.
pub open spec fn rects_constraints(rects: Seq<RectView>, p: int) -> Seq<LinConstraint>
    decreases p,
{
    if p <= 0 {
        Seq::empty()
    } else {
        rects_constraints(rects, p - 1) + children_constraints(
            rects,
            p - 1,
            rects[p - 1].children.len() as int,
        )
    }
}

/// All constraints of a layout: those of the main rectangle and those of
/// the children of every rectangle.
pub open spec fn all_constraints(rects: Seq<RectView>, main: int, max: Coord) -> Seq<LinConstraint> {
    main_constraints(rects, main, max) + rects_constraints(rects, rects.len() as int)
}

/// An equality of one variable holds where the variable, with the
/// constant, is 0.
pub proof fn lemma_one_holds(x: usize, k: i64, strength: Strength, val: spec_fn(usize) -> int)
    ensures
        holds(spec_one(x, k, Relation::Eq, strength), val) <==> val(x) + k == 0,
{
    let c = spec_one(x, k, Relation::Eq, strength);
    assert(term_value(c.a, val) == val(x)) by (nonlinear_arith)
        requires
            term_value(c.a, val) == c.a.coef * val(x),
            c.a.coef == 1,
    ;
    assert(term_value(c.b, val) == 0) by (nonlinear_arith)
        requires
            term_value(c.b, val) == c.b.coef * val(0),
            c.b.coef == 0,
    ;
    assert(term_value(c.c, val) == 0) by (nonlinear_arith)
        requires
            term_value(c.c, val) == c.c.coef * val(0),
            c.c.coef == 0,
    ;
    assert(term_value(c.d, val) == 0) by (nonlinear_arith)
        requires
            term_value(c.d, val) == c.d.coef * val(0),
            c.d.coef == 0,
    ;
}

/// The constraints of a child are among those of the children of its
/// parent.
pub proof fn lemma_child_among_children(rects: Seq<RectView>, p: int, k: int, n: int, x: LinConstraint)
    requires
        0 <= k < n,
        child_constraints(rects, p, k).contains(x),
    ensures
        children_constraints(rects, p, n).contains(x),
    decreases n,
{
    let before = children_constraints(rects, p, n - 1);
    let last = child_constraints(rects, p, n - 1);
    if k == n - 1 {
        let j = choose|j: int| 0 <= j < last.len() && last[j] == x;
        assert((before + last)[before.len() + j] == x);
    } else {
        lemma_child_among_children(rects, p, k, n - 1, x);
        let j = choose|j: int| 0 <= j < before.len() && before[j] == x;
        assert((before + last)[j] == x);
    }
}

/// The constraints of the children of a rectangle are among those of the
/// children of all rectangles.
pub proof fn lemma_children_among_rects(rects: Seq<RectView>, p: int, n: int, x: LinConstraint)
    requires
        0 <= p < n,
        children_constraints(rects, p, rects[p].children.len() as int).contains(x),
    ensures
        rects_constraints(rects, n).contains(x),
    decreases n,
{
    let before = rects_constraints(rects, n - 1);
    let last = children_constraints(rects, n - 1, rects[n - 1].children.len() as int);
    if p == n - 1 {
        let j = choose|j: int| 0 <= j < last.len() && last[j] == x;
        assert((before + last)[before.len() + j] == x);
    } else {
        lemma_children_among_rects(rects, p, n - 1, x);
        let j = choose|j: int| 0 <= j < before.len() && before[j] == x;
        assert((before + last)[j] == x);
    }
}

/// Layout edge equalities: where the corners of the rectangles satisfy
/// the required constraints of a layout, its edge equalities hold: the
/// first child of every parent begins where the parent begins, after the
/// frame; each child ends, with the frame after it, where the next one
/// begins, and the last one where the parent ends.
pub proof fn lemma_solution_gives_edges(rects: Seq<RectView>, main: int, max: Coord)
    requires
        tree_wf(rects, main),
        max.x <= MAX_COORD,
        max.y <= MAX_COORD,
        forall|i: int|
            0 <= i < all_constraints(rects, main, max).len() && (#[trigger] all_constraints(
                rects,
                main,
                max,
            )[i]).strength == Strength::Required ==> holds(
                all_constraints(rects, main, max)[i],
                values_of(rects),
            ),
    ensures
        edges_hold(rects, main, max),
{
    let all = all_constraints(rects, main, max);
    let val = values_of(rects);
    let head = main_constraints(rects, main, max);
    let tail = rects_constraints(rects, rects.len() as int);
    let r = rects[main];
    let req = Strength::Required;
    lemma_values(rects, main);
    assert(all[0] == head[0] && all[1] == head[1] && all[2] == head[2] && all[3] == head[3]);
    assert(holds(all[0], val) && holds(all[1], val) && holds(all[2], val) && holds(all[3], val));
    lemma_one_holds(start_var(main, Axis::Horizontal), (-(r.insets.left as int)) as i64, req, val);
    lemma_one_holds(start_var(main, Axis::Vertical), (-(r.insets.up as int)) as i64, req, val);
    lemma_one_holds(end_var(main, Axis::Horizontal), (r.insets.right - max.x) as i64, req, val);
    lemma_one_holds(end_var(main, Axis::Vertical), (r.insets.down - max.y) as i64, req, val);
    assert(main_edges_hold(rects[main], max));
    assert forall|p: int, k: int|
        0 <= p < rects.len() && 0 <= k < rects[p].children.len() implies #[trigger] child_edges_hold(
        rects,
        p,
        k,
    ) by {
        let cs = child_constraints(rects, p, k);
        assert forall|i: int| 0 <= i < cs.len() && (#[trigger] cs[i]).strength == req implies holds(
            cs[i],
            val,
        ) by {
            assert(cs.contains(cs[i]));
            lemma_child_among_children(rects, p, k, rects[p].children.len() as int, cs[i]);
            lemma_children_among_rects(rects, p, rects.len() as int, cs[i]);
            let j = choose|j: int| 0 <= j < tail.len() && tail[j] == cs[i];
            assert(all[head.len() + j] == cs[i]);
        }
        lemma_required_give_edges(rects, main, p, k);
    }
}

/// The rectangles after the ratios around the child `k` of the rectangle
/// `p` were set.
pub open spec fn with_ratios(rects: Seq<RectView>, p: int, k: int) -> Seq<RectView> {
    let parent = rects[p];
    let a = parent.axis;
    let ci = parent.children[k] as int;
    let len = len_of(rects[ci], a);
    let next = next_resizable(rects, p, k + 1);
    let prev = prev_resizable(rects, p, k);
    let own = if next < parent.children.len() {
        Some(ratio_of(len, len_of(rects[parent.children[next] as int], a)))
    } else {
        None
    };
    let first = rects.update(ci, RectView { ratio: own, ..rects[ci] });
    if prev >= 0 {
        let pi = parent.children[prev] as int;
        first.update(
            pi,
            RectView { ratio: Some(ratio_of(len_of(rects[pi], a), len)), ..first[pi] },
        )
    } else {
        first
    }
}

impl Layout {
    /// The constraints of the child `k` of the rectangle `p`, added to
    /// `out`.
    fn push_child_constraints(&self, p: usize, k: usize, out: &mut Vec<LinConstraint>)
        requires
            tree_wf(self.views(), self.main as int),
            p < self.rects@.len(),
            k < self.rects@[p as int].children@.len(),
        ensures
            final(out)@ == old(out)@ + child_constraints(self.views(), p as int, k as int),
    {
        let parent = &self.rects[p];
        proof {
            assert(self.views()[p as int] == parent@);
            assert(self.views()[p as int].children[k as int] < self.rects@.len());
            if k + 1 < parent.children@.len() {
                assert(self.views()[p as int].children[k + 1] < self.rects@.len());
            }
        }
        let a = parent.axis;
        let q = a.perp();
        let ci = parent.children[k];
        let c = &self.rects[ci];
        proof {
            assert(self.views()[ci as int] == c@);
        }
        let req = Strength::Required;
        let (ib, ia, jb, ja) = match a {
            Axis::Horizontal => (c.insets.left, c.insets.right, c.insets.up, c.insets.down),
            Axis::Vertical => (c.insets.up, c.insets.down, c.insets.left, c.insets.right),
        };
        let nc = parent.children.len();
        let next = if k + 1 < nc {
            start_var_of(parent.children[k + 1], a)
        } else {
            end_var_of(p, a)
        };
        out.push(one(start_var_of(ci, Axis::Horizontal), 0, Relation::Ge, req));
        out.push(one(start_var_of(ci, Axis::Vertical), 0, Relation::Ge, req));
        out.push(
            two(
                end_var_of(ci, Axis::Horizontal),
                start_var_of(ci, Axis::Horizontal),
                0,
                Relation::Ge,
                req,
            ),
        );
        out.push(
            two(end_var_of(ci, Axis::Vertical), start_var_of(ci, Axis::Vertical), 0, Relation::Ge, req),
        );
        out.push(two(start_var_of(p, q), start_var_of(ci, q), jb as i64, Relation::Eq, req));
        out.push(two(end_var_of(ci, q), end_var_of(p, q), ja as i64, Relation::Eq, req));
        out.push(two(end_var_of(ci, a), next, ia as i64, Relation::Eq, req));
        if k == 0 {
            out.push(two(start_var_of(p, a), start_var_of(ci, a), ib as i64, Relation::Eq, req));
        }
        if let Some(con) = c.defined {
            out.push(defined_constraint(ci, p, a, con));
        }
        if let Some((m, n)) = c.ratio {
            let next = self.next_resizable_from(p, k + 1);
            if next < nc {
                proof {
                    assert(self.views()[p as int].children[next as int] < self.rects@.len());
                }
                out.push(
                    lens(
                        ci,
                        n as i64,
                        parent.children[next],
                        m as i64,
                        0,
                        a,
                        Relation::Eq,
                        Strength::Weak,
                    ),
                );
            }
        }
        proof {
            assert(out@ =~= old(out)@ + child_constraints(self.views(), p as int, k as int));
        }
    }

    /// The place of the first child of the rectangle `p` from `k` on that
    /// can change its length, or the number of children.
    pub fn next_resizable_from(&self, p: usize, k: usize) -> (r: usize)
        requires
            tree_wf(self.views(), self.main as int),
            p < self.rects@.len(),
        ensures
            r == next_resizable(self.views(), p as int, k as int),
            r <= self.rects@[p as int].children@.len(),
            k <= self.rects@[p as int].children@.len() ==> k <= r,
    {
        let parent = &self.rects[p];
        proof {
            assert(self.views()[p as int] == parent@);
        }
        let n = parent.children.len();
        if k >= n {
            return n;
        }
        let mut i: usize = k;
        while i < n
            invariant
                k <= i <= n == parent.children@.len(),
                p < self.rects@.len(),
                tree_wf(self.views(), self.main as int),
                self.views()[p as int] == parent@,
                next_resizable(self.views(), p as int, k as int) == next_resizable(
                    self.views(),
                    p as int,
                    i as int,
                ),
            decreases n - i,
        {
            proof {
                assert(self.views()[p as int].children[i as int] < self.rects@.len());
                assert(self.views()[parent.children@[i as int] as int]
                    == self.rects@[parent.children@[i as int] as int]@);
            }
            if is_resizable(self.rects[parent.children[i]].defined) {
                return i;
            }
            i += 1;
        }
        n
    }

    /// The place of the last child of the rectangle `p` before `k` that
    /// can change its length, if there is one.
    pub fn prev_resizable_from(&self, p: usize, k: usize) -> (r: Option<usize>)
        requires
            tree_wf(self.views(), self.main as int),
            p < self.rects@.len(),
        ensures
            r == if prev_resizable(self.views(), p as int, k as int) >= 0 {
                Some(prev_resizable(self.views(), p as int, k as int) as usize)
            } else {
                None
            },
            r is Some ==> r.unwrap() < k && r.unwrap() < self.rects@[p as int].children@.len(),
            r is Some ==> r.unwrap() == prev_resizable(self.views(), p as int, k as int),
    {
        proof {
            lemma_prev_resizable(self.views(), p as int, k as int);
        }
        let parent = &self.rects[p];
        proof {
            assert(self.views()[p as int] == parent@);
        }
        let n = parent.children.len();
        if k > n {
            return None;
        }
        let mut i: usize = k;
        while i > 0
            invariant
                i <= k <= n == parent.children@.len(),
                p < self.rects@.len(),
                tree_wf(self.views(), self.main as int),
                self.views()[p as int] == parent@,
                prev_resizable(self.views(), p as int, k as int) == prev_resizable(
                    self.views(),
                    p as int,
                    i as int,
                ),
            decreases i,
        {
            proof {
                assert(self.views()[p as int].children[i - 1] < self.rects@.len());
                assert(self.views()[parent.children@[i - 1] as int]
                    == self.rects@[parent.children@[i - 1] as int]@);
            }
            if is_resizable(self.rects[parent.children[i - 1]].defined) {
                return Some(i - 1);
            }
            i -= 1;
        }
        None
    }

    /// The length of the rectangle `i` along an axis.
    pub fn len_along(&self, i: usize, a: Axis) -> (r: usize)
        requires
            i < self.rects@.len(),
        ensures
            r == len_of(self.views()[i as int], a),
    {
        let r = &self.rects[i];
        proof {
            assert(self.views()[i as int] == r@);
        }
        match a {
            Axis::Horizontal => r.br.x.saturating_sub(r.tl.x),
            Axis::Vertical => r.br.y.saturating_sub(r.tl.y),
        }
    }

    /// The fair share of the child `k` of the rectangle `p`: the
    /// constraint, twice as strong as weak, that gives it the length that
    /// the children that can change their lengths have together, divided
    /// by their number. It is for the first solution after the child
    /// joined, so that the ratios to its neighbours start fair. `None`
    /// where the child cannot change its length.
    pub fn fair_share(&self, p: AreaId, k: usize) -> (r: Option<LinConstraint>)
        requires
            self.wf(),
            p.id < self.rects@.len(),
            k < self.rects@[p.id as int].children@.len(),
        ensures
            r == if resizable_at(self.views(), p.id as int, k as int) {
                Some(
                    spec_lens(
                        self.views()[p.id as int].children[k as int] as int,
                        count_resizable(
                            self.views(),
                            p.id as int,
                            self.views()[p.id as int].children.len() as int,
                        ) as i64,
                        p.id as int,
                        0,
                        (-sum_resizable(
                            self.views(),
                            p.id as int,
                            self.views()[p.id as int].children.len() as int,
                        )) as i64,
                        self.views()[p.id as int].axis,
                        Relation::Eq,
                        Strength::WeakTwice,
                    ),
                )
            } else {
                None
            },
    {
        let parent = &self.rects[p.id];
        proof {
            assert(self.views()[p.id as int] == parent@);
            assert(self.views()[p.id as int].children[k as int] < self.rects@.len());
        }
        let ci = parent.children[k];
        proof {
            assert(self.views()[ci as int] == self.rects@[ci as int]@);
        }
        if !is_resizable(self.rects[ci].defined) {
            return None;
        }
        let n = parent.children.len();
        proof {
            assert(self.views()[p.id as int].children.len() <= self.rects@.len());
        }
        let mut count: usize = 0;
        let mut total: u64 = 0;
        let mut i: usize = 0;
        while i < n
            invariant
                i <= n == parent.children@.len(),
                p.id < self.rects@.len(),
                self.wf(),
                self.views()[p.id as int] == parent@,
                count == count_resizable(self.views(), p.id as int, i as int),
                total == sum_resizable(self.views(), p.id as int, i as int),
                count <= i,
                total <= i * MAX_COORD,
                n <= MAX_RECTS,
                i <= MAX_RECTS,
            decreases n - i,
        {
            proof {
                assert(self.views()[p.id as int].children[i as int] < self.rects@.len());
                assert(self.views()[parent.children@[i as int] as int]
                    == self.rects@[parent.children@[i as int] as int]@);
                assert((i + 1) * MAX_COORD == i * MAX_COORD + MAX_COORD) by (nonlinear_arith);
                assert(i * MAX_COORD <= MAX_RECTS * MAX_COORD) by (nonlinear_arith)
                    requires
                        i <= MAX_RECTS,
                ;
            }
            let c = parent.children[i];
            if is_resizable(self.rects[c].defined) {
                count += 1;
                let l = self.len_along(c, parent.axis);
                proof {
                    assert(self.views()[c as int].br.x <= MAX_COORD && self.views()[c as int].br.y
                        <= MAX_COORD);
                }
                total += l as u64;
            }
            i += 1;
        }
        proof {
            assert(n * MAX_COORD <= MAX_RECTS * MAX_COORD) by (nonlinear_arith)
                requires
                    n <= MAX_RECTS,
            ;
        }
        Some(
            lens(
                ci,
                count as i64,
                p.id,
                0,
                -(total as i64),
                parent.axis,
                Relation::Eq,
                Strength::WeakTwice,
            ),
        )
    }

    /// Gives every rectangle the room that the frame takes around it,
    /// going by the corners that the rectangles have. Afterwards the
    /// layout awaits a solution.
    pub fn set_frames(&mut self, frame: Frame)
        requires
            old(self).wf(),
        ensures
            final(self).wf(),
            !final(self).solved,
            final(self).main == old(self).main,
            final(self).max == old(self).max,
            final(self).frame == old(self).frame,
            final(self).views() == framed(
                old(self).views(),
                old(self).main as int,
                frame,
                old(self).max,
            ),
    {
        let ghost before = self.views();
        let n = self.rects.len();
        let mut insets: Vec<Insets> = Vec::new();
        let mut i: usize = 0;
        while i < n
            invariant
                i <= n == self.rects@.len(),
                *self == *old(self),
                self.wf(),
                insets@.len() == i,
                forall|j: int|
                    0 <= j < i ==> #[trigger] insets@[j] == frame_of(
                        self.views(),
                        j,
                        self.main as int,
                        frame,
                        self.max,
                    ),
            decreases n - i,
        {
            let r = &self.rects[i];
            proof {
                assert(self.views()[i as int] == r@);
            }
            let parent_clustered = match r.parent {
                Some(p) => {
                    proof {
                        assert(self.views()[p as int] == self.rects@[p as int]@);
                    }
                    self.rects[p].clustered
                },
                None => false,
            };
            let is_framed = if parent_clustered {
                false
            } else if r.is_parent {
                r.clustered
            } else {
                true
            };
            let ins = if !is_framed {
                Insets { left: 0, up: 0, right: 0, down: 0 }
            } else if i == self.main {
                if frame == Frame::Surround {
                    Insets { left: 1, up: 1, right: 1, down: 1 }
                } else {
                    Insets { left: 0, up: 0, right: 0, down: 0 }
                }
            } else {
                frame.insets(r.tl, r.br, self.max)
            };
            insets.push(ins);
            i += 1;
        }
        self.solved = false;
        let mut j: usize = 0;
        while j < n
            invariant
                j <= n == self.rects@.len() == insets@.len(),
                before.len() == n,
                self.main == old(self).main,
                self.max == old(self).max,
                self.frame == old(self).frame,
                !self.solved,
                forall|k: int|
                    0 <= k < n ==> #[trigger] insets@[k] == frame_of(
                        before,
                        k,
                        self.main as int,
                        frame,
                        self.max,
                    ),
                forall|k: int|
                    0 <= k < n ==> #[trigger] self.views()[k] == if k < j {
                        RectView { insets: insets@[k], ..before[k] }
                    } else {
                        before[k]
                    },
            decreases n - j,
        {
            let ghost prev = self.views();
            let ins = insets[j];
            let r = &mut self.rects[j];
            r.insets = ins;
            proof {
                assert(prev[j as int] == before[j as int]);
                assert forall|k: int| 0 <= k < n implies #[trigger] self.views()[k] == if k < j + 1 {
                    RectView { insets: insets@[k], ..before[k] }
                } else {
                    before[k]
                } by {
                    if k != j {
                        assert(self.views()[k] == prev[k]);
                    }
                }
            }
            j += 1;
        }
        proof {
            let after = framed(before, self.main as int, frame, self.max);
            assert(self.views() =~= after);
            assert forall|i: int| 0 <= i < before.len() implies (#[trigger] after[i]).parent
                == before[i].parent && after[i].children == before[i].children && after[i].tl
                == before[i].tl && after[i].br == before[i].br && after[i].insets.left <= 1
                && after[i].insets.up <= 1 && after[i].insets.right <= 1 && after[i].insets.down
                <= 1 by {}
            lemma_same_tree(before, after, self.main as int);
        }
    }

    /// Sets the ratio of the rectangle `i`.
    fn set_ratio(&mut self, i: usize, ratio: Option<(u32, u32)>)
        requires
            old(self).wf(),
            i < old(self).rects@.len(),
        ensures
            final(self).wf(),
            !final(self).solved,
            final(self).main == old(self).main,
            final(self).max == old(self).max,
            final(self).frame == old(self).frame,
            final(self).views() == old(self).views().update(
                i as int,
                RectView { ratio, ..old(self).views()[i as int] },
            ),
    {
        let ghost before = self.views();
        proof {
            assert(before[i as int] == self.rects@[i as int]@);
        }
        self.solved = false;
        let r = &mut self.rects[i];
        r.ratio = ratio;
        proof {
            let after = before.update(i as int, RectView { ratio, ..before[i as int] });
            assert(self.views() =~= after);
            assert forall|j: int| 0 <= j < before.len() implies (#[trigger] after[j]).parent
                == before[j].parent && after[j].children == before[j].children && after[j].tl
                == before[j].tl && after[j].br == before[j].br && after[j].insets.left <= 1
                && after[j].insets.up <= 1 && after[j].insets.right <= 1 && after[j].insets.down
                <= 1 by {
                assert(before[j].insets.left <= 1);
            }
            lemma_same_tree(before, after, self.main as int);
        }
    }

    /// The ratio of the length of the rectangle `i` to that of the
    /// rectangle `j` along an axis, as the lengths are now.
    fn ratio_between(&self, i: usize, j: usize, a: Axis) -> (r: (u32, u32))
        requires
            self.wf(),
            i < self.rects@.len(),
            j < self.rects@.len(),
        ensures
            r == ratio_of(len_of(self.views()[i as int], a), len_of(self.views()[j as int], a)),
    {
        let x = self.len_along(i, a);
        let y = self.len_along(j, a);
        proof {
            assert(self.views()[i as int].br.x <= MAX_COORD && self.views()[i as int].br.y
                <= MAX_COORD);
            assert(self.views()[j as int].br.x <= MAX_COORD && self.views()[j as int].br.y
                <= MAX_COORD);
        }
        if y == 0 {
            (1, 1)
        } else {
            (x as u32, y as u32)
        }
    }

    /// Sets the ratios that keep the lengths of the child `k` of the
    /// rectangle `p` and of its neighbours in proportion: that of the
    /// last child before it that can change its length, to it, and its
    /// own, to the first such child after it, each as the lengths are
    /// now. Afterwards the layout awaits a solution.
    pub fn set_ratio_constraints(&mut self, p: AreaId, k: usize)
        requires
            old(self).wf(),
            p.id < old(self).rects@.len(),
            k < old(self).rects@[p.id as int].children@.len(),
        ensures
            final(self).wf(),
            !final(self).solved,
            final(self).main == old(self).main,
            final(self).max == old(self).max,
            final(self).frame == old(self).frame,
            final(self).views() == with_ratios(old(self).views(), p.id as int, k as int),
    {
        let ghost before = self.views();
        proof {
            assert(before[p.id as int] == self.rects@[p.id as int]@);
            assert(before[p.id as int].children[k as int] < self.rects@.len());
        }
        let axis = self.rects[p.id].axis;
        let ci = self.rects[p.id].children[k];
        let n = self.rects[p.id].children.len();
        let prev = self.prev_resizable_from(p.id, k);
        let next = self.next_resizable_from(p.id, k + 1);
        let own = if next < n {
            proof {
                assert(before[p.id as int].children[next as int] < self.rects@.len());
            }
            Some(self.ratio_between(ci, self.rects[p.id].children[next], axis))
        } else {
            None
        };
        let before_it = match prev {
            Some(pk) => {
                proof {
                    assert(before[p.id as int].children[pk as int] < self.rects@.len());
                }
                let pi = self.rects[p.id].children[pk];
                Some((pi, self.ratio_between(pi, ci, axis)))
            },
            None => None,
        };
        self.set_ratio(ci, own);
        if let Some((pi, ratio)) = before_it {
            self.set_ratio(pi, Some(ratio));
        }
    }
}

impl Layout {
    /// All constraints of the layout, for the solver: those of the main
    /// rectangle and those of the children of every rectangle.
    pub fn constraints(&self) -> (r: Vec<LinConstraint>)
        requires
            self.wf(),
        ensures
            r@ == all_constraints(self.views(), self.main as int, self.max),
    {
        let mut out: Vec<LinConstraint> = Vec::new();
        let m = &self.rects[self.main];
        proof {
            assert(self.views()[self.main as int] == m@);
        }
        let req = Strength::Required;
        out.push(
            one(start_var_of(self.main, Axis::Horizontal), -(m.insets.left as i64), Relation::Eq, req),
        );
        out.push(
            one(start_var_of(self.main, Axis::Vertical), -(m.insets.up as i64), Relation::Eq, req),
        );
        out.push(
            one(
                end_var_of(self.main, Axis::Horizontal),
                m.insets.right as i64 - self.max.x as i64,
                Relation::Eq,
                req,
            ),
        );
        out.push(
            one(
                end_var_of(self.main, Axis::Vertical),
                m.insets.down as i64 - self.max.y as i64,
                Relation::Eq,
                req,
            ),
        );
        proof {
            assert(out@ =~= main_constraints(self.views(), self.main as int, self.max));
        }
        let ghost head = out@;
        let mut p: usize = 0;
        while p < self.rects.len()
            invariant
                p <= self.rects@.len(),
                self.wf(),
                out@ == head + rects_constraints(self.views(), p as int),
            decreases self.rects.len() - p,
        {
            let ghost before = out@;
            let mut k: usize = 0;
            proof {
                assert(self.views()[p as int] == self.rects@[p as int]@);
                assert(before + Seq::<LinConstraint>::empty() =~= before);
            }
            while k < self.rects[p].children.len()
                invariant
                    p < self.rects@.len(),
                    k <= self.rects@[p as int].children@.len(),
                    self.wf(),
                    out@ == before + children_constraints(self.views(), p as int, k as int),
                decreases self.rects[p as int].children.len() - k,
            {
                let ghost mid = out@;
                self.push_child_constraints(p, k, &mut out);
                proof {
                    assert(before + (children_constraints(self.views(), p as int, k as int)
                        + child_constraints(self.views(), p as int, k as int)) =~= mid
                        + child_constraints(self.views(), p as int, k as int));
                }
                k += 1;
            }
            proof {
                assert(head + (rects_constraints(self.views(), p as int) + children_constraints(
                    self.views(),
                    p as int,
                    self.views()[p as int].children.len() as int,
                )) =~= out@);
            }
            p += 1;
        }
        out
    }

    /// What a user asks of the length of a rectangle changes. Returns
    /// whether anything changed; where something did, the layout awaits a
    /// solution. A rectangle without a parent has no length to ask
    /// anything of, which is an error, as is a name that names nothing.
    pub fn change_child_constraint(&mut self, id: AreaId, defined: Constraint) -> (r: Result<
        bool,
        ConstraintChangeErr,
    >)
        requires
            old(self).wf(),
        ensures
            final(self).wf(),
            final(self).main == old(self).main,
            final(self).max == old(self).max,
            final(self).frame == old(self).frame,
            r is Err <==> id.id >= old(self).rects@.len() || old(self).views()[id.id as int].parent
                is None,
            r is Err ==> r == Err::<bool, ConstraintChangeErr>(ConstraintChangeErr::NoParent)
                && final(self).views() == old(self).views() && final(self).solved == old(self).solved,
            r is Ok ==> {
                &&& r.unwrap() == (old(self).views()[id.id as int].defined != Some(defined))
                &&& final(self).views() == old(self).views().update(
                    id.id as int,
                    RectView { defined: Some(defined), ..old(self).views()[id.id as int] },
                )
                &&& final(self).solved == (old(self).solved && !r.unwrap())
            },
    {
        if id.id >= self.rects.len() {
            return Err(ConstraintChangeErr::NoParent);
        }
        let ghost before = self.views();
        proof {
            assert(before[id.id as int] == self.rects@[id.id as int]@);
        }
        if self.rects[id.id].parent.is_none() {
            return Err(ConstraintChangeErr::NoParent);
        }
        let same = match self.rects[id.id].defined {
            Some(c) => c == defined,
            None => false,
        };
        if same {
            proof {
                assert(self.views() =~= before.update(
                    id.id as int,
                    RectView { defined: Some(defined), ..before[id.id as int] },
                ));
            }
            Ok(false)
        } else {
            let r = &mut self.rects[id.id];
            r.defined = Some(defined);
            self.solved = false;
            proof {
                let after = before.update(
                    id.id as int,
                    RectView { defined: Some(defined), ..before[id.id as int] },
                );
                assert(self.views() =~= after);
                assert forall|j: int| 0 <= j < before.len() implies (#[trigger] after[j]).parent
                    == before[j].parent && after[j].children == before[j].children && after[j].tl
                    == before[j].tl && after[j].br == before[j].br && after[j].insets.left <= 1
                    && after[j].insets.up <= 1 && after[j].insets.right <= 1
                    && after[j].insets.down <= 1 by {
                    assert(before[j].insets.left <= 1);
                }
                lemma_same_tree(before, after, self.main as int);
            }
            Ok(true)
        }
    }
}

/// Rectangles that differ from those of a tree in nothing but what is
/// asked of their lengths form a tree.
pub proof fn lemma_same_tree(a: Seq<RectView>, b: Seq<RectView>, main: int)
    requires
        tree_wf(a, main),
        a.len() == b.len(),
        forall|i: int|
            0 <= i < a.len() ==> (#[trigger] b[i]).parent == a[i].parent && b[i].children
                == a[i].children && b[i].tl == a[i].tl && b[i].br == a[i].br && b[i].insets.left <= 1
                && b[i].insets.up <= 1 && b[i].insets.right <= 1 && b[i].insets.down <= 1,
    ensures
        tree_wf(b, main),
{
    assert forall|i: int| 0 <= i < b.len() implies ((#[trigger] b[i]).parent matches Some(p) ==> p
        < b.len()) && b[i].children.len() <= b.len() by {
        assert(a[i].parent == b[i].parent);
        assert(a[i].children == b[i].children);
    }
    assert forall|i: int, k: int| 0 <= i < b.len() && 0 <= k < b[i].children.len() implies (
    #[trigger] b[i].children[k]) < b.len() && b[b[i].children[k] as int].parent == Some(
        i as usize,
    ) by {
        assert(a[i].children[k] < a.len());
        assert(b[a[i].children[k] as int].parent == a[a[i].children[k] as int].parent);
    }
    assert forall|i: int| 0 <= i < b.len() implies (#[trigger] b[i]).tl.x <= MAX_COORD && b[i].tl.y
        <= MAX_COORD && b[i].br.x <= MAX_COORD && b[i].br.y <= MAX_COORD && b[i].insets.left <= 1
        && b[i].insets.up <= 1 && b[i].insets.right <= 1 && b[i].insets.down <= 1 by {
        assert(a[i].tl == b[i].tl);
    }
}

} // verus!
