use cassowary::strength::{MEDIUM, REQUIRED, STRONG, WEAK};
use cassowary::{Constraint, Expression, RelationalOperator, Solver, Term, Variable};
use duat::edges::Edge;
use duat::layout::{
    is_resizable, position_in, AreaId, Axis, Constraint as Asked, ConstraintChangeErr, Frame,
    Insets, Layout, LinConstraint, PushSpecs, Relation, Side, Strength, Target,
};
use duat::print::Coord;

fn settle(layout: &Layout, extra: &[LinConstraint]) -> Option<Vec<(Coord, Coord)>> {
    let n = layout.len();
    let vars: Vec<Variable> = (0..4 * n).map(|_| Variable::new()).collect();
    let mut solver = Solver::new();
    let mut all = layout.constraints();
    all.extend_from_slice(extra);
    for c in all.iter() {
        let mut terms: Vec<Term> = Vec::new();
        for t in [c.a, c.b, c.c, c.d] {
            if t.coef != 0 {
                terms.push(Term { variable: vars[t.var], coefficient: t.coef as f64 });
            }
        }
        let op = match c.rel {
            Relation::Eq => RelationalOperator::Equal,
            Relation::Ge => RelationalOperator::GreaterOrEqual,
            Relation::Le => RelationalOperator::LessOrEqual,
        };
        let strength = match c.strength {
            Strength::Required => REQUIRED,
            Strength::Strong => STRONG,
            Strength::Medium => MEDIUM,
            Strength::WeakTwice => WEAK * 2.0,
            Strength::Weak => WEAK,
        };
        let constraint = Constraint::new(Expression::new(terms, c.constant as f64), op, strength);
        if solver.add_constraint(constraint).is_err() {
            return None;
        }
    }
    let value = |v: usize| solver.get_value(vars[v]).round().max(0.0) as usize;
    Some(
        (0..n)
            .map(|i| {
                (
                    Coord { x: value(4 * i), y: value(4 * i + 1) },
                    Coord { x: value(4 * i + 2), y: value(4 * i + 3) },
                )
            })
            .collect(),
    )
}

fn edges_hold(layout: &Layout) -> bool {
    for parent in layout.rects.iter() {
        let along = |c: &Coord| if parent.axis == Axis::Horizontal { c.x } else { c.y };
        let before = |i: &Insets| if parent.axis == Axis::Horizontal { i.left } else { i.up };
        let after = |i: &Insets| if parent.axis == Axis::Horizontal { i.right } else { i.down };
        for (k, id) in parent.children.iter().enumerate() {
            let child = &layout.rects[*id];
            if k == 0 && along(&child.tl) != along(&parent.tl) + before(&child.insets) {
                return false;
            }
            let end = match parent.children.get(k + 1) {
                Some(next) => along(&layout.rects[*next].tl),
                None => along(&parent.br),
            };
            if along(&child.br) + after(&child.insets) != end {
                return false;
            }
        }
    }
    true
}

#[test]
fn the_edges_of_children_meet_after_every_solution() {
    let mut layout = Layout::new(Frame::Regular, 80, 24);
    let root = layout.main_index();
    let (status, _) = layout.bisect(root, PushSpecs::below().with_ver_len(1), false).unwrap();
    let (numbers, _) = layout.bisect(root, PushSpecs::left().with_hor_len(4), false).unwrap();
    let (side, _) = layout.bisect(root, PushSpecs::right().with_hor_ratio(1, 4), false).unwrap();
    let (top, _) = layout.bisect(side, PushSpecs::above().with_ver_min(2), false).unwrap();
    assert_eq!(layout.len(), 8);
    let corners = settle(&layout, &[]).unwrap();
    assert!(layout.apply_solution(&corners).is_ok());
    assert!(layout.check_edges());
    assert!(edges_hold(&layout));
    // The frame between the rectangles takes its room at the second
    // solution.
    layout.set_frames(Frame::Regular);
    assert!(!layout.solved);
    let corners = settle(&layout, &[]).unwrap();
    assert!(layout.apply_solution(&corners).is_ok());
    assert!(layout.check_edges());
    assert!(edges_hold(&layout));
    let (tl, br) = layout.coords(status).unwrap();
    assert_eq!((tl.x, br.x, br.y - tl.y), (0, 80, 1));
    let (tl, br) = layout.coords(numbers).unwrap();
    assert_eq!((tl.x, br.x - tl.x), (0, 4));
    assert!(layout.rects[numbers.id].insets.right == 1);
    let (tl, br) = layout.coords(top).unwrap();
    assert!(br.y - tl.y >= 2);
    assert_eq!(br.x, 80);
}

#[test]
fn corners_that_break_an_edge_are_not_taken() {
    let mut layout = Layout::new(Frame::Empty, 80, 24);
    let root = layout.main_index();
    layout.bisect(root, PushSpecs::right(), false).unwrap();
    let mut corners = settle(&layout, &[]).unwrap();
    let good = corners.clone();
    corners[2].0.x += 1;
    assert_eq!(layout.apply_solution(&corners), Err(ConstraintChangeErr::Impossible));
    assert!(!layout.solved);
    assert_eq!(layout.coords(AreaId::new(2)), Some((Coord { x: 0, y: 0 }, Coord { x: 0, y: 0 })));
    assert_eq!(layout.apply_solution(&good[..2].to_vec()), Err(ConstraintChangeErr::Impossible));
    let mut far = good.clone();
    far[0].1.x = 70_000;
    assert_eq!(layout.apply_solution(&far), Err(ConstraintChangeErr::Impossible));
    assert_eq!(layout.apply_solution(&good), Ok(()));
    assert!(layout.solved);
}

#[test]
fn a_rectangle_joins_beside_within_or_below_a_new_parent() {
    let mut layout = Layout::new(Frame::Empty, 80, 24);
    let root = layout.main_index();
    assert_eq!(layout.target(0, PushSpecs::right(), false), Target::NewParent(1));
    assert_eq!(layout.target(0, PushSpecs::left(), false), Target::NewParent(0));
    let (second, parent) = layout.bisect(root, PushSpecs::right(), false).unwrap();
    assert_eq!((second.id, parent.unwrap().id), (2, 1));
    // Along the axis of the parent the new rectangle joins beside.
    assert_eq!(layout.target(0, PushSpecs::right(), false), Target::ChildOf(1, 1));
    assert_eq!(layout.target(2, PushSpecs::left(), false), Target::ChildOf(1, 1));
    let (third, parent) = layout.bisect(root, PushSpecs::right(), false).unwrap();
    assert_eq!((third.id, parent), (3, None));
    assert_eq!(layout.rects[1].children, vec![0, 3, 2]);
    // Pushed on the parent itself, it joins within, at an end.
    assert_eq!(layout.target(1, PushSpecs::left(), false), Target::ChildOf(1, 0));
    assert_eq!(layout.target(1, PushSpecs::right(), false), Target::ChildOf(1, 3));
    // Across the axis, a new parent takes the place of the rectangle.
    let (fourth, parent) = layout.bisect(third, PushSpecs::above(), false).unwrap();
    assert_eq!((fourth.id, parent.unwrap().id), (5, 4));
    assert_eq!(layout.rects[1].children, vec![0, 4, 2]);
    assert_eq!(layout.rects[4].children, vec![5, 3]);
    assert_eq!(layout.rects[3].parent, Some(4));
    assert_eq!(layout.fetch_parent(third), Some((AreaId::new(4), 1)));
    assert_eq!(layout.fetch_parent(AreaId::new(1)), None);
    // A clustered rectangle does not join rectangles that are not.
    assert_eq!(layout.target(0, PushSpecs::right(), true), Target::NewParent(1));
    assert_eq!(layout.bisect(AreaId::new(77), PushSpecs::right(), false), None);
    assert_eq!(layout.main_index().id, 1);
    assert_eq!(position_in(&layout.rects[1].children, 2), Some(2));
    assert_eq!(position_in(&layout.rects[1].children, 9), None);
}

#[test]
fn what_is_asked_of_a_length_can_change() {
    let mut layout = Layout::new(Frame::Empty, 80, 24);
    let root = layout.main_index();
    let (bar, _) = layout.bisect(root, PushSpecs::below().with_ver_len(1), false).unwrap();
    let corners = settle(&layout, &[]).unwrap();
    layout.apply_solution(&corners).unwrap();
    assert_eq!(layout.change_child_constraint(bar, Asked::Length(1)), Ok(false));
    assert!(layout.solved);
    assert_eq!(layout.change_child_constraint(bar, Asked::Length(3)), Ok(true));
    assert!(!layout.solved);
    let corners = settle(&layout, &[]).unwrap();
    layout.apply_solution(&corners).unwrap();
    let (tl, br) = layout.coords(bar).unwrap();
    assert_eq!(br.y - tl.y, 3);
    let main = layout.main_index();
    assert_eq!(layout.change_child_constraint(main, Asked::Length(3)), Err(ConstraintChangeErr::NoParent));
    assert_eq!(
        layout.change_child_constraint(AreaId::new(99), Asked::Length(3)),
        Err(ConstraintChangeErr::NoParent)
    );
}

#[test]
fn a_new_rectangle_gets_its_fair_share_and_keeps_its_proportion() {
    let mut layout = Layout::new(Frame::Empty, 90, 24);
    let root = layout.main_index();
    let (second, parent) = layout.bisect(root, PushSpecs::right(), false).unwrap();
    let parent = parent.unwrap();
    let share = layout.fair_share(parent, 1).unwrap();
    assert_eq!(share.strength, Strength::WeakTwice);
    assert_eq!((share.a.coef, share.constant), (2, -90));
    let corners = settle(&layout, &[share]).unwrap();
    layout.apply_solution(&corners).unwrap();
    let (tl, br) = layout.coords(second).unwrap();
    assert_eq!(br.x - tl.x, 45);
    layout.set_ratio_constraints(parent, 1);
    assert_eq!(layout.rects[root.id].ratio, Some((45, 45)));
    assert_eq!(layout.rects[second.id].ratio, None);
    assert_eq!(layout.next_resizable_from(parent.id, 0), 0);
    assert_eq!(layout.prev_resizable_from(parent.id, 1), Some(0));
    assert_eq!(layout.prev_resizable_from(parent.id, 0), None);
    assert_eq!(layout.len_along(second.id, Axis::Horizontal), 45);
    let weak: Vec<LinConstraint> =
        layout.constraints().into_iter().filter(|c| c.strength == Strength::Weak).collect();
    assert_eq!(weak.len(), 1);
    assert_eq!((weak[0].a.coef, weak[0].c.coef), (45, -45));
    // A rectangle of a given length has no share.
    let (bar, _) = layout.bisect(root, PushSpecs::left().with_hor_len(4), false).unwrap();
    assert_eq!(bar.id, 3);
    assert_eq!(layout.fair_share(parent, 0), None);
    assert!(is_resizable(None));
    assert!(is_resizable(Some(Asked::Min(2))));
    assert!(!is_resizable(Some(Asked::Percent(20))));
}

#[test]
fn the_frame_takes_room_between_rectangles() {
    let max = Coord { x: 80, y: 24 };
    let tl = Coord { x: 0, y: 0 };
    let inner = Coord { x: 40, y: 24 };
    let none = Insets { left: 0, up: 0, right: 0, down: 0 };
    assert_eq!(Frame::Empty.insets(tl, inner, max), none);
    assert_eq!(Frame::Regular.insets(tl, inner, max), Insets { right: 1, ..none });
    assert_eq!(Frame::Regular.insets(tl, max, max), none);
    assert_eq!(Frame::VerOnly.insets(tl, Coord { x: 40, y: 10 }, max), Insets { right: 1, ..none });
    assert_eq!(Frame::HorOnly.insets(tl, Coord { x: 40, y: 10 }, max), Insets { down: 1, ..none });
    assert_eq!(Frame::Surround.insets(tl, inner, max), Insets { left: 1, up: 1, right: 1, down: 1 });
    let mut layout = Layout::new(Frame::Surround, 80, 24);
    layout.set_frames(Frame::Surround);
    assert_eq!(layout.rects[0].insets, Insets { left: 1, up: 1, right: 1, down: 1 });
    let corners = settle(&layout, &[]).unwrap();
    layout.apply_solution(&corners).unwrap();
    assert_eq!(layout.coords(AreaId::new(0)), Some((Coord { x: 1, y: 1 }, Coord { x: 79, y: 23 })));
}

#[test]
fn a_push_knows_its_axis_and_what_it_asks() {
    let specs = PushSpecs::above().with_ver_max(5).with_hor_min(2);
    assert_eq!(specs.side, Side::Above);
    assert_eq!(specs.axis(), Axis::Vertical);
    assert!(specs.comes_earlier());
    assert_eq!(specs.constraint(), Some(Asked::Max(5)));
    let specs = PushSpecs::right().with_hor_max(9).with_ver_ratio(1, 2);
    assert_eq!(specs.axis(), Axis::Horizontal);
    assert!(!specs.comes_earlier());
    assert_eq!(specs.constraint(), Some(Asked::Max(9)));
    assert_eq!(PushSpecs::below().constraint(), None);
    assert_eq!(Axis::Horizontal.perp(), Axis::Vertical);
    assert_eq!(Axis::Vertical.perp(), Axis::Horizontal);
}

#[test]
fn the_frame_draws_lines_where_it_takes_room() {
    let mut layout = Layout::new(Frame::Regular, 20, 10);
    let main = layout.main_index();
    assert_eq!(layout.is_parent(main), Some(false));
    assert_eq!(layout.tl(main), Some(Coord { x: 0, y: 0 }));
    assert_eq!(layout.br(main), Some(Coord { x: 20, y: 10 }));
    assert_eq!(layout.is_parent(AreaId { id: 9 }), None);
    assert_eq!(layout.tl(AreaId { id: 9 }), None);
    assert_eq!(layout.br(AreaId { id: 9 }), None);
    assert_eq!(layout.edges(), vec![]);
    let (new, parent) = layout.bisect(main, PushSpecs::right(), false).unwrap();
    let parent = parent.unwrap();
    assert_eq!(layout.is_parent(parent), Some(true));
    assert_eq!(layout.is_parent(new), Some(false));
    for (id, rect) in layout.rects.iter().enumerate() {
        let n = [rect.insets.right, rect.insets.up, rect.insets.left, rect.insets.down]
            .iter()
            .filter(|room| **room > 0)
            .count();
        let of_rect = layout.edges().iter().filter(|e| e.area.id == id).count();
        assert_eq!(of_rect, n);
    }
    layout.rects[0].insets = Insets { left: 0, up: 1, right: 1, down: 0 };
    let edges: Vec<Edge> = layout.edges().into_iter().filter(|e| e.area.id == 0).collect();
    assert_eq!(
        edges,
        vec![
            Edge {
                area: AreaId { id: 0 },
                side: Side::Right,
                axis: Axis::Vertical,
                frame: Frame::Regular
            },
            Edge {
                area: AreaId { id: 0 },
                side: Side::Above,
                axis: Axis::Horizontal,
                frame: Frame::Regular
            },
        ]
    );
}
