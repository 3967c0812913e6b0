use cassowary::strength::{MEDIUM, REQUIRED, STRONG, WEAK};
use cassowary::{Constraint, Expression, RelationalOperator, Solver, Term, Variable};
use duat::cfg::{PrintCfg, WordChars, WrapMethod};
use duat::file::{Edit, File, Motion};
use duat::layout::{
    AreaId, Frame, Layout, LinConstraint, PushSpecs, Relation, Strength, Term as LayoutTerm,
};
use duat::print::Coord;
use duat::text::Text;
use duat::wrap::{char_at_wrap, wrap_count};

fn caret_char(file: &File, n: usize) -> usize {
    file.cursors.get(n).unwrap().caret().true_char()
}

fn solve(layout: &Layout, extra: &[LinConstraint]) -> Option<Vec<(Coord, Coord)>> {
    let n = layout.len();
    let vars: Vec<Variable> = (0..4 * n).map(|_| Variable::new()).collect();
    let mut solver = Solver::new();
    let mut all = layout.constraints();
    all.extend_from_slice(extra);
    for c in all.iter() {
        let terms: Vec<Term> = [c.a, c.b, c.c, c.d]
            .iter()
            .filter(|t: &&LayoutTerm| t.coef != 0)
            .map(|t| Term { variable: vars[t.var], coefficient: t.coef as f64 })
            .collect();
        let op = match c.rel {
            Relation::Eq => RelationalOperator::Equal,
            Relation::Ge => RelationalOperator::GreaterOrEqual,
            Relation::Le => RelationalOperator::LessOrEqual,
        };
        let strength = match c.strength {
            Strength::Required => REQUIRED,
            Strength::Strong => STRONG,
            Strength::Medium => MEDIUM,
            Strength::WeakTwice => WEAK * 2.0,
            Strength::Weak => WEAK,
        };
        let constraint = Constraint::new(Expression::new(terms, c.constant as f64), op, strength);
        if solver.add_constraint(constraint).is_err() {
            return None;
        }
    }
    let value = |v: usize| solver.get_value(vars[v]).round().max(0.0) as usize;
    Some(
        (0..n)
            .map(|i| {
                (
                    Coord { x: value(4 * i), y: value(4 * i + 1) },
                    Coord { x: value(4 * i + 2), y: value(4 * i + 3) },
                )
            })
            .collect(),
    )
}

#[test]
fn insert_and_undo() {
    let mut file = File::new("", PrintCfg::default());
    assert_eq!(caret_char(&file, 0), 0);
    assert_eq!(file.cursors.get(0).unwrap().caret().true_row(), 0);
    file.edit_on_main(&Edit::Insert(String::from("hello")));
    assert_eq!(file.text.contents(), "hello");
    assert_eq!(caret_char(&file, 0), 5);
    file.new_moment();
    file.edit_on_main(&Edit::Insert(String::from(" world")));
    assert_eq!(file.text.contents(), "hello world");
    assert_eq!(caret_char(&file, 0), 11);
    assert!(file.undo());
    assert_eq!(file.text.contents(), "hello");
    assert_eq!(caret_char(&file, 0), 5);
    assert!(file.undo());
    assert_eq!(file.text.contents(), "");
    assert_eq!(caret_char(&file, 0), 0);
    assert!(file.redo());
    assert!(file.redo());
    assert_eq!(file.text.contents(), "hello world");
    assert_eq!(caret_char(&file, 0), 11);
    assert!(!file.redo());
}

#[test]
fn multi_cursor_shift() {
    let mut file = File::new("aaa\nbbb\nccc", PrintCfg::default());
    let cfg = PrintCfg::default();
    file.move_main(&Motion::To(1));
    for at in [5usize, 9] {
        let c = duat::cursor::Cursor::new(at, &file.text, &cfg);
        file.cursors.insert_removed(false, c);
    }
    assert_eq!(file.cursors.len(), 3);
    assert_eq!(caret_char(&file, 0), 1);
    assert_eq!(caret_char(&file, 1), 5);
    assert_eq!(caret_char(&file, 2), 9);
    file.edit_on_each(&Edit::Insert(String::from("X")));
    assert_eq!(file.text.contents(), "aXaa\nbXbb\ncXcc");
    assert_eq!(file.cursors.len(), 3);
    assert_eq!(caret_char(&file, 0), 2);
    assert_eq!(caret_char(&file, 1), 7);
    assert_eq!(caret_char(&file, 2), 12);
}

#[test]
fn wrap_math() {
    let text = Text::new("0123456789ABCDEF");
    let mut cfg = PrintCfg::default();
    cfg.wrap_method = WrapMethod::Width;
    cfg.indent_wrap = false;
    let items = text.parts();
    assert_eq!(wrap_count(&items, &cfg, 5, 16), 3);
    assert_eq!(char_at_wrap(&items, 0, &cfg, 5), Some(0));
    assert_eq!(char_at_wrap(&items, 1, &cfg, 5), Some(5));
    assert_eq!(char_at_wrap(&items, 2, &cfg, 5), Some(10));
    assert_eq!(char_at_wrap(&items, 3, &cfg, 5), Some(15));
    assert_eq!(char_at_wrap(&items, 4, &cfg, 5), None);
}

#[test]
fn word_wrap_prefers_boundary() {
    let text = Text::new("foo barbaz");
    let mut cfg = PrintCfg::default();
    cfg.wrap_method = WrapMethod::Word;
    cfg.word_chars = WordChars::new(vec![('a', 'z')]);
    let items = text.parts();
    assert_eq!(char_at_wrap(&items, 0, &cfg, 6), Some(0));
    assert_eq!(char_at_wrap(&items, 1, &cfg, 6), Some(4));
    assert_eq!(wrap_count(&items, &cfg, 6, 10), 1);
}

#[test]
fn bisect_creates_parent() {
    let mut layout = Layout::new(Frame::Empty, 80, 24);
    let root = layout.main_index();
    let (new, parent) = layout.bisect(root, PushSpecs::below().with_ver_len(1), false).unwrap();
    let parent = parent.unwrap();
    assert_eq!(parent, AreaId::new(1));
    assert_eq!(new, AreaId::new(2));
    assert_eq!(layout.main_index(), parent);
    assert_eq!(layout.rects[parent.id].children, vec![root.id, new.id]);
    assert_eq!(layout.rects[parent.id].axis, duat::layout::Axis::Vertical);
    assert!(!layout.solved);
    let corners = solve(&layout, &[]).unwrap();
    assert!(layout.apply_solution(&corners).is_ok());
    assert!(layout.solved);
    let (r_tl, r_br) = layout.coords(root).unwrap();
    let (n_tl, n_br) = layout.coords(new).unwrap();
    assert_eq!(n_br.y - n_tl.y, 1);
    assert_eq!(n_br.x - n_tl.x, 80);
    assert_eq!(r_br.y + 0, n_tl.y);
    assert_eq!((r_tl.x, r_tl.y), (0, 0));
    assert_eq!((r_br.x, r_br.y), (80, 23));
    assert_eq!(layout.coords(parent).unwrap(), (Coord { x: 0, y: 0 }, Coord { x: 80, y: 24 }));
}

#[test]
fn scroll_gap() {
    let mut content = String::new();
    for i in 0..1000 {
        content.push('x');
        if i < 999 {
            content.push('\n');
        }
    }
    let mut cfg = PrintCfg::default();
    cfg.wrap_method = WrapMethod::NoWrap;
    cfg.scrolloff.y_gap = 3;
    let mut file = File::new(&content, cfg);
    assert_eq!(file.text.len_lines(), 1000);
    file.move_main(&Motion::Ver(500));
    assert_eq!(file.cursors.get_main().unwrap().true_row(), 500);
    file.update_print_info(80, 20);
    let first = file.print_info().first_char();
    let line = file.text.point_at(file.text.char_to_byte(first)).true_row();
    assert!(483 <= line && line <= 497, "first line is {}", line);
    assert_eq!(line, 484);
}
