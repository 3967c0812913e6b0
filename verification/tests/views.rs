use duat::cfg::{PrintCfg, TabStops, WrapMethod};
use duat::forms::Palette;
use duat::label::Label;
use duat::print::{Coord, Coords};
use duat::print_info::PrintInfo;
use duat::wrap::wrap_count;
use duat::cursor::Cursor;
use duat::file::{File, Motion};
use duat::input::Commander;
use duat::lines::{TextCursor, TextLine, TextPos};
use duat::output_pos::{OutputPos, Placed};
use duat::position::Pos;
use duat::status::{main_fmt, selections_fmt};
use duat::tags::{FormId, Tag};
use duat::text::Text;
use duat::windows::{all_widgets, iter_around, iter_around_rev, widgets_before};

fn lines(text: &str) -> Vec<TextLine> {
    text.split_inclusive('\n').map(TextLine::new).collect()
}

fn at(cursor: &TextCursor) -> (usize, usize, usize) {
    (cursor.cur.byte, cursor.cur.col, cursor.cur.row)
}

#[test]
fn the_status_says_where_the_main_cursor_stands() {
    let cfg = PrintCfg::default();
    let mut file = File::new("one\ntwo words\nthree", PrintCfg::default());
    file.move_main(&Motion::To(8));
    let coord = FormId { id: 11 };
    let separator = FormId { id: 12 };
    let text = main_fmt(&file, &file.cursors, coord, separator);
    assert_eq!(text.contents(), "5:2/3");
    let pushes: Vec<(usize, Tag)> = text
        .tags
        .entries
        .iter()
        .filter(|e| matches!(e.tag, Tag::PushForm(_)))
        .map(|e| (e.offset, e.tag))
        .collect();
    assert_eq!(
        pushes,
        vec![
            (0, Tag::PushForm(coord)),
            (1, Tag::PushForm(separator)),
            (2, Tag::PushForm(coord)),
            (3, Tag::PushForm(separator)),
            (4, Tag::PushForm(coord)),
        ]
    );
    file.cursors.insert_removed(false, Cursor::new(1, &file.text, &cfg));
    assert_eq!(selections_fmt(&file.cursors, coord).contents(), "2 sels");
    file.cursors.remove_extras();
    assert_eq!(selections_fmt(&file.cursors, coord).contents(), "1 sel");
    file.cursors.drain();
    assert_eq!(selections_fmt(&file.cursors, coord).contents(), "0 sels");
    assert_eq!(main_fmt(&file, &file.cursors, coord, separator).contents(), "");
    let long = File::new(&"\n".repeat(1233), PrintCfg::default());
    assert_eq!(main_fmt(&long, &long.cursors, coord, separator).contents(), "1:1/1234");
}

#[test]
fn one_goes_around_the_widgets_of_all_windows() {
    let counts = vec![2, 0, 3];
    assert_eq!(all_widgets(&counts), vec![(0, 0), (0, 1), (2, 0), (2, 1), (2, 2)]);
    assert_eq!(widgets_before(&counts, 0), 0);
    assert_eq!(widgets_before(&counts, 2), 2);
    assert_eq!(widgets_before(&counts, 3), 5);
    assert_eq!(iter_around(&counts, 2, 0), vec![(2, 1), (2, 2), (0, 0), (0, 1)]);
    assert_eq!(iter_around(&counts, 0, 0), vec![(0, 1), (2, 0), (2, 1), (2, 2)]);
    assert_eq!(iter_around(&counts, 2, 2), vec![(0, 0), (0, 1), (2, 0), (2, 1)]);
    assert_eq!(iter_around_rev(&counts, 2, 0), vec![(0, 1), (0, 0), (2, 2), (2, 1)]);
    assert_eq!(iter_around_rev(&counts, 0, 0), vec![(2, 2), (2, 1), (2, 0), (0, 1)]);
    assert_eq!(iter_around_rev(&counts, 2, 2), vec![(2, 1), (2, 0), (0, 1), (0, 0)]);
    assert_eq!(iter_around(&vec![1], 0, 0), vec![]);
    assert_eq!(iter_around_rev(&vec![1], 0, 0), vec![]);
}

#[test]
fn positions_of_the_output_are_compared_by_both_coordinates() {
    let a = OutputPos { x: 2, y: 5 };
    let b = OutputPos { x: 3, y: 7 };
    let c = OutputPos { x: 3, y: 4 };
    assert_eq!(a.add(b), OutputPos { x: 5, y: 12 });
    assert_eq!(a.checked_add(b), Some(OutputPos { x: 5, y: 12 }));
    assert_eq!(a.checked_add(OutputPos { x: u16::MAX - 1, y: 0 }), None);
    assert_eq!(a.checked_add(OutputPos { x: u16::MAX - 2, y: 0 }).unwrap().x, u16::MAX);
    assert!(b.gt(&a) && b.ge(&a) && a.lt(&b) && a.le(&b));
    assert!(!c.gt(&a) && !c.lt(&a) && !c.ge(&a) && !c.le(&a));
    assert!(b.ge(&c) && !b.gt(&c));
    assert_eq!(b.placed(&a), Placed::Beyond);
    assert_eq!(a.placed(&b), Placed::Before);
    assert_eq!(a.placed(&c), Placed::Level);
    assert_eq!(a.placed(&a), Placed::Level);
}

#[test]
fn a_cursor_of_lines_moves_over_the_ends_of_lines() {
    let tabs = TabStops::Regular(4);
    let lines = lines("héllo\n\tab\n\nxyz");
    let mut cursor = TextCursor::new(TextPos { byte: 3, col: 2, row: 0 }, &lines, &tabs);
    assert_eq!(cursor.desired_x, 2);
    cursor.move_hor(2, &lines, &tabs);
    assert_eq!(at(&cursor), (5, 4, 0));
    assert_eq!(cursor.desired_x, 4);
    // Over the line feed into the next line.
    cursor.move_hor(3, &lines, &tabs);
    assert_eq!(at(&cursor), (8, 1, 1));
    assert_eq!(cursor.desired_x, 4);
    cursor.move_hor(-2, &lines, &tabs);
    assert_eq!(at(&cursor), (6, 5, 0));
    cursor.move_hor(-100, &lines, &tabs);
    assert_eq!(at(&cursor), (0, 0, 0));
    cursor.move_hor(100, &lines, &tabs);
    assert_eq!(at(&cursor), (15, 3, 3));
    assert_eq!(cursor.desired_x, 3);
    cursor.move_hor(0, &lines, &tabs);
    assert_eq!(at(&cursor), (15, 3, 3));
    cursor.move_hor(-4, &lines, &tabs);
    assert_eq!(at(&cursor), (11, 0, 2));
}

#[test]
fn a_cursor_of_lines_keeps_to_its_visual_column() {
    let tabs = TabStops::Regular(4);
    let lines = lines("héllo\n\tab\n\nxyz");
    let mut cursor = TextCursor::new(TextPos { byte: 5, col: 4, row: 0 }, &lines, &tabs);
    assert_eq!(cursor.desired_x, 4);
    cursor.move_ver(1, &lines, &tabs);
    assert_eq!(at(&cursor), (8, 1, 1));
    cursor.move_ver(1, &lines, &tabs);
    assert_eq!(at(&cursor), (11, 0, 2));
    cursor.move_ver(5, &lines, &tabs);
    assert_eq!(at(&cursor), (14, 2, 3));
    assert_eq!(cursor.desired_x, 4);
    cursor.move_ver(-9, &lines, &tabs);
    assert_eq!(at(&cursor), (5, 4, 0));
    cursor.move_to(TextPos { byte: 0, col: 9, row: 1 }, &lines, &tabs);
    assert_eq!(at(&cursor), (11, 4, 1));
    assert_eq!(cursor.desired_x, 7);
    cursor.move_to(TextPos { byte: 0, col: 1, row: 3 }, &lines, &tabs);
    assert_eq!(at(&cursor), (13, 1, 3));
    assert_eq!(cursor.desired_x, 1);
}

#[test]
fn a_selection_is_made_by_characters() {
    let mut line = File::new("héllo", PrintCfg::default());
    Commander::move_caret(&mut line, 1);
    Commander::select_by(&mut line, 2);
    let cursor = line.cursors.get_main().unwrap();
    assert_eq!(cursor.caret.byte, 4);
    assert_eq!(cursor.anchor.map(|a| a.byte), Some(1));
    Commander::select_by(&mut line, -9);
    let cursor = line.cursors.get_main().unwrap();
    assert_eq!(cursor.caret.byte, 0);
    assert_eq!(cursor.anchor.map(|a| a.byte), Some(4));
    Commander::take_selection(&mut line);
    assert_eq!(line.text.contents(), "lo");
    Commander::select_by(&mut line, 1);
    Commander::take_selection(&mut line);
    assert_eq!(line.text.contents(), "o");
    assert_eq!(line.cursors.get_main().unwrap().caret.byte, 0);
}

#[test]
fn a_line_begins_after_the_line_feed_before_it() {
    let text = Text::new("héllo\nab\n\nxyz");
    assert_eq!(text.visual_line_start(0), Pos { byte: 0, ch: 0, col: 0, row: 0 });
    assert_eq!(text.visual_line_start(6), Pos { byte: 0, ch: 0, col: 0, row: 0 });
    assert_eq!(text.visual_line_start(7), Pos { byte: 7, ch: 6, col: 0, row: 1 });
    assert_eq!(text.visual_line_start(9), Pos { byte: 7, ch: 6, col: 0, row: 1 });
    assert_eq!(text.visual_line_start(10), Pos { byte: 10, ch: 9, col: 0, row: 2 });
    assert_eq!(text.visual_line_start(14), Pos { byte: 11, ch: 10, col: 0, row: 3 });
}

#[test]
fn a_label_prints_on_its_area() {
    let area = Coords { tl: Coord { x: 2, y: 1 }, br: Coord { x: 6, y: 3 } };
    let mut label = Label::new(area);
    assert!(!label.is_active);
    assert_eq!(label.area(), area);
    label.set_as_active();
    assert!(label.is_active);
    let mut cfg = PrintCfg::default();
    assert_eq!(label.wrapping_coords(&cfg), area);
    cfg.wrap_method = WrapMethod::Capped(10);
    assert_eq!(
        label.wrapping_coords(&cfg),
        Coords { tl: Coord { x: 2, y: 1 }, br: Coord { x: 12, y: 3 } }
    );
    cfg.wrap_method = WrapMethod::Width;
    let text = Text::new("abcdefghij\nkl");
    let palette = Palette::new();
    let cmds = label.print(&text, PrintInfo::default(), &cfg, &palette, false);
    assert_eq!(cmds, text.print(PrintInfo::default(), &cfg, area, true, false, &palette));
    let items = text.parts();
    assert_eq!(label.wrap_count(&items, &cfg, 9), wrap_count(&items, &cfg, 4, 9));
    assert_eq!(label.wrap_count(&items, &cfg, 9), 2);
    assert_eq!(label.char_at_wrap(&items, 1, &cfg), Some(4));
    assert_eq!(label.char_at_wrap(&items, 3, &cfg), Some(11));
    assert_eq!(label.get_width(&items, &cfg, 6, true), 2);
    assert_eq!(label.col_at_dist(&items, 3, &cfg), 3);
}
