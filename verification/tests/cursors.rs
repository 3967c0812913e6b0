use duat::cfg::{PrintCfg, TabStops};
use duat::cursor::{
    intersects, main_byte, main_char, main_col, main_line, selections, Cursor, Cursors,
};
use duat::edit::{Diff, Mover};
use duat::file::{Edit, File, Motion};
use duat::forms::{EXTRA_SEL_ID, MAIN_SEL_ID};
use duat::history::{Change, Moment};
use duat::position::Pos;
use duat::tags::{FormId, Tag};
use duat::text::Text;

fn ranges(file: &File) -> Vec<(usize, usize)> {
    file.cursors.list.iter().map(|c| c.range()).collect()
}

fn apart(list: &[(usize, usize)]) -> bool {
    list.windows(2).all(|w| w[0].1 <= w[1].0 && w[0].0 < w[1].0)
}

fn three_cursors(content: &str, at: [usize; 3]) -> File {
    let cfg = PrintCfg::default();
    let mut file = File::new(content, PrintCfg::default());
    file.move_main(&Motion::To(at[0]));
    file.cursors.insert_removed(false, Cursor::new(at[1], &file.text, &cfg));
    file.cursors.insert_removed(false, Cursor::new(at[2], &file.text, &cfg));
    file
}

#[test]
fn selections_are_apart_after_every_batch() {
    let mut file = three_cursors("0123456789abcdefghij", [2, 6, 12]);
    file.move_each(&Motion::SetAnchor);
    file.move_each(&Motion::Hor(3));
    assert_eq!(ranges(&file), vec![(2, 5), (6, 9), (12, 15)]);
    assert!(apart(&ranges(&file)));
    // The first two selections grow into each other and become one.
    file.move_each(&Motion::Hor(2));
    assert_eq!(ranges(&file), vec![(2, 11), (12, 17)]);
    assert!(apart(&ranges(&file)));
    file.edit_on_each(&Edit::Replace(String::from("##")));
    assert_eq!(file.text.contents(), "01##b##hij");
    assert!(apart(&ranges(&file)));
    file.move_each(&Motion::To(0));
    assert_eq!(ranges(&file), vec![(0, 0)]);
    assert_eq!(file.cursors.main_index(), 0);
}

#[test]
fn cursors_that_meet_become_one_and_the_main_one_stays_main() {
    let mut file = three_cursors("abcdefghij", [8, 1, 4]);
    assert_eq!(file.cursors.main_index(), 2);
    file.move_nth(&Motion::To(8), 1);
    assert_eq!(ranges(&file), vec![(1, 1), (8, 8)]);
    assert_eq!(file.cursors.main_index(), 1);
}

#[test]
fn horizontal_movement_crosses_lines_and_stops_at_the_ends() {
    let mut file = File::new("ab\ncd", PrintCfg::default());
    file.move_main(&Motion::Hor(3));
    let caret = file.cursors.get_main().unwrap().caret();
    assert_eq!(caret, Pos { byte: 3, ch: 3, col: 0, row: 1 });
    file.move_main(&Motion::Hor(100));
    assert_eq!(file.cursors.get_main().unwrap().true_byte(), 5);
    file.move_main(&Motion::Hor(-100));
    assert_eq!(file.cursors.get_main().unwrap().true_byte(), 0);
    file.move_main(&Motion::Hor(isize::MIN));
    assert_eq!(file.cursors.get_main().unwrap().true_byte(), 0);
}

#[test]
fn vertical_movement_keeps_to_the_visual_column() {
    let mut file = File::new("abcdef\nab\n\tbcdef", PrintCfg::default());
    file.move_main(&Motion::Hor(5));
    assert_eq!(file.cursors.get_main().unwrap().desired_x, 5);
    file.move_main(&Motion::Ver(1));
    let caret = file.cursors.get_main().unwrap().caret();
    assert_eq!((caret.true_row(), caret.true_col()), (1, 2));
    file.move_main(&Motion::Ver(1));
    let caret = file.cursors.get_main().unwrap().caret();
    // The tab takes four columns, so that the column 5 is that of 'c'.
    assert_eq!((caret.true_row(), caret.true_col()), (2, 2));
    assert_eq!(file.cursors.get_main().unwrap().desired_x, 5);
    file.move_main(&Motion::Ver(10));
    assert_eq!(file.cursors.get_main().unwrap().true_row(), 2);
    file.move_main(&Motion::Ver(-10));
    let caret = file.cursors.get_main().unwrap().caret();
    assert_eq!((caret.true_row(), caret.true_col()), (0, 5));
}

#[test]
fn movement_to_coordinates_stays_within_the_text() {
    let mut file = File::new("abc\nde\nf", PrintCfg::default());
    file.move_main(&Motion::ToCoords(1, 1));
    assert_eq!(file.cursors.get_main().unwrap().true_byte(), 5);
    file.move_main(&Motion::ToCoords(1, 50));
    assert_eq!(file.cursors.get_main().unwrap().true_byte(), 6);
    file.move_main(&Motion::ToCoords(9, 0));
    assert_eq!(file.cursors.get_main().unwrap().true_byte(), 7);
    file.move_main(&Motion::To(1000));
    assert_eq!(file.cursors.get_main().unwrap().true_byte(), 8);
}

#[test]
fn the_ends_of_a_selection_change_places() {
    let text = Text::new("abcdef");
    let cfg = PrintCfg::default();
    let mut mover = Mover::new(Cursor::new(2, &text, &cfg));
    mover.set_anchor();
    mover.move_hor(3, &text, &cfg);
    assert_eq!(mover.byte_range(), (2, 5));
    assert_eq!(mover.caret().true_byte(), 5);
    mover.set_caret_on_start();
    assert_eq!(mover.caret().true_byte(), 2);
    assert_eq!(mover.anchor().unwrap().true_byte(), 5);
    mover.set_caret_on_start();
    assert_eq!(mover.caret().true_byte(), 2);
    mover.set_caret_on_end();
    assert_eq!(mover.caret().true_byte(), 5);
    mover.swap_ends();
    assert_eq!(mover.caret().true_byte(), 2);
    assert_eq!(mover.unset_anchor().unwrap().true_byte(), 5);
    assert_eq!(mover.byte_range(), (2, 2));
    mover.move_to_coords(0, 4, &text, &cfg);
    mover.move_ver(1, &text, &cfg);
    mover.move_to(3, &text, &cfg);
    assert_eq!(mover.finish().true_col(), 3);
}

#[test]
fn replace_puts_the_caret_after_what_came() {
    let mut file = File::new("hello world", PrintCfg::default());
    file.move_main(&Motion::SetAnchor);
    file.move_main(&Motion::Hor(5));
    file.edit_on_main(&Edit::Replace(String::from("bye")));
    assert_eq!(file.text.contents(), "bye world");
    let cursor = file.cursors.get_main().unwrap();
    assert_eq!(cursor.true_byte(), 3);
    assert_eq!(cursor.anchor(), None);
    // An anchor ahead of the caret goes to the start of what came.
    file.move_main(&Motion::Hor(1));
    file.move_main(&Motion::SetAnchor);
    file.move_main(&Motion::Hor(5));
    file.move_main(&Motion::SwapEnds);
    file.edit_on_main(&Edit::Replace(String::from("you")));
    assert_eq!(file.text.contents(), "bye you");
    let cursor = file.cursors.get_main().unwrap();
    assert_eq!(cursor.true_byte(), 7);
    assert_eq!(cursor.anchor().unwrap().true_byte(), 4);
}

#[test]
fn insert_moves_an_anchor_ahead_of_the_caret() {
    let mut file = File::new("abcd", PrintCfg::default());
    file.move_main(&Motion::To(3));
    file.move_main(&Motion::SetAnchor);
    file.move_main(&Motion::To(1));
    file.edit_on_main(&Edit::Insert(String::from("xy")));
    assert_eq!(file.text.contents(), "axybcd");
    let cursor = file.cursors.get_main().unwrap();
    assert_eq!(cursor.true_byte(), 3);
    assert_eq!(cursor.anchor().unwrap().true_byte(), 5);
}

#[test]
fn the_cursors_are_shown_by_tags() {
    let mut file = three_cursors("abcdefgh", [1, 4, 7]);
    file.move_nth(&Motion::SetAnchor, 1);
    file.move_nth(&Motion::Hor(2), 1);
    let tags: Vec<(usize, Tag)> = file.text.tags.entries.iter().map(|e| (e.offset, e.tag)).collect();
    assert_eq!(
        tags,
        vec![
            (1, Tag::MainCursor),
            (4, Tag::PushForm(FormId { id: EXTRA_SEL_ID })),
            (6, Tag::PopForm(FormId { id: EXTRA_SEL_ID })),
            (6, Tag::ExtraCursor),
            (7, Tag::ExtraCursor),
        ]
    );
    let cursors = file.cursors.clone();
    file.text.remove_cursor_tags(&cursors);
    assert_eq!(file.text.tags.len(), 0);
    file.text.add_cursor_tags(&cursors);
    assert_eq!(file.text.tags.len(), 5);
    assert_eq!(duat::forms::cursor_tags(true).1, Tag::PushForm(FormId { id: MAIN_SEL_ID }));
}

#[test]
fn the_set_of_cursors_keeps_its_main_index() {
    let text = Text::new("abcdefgh");
    let cfg = PrintCfg::default();
    let mut cursors = Cursors::new();
    assert_eq!(cursors.len(), 1);
    assert!(!cursors.is_empty());
    cursors.insert_removed(true, Cursor::new(5, &text, &cfg));
    cursors.insert_removed(false, Cursor::new(7, &text, &cfg));
    assert_eq!(cursors.main_index(), 1);
    assert_eq!(selections(&cursors), 3);
    assert_eq!(main_byte(&cursors), 6);
    assert_eq!(main_char(&cursors), 6);
    assert_eq!(main_col(&cursors), 6);
    assert_eq!(main_line(&cursors), 1);
    cursors.rotate_main_fwd();
    assert_eq!(cursors.main_index(), 2);
    cursors.rotate_main_fwd();
    assert_eq!(cursors.main_index(), 0);
    cursors.rotate_main_rev();
    assert_eq!(cursors.main_index(), 2);
    let (taken, was_main) = cursors.remove(0).unwrap();
    assert_eq!(taken.true_byte(), 0);
    assert!(!was_main);
    assert_eq!(cursors.main_index(), 1);
    assert_eq!(cursors.remove(5), None);
    cursors.remove_extras();
    assert_eq!(cursors.len(), 1);
    assert_eq!(cursors.get_main().unwrap().true_byte(), 7);
    assert_eq!(cursors.get(1), None);
    let drained = cursors.drain();
    assert_eq!(drained.len(), 1);
    assert!(drained[0].1);
    assert!(cursors.is_empty());
    assert_eq!(main_byte(&cursors), 1);
}

#[test]
fn a_cursor_forgets_a_change_that_is_gone() {
    let text = Text::new("abcdef");
    let cfg = PrintCfg::default();
    let mut cursor = Cursor::new(2, &text, &cfg);
    let moment = Moment { changes: vec![Change::new("xy", 1, 1, &text)] };
    cursor.assoc_index = Some(0);
    cursor.change_range_check(&moment);
    assert_eq!(cursor.assoc_index, Some(0));
    cursor.assoc_index = Some(3);
    cursor.change_range_check(&moment);
    assert_eq!(cursor.assoc_index, None);
    assert!(intersects((1, 3), (2, 2)));
    assert!(!intersects((0, 0), (0, 0)));
    cursor.place_anchor(text.point_at(4));
    assert_eq!(cursor.range(), (2, 4));
    assert_eq!(cursor.start_pos().true_byte(), 2);
    assert_eq!(cursor.end_pos().true_byte(), 4);
    cursor.unset_anchor();
    assert_eq!(cursor.byte(), 3);
    assert_eq!(cursor.col(), 3);
    assert_eq!(cursor.row(), 1);
}

#[test]
fn later_cursors_shift_by_what_was_added_before_them() {
    let text = Text::new("aXbc");
    let cfg = PrintCfg::default();
    let diff = Diff { bytes: 1, changes: 1 };
    let mut cursor = Cursor::new(2, &Text::new("abc"), &cfg);
    cursor.set_anchor();
    diff.shift_cursor(&mut cursor, &text);
    assert_eq!(cursor.true_byte(), 3);
    assert_eq!(cursor.anchor().unwrap().true_byte(), 3);
    assert!(!diff.no_change());
    assert!(Diff::default().no_change());
    let back = Diff { bytes: -10, changes: 0 };
    back.shift_cursor(&mut cursor, &text);
    assert_eq!(cursor.true_byte(), 0);
}

#[test]
fn tabs_count_for_the_visual_column() {
    let text = Text::new("\ta\tb");
    let mut cfg = PrintCfg::default();
    cfg.tab_stops = TabStops::Regular(8);
    assert_eq!(duat::cursor::visual_col(&text, 1, &cfg), 8);
    assert_eq!(duat::cursor::visual_col(&text, 3, &cfg), 16);
    assert_eq!(duat::cursor::visual_col(&text, 4, &cfg), 17);
}
