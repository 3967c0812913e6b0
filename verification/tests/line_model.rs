use duat::cfg::TabStops;
use duat::lines::{
    add_signed, char_len, get_byte_distance, get_char_width, pos_after, relative_add,
    EditCursor, MoveCursor, Splice, SpliceAdder, TextCursor, TextLine, TextPos, TextRange,
};

fn pos(byte: usize, col: usize, row: usize) -> TextPos {
    TextPos { byte, col, row }
}

fn lines(text: &str) -> Vec<TextLine> {
    text.split_inclusive('\n').map(TextLine::new).collect()
}

#[test]
fn positions_in_one_row_add_up() {
    assert_eq!(pos(10, 2, 3).col_add(pos(4, 1, 3)), pos(14, 3, 3));
    assert_eq!(pos(10, 2, 3).col_add(pos(4, 1, 2)), pos(10, 2, 3));
    assert_eq!(pos(10, 2, 3).col_sub(pos(4, 1, 3)), pos(6, 1, 3));
    assert_eq!(pos(10, 2, 3).col_sub(pos(40, 10, 4)), pos(10, 2, 3));
    assert_eq!(TextPos::default(), pos(0, 0, 0));
}

#[test]
fn positions_are_ordered_by_their_bytes_first() {
    assert!(pos_after(pos(5, 0, 0), pos(4, 9, 9)));
    assert!(!pos_after(pos(4, 9, 9), pos(5, 0, 0)));
    assert!(pos_after(pos(4, 2, 0), pos(4, 1, 9)));
    assert!(pos_after(pos(4, 2, 1), pos(4, 2, 0)));
    assert!(!pos_after(pos(4, 2, 1), pos(4, 2, 1)));
}

#[test]
fn a_position_follows_a_splice_before_it() {
    // Two characters came in at the start of row 1.
    let splice = Splice { start: pos(10, 0, 1), added_end: pos(12, 2, 1), taken_end: pos(10, 0, 1) };
    let mut in_row = pos(15, 5, 1);
    in_row.calibrate(&splice);
    assert_eq!(in_row, pos(17, 7, 1));
    let mut later = pos(30, 3, 2);
    later.calibrate(&splice);
    assert_eq!(later, pos(32, 3, 2));
    let mut before = pos(4, 4, 0);
    before.calibrate(&splice);
    assert_eq!(before, pos(4, 4, 0));
    let mut at = pos(10, 0, 1);
    at.calibrate(&splice);
    assert_eq!(at, pos(10, 0, 1));
    // A line came in.
    let splice = Splice { start: pos(10, 0, 1), added_end: pos(14, 0, 2), taken_end: pos(10, 0, 1) };
    let mut in_row = pos(15, 5, 1);
    in_row.calibrate(&splice);
    assert_eq!(in_row, pos(19, 5, 2));
}

#[test]
fn an_adder_sums_the_splices() {
    let mut adder = SpliceAdder::default();
    assert_eq!(adder, SpliceAdder { last_pos: pos(0, 0, 0), lines: 0, bytes: 0, cols: 0 });
    let first = Splice { start: pos(2, 2, 0), added_end: pos(5, 5, 0), taken_end: pos(2, 2, 0) };
    adder.calibrate(&first);
    assert_eq!(adder, SpliceAdder { last_pos: pos(5, 5, 0), lines: 0, bytes: 3, cols: 3 });
    let second = Splice { start: pos(8, 8, 0), added_end: pos(8, 8, 0), taken_end: pos(10, 10, 0) };
    adder.calibrate(&second);
    assert_eq!(adder, SpliceAdder { last_pos: pos(8, 8, 0), lines: 0, bytes: 1, cols: 1 });
    let third = Splice { start: pos(20, 1, 2), added_end: pos(24, 0, 3), taken_end: pos(20, 1, 2) };
    adder.calibrate(&third);
    assert_eq!(adder, SpliceAdder { last_pos: pos(24, 0, 3), lines: 1, bytes: 5, cols: -1 });
    let mut p = pos(30, 4, 2);
    relative_add(&mut p, &adder);
    assert_eq!(p, pos(35, 3, 3));
    let mut p = pos(50, 4, 5);
    relative_add(&mut p, &adder);
    assert_eq!(p, pos(55, 4, 6));
}

#[test]
fn signed_sums_stay_within_the_numbers() {
    assert_eq!(add_signed(5, -3), 2);
    assert_eq!(add_signed(5, -8), 0);
    assert_eq!(add_signed(5, 8), 13);
    assert_eq!(add_signed(usize::MAX - 1, 8), usize::MAX);
    assert_eq!(add_signed(0, isize::MIN), 0);
}

#[test]
fn a_line_knows_its_columns_and_bytes() {
    let line = TextLine::new("hé\tlo\n");
    assert_eq!(line.text(), "hé\tlo\n");
    assert_eq!(line.char_count(), 6);
    assert_eq!(line.len_bytes(), 7);
    assert_eq!(line.get_line_byte_at(0), 0);
    assert_eq!(line.get_line_byte_at(1), 1);
    assert_eq!(line.get_line_byte_at(2), 3);
    assert_eq!(line.get_line_byte_at(3), 4);
    assert_eq!(line.get_line_byte_at(6), 7);
    assert_eq!(line.get_line_byte_at(60), 7);
    let tabs = TabStops::Regular(4);
    assert_eq!(line.get_distance_to_col(0, &tabs), 0);
    assert_eq!(line.get_distance_to_col(2, &tabs), 2);
    assert_eq!(line.get_distance_to_col(3, &tabs), 4);
    assert_eq!(line.get_distance_to_col(5, &tabs), 6);
    // The line feed is a control character, and takes one column.
    assert_eq!(line.get_distance_to_col(6, &tabs), 7);
    assert_eq!(line.get_distance_to_col(60, &tabs), 7);
    assert_eq!(get_char_width('\t', 2, &tabs), 2);
    assert_eq!(get_char_width('a', 2, &tabs), 1);
    assert_eq!(get_char_width('日', 2, &tabs), 2);
    assert_eq!(get_char_width('\n', 2, &tabs), 1);
    assert_eq!(char_len('a'), 1);
    assert_eq!(char_len('é'), 2);
    assert_eq!(char_len('日'), 3);
    assert_eq!(char_len('😀'), 4);
}

#[test]
fn the_indentation_is_the_width_of_the_leading_blanks() {
    let tabs = TabStops::Regular(4);
    assert_eq!(TextLine::new("  x  ").indent(&tabs), 2);
    assert_eq!(TextLine::new("\tx").indent(&tabs), 4);
    assert_eq!(TextLine::new(" \t x").indent(&tabs), 5);
    assert_eq!(TextLine::new("x").indent(&tabs), 0);
    assert_eq!(TextLine::new("").indent(&tabs), 0);
    assert_eq!(TextLine::new("   ").indent(&tabs), 3);
}

#[test]
fn the_column_at_a_distance_is_the_first_that_reaches_it() {
    let tabs = TabStops::Regular(4);
    let line = TextLine::new("a\tbc");
    assert_eq!(line.get_col_at_distance(0, &tabs), (0, 0));
    assert_eq!(line.get_col_at_distance(1, &tabs), (1, 0));
    // The tab reaches from column 1 to column 4.
    assert_eq!(line.get_col_at_distance(2, &tabs), (2, 2));
    assert_eq!(line.get_col_at_distance(4, &tabs), (2, 0));
    assert_eq!(line.get_col_at_distance(5, &tabs), (3, 0));
    // Beyond the line it is the last character.
    assert_eq!(line.get_col_at_distance(6, &tabs), (3, 0));
    assert_eq!(line.get_col_at_distance(60, &tabs), (3, 0));
    assert_eq!(TextLine::new("").get_col_at_distance(3, &tabs), (0, 0));
}

#[test]
fn the_distance_between_positions_is_counted_in_bytes() {
    let lines = lines("héllo\nab\n\nxyz");
    let from = pos(0, 1, 0);
    assert_eq!(get_byte_distance(&lines, from, pos(0, 3, 0)), 3);
    assert_eq!(get_byte_distance(&lines, pos(0, 3, 0), from), -3);
    assert_eq!(get_byte_distance(&lines, from, pos(0, 1, 1)), 7);
    assert_eq!(get_byte_distance(&lines, from, pos(0, 2, 3)), 12);
    assert_eq!(get_byte_distance(&lines, pos(0, 2, 3), from), -12);
    assert_eq!(get_byte_distance(&lines, pos(0, 0, 2), pos(0, 0, 2)), 0);
    // A column beyond the line is the end of the line.
    assert_eq!(get_byte_distance(&lines, pos(0, 0, 1), pos(0, 9, 1)), 3);
    let here = pos(1, 1, 0);
    assert_eq!(here.calibrated_cursor(&lines, 1, 1), pos(8, 1, 1));
    assert_eq!(pos(8, 1, 1).calibrated_cursor(&lines, 0, 0), pos(0, 0, 0));
}

#[test]
fn a_cursor_of_lines_has_a_range() {
    let mut cursor =
        TextCursor { prev: None, cur: pos(5, 5, 0), anchor: None, desired_x: 5 };
    assert_eq!(cursor.range(), TextRange { start: pos(5, 5, 0), end: pos(5, 5, 0) });
    assert_eq!(cursor.prev(), pos(5, 5, 0));
    assert_eq!(cursor.cur(), pos(5, 5, 0));
    assert_eq!(cursor.anchor(), None);
    cursor.update();
    cursor.cur = pos(9, 1, 1);
    assert_eq!(cursor.prev(), pos(5, 5, 0));
    let mut mover = MoveCursor::new(cursor);
    mover.set_anchor();
    assert_eq!(mover.cursor.anchor, Some(pos(9, 1, 1)));
    mover.cursor.cur = pos(2, 2, 0);
    assert_eq!(mover.cursor.range(), TextRange { start: pos(2, 2, 0), end: pos(9, 1, 1) });
    mover.cursor.cur = pos(12, 4, 1);
    assert_eq!(mover.cursor.range(), TextRange { start: pos(9, 1, 1), end: pos(12, 4, 1) });
    let mut editor = EditCursor::new(mover.cursor, SpliceAdder::default());
    assert_eq!(editor.cursor_range(), TextRange { start: pos(9, 1, 1), end: pos(12, 4, 1) });
    let splice = Splice { start: pos(0, 0, 0), added_end: pos(3, 3, 0), taken_end: pos(0, 0, 0) };
    editor.calibrate(&splice);
    assert_eq!(editor.adder, SpliceAdder { last_pos: pos(3, 3, 0), lines: 0, bytes: 3, cols: 3 });
    let mut cursor = editor.cursor;
    cursor.calibrate(&editor.adder);
    assert_eq!(cursor.cur, pos(15, 4, 1));
    assert_eq!(cursor.anchor, Some(pos(12, 1, 1)));
    mover = MoveCursor::new(cursor);
    mover.unset_anchor();
    assert_eq!(mover.cursor.anchor, None);
}
