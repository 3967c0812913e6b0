use duat::cfg::PrintCfg;
use duat::cursor::Cursor;
use duat::file::{Edit, File, Motion};
use duat::history::{count_chars, does_coalesce, merge_changes, shift_pos, Change, History};
use duat::text::Text;

fn text_of(s: &str) -> Text {
    Text::new(s)
}

#[test]
fn undo_gives_the_buffer_as_it_was_and_redo_the_edited_one() {
    let mut file = File::new("one two three", PrintCfg::default());
    let cfg = PrintCfg::default();
    file.cursors.insert_removed(false, Cursor::new(4, &file.text, &cfg));
    file.cursors.insert_removed(false, Cursor::new(8, &file.text, &cfg));
    file.new_moment();
    file.edit_on_each(&Edit::Insert(String::from("<>")));
    file.move_each(&Motion::SetAnchor);
    file.move_each(&Motion::Hor(2));
    file.edit_on_each(&Edit::Replace(String::from("é")));
    let edited = file.text.contents();
    assert_eq!(edited, "<>ée <>éo <>éree");
    assert!(file.undo());
    assert_eq!(file.text.contents(), "one two three");
    assert!(file.redo());
    assert_eq!(file.text.contents(), edited);
    assert!(file.undo());
    assert_eq!(file.text.contents(), "one two three");
}

#[test]
fn undo_without_history_changes_nothing() {
    let mut file = File::new("abc", PrintCfg::default());
    assert!(!file.undo());
    assert!(!file.redo());
    assert_eq!(file.text.contents(), "abc");
    assert_eq!(file.cursors.len(), 1);
}

#[test]
fn a_change_within_what_the_last_one_added_merges_with_it() {
    let mut text = text_of("");
    let mut history = History::new();
    let first = Change::new("hello", 0, 0, &text);
    let (index, grew) = history.add_change(&mut text, first, None);
    assert_eq!((index, grew), (0, 1));
    let second = Change::new("y", 1, 4, &text);
    let (index, grew) = history.add_change(&mut text, second, Some(0));
    assert_eq!((index, grew), (0, 0));
    assert_eq!(text.contents(), "hyo");
    assert_eq!(history.changes.len(), 1);
    assert_eq!(history.changes[0].start, 0);
    assert_eq!(history.changes[0].taken, "".as_bytes());
    assert_eq!(history.changes[0].added, "hyo".as_bytes());
    // Making the merged change alone gives what the two gave.
    let mut again = text_of("");
    again.apply_change(&history.changes[0]);
    assert_eq!(again.contents(), "hyo");
    assert!(history.undo(&mut text).is_some());
    assert_eq!(text.contents(), "");
}

#[test]
fn a_change_that_takes_all_that_the_last_one_added_merges_with_it() {
    let mut text = text_of("abcdef");
    let mut history = History::new();
    let first = Change::new("XY", 2, 4, &text);
    history.add_change(&mut text, first, None);
    assert_eq!(text.contents(), "abXYef");
    let second = Change::new("-", 1, 5, &text);
    let (index, grew) = history.add_change(&mut text, second, Some(0));
    assert_eq!((index, grew), (0, 0));
    assert_eq!(text.contents(), "a-f");
    assert_eq!(history.changes.len(), 1);
    assert_eq!(history.changes[0].start, 1);
    assert_eq!(history.changes[0].taken, "bcde".as_bytes());
    assert_eq!(history.changes[0].added, "-".as_bytes());
    let mut again = text_of("abcdef");
    again.apply_change(&history.changes[0]);
    assert_eq!(again.contents(), "a-f");
    assert_eq!(history.undo(&mut text), Some(vec![5]));
    assert_eq!(text.contents(), "abcdef");
}

#[test]
fn a_change_elsewhere_is_a_change_of_its_own() {
    let mut text = text_of("abcdef");
    let mut history = History::new();
    let first = Change::new("X", 0, 0, &text);
    history.add_change(&mut text, first, None);
    let second = Change::new("Y", 5, 5, &text);
    let (index, grew) = history.add_change(&mut text, second, Some(0));
    assert_eq!((index, grew), (1, 1));
    assert_eq!(history.changes.len(), 2);
    assert_eq!(text.contents(), "XabcdYef");
    assert_eq!(history.undo(&mut text), Some(vec![0, 4]));
    assert_eq!(text.contents(), "abcdef");
    assert_eq!(history.redo(&mut text), Some(vec![1, 6]));
    assert_eq!(text.contents(), "XabcdYef");
}

#[test]
fn coalescing_is_decided_by_the_ranges() {
    let text = text_of("abcdef");
    let a = Change::new("XYZ", 1, 2, &text);
    let inside = Change { start: 2, taken: "Y".as_bytes().to_vec(), added: vec![] };
    let around = Change { start: 0, taken: "aXYZc".as_bytes().to_vec(), added: vec![b'!'] };
    let apart = Change { start: 5, taken: vec![], added: vec![b'?'] };
    assert!(does_coalesce(&a, &inside));
    assert!(does_coalesce(&a, &around));
    assert!(!does_coalesce(&a, &apart));
    let merged = merge_changes(&a, &inside);
    assert_eq!((merged.start, merged.taken, merged.added), (1, b"b".to_vec(), b"XZ".to_vec()));
    let merged = merge_changes(&a, &around);
    assert_eq!((merged.start, merged.taken, merged.added), (0, b"abc".to_vec(), b"!".to_vec()));
}

#[test]
fn typing_in_one_moment_is_undone_at_once() {
    let mut file = File::new("", PrintCfg::default());
    for s in ["a", "b", "c"] {
        file.edit_on_main(&Edit::Insert(String::from(s)));
    }
    assert_eq!(file.text.contents(), "abc");
    assert_eq!(file.history.changes.len(), 1);
    assert_eq!(file.history.len_moments(), 1);
    assert!(file.undo());
    assert_eq!(file.text.contents(), "");
}

#[test]
fn a_new_moment_forgets_what_could_be_redone() {
    let mut file = File::new("", PrintCfg::default());
    file.edit_on_main(&Edit::Insert(String::from("a")));
    file.new_moment();
    file.edit_on_main(&Edit::Insert(String::from("b")));
    assert!(file.undo());
    assert_eq!(file.history.len_moments(), 2);
    assert_eq!(file.history.len_applied(), 1);
    file.new_moment();
    assert_eq!(file.history.len_moments(), 2);
    assert_eq!(file.history.changes.len(), 1);
    assert!(!file.redo());
    file.edit_on_main(&Edit::Insert(String::from("c")));
    assert_eq!(file.text.contents(), "ac");
    let moment = file.history.moment(1);
    assert_eq!(moment.changes.len(), 1);
    assert_eq!(moment.changes[0].added, b"c".to_vec());
}

#[test]
fn offsets_follow_the_text_around_a_change() {
    // The bytes 4..8 become the bytes 4..6.
    assert_eq!(shift_pos(2, 4, 8, 6), 2);
    assert_eq!(shift_pos(4, 4, 8, 6), 4);
    assert_eq!(shift_pos(5, 4, 8, 6), 5);
    assert_eq!(shift_pos(7, 4, 8, 6), 6);
    assert_eq!(shift_pos(8, 4, 8, 6), 6);
    assert_eq!(shift_pos(10, 4, 8, 6), 8);
}

#[test]
fn a_change_knows_its_ends() {
    let text = text_of("héllo");
    let change = Change::new("ab", 1, 3, &text);
    assert_eq!(change.taken, "é".as_bytes());
    assert_eq!(change.taken_end(), 3);
    assert_eq!(change.added_end(), 3);
}

#[test]
fn a_change_adds_and_takes_characters() {
    let change = Change { start: 2, taken: "é".as_bytes().to_vec(), added: "abc".as_bytes().to_vec() };
    assert_eq!(change.chars_diff(), 2);
    let change = Change { start: 0, taken: "日本語".as_bytes().to_vec(), added: Vec::new() };
    assert_eq!(change.chars_diff(), -3);
    assert_eq!(count_chars(&"héllo\n".as_bytes().to_vec()), 6);
    assert_eq!(count_chars(&Vec::new()), 0);
}
