use duat::builder::Builder;
use duat::cfg::{PrintCfg, WrapMethod};
use duat::cursor::Cursor;
use duat::edit::Mover;
use duat::file::{Edit, File, Motion};
use duat::forms::Palette;
use duat::line_numbers::{Align, LineNumbersCfg};
use duat::position::Pos;
use duat::print::{Cmd, Coord, Coords};
use duat::search::{SearchError, Searcher};
use duat::tags::{FormId, Tag};
use duat::text::Text;
use duat::widgets::{LineNumbers, WidgetKind};

fn carets(file: &File) -> Vec<usize> {
    file.cursors.list.iter().map(|c| c.caret.byte).collect()
}

fn wrapping(width_cfg: WrapMethod) -> PrintCfg {
    let mut cfg = PrintCfg::default();
    cfg.wrap_method = width_cfg;
    cfg
}

fn printed(cmds: &[Cmd]) -> String {
    cmds.iter()
        .filter_map(|c| match c {
            Cmd::Print(c) => Some(c.to_string()),
            Cmd::Spaces(n) => Some(" ".repeat(*n)),
            Cmd::MoveTo(_, _) => Some(String::from("|")),
            _ => None,
        })
        .collect()
}

#[test]
fn a_searcher_finds_its_pattern_both_ways() {
    let searcher = Searcher::new(String::from("a+")).unwrap();
    assert!(!searcher.is_empty());
    let mut text = Text::new("aab a\nba");
    let found: Vec<(usize, usize)> = searcher
        .search_fwd(&mut text, 0, None)
        .iter()
        .map(|(s, e)| (s.true_byte(), e.true_byte()))
        .collect();
    assert_eq!(found, vec![(0, 2), (4, 5), (7, 8)]);
    let found: Vec<(usize, usize)> = searcher
        .search_rev(&mut text, 8, Some(3))
        .iter()
        .map(|(s, e)| (s.true_byte(), e.true_byte()))
        .collect();
    assert_eq!(found, vec![(7, 8), (4, 5)]);
    assert_eq!(searcher.search_fwd(&mut text, 5, Some(2)), vec![]);
    assert!(searcher.matches(b"aaa"));
    assert!(!searcher.matches(b"aab"));
    assert!(!searcher.matches(b""));
    assert!(Searcher::new(String::new()).unwrap().is_empty());
    assert!(Searcher::new(String::new()).unwrap().matches(b""));
    assert_eq!(Searcher::new(String::from("a(")).err(), Some(SearchError::PatternSyntax));
}

#[test]
fn a_text_is_pushed_with_its_tags() {
    let mut inner = Builder::new();
    inner.push_tag(Tag::PushForm(FormId { id: 9 }));
    inner.push_str("in");
    let inner = inner.finish();
    let mut outer = Builder::new();
    outer.push_tag(Tag::PushForm(FormId { id: 7 }));
    outer.push_str("out ");
    outer.push_text(&inner);
    outer.push_str("!");
    let text = outer.finish();
    assert_eq!(text.contents(), "out in!");
    let tags: Vec<(usize, Tag)> = text.tags.entries.iter().map(|e| (e.offset, e.tag)).collect();
    let pushes: Vec<(usize, Tag)> =
        tags.iter().copied().filter(|(_, t)| matches!(t, Tag::PushForm(_))).collect();
    assert_eq!(
        pushes,
        vec![(0, Tag::PushForm(FormId { id: 7 })), (4, Tag::PushForm(FormId { id: 9 }))]
    );
    for (i, (_, tag)) in tags.iter().enumerate() {
        if let Tag::PushForm(id) = tag {
            assert!(tags[i + 1..].iter().any(|(_, t)| *t == Tag::PopForm(*id)));
        }
    }
    assert!(tags.contains(&(6, Tag::PopForm(FormId { id: 9 }))));
}

#[test]
fn a_splice_moves_the_cursors_with_the_text() {
    let cfg = PrintCfg::default();
    let mut file = File::new("0123456789", PrintCfg::default());
    file.move_main(&Motion::To(2));
    file.cursors.insert_removed(false, Cursor::new(5, &file.text, &cfg));
    file.cursors.insert_removed(false, Cursor::new(8, &file.text, &cfg));
    file.splice_edit("abcde", 4, 6);
    assert_eq!(file.text.contents(), "0123abcde6789");
    assert_eq!(carets(&file), vec![2, 5, 11]);
    file.splice_edit("", 3, 8);
    assert_eq!(file.text.contents(), "012e6789");
    assert_eq!(carets(&file), vec![2, 3, 6]);
    // Both splices belong to one moment of the history.
    assert!(file.undo());
    assert_eq!(file.text.contents(), "0123456789");
    assert!(!file.undo());
    assert!(file.redo());
    assert_eq!(file.text.contents(), "012e6789");
}

#[test]
fn the_caret_moves_by_visual_lines() {
    let mut file = File::new("abcdefghij\nkl", wrapping(WrapMethod::Width));
    file.move_main(&Motion::To(1));
    file.move_main(&Motion::VerWrapped(1, 4));
    assert_eq!(carets(&file), vec![5]);
    file.move_main(&Motion::VerWrapped(1, 4));
    assert_eq!(carets(&file), vec![9]);
    file.move_main(&Motion::VerWrapped(1, 4));
    assert_eq!(carets(&file), vec![12]);
    file.move_main(&Motion::VerWrapped(5, 4));
    assert_eq!(carets(&file), vec![12]);
    file.move_main(&Motion::VerWrapped(-2, 4));
    assert_eq!(carets(&file), vec![5]);
    file.move_main(&Motion::VerWrapped(-9, 4));
    assert_eq!(carets(&file), vec![1]);
    let text = Text::new("abcdefghij\nkl");
    let cfg = wrapping(WrapMethod::Width);
    let mut cursor = Cursor::new(7, &text, &cfg);
    cursor.move_ver_wrapped(-1, &text, &cfg, 4);
    assert_eq!(cursor.caret, Pos { byte: 3, ch: 3, col: 3, row: 0 });
    cursor.move_ver_wrapped(2, &text, &cfg, 4);
    assert_eq!(cursor.caret.byte, 10);
}

#[test]
fn the_cursors_of_a_file_can_be_asked_for() {
    let cfg = PrintCfg::default();
    let mut file = File::new("0123456789", PrintCfg::default());
    file.move_main(&Motion::To(2));
    file.cursors.insert_removed(false, Cursor::new(5, &file.text, &cfg));
    file.cursors.insert_removed(false, Cursor::new(8, &file.text, &cfg));
    assert_eq!(file.cursors_len(), 3);
    assert_eq!(file.main_cursor_index(), 0);
    assert_eq!(file.main_cursor().unwrap().caret.byte, 2);
    assert_eq!(file.get_cursor(1).unwrap().caret.byte, 5);
    assert_eq!(file.get_cursor(3), None);
    file.rotate_main_fwd();
    assert_eq!(file.main_cursor_index(), 1);
    let main_tags: Vec<usize> = file
        .text
        .tags
        .entries
        .iter()
        .filter(|e| e.tag == Tag::MainCursor)
        .map(|e| e.offset)
        .collect();
    assert_eq!(main_tags, vec![5]);
    file.rotate_main_rev();
    file.rotate_main_rev();
    assert_eq!(file.main_cursor_index(), 2);
    file.rotate_main_fwd();
    assert_eq!(file.main_cursor_index(), 0);
    file.rotate_main_fwd();
    file.remove_extra_cursors();
    assert_eq!(carets(&file), vec![5]);
    assert_eq!(file.main_cursor_index(), 0);
    let cursor_tags: Vec<(usize, Tag)> = file
        .text
        .tags
        .entries
        .iter()
        .map(|e| (e.offset, e.tag))
        .collect();
    assert_eq!(cursor_tags, vec![(5, Tag::MainCursor)]);
    assert_eq!(file.cfg().indent_wrap, PrintCfg::default().indent_wrap);
    assert_eq!(file.w_chars().ranges, PrintCfg::default().word_chars.ranges);
    assert_eq!(file.history().len_moments(), 0);
    assert_eq!(file.cursors().len(), 1);
    assert_eq!(file.text().contents(), "0123456789");
}

#[test]
fn a_text_knows_its_lines_and_characters() {
    let text = Text::new("héllo\nab\n\nxyz");
    assert_eq!(text.len_point(), Pos { byte: 14, ch: 13, col: 3, row: 3 });
    assert_eq!(text.last_point(), Some(Pos { byte: 13, ch: 12, col: 2, row: 3 }));
    assert_eq!(Text::new("").last_point(), None);
    assert_eq!(Text::new("é").last_point(), Some(Pos { byte: 0, ch: 0, col: 0, row: 0 }));
    assert_eq!(text.char_to_line(0), 0);
    assert_eq!(text.char_to_line(5), 0);
    assert_eq!(text.char_to_line(6), 1);
    assert_eq!(text.char_to_line(9), 2);
    assert_eq!(text.char_to_line(10), 3);
    assert_eq!(text.char_to_line(99), 3);
    assert_eq!(text.line_to_char(0), 0);
    assert_eq!(text.line_to_char(1), 6);
    assert_eq!(text.line_to_char(2), 9);
    assert_eq!(text.line_to_char(3), 10);
    assert_eq!(text.line_to_char(4), 13);
    assert_eq!(text.get_char(1), Some('é'));
    assert_eq!(text.get_char(12), Some('z'));
    assert_eq!(text.get_char(13), None);
    assert_eq!(text.get_char_to_byte(2), Some(3));
    assert_eq!(text.get_char_to_byte(13), Some(14));
    assert_eq!(text.get_char_to_byte(14), None);
    assert_eq!(text.get_char_to_line(13), Some(3));
    assert_eq!(text.get_char_to_line(14), None);
    assert_eq!(text.get_line_to_char(3), Some(10));
    assert_eq!(text.get_line_to_char(4), None);
}

#[test]
fn a_mover_sees_the_text_at_its_cursor() {
    let cfg = PrintCfg::default();
    let text = Text::new("héllo");
    let mut mover = Mover::new(Cursor::new(1, &text, &cfg));
    assert!(mover.anchor_is_start());
    assert_eq!(mover.char(&text), Some('é'));
    assert_eq!(mover.selection(&text), b"");
    mover.set_anchor();
    mover.move_hor(2, &text, &cfg);
    assert!(mover.anchor_is_start());
    assert_eq!(mover.selection(&text), "él".as_bytes());
    assert_eq!(mover.char(&text), Some('l'));
    mover.swap_ends();
    assert!(!mover.anchor_is_start());
    assert_eq!(mover.selection(&text), "él".as_bytes());
    mover.unset_anchor();
    mover.move_hor(10, &text, &cfg);
    assert_eq!(mover.char(&text), None);
}

#[test]
fn the_lines_that_are_shown_are_numbered() {
    let mut file = File::new("abcdefghij\nkl\n\nmn", wrapping(WrapMethod::Width));
    assert_eq!(
        file.printed_lines(4, 10),
        vec![(0, false), (0, true), (0, true), (1, false), (2, false), (3, false)]
    );
    assert_eq!(file.printed_lines(4, 2), vec![(0, false), (0, true)]);
    assert_eq!(file.printed_lines(4, 0), vec![]);
    assert_eq!(
        file.printed_lines(20, 10),
        vec![(0, false), (1, false), (2, false), (3, false)]
    );
    file.print_info.first_char = 4;
    assert_eq!(
        file.printed_lines(4, 3),
        vec![(0, true), (0, true), (1, false)]
    );
    file.print_info.first_char = 11;
    assert_eq!(file.printed_lines(4, 2), vec![(1, false), (2, false)]);
}

#[test]
fn the_line_numbers_are_a_text_of_their_own() {
    let mut numbers = LineNumbers::new(LineNumbersCfg::absolute(Align::Right, Align::Left));
    assert_eq!(numbers.kind(), WidgetKind::NoInput);
    assert_eq!(numbers.text.contents(), "");
    let shown = vec![(8, false), (8, true), (9, false), (10, false)];
    assert!(numbers.update(&shown, 9, 3));
    assert_eq!(numbers.text.contents(), "  9\n   \n10 \n 11\n");
    let pushes: Vec<usize> = numbers
        .text
        .tags
        .entries
        .iter()
        .filter(|e| matches!(e.tag, Tag::PushForm(_)))
        .map(|e| e.offset)
        .collect();
    assert_eq!(pushes, vec![0, 4, 8, 12]);
    assert!(numbers.update(&vec![], 0, 3));
    assert_eq!(numbers.text.contents(), "");
    assert_eq!(LineNumbers::calculate_width(0), 1);
    assert_eq!(LineNumbers::calculate_width(8), 1);
    assert_eq!(LineNumbers::calculate_width(9), 1);
    assert_eq!(LineNumbers::calculate_width(10), 2);
    assert_eq!(LineNumbers::calculate_width(99), 2);
    assert_eq!(LineNumbers::calculate_width(100), 3);
    assert_eq!(LineNumbers::calculate_width(123456), 6);
}

#[test]
fn a_file_prints_itself_where_its_view_stands() {
    let mut cfg = PrintCfg::default();
    cfg.scrolloff.y_gap = 0;
    cfg.scrolloff.x_gap = 0;
    let mut file = File::new("ab\ncd\nef\ngh", cfg);
    let coords = Coords { tl: Coord { x: 0, y: 0 }, br: Coord { x: 4, y: 2 } };
    let palette = Palette::new();
    let cmds = file.print_file(coords, false, false, &palette);
    assert_eq!(printed(&cmds), "|    |ab  |cd  |");
    file.move_main(&Motion::Ver(3));
    let cmds = file.print_file(coords, false, false, &palette);
    assert_eq!(printed(&cmds), "|    |ef  |gh  |");
    assert_eq!(file.print_info().first_char, 6);
    file.edit_on_main(&Edit::Insert(String::from("X")));
    let cmds = file.print_file(coords, false, false, &palette);
    assert_eq!(printed(&cmds), "|    |ef  |Xgh |");
}
