use duat::cfg::{NewLine, PrintCfg, ScrollOff, TabStops, WordChars, WrapMethod};
use duat::forms::{Form, Palette};
use duat::parts::{Item, Part};
use duat::position::Pos;
use duat::print::{
    clear_line, keep_from, measure_line, padding, print, print_char, Alignment, Cmd, Coord, Coords,
    PrintCtx,
};
use duat::print_info::{max_x_shift, row_back, scroll_hor, scroll_ver, PrintInfo};
use duat::text::Text;
use duat::wrap::{
    bits, col_at_dist, get_width, indents, items_width, len_from, real_char_from, words,
    wrap_starts, wrapped, Indented, WrapItem,
};

fn cfg_with(method: WrapMethod) -> PrintCfg {
    let mut cfg = PrintCfg::default();
    cfg.wrap_method = method;
    cfg
}

fn wraps(items: &[WrapItem]) -> Vec<(usize, usize)> {
    items.iter().filter_map(|w| w.nl.map(|indent| (w.item.ch, indent))).collect()
}

fn area(width: usize, height: usize) -> Coords {
    Coords { tl: Coord { x: 0, y: 0 }, br: Coord { x: width, y: height } }
}

fn printed(cmds: &[Cmd]) -> String {
    let mut out = String::new();
    for cmd in cmds {
        match cmd {
            Cmd::Print(c) => out.push(*c),
            Cmd::Spaces(n) => out.push_str(&" ".repeat(*n)),
            Cmd::MoveTo(_, _) => out.push('|'),
            _ => {}
        }
    }
    out
}

#[test]
fn tabs_go_to_the_next_stop() {
    let regular = TabStops::Regular(4);
    assert_eq!(regular.spaces_at(0), 4);
    assert_eq!(regular.spaces_at(5), 3);
    assert_eq!(regular.spaces_at(7), 1);
    assert_eq!(regular.spaces_at(8), 4);
    let varied = TabStops::Varied(vec![2, 6, 7]);
    assert_eq!(varied.spaces_at(0), 2);
    assert_eq!(varied.spaces_at(2), 4);
    assert_eq!(varied.spaces_at(6), 1);
    assert!(varied.can_tab_at(6));
    assert!(!varied.can_tab_at(7));
    assert_eq!(varied.tab_width(7), 1);
    assert!(!TabStops::Regular(0).can_tab_at(3));
    assert_eq!(TabStops::Regular(0).tab_width(3), 1);
}

#[test]
fn characters_take_their_unicode_width() {
    let tabs = TabStops::Regular(4);
    assert_eq!(len_from('a', 0, &tabs), 1);
    assert_eq!(len_from('日', 0, &tabs), 2);
    assert_eq!(len_from('\u{301}', 0, &tabs), 0);
    assert_eq!(len_from('\u{7}', 0, &tabs), 0);
    assert_eq!(len_from('\n', 3, &tabs), 1);
    assert_eq!(len_from('\t', 3, &tabs), 1);
    assert_eq!(len_from('\t', 4, &tabs), 4);
    let text = Text::new("a日本\tb");
    assert_eq!(items_width(&text.parts(), &tabs), 9);
}

#[test]
fn the_glyph_of_a_line_feed_follows_the_policy() {
    assert_eq!(NewLine::Blank.new_line_char('x'), ' ');
    assert_eq!(NewLine::AlwaysAs('$').new_line_char('x'), '$');
    assert_eq!(NewLine::AfterSpaceAs('$').new_line_char('x'), ' ');
    assert_eq!(NewLine::AfterSpaceAs('$').new_line_char(' '), '$');
    assert_eq!(NewLine::AfterSpaceAs('$').new_line_char('\u{3000}'), '$');
    assert_eq!(real_char_from('\n', &NewLine::AlwaysAs('$'), 'x'), '$');
    assert_eq!(real_char_from('q', &NewLine::AlwaysAs('$'), 'x'), 'q');
}

#[test]
fn the_configuration_has_its_defaults() {
    let cfg = PrintCfg::default();
    assert!(cfg.wrap_method.is_no_wrap());
    assert!(!WrapMethod::Word.is_no_wrap());
    assert_eq!(WrapMethod::Capped(7).wrapping_cap(80), 7);
    assert_eq!(WrapMethod::Width.wrapping_cap(80), 80);
    assert_eq!(WrapMethod::default(), WrapMethod::NoWrap);
    assert_eq!(NewLine::default(), NewLine::Blank);
    assert_eq!(ScrollOff::default(), ScrollOff { y_gap: 3, x_gap: 3 });
    assert!(cfg.indent_wrap);
    assert!(cfg.word_chars.contains('_'));
    assert!(cfg.word_chars.contains('q'));
    assert!(!cfg.word_chars.contains('-'));
    assert!(WordChars::try_new(vec![('a', 'z')]).is_some());
    assert!(WordChars::try_new(vec![(' ', 'z')]).is_none());
    assert!(WordChars::try_new(vec![('\u{0}', '\u{10}')]).is_none());
}

#[test]
fn the_indentation_of_a_line_is_known_after_its_blanks() {
    let text = Text::new("  \ta\n b");
    let tabs = TabStops::Regular(4);
    let got: Vec<usize> = indents(&text.parts(), &tabs, 80, true).iter().map(|i| i.indent).collect();
    assert_eq!(got, vec![0, 1, 2, 4, 4, 0, 1]);
    let none: Vec<usize> = indents(&text.parts(), &tabs, 80, false).iter().map(|i| i.indent).collect();
    assert_eq!(none, vec![0; 7]);
    let narrow: Vec<usize> = indents(&text.parts(), &tabs, 3, true).iter().map(|i| i.indent).collect();
    assert_eq!(narrow, vec![0, 1, 2, 0, 0, 0, 1]);
}

#[test]
fn wrapped_lines_begin_at_the_indentation() {
    let text = Text::new("  abcdefgh\nij");
    let mut cfg = cfg_with(WrapMethod::Width);
    cfg.indent_wrap = true;
    let w = wrapped(&text.parts(), &cfg, 6);
    assert_eq!(wraps(&w), vec![(0, 0), (6, 2), (10, 2), (11, 0)]);
    assert_eq!(wrap_starts(&w), vec![0, 6, 10, 11]);
}

#[test]
fn lines_that_do_not_wrap_begin_at_line_feeds_only() {
    let text = Text::new("abcdefgh\nij");
    let cfg = cfg_with(WrapMethod::NoWrap);
    let w = wrapped(&text.parts(), &cfg, 3);
    assert_eq!(wraps(&w), vec![(0, 0), (9, 0)]);
    assert_eq!(duat::wrap::wrap_count(&text.parts(), &cfg, 3, 100), 0);
    assert_eq!(duat::wrap::char_at_wrap(&text.parts(), 5, &cfg, 3), Some(0));
}

#[test]
fn capped_lines_wrap_at_the_cap() {
    let text = Text::new("abcdefgh");
    let cfg = cfg_with(WrapMethod::Capped(4));
    let w = wrapped(&text.parts(), &cfg, 80);
    assert_eq!(wraps(&w), vec![(0, 0), (4, 0)]);
}

#[test]
fn a_word_longer_than_the_width_wraps_by_characters() {
    let text = Text::new("ab abcdefghij k");
    let mut cfg = cfg_with(WrapMethod::Word);
    cfg.word_chars = WordChars::new(vec![('a', 'z')]);
    let w = wrapped(&text.parts(), &cfg, 4);
    assert_eq!(wraps(&w), vec![(0, 0), (3, 0), (7, 0), (11, 0)]);
    let ind: Vec<Indented> = indents(&text.parts(), &cfg.tab_stops, 4, true);
    assert_eq!(words(&ind, 4, &cfg.tab_stops, &cfg.word_chars), w);
    let by_chars = bits(&ind, 4, &cfg.tab_stops, false);
    assert_eq!(wraps(&by_chars), vec![(0, 0), (4, 0), (8, 0), (12, 0)]);
}

#[test]
fn the_width_up_to_a_character_counts_from_its_visual_line() {
    let text = Text::new("abcdefgh");
    let cfg = cfg_with(WrapMethod::Width);
    let items = text.parts();
    assert_eq!(get_width(&items, &cfg, 3, 7, true), 1);
    assert_eq!(get_width(&items, &cfg, 3, 7, false), 7);
    assert_eq!(get_width(&items, &cfg, 3, usize::MAX, false), 8);
    assert_eq!(get_width(&items, &cfg, 3, 0, true), 0);
}

#[test]
fn the_column_at_a_distance_is_the_character_that_stands_there() {
    let cfg = PrintCfg::default();
    let items = Text::new("a\tb日c").parts();
    assert_eq!(col_at_dist(&items, 0, &cfg), 0);
    assert_eq!(col_at_dist(&items, 1, &cfg), 1);
    assert_eq!(col_at_dist(&items, 3, &cfg), 1);
    assert_eq!(col_at_dist(&items, 4, &cfg), 2);
    assert_eq!(col_at_dist(&items, 5, &cfg), 3);
    assert_eq!(col_at_dist(&items, 6, &cfg), 3);
    assert_eq!(col_at_dist(&items, 7, &cfg), 4);
    assert_eq!(col_at_dist(&items, 100, &cfg), 4);
    assert_eq!(col_at_dist(&Vec::<Item>::new(), 3, &cfg), 0);
}

#[test]
fn the_view_keeps_the_gap_to_both_edges() {
    let starts: Vec<usize> = (0..100).map(|i| i * 10).collect();
    // Going down: the cursor stands 3 lines above the last of 20 lines.
    let first = scroll_ver(&starts, 0, 0, 500, 3, 20);
    assert_eq!(first, 340);
    // Going down within the view changes nothing.
    assert_eq!(scroll_ver(&starts, 340, 500, 505, 3, 20), 340);
    assert_eq!(scroll_ver(&starts, 340, 500, 510, 3, 20), 350);
    // Going up: the cursor stands 3 lines below the first line.
    assert_eq!(scroll_ver(&starts, 340, 500, 360, 3, 20), 330);
    assert_eq!(scroll_ver(&starts, 340, 500, 20, 3, 20), 0);
    assert_eq!(scroll_ver(&starts, 340, 500, 500, 3, 20), 340);
    for (last, target) in [(0usize, 999usize), (999, 0), (500, 470), (470, 500), (10, 35)] {
        let mut first = scroll_ver(&starts, 0, 0, last, 3, 20);
        first = scroll_ver(&starts, first, last, target, 3, 20);
        let row = |c: usize| starts.iter().filter(|s| **s <= c).count();
        let rows = row(target) - row(first);
        assert!(rows >= 3 || first == 0, "{} rows above at {}", rows, target);
        assert!(rows <= 20 - 1 - 3, "{} rows above at {}", rows, target);
    }
    assert_eq!(row_back(&starts, 55, 3), Some(30));
    assert_eq!(row_back(&starts, 15, 5), Some(0));
    assert_eq!(row_back(&Vec::new(), 15, 5), None);
}

#[test]
fn the_text_shifts_sideways_as_little_as_the_gap_asks() {
    // The cursor stands at column 50 of a long line in an area of 20
    // columns.
    assert_eq!(scroll_hor(0, 50, 100, 20, 3, usize::MAX), 34);
    assert_eq!(scroll_hor(34, 50, 100, 20, 3, usize::MAX), 34);
    assert_eq!(scroll_hor(34, 36, 100, 20, 3, usize::MAX), 33);
    assert_eq!(scroll_hor(34, 0, 100, 20, 3, usize::MAX), 0);
    assert_eq!(scroll_hor(0, 18, 19, 20, 3, usize::MAX), 0);
    assert_eq!(scroll_hor(0, 50, 100, 20, 3, 10), 10);
    assert_eq!(max_x_shift(&WrapMethod::Width, 20), None);
    assert_eq!(max_x_shift(&WrapMethod::Word, 20), None);
    assert_eq!(max_x_shift(&WrapMethod::Capped(30), 20), Some(10));
    assert_eq!(max_x_shift(&WrapMethod::Capped(10), 20), None);
    assert_eq!(max_x_shift(&WrapMethod::NoWrap, 20), Some(usize::MAX));
}

#[test]
fn the_view_follows_the_cursor() {
    let text = Text::new(&"0123456789\n".repeat(50));
    let cfg = cfg_with(WrapMethod::Width);
    let mut info = PrintInfo::default();
    let target = text.point_at(11 * 30 + 4);
    info.update(target, &text, &cfg, 5, 10);
    // Each line takes three visual lines of an area 5 columns wide.
    assert_eq!(info.first_char(), 11 * 28);
    assert_eq!(info.x_shift(), 0);
    assert_eq!(info.last_main(), target);
    let before = info;
    info.update(target, &text, &cfg, 5, 10);
    assert_eq!(info, before);
    info.update(Pos { byte: 0, ch: 0, col: 0, row: 0 }, &text, &cfg, 5, 10);
    assert_eq!(info.first_char(), 0);
}

#[test]
fn printing_gives_the_commands_of_the_terminal() {
    let text = Text::new("ab\ncd");
    let cfg = cfg_with(WrapMethod::Width);
    let palette = Palette::new();
    let cmds = text.print(PrintInfo::default(), &cfg, area(4, 3), true, true, &palette);
    assert_eq!(cmds[0], Cmd::MoveTo(0, 0));
    assert_eq!(*cmds.last().unwrap(), Cmd::ResetColor);
    assert_eq!(printed(&cmds), "|    |ab  |cd  |    |");
    let plain = Form::plain();
    assert!(cmds.contains(&Cmd::SetStyle(plain)));
}

#[test]
fn printing_stops_where_the_area_is_full() {
    let text = Text::new("a\nb\nc\nd\ne");
    let cfg = cfg_with(WrapMethod::Width);
    let palette = Palette::new();
    let cmds = text.print(PrintInfo::default(), &cfg, area(3, 2), false, false, &palette);
    let shown: String = cmds
        .iter()
        .filter_map(|c| if let Cmd::Print(c) = c { Some(*c) } else { None })
        .collect();
    assert_eq!(shown, "a b ");
}

#[test]
fn the_main_cursor_shows_the_caret_of_an_active_area() {
    let mut text = Text::new("ab");
    text.insert_tag(1, duat::tags::Tag::MainCursor, duat::tags::Marker { id: 0 });
    let cfg = cfg_with(WrapMethod::Width);
    let palette = Palette::new();
    let active = text.print(PrintInfo::default(), &cfg, area(4, 1), true, true, &palette);
    assert!(active.contains(&Cmd::MoveTo(1, 0)));
    assert!(active.contains(&Cmd::ShowCursor));
    assert!(active.contains(&Cmd::SavePosition));
    let idle = text.print(PrintInfo::default(), &cfg, area(4, 1), false, true, &palette);
    assert!(!idle.contains(&Cmd::ShowCursor));
}

#[test]
fn a_shifted_text_is_clipped_at_both_sides() {
    let mut out = Vec::new();
    let tabs = TabStops::Regular(4);
    let coords = Coords { tl: Coord { x: 2, y: 0 }, br: Coord { x: 6, y: 1 } };
    // Before the start of what is shown: the part of a wide character
    // that reaches into the area is shown as a space.
    assert_eq!(print_char(Coord { x: 4, y: 0 }, '日', coords, 3, &tabs, &mut out), 2);
    assert_eq!(out, vec![Cmd::Spaces(1)]);
    out.clear();
    assert_eq!(print_char(Coord { x: 6, y: 0 }, 'a', coords, 3, &tabs, &mut out), 1);
    assert_eq!(out, vec![Cmd::Print('a')]);
    out.clear();
    assert_eq!(print_char(Coord { x: 8, y: 0 }, '日', coords, 3, &tabs, &mut out), 2);
    assert_eq!(out, vec![Cmd::Spaces(1)]);
    out.clear();
    assert_eq!(print_char(Coord { x: 9, y: 0 }, 'a', coords, 3, &tabs, &mut out), 1);
    assert_eq!(out, vec![]);
    clear_line(Coord { x: 4, y: 7 }, coords, 0, &mut out);
    assert_eq!(out, vec![Cmd::ResetColor, Cmd::Spaces(2), Cmd::MoveTo(2, 7)]);
}

#[test]
fn an_alignment_pads_the_visual_line() {
    assert_eq!(padding(Alignment::Left, 4, 10), 0);
    assert_eq!(padding(Alignment::Center, 4, 10), 3);
    assert_eq!(padding(Alignment::Right, 4, 10), 6);
    assert_eq!(padding(Alignment::Right, 14, 10), 0);
    let mut text = Text::new("ab\ncd");
    text.insert_tag(0, duat::tags::Tag::StartAlignRight, duat::tags::Marker { id: 0 });
    let cfg = cfg_with(WrapMethod::Width);
    let w = wrapped(&text.parts(), &cfg, 6);
    assert_eq!(measure_line(&w, 0, 0, &cfg.tab_stops), 3);
    let ctx = PrintCtx { coords: area(6, 2), x_shift: 0, is_active: false, hardware_caret: false };
    let cmds = print(&w, &ctx, &cfg, &Palette::new());
    assert_eq!(printed(&cmds), "|      |ab    |    cd|");
    let ind = indents(&text.parts(), &cfg.tab_stops, 6, true);
    let kept = keep_from(&ind, 3);
    assert_eq!(kept.len(), 3);
    assert_eq!(kept[0].item.part, Part::AlignRight);
}
