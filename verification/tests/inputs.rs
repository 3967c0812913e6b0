use duat::cfg::PrintCfg;
use duat::file::File;
use duat::input::{
    action_of, get_ends, key_events, len_chars, Action, Bound, Commander, KeyCode, KeyEvent,
    KeyMod, Sent, ALT, CONTROL, META, SHIFT,
};
use duat::keys::{chars_of, is_word, str_to_keys};

fn plain(code: KeyCode) -> KeyEvent {
    KeyEvent::new(code, KeyMod::none())
}

fn held(code: KeyCode, bits: u8) -> KeyEvent {
    KeyEvent::new(code, KeyMod::none().with(bits))
}

fn typed(s: &str) -> Vec<KeyEvent> {
    s.chars().map(|c| plain(KeyCode::Char(c))).collect()
}

fn send_all(commander: &mut Commander, line: &mut File, keys: &[KeyEvent]) -> Vec<Sent> {
    keys.iter().map(|k| commander.send_key(*k, line)).collect()
}

#[test]
fn plain_characters_type_themselves() {
    assert_eq!(str_to_keys("ab"), typed("ab"));
    assert_eq!(str_to_keys("a>b"), typed("a>b"));
    assert_eq!(str_to_keys(""), vec![]);
    assert_eq!(str_to_keys("é "), typed("é "));
}

#[test]
fn names_between_brackets_are_keys() {
    assert_eq!(
        str_to_keys("<Enter>x<Del><F12><PageUp>"),
        vec![
            plain(KeyCode::Enter),
            plain(KeyCode::Char('x')),
            plain(KeyCode::Delete),
            plain(KeyCode::F(12)),
            plain(KeyCode::PageUp),
        ]
    );
    assert_eq!(
        str_to_keys("<Tab><Backspace><Esc><Up><Down><Left><Right>"),
        vec![
            plain(KeyCode::Tab),
            plain(KeyCode::Backspace),
            plain(KeyCode::Esc),
            plain(KeyCode::Up),
            plain(KeyCode::Down),
            plain(KeyCode::Left),
            plain(KeyCode::Right),
        ]
    );
    assert_eq!(
        str_to_keys("<PageDown><Home><End><Insert><F1><F9><F10>"),
        vec![
            plain(KeyCode::PageDown),
            plain(KeyCode::Home),
            plain(KeyCode::End),
            plain(KeyCode::Insert),
            plain(KeyCode::F(1)),
            plain(KeyCode::F(9)),
            plain(KeyCode::F(10)),
        ]
    );
    assert_eq!(str_to_keys("<a>"), vec![plain(KeyCode::Char('a'))]);
}

#[test]
fn letters_before_a_hyphen_are_modifiers() {
    assert_eq!(str_to_keys("<C-a>"), vec![held(KeyCode::Char('a'), CONTROL)]);
    assert_eq!(str_to_keys("<CA-Enter>"), vec![held(KeyCode::Enter, CONTROL | ALT)]);
    assert_eq!(str_to_keys("<S-A>"), vec![held(KeyCode::Char('A'), SHIFT)]);
    assert_eq!(str_to_keys("<M-Up>"), vec![held(KeyCode::Up, META)]);
    assert_eq!(
        str_to_keys("<MSAC-F5>"),
        vec![held(KeyCode::F(5), META | SHIFT | ALT | CONTROL)]
    );
    assert_eq!(str_to_keys("<C-a-b>"), vec![held(KeyCode::Char('a'), CONTROL)]);
    assert_eq!(str_to_keys("x<A-b>y"), vec![
        plain(KeyCode::Char('x')),
        held(KeyCode::Char('b'), ALT),
        plain(KeyCode::Char('y')),
    ]);
}

#[test]
fn what_names_no_key_types_its_characters() {
    // An uppercase letter is a key only with shift.
    assert_eq!(str_to_keys("<A>"), typed("<A>"));
    assert_eq!(str_to_keys("<C-A>"), typed("<C-A>"));
    assert_eq!(str_to_keys("<zz>"), typed("<zz>"));
    assert_eq!(str_to_keys("<C-zz>"), typed("<C-zz>"));
    assert_eq!(str_to_keys("<>"), typed("<>"));
    assert_eq!(str_to_keys("<C->"), typed("<C->"));
    // Letters that name no modifiers: what stands after the hyphen is lost.
    assert_eq!(str_to_keys("<X-a>"), typed("<X"));
    assert_eq!(str_to_keys("<CC-a>"), typed("<CC"));
    assert_eq!(str_to_keys("<-a>"), typed("<"));
    assert_eq!(str_to_keys("<X-a>b"), typed("<Xb"));
}

#[test]
fn what_is_left_open_is_left_out() {
    assert_eq!(str_to_keys("a<"), typed("a"));
    assert_eq!(str_to_keys("<Enter"), vec![]);
    assert_eq!(str_to_keys("<ab<cd>"), typed("<cd>"));
    assert_eq!(str_to_keys("<ab<Enter>x"), vec![plain(KeyCode::Enter), plain(KeyCode::Char('x'))]);
}

#[test]
fn words_are_compared_by_their_characters() {
    assert_eq!(chars_of("héllo"), vec!['h', 'é', 'l', 'l', 'o']);
    assert!(is_word(&chars_of("Enter"), "Enter"));
    assert!(!is_word(&chars_of("Enter"), "Ente"));
    assert!(!is_word(&chars_of("Enter"), "Entex"));
    assert!(is_word(&vec![], ""));
}

#[test]
fn a_string_gives_one_key_for_each_character() {
    assert_eq!(key_events("ab", KeyMod::none()), typed("ab"));
    assert_eq!(
        key_events("é", KeyMod::none().with(SHIFT)),
        vec![held(KeyCode::Char('é'), SHIFT)]
    );
    assert_eq!(key_events("", KeyMod::none()), vec![]);
}

#[test]
fn modifiers_are_a_set_of_bits() {
    let mods = KeyMod::none().with(CONTROL).with(ALT);
    assert!(mods.contains(CONTROL));
    assert!(mods.contains(ALT));
    assert!(mods.contains(CONTROL | ALT));
    assert!(!mods.contains(SHIFT));
    assert!(!mods.contains(CONTROL | SHIFT));
    assert!(!mods.is_empty());
    assert!(KeyMod::none().is_empty());
    assert_eq!(mods.bits, 6);
}

#[test]
fn characters_are_counted_on_the_bytes() {
    assert_eq!(len_chars(""), 0);
    assert_eq!(len_chars("hello"), 5);
    assert_eq!(len_chars("héllo"), 5);
    assert_eq!(len_chars("日本語\n"), 4);
    assert_eq!(len_chars("😀"), 1);
}

#[test]
fn the_ends_of_a_range_follow_its_bounds() {
    assert_eq!(get_ends(Bound::Included(2), Bound::Excluded(5), 10), (2, 5));
    assert_eq!(get_ends(Bound::Excluded(2), Bound::Included(5), 10), (3, 6));
    assert_eq!(get_ends(Bound::Unbounded, Bound::Unbounded, 10), (0, 10));
    assert_eq!(get_ends(Bound::Unbounded, Bound::Included(0), 10), (0, 1));
    assert_eq!(get_ends(Bound::Included(7), Bound::Unbounded, 0), (7, 0));
}

#[test]
fn each_key_has_its_action() {
    assert_eq!(action_of(plain(KeyCode::Backspace)), Action::EraseBefore);
    assert_eq!(action_of(plain(KeyCode::Delete)), Action::EraseAt);
    assert_eq!(action_of(plain(KeyCode::Char('x'))), Action::Type('x'));
    assert_eq!(action_of(held(KeyCode::Char('X'), SHIFT)), Action::Type('X'));
    assert_eq!(action_of(plain(KeyCode::Left)), Action::Move(-1));
    assert_eq!(action_of(plain(KeyCode::Right)), Action::Move(1));
    assert_eq!(action_of(plain(KeyCode::Esc)), Action::Abandon);
    assert_eq!(action_of(plain(KeyCode::Enter)), Action::Accept);
    assert_eq!(action_of(plain(KeyCode::Up)), Action::Ignore);
    assert_eq!(action_of(held(KeyCode::Char('x'), CONTROL)), Action::Ignore);
    assert_eq!(action_of(held(KeyCode::Enter, SHIFT)), Action::Ignore);
}

#[test]
fn a_command_line_takes_what_is_typed() {
    let mut line = File::new("", PrintCfg::default());
    let mut commander = Commander::new();
    assert!(!commander.active);
    let sent = send_all(&mut commander, &mut line, &typed("abc"));
    assert_eq!(sent, vec![Sent::Stay; 3]);
    assert!(commander.active);
    assert_eq!(line.text.contents(), "abc");
    assert_eq!(line.cursors.get_main().unwrap().caret.byte, 3);
    // To the left, and the character before the caret goes.
    send_all(&mut commander, &mut line, &[plain(KeyCode::Left), plain(KeyCode::Backspace)]);
    assert_eq!(line.text.contents(), "ac");
    assert_eq!(line.cursors.get_main().unwrap().caret.byte, 1);
    assert_eq!(line.cursors.get_main().unwrap().anchor, None);
    // The character at the caret goes.
    send_all(&mut commander, &mut line, &[plain(KeyCode::Delete)]);
    assert_eq!(line.text.contents(), "a");
    // At the end there is nothing to take.
    send_all(&mut commander, &mut line, &[plain(KeyCode::Delete)]);
    assert_eq!(line.text.contents(), "a");
    send_all(&mut commander, &mut line, &[plain(KeyCode::Left), plain(KeyCode::Backspace)]);
    assert_eq!(line.text.contents(), "a");
    send_all(&mut commander, &mut line, &[held(KeyCode::Char('É'), SHIFT)]);
    assert_eq!(line.text.contents(), "Éa");
    send_all(&mut commander, &mut line, &[plain(KeyCode::Right), plain(KeyCode::Char('!'))]);
    assert_eq!(line.text.contents(), "Éa!");
    // Keys that do nothing.
    let before = line.text.contents();
    let sent = send_all(
        &mut commander,
        &mut line,
        &[plain(KeyCode::Up), held(KeyCode::Char('q'), CONTROL), plain(KeyCode::F(3))],
    );
    assert_eq!(sent, vec![Sent::Stay; 3]);
    assert_eq!(line.text.contents(), before);
}

#[test]
fn enter_keeps_the_line_and_escape_takes_it_away() {
    let mut line = File::new("", PrintCfg::default());
    let mut commander = Commander::new();
    send_all(&mut commander, &mut line, &typed("quit"));
    assert_eq!(commander.send_key(plain(KeyCode::Enter), &mut line), Sent::ReturnToFile);
    assert!(!commander.active);
    assert_eq!(line.text.contents(), "quit");
    send_all(&mut commander, &mut line, &[plain(KeyCode::Left)]);
    assert!(commander.active);
    assert_eq!(commander.send_key(plain(KeyCode::Esc), &mut line), Sent::ReturnToFile);
    assert!(!commander.active);
    assert_eq!(line.text.contents(), "");
    assert_eq!(line.cursors.len(), 1);
}

#[test]
fn the_parts_of_a_key_press_can_be_done_alone() {
    let mut line = File::new("héllo", PrintCfg::default());
    Commander::move_caret(&mut line, 2);
    assert_eq!(line.cursors.get_main().unwrap().caret.byte, 3);
    Commander::type_char(&mut line, 'x');
    assert_eq!(line.text.contents(), "héxllo");
    Commander::erase(&mut line, -1);
    assert_eq!(line.text.contents(), "héllo");
    Commander::erase(&mut line, 1);
    assert_eq!(line.text.contents(), "hélo");
    Commander::abandon(&mut line);
    assert_eq!(line.text.contents(), "");
}
