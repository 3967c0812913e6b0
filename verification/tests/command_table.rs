use duat::commands::InnerFlags;
use duat::registry::{
    append_from, split_words, CmdError, Command, CommandTable, Resolved, MAX_HELD,
};
use duat::tags::{FormId, Tag};

fn strings(words: &[&str]) -> Vec<String> {
    words.iter().map(|w| w.to_string()).collect()
}

fn table() -> CommandTable {
    let mut table = CommandTable::new();
    assert!(matches!(table.try_add(Command::new(strings(&["write", "w"]))), Ok(1)));
    assert!(matches!(table.try_add(Command::new(strings(&["quit", "q"]))), Ok(2)));
    table
}

fn parts(r: Resolved) -> (usize, String, Vec<String>, Vec<String>) {
    let InnerFlags { blob, units } = r.flags;
    (r.command, blob, units, r.args)
}

#[test]
fn words_are_what_stands_between_blanks() {
    assert_eq!(split_words("  write  --force a\tb "), strings(&["write", "--force", "a", "b"]));
    assert_eq!(split_words(""), strings(&[]));
    assert_eq!(split_words(" \n\t "), strings(&[]));
    assert_eq!(split_words("one"), strings(&["one"]));
    assert_eq!(split_words("é\u{a0}ü"), strings(&["é", "ü"]));
}

#[test]
fn a_new_table_knows_the_alias_command() {
    let table = CommandTable::new();
    assert_eq!(table.list.len(), 1);
    assert_eq!(table.list[0].callers(), &strings(&["alias"]));
    assert_eq!(table.find("alias"), Some(0));
    assert_eq!(table.find("write"), None);
    assert!(table.caller_exists("alias"));
    assert!(!table.caller_exists("write"));
}

#[test]
fn a_caller_runs_one_command_only() {
    let mut table = table();
    assert_eq!(table.find("w"), Some(1));
    assert_eq!(table.find("quit"), Some(2));
    match table.try_add(Command::new(strings(&["wall", "w"]))) {
        Err(CmdError::CallerAlreadyExists(c)) => assert_eq!(c, "w"),
        other => panic!("{:?}", other),
    }
    match table.try_add(Command::new(strings(&["q", "alias"]))) {
        Err(CmdError::CallerAlreadyExists(c)) => assert_eq!(c, "alias"),
        other => panic!("{:?}", other),
    }
    assert_eq!(table.list.len(), 3);
    assert!(matches!(table.try_add(Command::new(strings(&["wall"]))), Ok(3)));
    assert!(matches!(table.try_add(Command::new(strings(&[]))), Ok(4)));
}

#[test]
fn a_caller_is_one_word() {
    assert!(Command::try_new(strings(&["write", "w"])).is_some());
    assert!(Command::try_new(strings(&["two words"])).is_none());
    assert!(Command::try_new(strings(&["w", ""])).is_none());
    assert!(Command::try_new(strings(&[])).is_some());
    assert_eq!(Command::try_new(strings(&[" w "])).unwrap().callers, strings(&[" w "]));
}

#[test]
fn an_alias_stands_for_a_call() {
    let mut table = table();
    assert!(matches!(table.try_alias("wq", "write --quit"), Ok(None)));
    assert!(table.caller_exists("wq"));
    assert_eq!(table.find_alias("wq"), Some(0));
    assert_eq!(table.find("wq"), None);
    match table.try_alias("wq", "w -f") {
        Ok(Some(prev)) => assert_eq!(prev, "write --quit"),
        other => panic!("{:?}", other),
    }
    assert_eq!(table.aliases.len(), 1);
    assert_eq!(table.aliases[0].command, 1);
    assert_eq!(table.aliases[0].call, "w -f");
    assert!(matches!(table.try_alias("x", "quit"), Ok(None)));
    assert_eq!(table.aliases.len(), 2);
    assert_eq!(table.aliases[1].command, 2);
}

#[test]
fn an_alias_that_cannot_be_made_is_an_error() {
    let mut table = table();
    match table.try_alias("a b", "write") {
        Err(CmdError::AliasNotSingleWord(a)) => assert_eq!(a, "a b"),
        other => panic!("{:?}", other),
    }
    assert!(matches!(table.try_alias("", "write"), Err(CmdError::AliasNotSingleWord(_))));
    assert!(matches!(table.try_alias("x", "  "), Err(CmdError::Empty)));
    match table.try_alias("x", "nothing here") {
        Err(CmdError::CallerNotFound(c)) => assert_eq!(c, "nothing"),
        other => panic!("{:?}", other),
    }
    // An alias is no caller of a command.
    assert!(matches!(table.try_alias("wq", "write"), Ok(None)));
    assert!(matches!(table.try_alias("y", "wq"), Err(CmdError::CallerNotFound(_))));
    assert_eq!(table.aliases.len(), 1);
}

#[test]
fn a_call_is_resolved_to_a_command_with_flags_and_arguments() {
    let mut table = table();
    let r = table.resolve("w -ab --long -b x --not -- y").unwrap();
    assert_eq!(
        parts(r),
        (1, String::from("ab"), strings(&["long"]), strings(&["x", "--not", "--", "y"]))
    );
    let r = table.resolve("  quit  ").unwrap();
    assert_eq!(parts(r), (2, String::new(), strings(&[]), strings(&[])));
    let r = table.resolve("quit -- -a").unwrap();
    assert_eq!(parts(r), (2, String::new(), strings(&[]), strings(&["--", "-a"])));
    table.try_alias("wf", "write -f out.txt").unwrap();
    let r = table.resolve("wf more --and").unwrap();
    assert_eq!(
        parts(r),
        (1, String::from("f"), strings(&[]), strings(&["out.txt", "more", "--and"]))
    );
    table.try_alias("wa", "write -f").unwrap();
    let r = table.resolve("wa --all x").unwrap();
    assert_eq!(parts(r), (1, String::from("f"), strings(&["all"]), strings(&["x"])));
}

#[test]
fn a_call_that_cannot_be_resolved_is_an_error() {
    let table = table();
    assert!(matches!(table.resolve(""), Err(CmdError::Empty)));
    assert!(matches!(table.resolve(" \t"), Err(CmdError::Empty)));
    match table.resolve("edit file") {
        Err(CmdError::CallerNotFound(c)) => assert_eq!(c, "edit"),
        other => panic!("{:?}", other.map(parts)),
    }
}

#[test]
fn an_error_has_a_message() {
    let plain = FormId { id: 20 };
    let accent = FormId { id: 21 };
    let text = CmdError::CallerNotFound(String::from("edit")).into_text(plain, accent);
    assert_eq!(text.contents(), "The caller edit was not found.");
    let tags: Vec<(usize, Tag)> = text.tags.entries.iter().map(|e| (e.offset, e.tag)).collect();
    assert_eq!(
        tags,
        vec![
            (0, Tag::PushForm(plain)),
            (11, Tag::PopForm(plain)),
            (11, Tag::PushForm(accent)),
            (15, Tag::PopForm(accent)),
            (15, Tag::PushForm(plain)),
            (30, Tag::PopForm(plain)),
        ]
    );
    let text = CmdError::AliasNotSingleWord(String::from("a b")).into_text(plain, accent);
    assert_eq!(text.contents(), "The caller a b is not a single word.");
    let text = CmdError::CallerAlreadyExists(String::from("w")).into_text(plain, accent);
    assert_eq!(text.contents(), "The caller w already exists.");
    let text = CmdError::CommandFailed(String::from("No such file.")).into_text(plain, accent);
    assert_eq!(text.contents(), "No such file.");
    let text = CmdError::Empty.into_text(plain, accent);
    assert_eq!(text.contents(), "The command is empty.");
    assert!(MAX_HELD > 1 << 29);
}

#[test]
fn strings_are_added_from_an_index_on() {
    let mut out = strings(&["a"]);
    append_from(&mut out, &strings(&["b", "c", "d"]), 1);
    assert_eq!(out, strings(&["a", "c", "d"]));
    append_from(&mut out, &strings(&["b"]), 1);
    assert_eq!(out, strings(&["a", "c", "d"]));
}
