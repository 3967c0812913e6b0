use duat::cfg::PrintCfg;
use duat::cursor::Cursor;
use duat::edit::Mover;
use duat::search::{
    find_all_fwd, find_all_rev, patterns_ok, retry_fwd, retry_rev, search_range,
    without_patterns, Pattern, SearchError,
};
use duat::text::Text;

fn one(pat: &str) -> Vec<String> {
    vec![pat.to_string()]
}

fn triples(found: &[(duat::position::Pos, duat::position::Pos, usize)]) -> Vec<(usize, usize, usize)> {
    found.iter().map(|(s, e, which)| (s.true_byte(), e.true_byte(), *which)).collect()
}

fn bytes_of(found: &[(duat::position::Pos, duat::position::Pos)]) -> Vec<(usize, usize)> {
    found.iter().map(|(s, e)| (s.true_byte(), e.true_byte())).collect()
}

#[test]
fn a_forward_search_gives_the_matches_in_order() {
    let mut text = Text::new("xxabxxab\nab");
    let found = text.search_fwd("ab", 0, None).unwrap();
    assert_eq!(bytes_of(&found), vec![(2, 4), (6, 8), (9, 11)]);
    assert_eq!(found[2].0.true_row(), 1);
    assert_eq!(found[2].0.true_col(), 0);
    let found = text.search_fwd("ab", 3, Some(9)).unwrap();
    assert_eq!(bytes_of(&found), vec![(6, 8)]);
    let found = text.search_fwd("a+b?", 0, None).unwrap();
    assert_eq!(bytes_of(&found), vec![(2, 4), (6, 8), (9, 11)]);
    assert_eq!(text.search_fwd("zz", 0, None), Ok(vec![]));
    assert_eq!(text.search_fwd("ab", 9, Some(3)), Ok(vec![]));
    assert_eq!(text.contents(), "xxabxxab\nab");
}

#[test]
fn a_reverse_search_gives_the_matches_from_the_last() {
    let mut text = Text::new("xxabxxab\nab");
    let found = text.search_rev("ab", 11, None).unwrap();
    assert_eq!(bytes_of(&found), vec![(9, 11), (6, 8), (2, 4)]);
    let found = text.search_rev("ab", 8, Some(3)).unwrap();
    assert_eq!(bytes_of(&found), vec![(6, 8)]);
    let found = text.search_rev("x+", 100, None).unwrap();
    assert_eq!(bytes_of(&found), vec![(4, 6), (0, 2)]);
}

#[test]
fn a_pattern_that_is_no_regular_expression_is_an_error() {
    let mut text = Text::new("abc");
    assert_eq!(text.search_fwd("(", 0, None), Err(SearchError::PatternSyntax));
    assert_eq!(text.search_rev("a{2", 3, None), Err(SearchError::PatternSyntax));
    assert!(text.search_fwd("\\(", 0, None).is_ok());
}

#[test]
fn a_search_sees_the_text_across_the_gap() {
    let mut text = Text::new("hello world");
    text.replace_range(5, 6, "__".as_bytes());
    let found = text.search_fwd("o__w", 0, None).unwrap();
    assert_eq!(bytes_of(&found), vec![(4, 8)]);
    let found = text.search_fwd("é|l", 0, None).unwrap();
    assert_eq!(bytes_of(&found), vec![(2, 3), (3, 4), (10, 11)]);
}

#[test]
fn empty_matches_where_the_search_begins_are_passed_over() {
    // The empty match at the start is passed over; the later ones stay.
    assert_eq!(find_all_fwd(&one("a*"), "baab".as_bytes()), vec![(1, 3, 0), (4, 4, 0)]);
    assert_eq!(find_all_fwd(&one("x*"), "ab".as_bytes()), vec![(1, 1, 0), (2, 2, 0)]);
    assert_eq!(find_all_fwd(&one("a+"), "baab".as_bytes()), vec![(1, 3, 0)]);
    assert_eq!(find_all_rev(&one("a+"), "baab".as_bytes()), vec![(1, 3, 0)]);
    assert!(retry_fwd(Some(3), 3, 5));
    assert!(!retry_fwd(Some(3), 3, 3));
    assert!(!retry_fwd(Some(4), 3, 5));
    assert!(!retry_fwd(None, 3, 5));
    assert!(retry_rev(Some(3), 3));
    assert!(!retry_rev(Some(0), 0));
    assert!(!retry_rev(None, 3));
    assert_eq!(search_range(2, Some(9), 5), Some((2, 5)));
    assert_eq!(search_range(2, None, 5), Some((2, 5)));
    assert_eq!(search_range(7, None, 5), None);
}

#[test]
fn a_match_of_some_patterns_tells_which_one_it_was() {
    let pats = vec![String::from("ab"), String::from("[0-9]+"), String::from("b")];
    let mut text = Text::new("ab 12 b 3ab");
    let found = text.search_fwd_many(&pats, 0, None).unwrap();
    assert_eq!(triples(&found), vec![(0, 2, 0), (3, 5, 1), (6, 7, 2), (8, 9, 1), (9, 11, 0)]);
    let found = text.search_rev_many(&pats, 11, Some(3)).unwrap();
    assert_eq!(triples(&found), vec![(9, 11, 0), (8, 9, 1), (6, 7, 2), (3, 5, 1)]);
    let found = text.search_fwd_many(&pats, 4, Some(7)).unwrap();
    assert_eq!(triples(&found), vec![(4, 5, 1), (6, 7, 2)]);
    assert_eq!(text.search_fwd_many(&vec![], 0, None), Ok(vec![]));
    let bad = vec![String::from("ab"), String::from("(")];
    assert_eq!(text.search_fwd_many(&bad, 0, None), Err(SearchError::PatternSyntax));
    assert_eq!(text.search_rev_many(&bad, 3, None), Err(SearchError::PatternSyntax));
    assert!(patterns_ok(&pats));
    assert!(!patterns_ok(&bad));
    assert!(patterns_ok(&vec![]));
    assert_eq!(find_all_fwd(&pats, b"b1"), vec![(0, 1, 2), (1, 2, 1)]);
    assert_eq!(find_all_rev(&pats, b"b1"), vec![(1, 2, 1), (0, 1, 2)]);
}

#[test]
fn a_mover_searches_from_its_caret() {
    let cfg = PrintCfg::default();
    let mut text = Text::new("a.b a.b");
    let mover = Mover::new(Cursor::new(2, &text, &cfg));
    let found = mover.search(&mut text, &Pattern::One(String::from("a"))).unwrap();
    assert_eq!(triples(&found), vec![(4, 5, 0)]);
    let found = mover.search_rev(&mut text, &Pattern::One(String::from("a"))).unwrap();
    assert_eq!(triples(&found), vec![(0, 1, 0)]);
    // A character is the regular expression that it spells.
    let found = mover.search(&mut text, &Pattern::Char('b')).unwrap();
    assert_eq!(triples(&found), vec![(2, 3, 0), (6, 7, 0)]);
    let found = mover.search(&mut text, &Pattern::Char('.')).unwrap();
    assert_eq!(triples(&found), vec![(2, 3, 0), (3, 4, 0), (4, 5, 0), (5, 6, 0), (6, 7, 0)]);
    let set = Pattern::Many(vec![String::from("b"), String::from("\\.")]);
    let found = mover.search(&mut text, &set).unwrap();
    assert_eq!(triples(&found), vec![(2, 3, 0), (5, 6, 1), (6, 7, 0)]);
    let found = mover.search_rev(&mut text, &set).unwrap();
    assert_eq!(triples(&found), vec![(1, 2, 1)]);
    assert_eq!(
        mover.search(&mut text, &Pattern::Char('(')),
        Err(SearchError::PatternSyntax)
    );
    assert_eq!(set.patterns(), vec![String::from("b"), String::from("\\.")]);
    assert_eq!(Pattern::Char('é').patterns(), vec![String::from("é")]);
    assert_eq!(without_patterns(&found), vec![(found[0].0, found[0].1)]);
}
