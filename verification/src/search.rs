//! Searching a text for the matches of a regular expression, forwards and
//! backwards.

use crate::commands::views_of;
use crate::edit::Mover;
use crate::input::char_to_string;
use crate::position::Pos;
use crate::registry::append_from;
use crate::text::{point_of, Text};
use regex_automata::hybrid::dfa::DFA;
use regex_automata::nfa::thompson::Config;
use regex_automata::{Anchored, Input};
use vstd::prelude::*;

verus! {

/// Why a search could not be made.
#[derive(Clone, Copy, Debug, PartialEq, Eq, Structural)]
pub enum SearchError {
    /// The pattern is not a regular expression.
    PatternSyntax,
}

/// The named result of `regex_syntax::Parser::parse`: whether a pattern
/// is a regular expression.
pub uninterp spec fn pattern_parses(pat: Seq<char>) -> bool;

/// The named result of a forward search of the lazy DFA of some
/// patterns in `hay[start..end]`: the offset at which the leftmost match
/// ends.
pub uninterp spec fn fwd_find_end(pats: Seq<Seq<char>>, hay: Seq<u8>, start: int, end: int) -> Option<
    int,
>;

/// The named result of an anchored forward search of the lazy DFA of
/// some patterns in `hay[start..end]`: the offset at which the match that
/// begins at `start` ends, and the index of the pattern that matched.
pub uninterp spec fn fwd_anchored_end(pats: Seq<Seq<char>>, hay: Seq<u8>, start: int, end: int) -> Option<
    (int, int),
>;

/// The named result of a reverse search of the reversed lazy DFA of some
/// patterns in `hay[start..end]`: the offset at which the rightmost match
/// begins.
pub uninterp spec fn rev_find_start(pats: Seq<Seq<char>>, hay: Seq<u8>, start: int, end: int) -> Option<
    int,
>;

/// The named result of an anchored reverse search of the reversed lazy
/// DFA of some patterns in `hay[start..end]`: the offset at which the
/// match that ends at `end` begins, and the index of the pattern that
/// matched.
pub uninterp spec fn rev_anchored_start(pats: Seq<Seq<char>>, hay: Seq<u8>, start: int, end: int) -> Option<
    (int, int),
>;

/// `regex_syntax::Parser::parse`, of which only the success is kept.
#[verifier::external_body]
pub(crate) fn syntax_ok(pat: &str) -> (r: bool)
    ensures
        r == pattern_parses(pat@),
{
    regex_syntax::Parser::new().parse(pat).is_ok()
}

/// `DFA::try_search_fwd` on the lazy DFA that `Builder::build_many`
/// builds for the patterns, without UTF-8 mode, with a fresh cache. A
/// half match ends within the span that was searched. A DFA that cannot
/// be built and a search that gives up count as no match.
#[verifier::external_body]
pub(crate) fn fwd_find(pats: &Vec<String>, hay: &[u8], start: usize, end: usize) -> (r: Option<
    usize,
>)
    requires
        start <= end <= hay@.len(),
    ensures
        fwd_find_end(views_of(pats@), hay@, start as int, end as int) == match r {
            Some(v) => Some(v as int),
            None => None,
        },
        r is Some ==> start <= r.unwrap() <= end,
{
    let dfa = DFA::builder().thompson(Config::new().utf8(false)).build_many(pats.as_slice()).ok()?;
    let input = Input::new(hay).range(start..end).anchored(Anchored::No);
    match dfa.try_search_fwd(&mut dfa.create_cache(), &input) {
        Ok(Some(half)) => Some(half.offset()),
        _ => None,
    }
}

/// `DFA::try_search_fwd` as in `fwd_find`, anchored at the start of the
/// span, with `HalfMatch::pattern` beside the offset. The index of a
/// pattern is that of one of the patterns.
#[verifier::external_body]
pub(crate) fn fwd_anchored(pats: &Vec<String>, hay: &[u8], start: usize, end: usize) -> (r: Option<
    (usize, usize),
>)
    requires
        start <= end <= hay@.len(),
    ensures
        fwd_anchored_end(views_of(pats@), hay@, start as int, end as int) == match r {
            Some(v) => Some((v.0 as int, v.1 as int)),
            None => None,
        },
        r is Some ==> start <= r.unwrap().0 <= end && r.unwrap().1 < pats@.len(),
{
    let dfa = DFA::builder().thompson(Config::new().utf8(false)).build_many(pats.as_slice()).ok()?;
    let input = Input::new(hay).range(start..end).anchored(Anchored::Yes);
    match dfa.try_search_fwd(&mut dfa.create_cache(), &input) {
        Ok(Some(half)) => Some((half.offset(), half.pattern().as_usize())),
        _ => None,
    }
}

/// `DFA::try_search_rev` on the lazy DFA that `Builder::build_many`
/// builds for the reversed patterns, without UTF-8 mode, with a fresh
/// cache. A half match begins within the span that was searched. A DFA
/// that cannot be built and a search that gives up count as no match.
#[verifier::external_body]
pub(crate) fn rev_find(pats: &Vec<String>, hay: &[u8], start: usize, end: usize) -> (r: Option<
    usize,
>)
    requires
        start <= end <= hay@.len(),
    ensures
        rev_find_start(views_of(pats@), hay@, start as int, end as int) == match r {
            Some(v) => Some(v as int),
            None => None,
        },
        r is Some ==> start <= r.unwrap() <= end,
{
    let config = Config::new().reverse(true).utf8(false);
    let dfa = DFA::builder().thompson(config).build_many(pats.as_slice()).ok()?;
    let input = Input::new(hay).range(start..end).anchored(Anchored::No);
    match dfa.try_search_rev(&mut dfa.create_cache(), &input) {
        Ok(Some(half)) => Some(half.offset()),
        _ => None,
    }
}

/// `DFA::try_search_rev` as in `rev_find`, anchored at the end of the
/// span, with `HalfMatch::pattern` beside the offset. The index of a
/// pattern is that of one of the patterns.
#[verifier::external_body]
pub(crate) fn rev_anchored(pats: &Vec<String>, hay: &[u8], start: usize, end: usize) -> (r: Option<
    (usize, usize),
>)
    requires
        start <= end <= hay@.len(),
    ensures
        rev_anchored_start(views_of(pats@), hay@, start as int, end as int) == match r {
            Some(v) => Some((v.0 as int, v.1 as int)),
            None => None,
        },
        r is Some ==> start <= r.unwrap().0 <= end && r.unwrap().1 < pats@.len(),
{
    let config = Config::new().reverse(true).utf8(false);
    let dfa = DFA::builder().thompson(config).build_many(pats.as_slice()).ok()?;
    let input = Input::new(hay).range(start..end).anchored(Anchored::Yes);
    match dfa.try_search_rev(&mut dfa.create_cache(), &input) {
        Ok(Some(half)) => Some((half.offset(), half.pattern().as_usize())),
        _ => None,
    }
}

/// Whether a forward search that began at `init` has to be made again one
/// byte further on: it found an empty match right where it began, and the
/// text goes on.
pub open spec fn spec_retry_fwd(first: Option<usize>, init: usize, len: usize) -> bool {
    first == Some(init) && init < len
}

/// Whether a forward search that began at `init` has to be made again one
/// byte further on.
pub fn retry_fwd(first: Option<usize>, init: usize, len: usize) -> (r: bool)
    ensures
        r == spec_retry_fwd(first, init, len),
{
    match first {
        Some(e) => e == init && init < len,
        None => false,
    }
}

/// Whether a reverse search that began at `init` has to be made again one
/// byte before: it found an empty match right where it began, and the
/// text goes on before it.
pub open spec fn spec_retry_rev(first: Option<usize>, init: usize) -> bool {
    first == Some(init) && init > 0
}

/// Whether a reverse search that began at `init` has to be made again one
/// byte before.
pub fn retry_rev(first: Option<usize>, init: usize) -> (r: bool)
    ensures
        r == spec_retry_rev(first, init),
{
    match first {
        Some(s) => s == init && init > 0,
        None => false,
    }
}

/// The end of the next match from `init` on: the end of the leftmost
/// match, looked for again one byte further on where it is empty and right
/// at `init`. No match is left where that one is empty at `init` too.
pub open spec fn next_end(pats: Seq<Seq<char>>, hay: Seq<u8>, init: int) -> Option<int> {
    let first = fwd_find_end(pats, hay, init, hay.len() as int);
    let e = if first == Some(init) && init < hay.len() {
        fwd_find_end(pats, hay, init + 1, hay.len() as int)
    } else {
        first
    };
    match e {
        Some(end) => if init < end <= hay.len() {
            Some(end)
        } else {
            None
        },
        None => None,
    }
}

/// The matches of some patterns in `hay` from `init` on, each from the
/// start that the anchored reverse search gives to its end, with the
/// index of the pattern that matched, one after the other.
pub open spec fn matches_fwd(pats: Seq<Seq<char>>, hay: Seq<u8>, init: int) -> Seq<(int, int, int)>
    decreases hay.len() - init,
{
    match next_end(pats, hay, init) {
        Some(end) => match rev_anchored_start(pats, hay, 0, end) {
            Some(found) => seq![(found.0, end, found.1)] + matches_fwd(pats, hay, end),
            None => Seq::empty(),
        },
        None => Seq::empty(),
    }
}

/// The start of the next match before `init`: the start of the rightmost
/// match, looked for again one byte before where it is empty and right
/// at `init`.
pub open spec fn next_start(pats: Seq<Seq<char>>, hay: Seq<u8>, init: int) -> Option<int> {
    let first = rev_find_start(pats, hay, 0, init);
    let s = if first == Some(init) && init > 0 {
        rev_find_start(pats, hay, 0, init - 1)
    } else {
        first
    };
    match s {
        Some(start) => if 0 <= start < init {
            Some(start)
        } else {
            None
        },
        None => None,
    }
}

/// The matches of some patterns in `hay` before `init`, from the last to
/// the first, each from its start to the end that the anchored forward
/// search gives, with the index of the pattern that matched.
pub open spec fn matches_rev(pats: Seq<Seq<char>>, hay: Seq<u8>, init: int) -> Seq<(int, int, int)>
    decreases init,
{
    match next_start(pats, hay, init) {
        Some(start) => match fwd_anchored_end(pats, hay, start, hay.len() as int) {
            Some(found) => seq![(start, found.0, found.1)] + matches_rev(pats, hay, start),
            None => Seq::empty(),
        },
        None => Seq::empty(),
    }
}

/// The positions of a match in `bytes`, where the match was found in the
/// bytes from `gap` on.
pub open spec fn match_points(bytes: Seq<u8>, gap: int, m: (int, int, int)) -> (Pos, Pos, usize) {
    (point_of(bytes, gap + m.0), point_of(bytes, gap + m.1), m.2 as usize)
}

/// A match in numbers of the machine as specifications count it.
pub open spec fn as_ints(m: (usize, usize, usize)) -> (int, int, int) {
    (m.0 as int, m.1 as int, m.2 as int)
}

/// Nothing more is found: what was found so far is all.
proof fn lemma_no_more(out: Seq<(usize, usize, usize)>)
    ensures
        out.map_values(|m: (usize, usize, usize)| as_ints(m)) + Seq::<(int, int, int)>::empty()
            == out.map_values(|m: (usize, usize, usize)| as_ints(m)),
{
    assert(out.map_values(|m: (usize, usize, usize)| as_ints(m)) + Seq::<(int, int, int)>::empty()
        =~= out.map_values(|m: (usize, usize, usize)| as_ints(m)));
}

/// One more match was found: it comes after what was found so far.
proof fn lemma_one_more(
    before: Seq<(usize, usize, usize)>,
    m: (usize, usize, usize),
    rest: Seq<(int, int, int)>,
)
    ensures
        before.map_values(|m: (usize, usize, usize)| as_ints(m)) + (seq![as_ints(m)] + rest)
            == before.push(m).map_values(|m: (usize, usize, usize)| as_ints(m)) + rest,
{
    assert(before.push(m).map_values(|m: (usize, usize, usize)| as_ints(m)) =~= before.map_values(
        |m: (usize, usize, usize)| as_ints(m),
    ).push(as_ints(m)));
    assert(before.map_values(|m: (usize, usize, usize)| as_ints(m)) + (seq![as_ints(m)] + rest)
        =~= before.push(m).map_values(|m: (usize, usize, usize)| as_ints(m)) + rest);
}

/// The matches of the patterns in `hay`, forwards from its start: for
/// each its start, its end, and the index of the pattern that matched.
pub fn find_all_fwd(pats: &Vec<String>, hay: &[u8]) -> (r: Vec<(usize, usize, usize)>)
    ensures
        r@.map_values(|m: (usize, usize, usize)| as_ints(m)) == matches_fwd(
            views_of(pats@),
            hay@,
            0,
        ),
        forall|i: int|
            0 <= i < r@.len() ==> (#[trigger] r@[i]).0 <= r@[i].1 <= hay@.len() && r@[i].2
                < pats@.len(),
{
    let len = hay.len();
    let mut out: Vec<(usize, usize, usize)> = Vec::new();
    let mut init: usize = 0;
    proof {
        assert(out@.map_values(|m: (usize, usize, usize)| as_ints(m)) + matches_fwd(
            views_of(pats@),
            hay@,
            0,
        ) =~= matches_fwd(views_of(pats@), hay@, 0));
    }
    loop
        invariant
            init <= len == hay@.len(),
            out@.map_values(|m: (usize, usize, usize)| as_ints(m)) + matches_fwd(
                views_of(pats@),
                hay@,
                init as int,
            ) == matches_fwd(views_of(pats@), hay@, 0),
            forall|i: int|
                0 <= i < out@.len() ==> (#[trigger] out@[i]).0 <= out@[i].1 <= hay@.len()
                    && out@[i].2 < pats@.len(),
        decreases len - init,
    {
        let first = fwd_find(pats, hay, init, len);
        let found = if retry_fwd(first, init, len) {
            fwd_find(pats, hay, init + 1, len)
        } else {
            first
        };
        let end = match found {
            Some(end) => {
                if init < end {
                    end
                } else {
                    proof {
                        lemma_no_more(out@);
                    }
                    return out;
                }
            },
            None => {
                proof {
                    lemma_no_more(out@);
                }
                return out;
            },
        };
        match rev_anchored(pats, hay, 0, end) {
            Some((start, which)) => {
                proof {
                    let rest = matches_fwd(views_of(pats@), hay@, end as int);
                    assert(next_end(views_of(pats@), hay@, init as int) == Some(end as int));
                    assert(matches_fwd(views_of(pats@), hay@, init as int) == seq![
                        as_ints((start, end, which)),
                    ] + rest);
                    lemma_one_more(out@, (start, end, which), rest);
                }
                out.push((start, end, which));
                init = end;
            },
            None => {
                proof {
                    lemma_no_more(out@);
                }
                return out;
            },
        }
    }
}

/// The matches of the patterns in `hay`, backwards from its end: for each
/// its start, its end, and the index of the pattern that matched.
pub fn find_all_rev(pats: &Vec<String>, hay: &[u8]) -> (r: Vec<(usize, usize, usize)>)
    ensures
        r@.map_values(|m: (usize, usize, usize)| as_ints(m)) == matches_rev(
            views_of(pats@),
            hay@,
            hay@.len() as int,
        ),
        forall|i: int|
            0 <= i < r@.len() ==> (#[trigger] r@[i]).0 <= r@[i].1 <= hay@.len() && r@[i].2
                < pats@.len(),
{
    let len = hay.len();
    let mut out: Vec<(usize, usize, usize)> = Vec::new();
    let mut init: usize = len;
    proof {
        assert(out@.map_values(|m: (usize, usize, usize)| as_ints(m)) + matches_rev(
            views_of(pats@),
            hay@,
            len as int,
        ) =~= matches_rev(views_of(pats@), hay@, len as int));
    }
    loop
        invariant
            init <= len == hay@.len(),
            out@.map_values(|m: (usize, usize, usize)| as_ints(m)) + matches_rev(
                views_of(pats@),
                hay@,
                init as int,
            ) == matches_rev(views_of(pats@), hay@, len as int),
            forall|i: int|
                0 <= i < out@.len() ==> (#[trigger] out@[i]).0 <= out@[i].1 <= hay@.len()
                    && out@[i].2 < pats@.len(),
        decreases init,
    {
        let first = rev_find(pats, hay, 0, init);
        let found = if retry_rev(first, init) {
            rev_find(pats, hay, 0, init - 1)
        } else {
            first
        };
        let start = match found {
            Some(start) => {
                if start < init {
                    start
                } else {
                    proof {
                        lemma_no_more(out@);
                    }
                    return out;
                }
            },
            None => {
                proof {
                    lemma_no_more(out@);
                }
                return out;
            },
        };
        match fwd_anchored(pats, hay, start, len) {
            Some((end, which)) => {
                proof {
                    let rest = matches_rev(views_of(pats@), hay@, start as int);
                    assert(next_start(views_of(pats@), hay@, init as int) == Some(start as int));
                    assert(matches_rev(views_of(pats@), hay@, init as int) == seq![
                        as_ints((start, end, which)),
                    ] + rest);
                    lemma_one_more(out@, (start, end, which), rest);
                }
                out.push((start, end, which));
                init = start;
            },
            None => {
                proof {
                    lemma_no_more(out@);
                }
                return out;
            },
        }
    }
}

/// The bounds of a search in a text of `len` bytes: from `at` to `end`,
/// or to the end of the text, both kept within the text; `None` where
/// the range is upside down.
pub open spec fn spec_search_range(at: usize, end: Option<usize>, len: usize) -> Option<(usize, usize)> {
    let e = match end {
        Some(e) => if e < len {
            e
        } else {
            len
        },
        None => len,
    };
    if at <= e {
        Some((at, e))
    } else {
        None
    }
}

/// The bounds of a search in a text of `len` bytes.
pub fn search_range(at: usize, end: Option<usize>, len: usize) -> (r: Option<(usize, usize)>)
    ensures
        r == spec_search_range(at, end, len),
{
    let e = match end {
        Some(e) => {
            if e < len {
                e
            } else {
                len
            }
        },
        None => len,
    };
    if at <= e {
        Some((at, e))
    } else {
        None
    }
}

/// Whether every pattern is a regular expression.
pub open spec fn all_parse(pats: Seq<Seq<char>>) -> bool {
    forall|i: int| 0 <= i < pats.len() ==> pattern_parses(#[trigger] pats[i])
}

/// Whether every pattern is a regular expression.
pub fn patterns_ok(pats: &Vec<String>) -> (r: bool)
    ensures
        r == all_parse(views_of(pats@)),
{
    let mut i: usize = 0;
    while i < pats.len()
        invariant
            i <= pats@.len(),
            forall|k: int| 0 <= k < i ==> pattern_parses(#[trigger] views_of(pats@)[k]),
        decreases pats.len() - i,
    {
        if !syntax_ok(pats[i].as_str()) {
            assert(views_of(pats@)[i as int] == pats@[i as int]@);
            return false;
        }
        assert(views_of(pats@)[i as int] == pats@[i as int]@);
        i += 1;
    }
    true
}

/// The matches without the indices of their patterns.
pub open spec fn pairs_of(found: Seq<(Pos, Pos, usize)>) -> Seq<(Pos, Pos)> {
    found.map_values(|m: (Pos, Pos, usize)| (m.0, m.1))
}

/// The matches without the indices of their patterns.
pub fn without_patterns(found: &Vec<(Pos, Pos, usize)>) -> (r: Vec<(Pos, Pos)>)
    ensures
        r@ == pairs_of(found@),
{
    let mut out: Vec<(Pos, Pos)> = Vec::new();
    let mut i: usize = 0;
    while i < found.len()
        invariant
            i <= found@.len(),
            out@.len() == i,
            forall|k: int| 0 <= k < i ==> #[trigger] out@[k] == (found@[k].0, found@[k].1),
        decreases found.len() - i,
    {
        out.push((found[i].0, found[i].1));
        i += 1;
    }
    assert(out@ =~= pairs_of(found@));
    out
}

/// The one pattern of a search for a single pattern.
fn one_pattern(pat: &str) -> (r: Vec<String>)
    ensures
        views_of(r@) == seq![pat@],
{
    let mut pats: Vec<String> = Vec::new();
    pats.push(String::from_str(pat));
    assert(views_of(pats@) =~= seq![pat@]);
    pats
}

impl Text {
    /// The matches that a forward search of the bytes `range.0..range.1`
    /// gives, as positions of the text.
    pub open spec fn spec_found_fwd(&self, pats: Seq<Seq<char>>, range: (usize, usize)) -> Seq<
        (Pos, Pos, usize),
    > {
        matches_fwd(pats, self.bytes().subrange(range.0 as int, range.1 as int), 0).map_values(
            |m: (int, int, int)| match_points(self.bytes(), range.0 as int, m),
        )
    }

    /// The matches that a reverse search of the bytes `range.0..range.1`
    /// gives, as positions of the text.
    pub open spec fn spec_found_rev(&self, pats: Seq<Seq<char>>, range: (usize, usize)) -> Seq<
        (Pos, Pos, usize),
    > {
        let hay = self.bytes().subrange(range.0 as int, range.1 as int);
        matches_rev(pats, hay, hay.len() as int).map_values(
            |m: (int, int, int)| match_points(self.bytes(), range.0 as int, m),
        )
    }

    /// The positions of `found`, matches in the bytes from `gap` on.
    fn points_of(&self, found: &Vec<(usize, usize, usize)>, gap: usize, end: usize) -> (r: Vec<
        (Pos, Pos, usize),
    >)
        requires
            self.bytes().len() <= crate::buffer::MAX_LEN,
            gap <= end <= self.bytes().len(),
            forall|i: int| 0 <= i < found@.len() ==> (#[trigger] found@[i]).0 <= found@[i].1 <= end - gap,
        ensures
            r@ == found@.map_values(|m: (usize, usize, usize)| as_ints(m)).map_values(
                |m: (int, int, int)| match_points(self.bytes(), gap as int, m),
            ),
    {
        let mut out: Vec<(Pos, Pos, usize)> = Vec::new();
        let mut i: usize = 0;
        while i < found.len()
            invariant
                i <= found@.len(),
                gap <= end <= self.bytes().len() <= crate::buffer::MAX_LEN,
                forall|i: int|
                    0 <= i < found@.len() ==> (#[trigger] found@[i]).0 <= found@[i].1 <= end - gap,
                out@.len() == i,
                forall|k: int|
                    0 <= k < i ==> #[trigger] out@[k] == match_points(
                        self.bytes(),
                        gap as int,
                        as_ints(found@[k]),
                    ),
            decreases found.len() - i,
        {
            let (s, e, which) = found[i];
            out.push((self.point_at(gap + s), self.point_at(gap + e), which));
            i += 1;
        }
        proof {
            assert(out@ =~= found@.map_values(|m: (usize, usize, usize)| as_ints(m)).map_values(
                |m: (int, int, int)| match_points(self.bytes(), gap as int, m),
            ));
        }
        out
    }

    /// Searches forwards from the offset `at`, up to the offset `end` or
    /// the end of the text, for the matches of some patterns: one after
    /// the other, each as the positions of its start and its end and the
    /// index of the pattern that matched. A pattern that is no regular
    /// expression is an error.
    pub fn search_fwd_many(&mut self, pats: &Vec<String>, at: usize, end: Option<usize>) -> (r:
        Result<Vec<(Pos, Pos, usize)>, SearchError>)
        requires
            old(self).bytes().len() <= crate::buffer::MAX_LEN,
        ensures
            final(self).bytes() == old(self).bytes(),
            final(self).tags == old(self).tags,
            final(self).marker == old(self).marker,
            final(self).ghosts == old(self).ghosts,
            r is Err <==> !all_parse(views_of(pats@)),
            r is Err ==> r == Err::<Vec<(Pos, Pos, usize)>, SearchError>(
                SearchError::PatternSyntax,
            ),
            r is Ok ==> r.unwrap()@ == match spec_search_range(
                at,
                end,
                old(self).bytes().len() as usize,
            ) {
                Some(range) => old(self).spec_found_fwd(views_of(pats@), range),
                None => Seq::empty(),
            },
    {
        if !patterns_ok(pats) {
            return Err(SearchError::PatternSyntax);
        }
        let len = self.len_bytes();
        match search_range(at, end, len) {
            Some((a, e)) => {
                self.make_contiguous_in(a, e);
                let hay = self.continuous_in(a, e);
                let found = find_all_fwd(pats, hay);
                Ok(self.points_of(&found, a, e))
            },
            None => Ok(Vec::new()),
        }
    }

    /// Searches backwards from the offset `at`, down to the offset
    /// `start` or the start of the text, for the matches of some
    /// patterns: the last one first, each as the positions of its start
    /// and its end and the index of the pattern that matched. A pattern
    /// that is no regular expression is an error.
    pub fn search_rev_many(&mut self, pats: &Vec<String>, at: usize, start: Option<usize>) -> (r:
        Result<Vec<(Pos, Pos, usize)>, SearchError>)
        requires
            old(self).bytes().len() <= crate::buffer::MAX_LEN,
        ensures
            final(self).bytes() == old(self).bytes(),
            final(self).tags == old(self).tags,
            final(self).marker == old(self).marker,
            final(self).ghosts == old(self).ghosts,
            r is Err <==> !all_parse(views_of(pats@)),
            r is Err ==> r == Err::<Vec<(Pos, Pos, usize)>, SearchError>(
                SearchError::PatternSyntax,
            ),
            r is Ok ==> r.unwrap()@ == match spec_search_range(
                match start {
                    Some(s) => s,
                    None => 0,
                },
                Some(at),
                old(self).bytes().len() as usize,
            ) {
                Some(range) => old(self).spec_found_rev(views_of(pats@), range),
                None => Seq::empty(),
            },
    {
        if !patterns_ok(pats) {
            return Err(SearchError::PatternSyntax);
        }
        let len = self.len_bytes();
        let s = match start {
            Some(s) => s,
            None => 0,
        };
        match search_range(s, Some(at), len) {
            Some((a, e)) => {
                self.make_contiguous_in(a, e);
                let hay = self.continuous_in(a, e);
                let found = find_all_rev(pats, hay);
                Ok(self.points_of(&found, a, e))
            },
            None => Ok(Vec::new()),
        }
    }

    /// Searches forwards from the offset `at`, up to the offset `end` or
    /// the end of the text: the matches of the pattern, one after the
    /// other, each as the positions of its start and its end. A pattern
    /// that is no regular expression is an error.
    pub fn search_fwd(&mut self, pat: &str, at: usize, end: Option<usize>) -> (r: Result<
        Vec<(Pos, Pos)>,
        SearchError,
    >)
        requires
            old(self).bytes().len() <= crate::buffer::MAX_LEN,
        ensures
            final(self).bytes() == old(self).bytes(),
            final(self).tags == old(self).tags,
            final(self).marker == old(self).marker,
            final(self).ghosts == old(self).ghosts,
            r is Err <==> !pattern_parses(pat@),
            r is Err ==> r == Err::<Vec<(Pos, Pos)>, SearchError>(SearchError::PatternSyntax),
            r is Ok ==> r.unwrap()@ == match spec_search_range(
                at,
                end,
                old(self).bytes().len() as usize,
            ) {
                Some(range) => pairs_of(old(self).spec_found_fwd(seq![pat@], range)),
                None => Seq::empty(),
            },
    {
        let pats = one_pattern(pat);
        proof {
            assert(all_parse(seq![pat@]) == pattern_parses(pat@)) by {
                assert(seq![pat@][0] == pat@);
            }
        }
        match self.search_fwd_many(&pats, at, end) {
            Ok(found) => {
                let r = without_patterns(&found);
                proof {
                    assert(pairs_of(Seq::<(Pos, Pos, usize)>::empty()) =~= Seq::<
                        (Pos, Pos),
                    >::empty());
                }
                Ok(r)
            },
            Err(e) => Err(e),
        }
    }

    /// Searches backwards from the offset `at`, down to the offset
    /// `start` or the start of the text: the matches of the pattern, the
    /// last one first, each as the positions of its start and its end. A
    /// pattern that is no regular expression is an error.
    pub fn search_rev(&mut self, pat: &str, at: usize, start: Option<usize>) -> (r: Result<
        Vec<(Pos, Pos)>,
        SearchError,
    >)
        requires
            old(self).bytes().len() <= crate::buffer::MAX_LEN,
        ensures
            final(self).bytes() == old(self).bytes(),
            final(self).tags == old(self).tags,
            final(self).marker == old(self).marker,
            final(self).ghosts == old(self).ghosts,
            r is Err <==> !pattern_parses(pat@),
            r is Err ==> r == Err::<Vec<(Pos, Pos)>, SearchError>(SearchError::PatternSyntax),
            r is Ok ==> r.unwrap()@ == match spec_search_range(
                match start {
                    Some(s) => s,
                    None => 0,
                },
                Some(at),
                old(self).bytes().len() as usize,
            ) {
                Some(range) => pairs_of(old(self).spec_found_rev(seq![pat@], range)),
                None => Seq::empty(),
            },
    {
        let pats = one_pattern(pat);
        proof {
            assert(all_parse(seq![pat@]) == pattern_parses(pat@)) by {
                assert(seq![pat@][0] == pat@);
            }
        }
        match self.search_rev_many(&pats, at, start) {
            Ok(found) => {
                let r = without_patterns(&found);
                proof {
                    assert(pairs_of(Seq::<(Pos, Pos, usize)>::empty()) =~= Seq::<
                        (Pos, Pos),
                    >::empty());
                }
                Ok(r)
            },
            Err(e) => Err(e),
        }
    }
}

/// What is searched for: one regular expression, one character, or some
/// regular expressions, of which a match tells which one it was.
#[derive(Clone, Debug)]
pub enum Pattern {
    One(String),
    Char(char),
    Many(Vec<String>),
}

impl Pattern {
    /// The regular expressions of the pattern. A character is the
    /// regular expression that it spells.
    pub open spec fn spec_patterns(&self) -> Seq<Seq<char>> {
        match self {
            Pattern::One(s) => seq![s@],
            Pattern::Char(c) => seq![seq![*c]],
            Pattern::Many(v) => views_of(v@),
        }
    }

    /// The regular expressions of the pattern.
    pub fn patterns(&self) -> (r: Vec<String>)
        ensures
            views_of(r@) == self.spec_patterns(),
    {
        match self {
            Pattern::One(s) => one_pattern(s.as_str()),
            Pattern::Char(c) => {
                let s = char_to_string(*c);
                one_pattern(s.as_str())
            },
            Pattern::Many(v) => {
                let mut out: Vec<String> = Vec::new();
                assert(views_of(out@) =~= Seq::<Seq<char>>::empty());
                append_from(&mut out, v, 0);
                assert(views_of(out@) =~= views_of(v@));
                out
            },
        }
    }
}

impl Mover {
    /// Searches forwards from the caret to the end of the text: the
    /// matches of the pattern, one after the other, each as the positions
    /// of its start and its end and the index of the regular expression
    /// that matched.
    pub fn search(&self, text: &mut Text, pat: &Pattern) -> (r: Result<
        Vec<(Pos, Pos, usize)>,
        SearchError,
    >)
        requires
            old(text).bytes().len() <= crate::buffer::MAX_LEN,
        ensures
            final(text).bytes() == old(text).bytes(),
            final(text).tags == old(text).tags,
            final(text).marker == old(text).marker,
            final(text).ghosts == old(text).ghosts,
            r is Err <==> !all_parse(pat.spec_patterns()),
            r is Err ==> r == Err::<Vec<(Pos, Pos, usize)>, SearchError>(
                SearchError::PatternSyntax,
            ),
            r is Ok ==> r.unwrap()@ == match spec_search_range(
                self.cursor.caret.byte,
                None,
                old(text).bytes().len() as usize,
            ) {
                Some(range) => old(text).spec_found_fwd(pat.spec_patterns(), range),
                None => Seq::empty(),
            },
    {
        let pats = pat.patterns();
        text.search_fwd_many(&pats, self.cursor.caret.byte, None)
    }

    /// Searches backwards from the caret to the start of the text: the
    /// matches of the pattern, the last one first, each as the positions
    /// of its start and its end and the index of the regular expression
    /// that matched.
    pub fn search_rev(&self, text: &mut Text, pat: &Pattern) -> (r: Result<
        Vec<(Pos, Pos, usize)>,
        SearchError,
    >)
        requires
            old(text).bytes().len() <= crate::buffer::MAX_LEN,
        ensures
            final(text).bytes() == old(text).bytes(),
            final(text).tags == old(text).tags,
            final(text).marker == old(text).marker,
            final(text).ghosts == old(text).ghosts,
            r is Err <==> !all_parse(pat.spec_patterns()),
            r is Err ==> r == Err::<Vec<(Pos, Pos, usize)>, SearchError>(
                SearchError::PatternSyntax,
            ),
            r is Ok ==> r.unwrap()@ == match spec_search_range(
                0,
                Some(self.cursor.caret.byte),
                old(text).bytes().len() as usize,
            ) {
                Some(range) => old(text).spec_found_rev(pat.spec_patterns(), range),
                None => Seq::empty(),
            },
    {
        let pats = pat.patterns();
        text.search_rev_many(&pats, self.cursor.caret.byte, None)
    }
}

/// A pattern that was found to be a regular expression, ready to be
/// searched for.
#[derive(Clone, Debug)]
pub struct Searcher {
    pub pat: String,
}

impl Searcher {
    /// Whether the pattern is a regular expression.
    pub open spec fn wf(&self) -> bool {
        pattern_parses(self.pat@)
    }

    /// The searcher of a pattern, which must be a regular expression.
    pub fn new(pat: String) -> (r: Result<Searcher, SearchError>)
        ensures
            r is Ok <==> pattern_parses(pat@),
            r is Ok ==> r.unwrap().pat == pat && r.unwrap().wf(),
            r is Err ==> r == Err::<Searcher, SearchError>(SearchError::PatternSyntax),
    {
        if syntax_ok(pat.as_str()) {
            Ok(Searcher { pat })
        } else {
            Err(SearchError::PatternSyntax)
        }
    }

    /// The matches of the pattern in `text`, forwards from the offset
    /// `at`, up to the offset `end` or the end of the text.
    pub fn search_fwd(&self, text: &mut Text, at: usize, end: Option<usize>) -> (r: Vec<(Pos, Pos)>)
        requires
            self.wf(),
            old(text).bytes().len() <= crate::buffer::MAX_LEN,
        ensures
            final(text).bytes() == old(text).bytes(),
            final(text).tags == old(text).tags,
            final(text).marker == old(text).marker,
            final(text).ghosts == old(text).ghosts,
            r@ == match spec_search_range(at, end, old(text).bytes().len() as usize) {
                Some(range) => pairs_of(old(text).spec_found_fwd(seq![self.pat@], range)),
                None => Seq::empty(),
            },
    {
        match text.search_fwd(self.pat.as_str(), at, end) {
            Ok(found) => found,
            Err(_) => {
                proof {
                    assert(false);
                }
                Vec::new()
            },
        }
    }

    /// The matches of the pattern in `text`, backwards from the offset
    /// `at`, down to the offset `start` or the start of the text.
    pub fn search_rev(&self, text: &mut Text, at: usize, start: Option<usize>) -> (r: Vec<
        (Pos, Pos),
    >)
        requires
            self.wf(),
            old(text).bytes().len() <= crate::buffer::MAX_LEN,
        ensures
            final(text).bytes() == old(text).bytes(),
            final(text).tags == old(text).tags,
            final(text).marker == old(text).marker,
            final(text).ghosts == old(text).ghosts,
            r@ == match spec_search_range(
                match start {
                    Some(s) => s,
                    None => 0,
                },
                Some(at),
                old(text).bytes().len() as usize,
            ) {
                Some(range) => pairs_of(old(text).spec_found_rev(seq![self.pat@], range)),
                None => Seq::empty(),
            },
    {
        match text.search_rev(self.pat.as_str(), at, start) {
            Ok(found) => found,
            Err(_) => {
                proof {
                    assert(false);
                }
                Vec::new()
            },
        }
    }

    /// Whether the pattern matches the whole of `query`: the match that
    /// begins at its start ends at its end.
    pub fn matches(&self, query: &[u8]) -> (r: bool)
        ensures
            r == match fwd_anchored_end(seq![self.pat@], query@, 0, query@.len() as int) {
                Some(found) => found.0 == query@.len(),
                None => false,
            },
    {
        let pats = one_pattern(self.pat.as_str());
        match fwd_anchored(&pats, query, 0, query.len()) {
            Some((end, _)) => end == query.len(),
            None => false,
        }
    }

    /// Whether there is no pattern to search for.
    pub fn is_empty(&self) -> (r: bool)
        ensures
            r == (self.pat@.len() == 0),
    {
        self.pat.as_str().unicode_len() == 0
    }
}

} // verus!
