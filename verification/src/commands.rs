//! The flags of a command: what comes before its arguments and begins
//! with a dash.

use vstd::prelude::*;
use vstd::string::StringExecFns;

verus! {

/// The flags that were passed to a command: the characters of the short
/// flags, each once, and the words of the long ones, each once, in the
/// order in which they came.
#[derive(Debug)]
pub struct InnerFlags {
    pub blob: String,
    pub units: Vec<String>,
}

/// Whether two strings hold the same characters.
pub fn str_equal(a: &str, b: &str) -> (r: bool)
    ensures
        r == (a@ == b@),
{
    let n = a.unicode_len();
    if n != b.unicode_len() {
        return false;
    }
    let mut i: usize = 0;
    while i < n
        invariant
            i <= n == a@.len() == b@.len(),
            forall|j: int| 0 <= j < i ==> a@[j] == b@[j],
        decreases n - i,
    {
        if a.get_char(i) != b.get_char(i) {
            return false;
        }
        i += 1;
    }
    proof {
        assert(a@ =~= b@);
    }
    true
}

/// Whether a string holds a character.
pub fn str_contains(s: &str, c: char) -> (r: bool)
    ensures
        r == s@.contains(c),
{
    let n = s.unicode_len();
    let mut i: usize = 0;
    while i < n
        invariant
            i <= n == s@.len(),
            forall|j: int| 0 <= j < i ==> s@[j] != c,
        decreases n - i,
    {
        if s.get_char(i) == c {
            return true;
        }
        i += 1;
    }
    false
}

/// The views of strings.
pub open spec fn views_of(v: Seq<String>) -> Seq<Seq<char>> {
    v.map_values(|s: String| s@)
}

/// Whether one of the strings of `v` holds the characters of `s`.
pub fn has_unit(v: &Vec<String>, s: &str) -> (r: bool)
    ensures
        r == views_of(v@).contains(s@),
{
    let mut i: usize = 0;
    while i < v.len()
        invariant
            i <= v@.len(),
            forall|j: int| 0 <= j < i ==> views_of(v@)[j] != s@,
        decreases v.len() - i,
    {
        if str_equal(v[i].as_str(), s) {
            assert(views_of(v@)[i as int] == s@);
            return true;
        }
        i += 1;
    }
    false
}

impl InnerFlags {
    /// Whether every character of `blob` was passed as a short flag.
    pub fn blob(&self, blob: &str) -> (r: bool)
        ensures
            r == (forall|i: int| 0 <= i < blob@.len() ==> self.blob@.contains(#[trigger] blob@[i])),
    {
        let n = blob.unicode_len();
        let mut i: usize = 0;
        while i < n
            invariant
                i <= n == blob@.len(),
                forall|j: int| 0 <= j < i ==> self.blob@.contains(#[trigger] blob@[j]),
            decreases n - i,
        {
            if !str_contains(self.blob.as_str(), blob.get_char(i)) {
                return false;
            }
            i += 1;
        }
        true
    }

    /// Whether `flag` was passed as a long flag.
    pub fn unit(&self, flag: &str) -> (r: bool)
        ensures
            r == views_of(self.units@).contains(flag@),
    {
        has_unit(&self.units, flag)
    }

    /// Whether no flag was passed.
    pub fn is_empty(&self) -> (r: bool)
        ensures
            r == (self.blob@.len() == 0 && self.units@.len() == 0),
    {
        self.blob.as_str().unicode_len() == 0 && self.units.len() == 0
    }
}

/// What an argument is, as far as flags go.
pub enum ArgKind {
    /// A long flag, with its word: `--word`.
    Unit,
    /// Short flags: a dash and their characters, which may be none.
    Blob,
    /// No flag: a word without a dash, or two dashes and nothing more,
    /// which end the flags.
    Rest,
}

/// What an argument is: it begins with two dashes and goes on, or begins
/// with one dash otherwise, or is no flag.
pub open spec fn arg_kind(arg: Seq<char>) -> ArgKind {
    if arg.len() >= 2 && arg[0] == '-' && arg[1] == '-' {
        if arg.len() > 2 {
            ArgKind::Unit
        } else {
            ArgKind::Rest
        }
    } else if arg.len() >= 1 && arg[0] == '-' {
        ArgKind::Blob
    } else {
        ArgKind::Rest
    }
}

/// `blob` with those of the characters of `s` from `i` on that it does
/// not hold yet, each once.
pub open spec fn with_chars(blob: Seq<char>, s: Seq<char>, i: int) -> Seq<char>
    decreases s.len() - i,
{
    if i < 0 || i >= s.len() {
        blob
    } else if blob.contains(s[i]) {
        with_chars(blob, s, i + 1)
    } else {
        with_chars(blob.push(s[i]), s, i + 1)
    }
}

/// The flags and the number of the arguments that they take.
pub struct Split {
    pub blob: Seq<char>,
    pub units: Seq<Seq<char>>,
    pub rest: int,
}

/// The flags among the arguments from `i` on, added to those found
/// before: the leading arguments that are flags, up to the first that is
/// none.
pub open spec fn spec_split(args: Seq<Seq<char>>, i: int, blob: Seq<char>, units: Seq<Seq<char>>) -> Split
    decreases args.len() - i,
{
    if i < 0 || i >= args.len() {
        Split { blob, units, rest: i }
    } else {
        match arg_kind(args[i]) {
            ArgKind::Unit => {
                let word = args[i].skip(2);
                spec_split(
                    args,
                    i + 1,
                    blob,
                    if units.contains(word) {
                        units
                    } else {
                        units.push(word)
                    },
                )
            },
            ArgKind::Blob => spec_split(args, i + 1, with_chars(blob, args[i], 1), units),
            ArgKind::Rest => Split { blob, units, rest: i },
        }
    }
}

/// Splits the flags off the arguments of a command: the arguments that
/// begin with a dash, up to the first that does not or that is two dashes
/// alone. Returns the flags and the index of the first argument that is
/// none.
pub fn split_flags(args: &Vec<String>) -> (r: (InnerFlags, usize))
    ensures
        r.0.blob@ == spec_split(views_of(args@), 0, Seq::empty(), Seq::empty()).blob,
        views_of(r.0.units@) == spec_split(views_of(args@), 0, Seq::empty(), Seq::empty()).units,
        r.1 == spec_split(views_of(args@), 0, Seq::empty(), Seq::empty()).rest,
        r.1 <= args@.len(),
{
    let mut blob = String::new();
    let mut units: Vec<String> = Vec::new();
    let ghost all = views_of(args@);
    let mut i: usize = 0;
    proof {
        assert(views_of(units@) =~= Seq::<Seq<char>>::empty());
    }
    while i < args.len()
        invariant
            i <= args@.len(),
            all == views_of(args@),
            spec_split(all, i as int, blob@, views_of(units@)) == spec_split(
                all,
                0,
                Seq::empty(),
                Seq::empty(),
            ),
        decreases args.len() - i,
    {
        let arg = args[i].as_str();
        proof {
            assert(all[i as int] == arg@);
        }
        let n = arg.unicode_len();
        if n >= 2 && arg.get_char(0) == '-' && arg.get_char(1) == '-' {
            if n > 2 {
                let word = arg.substring_char(2, n);
                proof {
                    assert(word@ =~= arg@.skip(2));
                }
                if !has_unit(&units, word) {
                    let ghost before = views_of(units@);
                    units.push(String::from_str(word));
                    proof {
                        assert(views_of(units@) =~= before.push(word@));
                    }
                }
                i += 1;
            } else {
                return (InnerFlags { blob, units }, i);
            }
        } else if n >= 1 && arg.get_char(0) == '-' {
            let ghost total = with_chars(blob@, arg@, 1);
            let mut k: usize = 1;
            while k < n
                invariant
                    1 <= k <= n == arg@.len(),
                    with_chars(blob@, arg@, k as int) == total,
                decreases n - k,
            {
                let c = arg.get_char(k);
                if !str_contains(blob.as_str(), c) {
                    let ghost before = blob@;
                    let one = arg.substring_char(k, k + 1);
                    proof {
                        assert(one@ =~= seq![c]);
                    }
                    blob.append(one);
                    proof {
                        assert(blob@ =~= before.push(c));
                    }
                }
                k += 1;
            }
            i += 1;
        } else {
            return (InnerFlags { blob, units }, i);
        }
    }
    (InnerFlags { blob, units }, i)
}

} // verus!
