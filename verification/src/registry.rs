//! The table of commands: the callers by which each command is run, and
//! the aliases that stand for whole calls.

use crate::cfg::{char_is_whitespace, is_whitespace};
use crate::commands::{has_unit, split_flags, spec_split, str_equal, views_of, InnerFlags};
use crate::builder::{tags_balanced, Builder};
use crate::lines::lemma_all_bytes;
use crate::tags::{FormId, Tag};
use crate::text::Text;
use vstd::prelude::*;
use vstd::utf8::encode_utf8;

verus! {

/// The index of the first character of `s` from `i` on that is no blank,
/// or the length of `s`.
pub open spec fn word_start(s: Seq<char>, i: int) -> int
    decreases s.len() - i,
{
    if i < 0 || i >= s.len() {
        s.len() as int
    } else if !is_whitespace(s[i]) {
        i
    } else {
        word_start(s, i + 1)
    }
}

/// The index of the first blank of `s` from `i` on, or the length of `s`.
pub open spec fn word_stop(s: Seq<char>, i: int) -> int
    decreases s.len() - i,
{
    if i < 0 || i >= s.len() {
        s.len() as int
    } else if is_whitespace(s[i]) {
        i
    } else {
        word_stop(s, i + 1)
    }
}

/// The words of `s` from `i` on: what stands between blanks.
pub open spec fn words_from(s: Seq<char>, i: int) -> Seq<Seq<char>>
    decreases s.len() - i,
{
    let a = word_start(s, i);
    let b = word_stop(s, a);
    if i < 0 || a < i || a >= s.len() || b <= a || b > s.len() {
        Seq::empty()
    } else {
        seq![s.subrange(a, b)] + words_from(s, b)
    }
}

/// The words of a string.
pub fn split_words(s: &str) -> (r: Vec<String>)
    ensures
        views_of(r@) == words_from(s@, 0),
{
    let n = s.unicode_len();
    let mut out: Vec<String> = Vec::new();
    let mut i: usize = 0;
    proof {
        assert(views_of(out@) =~= Seq::<Seq<char>>::empty());
        assert(views_of(out@) + words_from(s@, 0) =~= words_from(s@, 0));
    }
    while i < n
        invariant
            i <= n == s@.len(),
            views_of(out@) + words_from(s@, i as int) == words_from(s@, 0),
        decreases n - i,
    {
        let mut a: usize = i;
        while a < n && char_is_whitespace(s.get_char(a))
            invariant
                i <= a <= n == s@.len(),
                word_start(s@, i as int) == word_start(s@, a as int),
            decreases n - a,
        {
            a += 1;
        }
        if a >= n {
            proof {
                assert(words_from(s@, i as int) =~= Seq::<Seq<char>>::empty());
                assert(words_from(s@, n as int) =~= Seq::<Seq<char>>::empty());
            }
            i = n;
        } else {
            let mut b: usize = a + 1;
            proof {
                assert(word_stop(s@, a as int) == word_stop(s@, a + 1));
            }
            while b < n && !char_is_whitespace(s.get_char(b))
                invariant
                    a < b <= n == s@.len(),
                    word_stop(s@, a as int) == word_stop(s@, b as int),
                decreases n - b,
            {
                b += 1;
            }
            let word = s.substring_char(a, b);
            let ghost before = views_of(out@);
            out.push(String::from_str(word));
            proof {
                assert(word@ =~= s@.subrange(a as int, b as int));
                assert(views_of(out@) =~= before.push(word@));
                assert(word_stop(s@, a as int) == b);
                assert(words_from(s@, i as int) == seq![word@] + words_from(s@, b as int));
                assert(views_of(out@) + words_from(s@, b as int) =~= before + words_from(
                    s@,
                    i as int,
                ));
            }
            i = b;
        }
    }
    proof {
        assert(words_from(s@, i as int) =~= Seq::<Seq<char>>::empty());
        assert(views_of(out@) + words_from(s@, i as int) =~= views_of(out@));
    }
    out
}

/// Why a command could not be run, added or aliased.
#[derive(Debug)]
pub enum CmdError {
    /// The alias is not one word.
    AliasNotSingleWord(String),
    /// The caller is that of a command of the table already.
    CallerAlreadyExists(String),
    /// No command of the table has the caller.
    CallerNotFound(String),
    /// The command ran and failed, with this message.
    CommandFailed(String),
    /// There was neither a caller nor an argument.
    Empty,
}

/// What specifications see of an error: its kind, and the characters that
/// it holds.
pub enum CmdErrorView {
    AliasNotSingleWord(Seq<char>),
    CallerAlreadyExists(Seq<char>),
    CallerNotFound(Seq<char>),
    CommandFailed(Seq<char>),
    Empty,
}

impl View for CmdError {
    type V = CmdErrorView;

    open spec fn view(&self) -> CmdErrorView {
        match self {
            CmdError::AliasNotSingleWord(s) => CmdErrorView::AliasNotSingleWord(s@),
            CmdError::CallerAlreadyExists(s) => CmdErrorView::CallerAlreadyExists(s@),
            CmdError::CallerNotFound(s) => CmdErrorView::CallerNotFound(s@),
            CmdError::CommandFailed(s) => CmdErrorView::CommandFailed(s@),
            CmdError::Empty => CmdErrorView::Empty,
        }
    }
}

/// The bytes of the message of an error.
pub open spec fn message_bytes(e: CmdErrorView) -> Seq<u8> {
    match e {
        CmdErrorView::AliasNotSingleWord(c) => encode_utf8("The caller "@) + encode_utf8(c)
            + encode_utf8(" is not a single word."@),
        CmdErrorView::CallerAlreadyExists(c) => encode_utf8("The caller "@) + encode_utf8(c)
            + encode_utf8(" already exists."@),
        CmdErrorView::CallerNotFound(c) => encode_utf8("The caller "@) + encode_utf8(c)
            + encode_utf8(" was not found."@),
        CmdErrorView::CommandFailed(m) => encode_utf8(m),
        CmdErrorView::Empty => encode_utf8("The command is empty."@),
    }
}

/// The characters that an error holds.
pub open spec fn held(e: CmdErrorView) -> Seq<char> {
    match e {
        CmdErrorView::AliasNotSingleWord(c) => c,
        CmdErrorView::CallerAlreadyExists(c) => c,
        CmdErrorView::CallerNotFound(c) => c,
        CmdErrorView::CommandFailed(m) => m,
        CmdErrorView::Empty => Seq::empty(),
    }
}

/// The longest that what an error holds can be for its message to fit in
/// a text.
pub const MAX_HELD: usize = 0x3fff_ff00;

/// The text of a message about a caller: what comes before it in the
/// form `plain`, the caller in the form `accent`, and what comes after it
/// in the form `plain` again.
fn caller_text(caller: &str, after: &str, plain: FormId, accent: FormId) -> (r: Text)
    requires
        encode_utf8(caller@).len() <= MAX_HELD,
        after@.len() <= 32,
    ensures
        r.wf(),
        r.bytes() == encode_utf8("The caller "@) + encode_utf8(caller@) + encode_utf8(after@),
        tags_balanced(r.tags@),
{
    proof {
        reveal_strlit("The caller ");
        lemma_all_bytes("The caller "@);
        lemma_all_bytes(after@);
    }
    let mut b = Builder::new();
    b.push_tag(Tag::PushForm(plain));
    b.push_str("The caller ");
    b.push_tag(Tag::PushForm(accent));
    b.push_str(caller);
    b.push_tag(Tag::PushForm(plain));
    b.push_str(after);
    let text = b.finish();
    proof {
        assert(text.bytes() =~= encode_utf8("The caller "@) + encode_utf8(caller@) + encode_utf8(
            after@,
        ));
    }
    text
}

impl CmdError {
    /// The message of the error as a text: what the error holds in the
    /// form `accent`, the rest in the form `plain`.
    pub fn into_text(&self, plain: FormId, accent: FormId) -> (r: Text)
        requires
            encode_utf8(held(self@)).len() <= MAX_HELD,
        ensures
            r.wf(),
            r.bytes() == message_bytes(self@),
            tags_balanced(r.tags@),
    {
        match self {
            CmdError::AliasNotSingleWord(c) => {
                proof {
                    reveal_strlit(" is not a single word.");
                }
                caller_text(c.as_str(), " is not a single word.", plain, accent)
            },
            CmdError::CallerAlreadyExists(c) => {
                proof {
                    reveal_strlit(" already exists.");
                }
                caller_text(c.as_str(), " already exists.", plain, accent)
            },
            CmdError::CallerNotFound(c) => {
                proof {
                    reveal_strlit(" was not found.");
                }
                caller_text(c.as_str(), " was not found.", plain, accent)
            },
            CmdError::CommandFailed(m) => {
                let mut b = Builder::new();
                b.push_tag(Tag::PushForm(plain));
                b.push_str(m.as_str());
                let text = b.finish();
                proof {
                    assert(text.bytes() =~= encode_utf8(m@));
                }
                text
            },
            CmdError::Empty => {
                proof {
                    reveal_strlit("The command is empty.");
                    lemma_all_bytes("The command is empty."@);
                }
                let mut b = Builder::new();
                b.push_tag(Tag::PushForm(plain));
                b.push_str("The command is empty.");
                let text = b.finish();
                proof {
                    assert(text.bytes() =~= encode_utf8("The command is empty."@));
                }
                text
            },
        }
    }
}

/// A command as the table knows it: the callers by which it is run.
#[derive(Debug)]
pub struct Command {
    pub callers: Vec<String>,
}

impl Command {
    /// Whether every caller is one word.
    pub open spec fn wf(&self) -> bool {
        forall|i: int|
            0 <= i < self.callers@.len() ==> words_from((#[trigger] self.callers@[i])@, 0).len()
                == 1
    }

    /// The command of callers that are one word each.
    pub fn new(callers: Vec<String>) -> (r: Command)
        requires
            (Command { callers }).wf(),
        ensures
            r.callers == callers,
            r.wf(),
    {
        Command { callers }
    }

    /// The command of the callers, if each of them is one word.
    pub fn try_new(callers: Vec<String>) -> (r: Option<Command>)
        ensures
            r is Some <==> (Command { callers }).wf(),
            r is Some ==> r.unwrap().callers == callers,
    {
        let mut i: usize = 0;
        while i < callers.len()
            invariant
                i <= callers@.len(),
                forall|j: int|
                    0 <= j < i ==> words_from((#[trigger] callers@[j])@, 0).len() == 1,
            decreases callers.len() - i,
        {
            let words = split_words(callers[i].as_str());
            if words.len() != 1 {
                assert(views_of(words@).len() == words@.len());
                assert(words_from((Command { callers }).callers@[i as int]@, 0).len() != 1);
                return None;
            }
            assert(views_of(words@).len() == words@.len());
            i += 1;
        }
        Some(Command { callers })
    }

    /// The callers of the command.
    pub fn callers(&self) -> (r: &Vec<String>)
        ensures
            *r == self.callers,
    {
        &self.callers
    }
}

/// An alias: its name, the command that it runs, and the call that it
/// stands for.
#[derive(Debug)]
pub struct Alias {
    pub name: String,
    pub command: usize,
    pub call: String,
}

/// The table of commands. A command is known by its index.
#[derive(Debug)]
pub struct CommandTable {
    pub list: Vec<Command>,
    pub aliases: Vec<Alias>,
}

/// The index of the first of `list` from `i` on that has the caller `w`,
/// or the length of `list`.
pub open spec fn command_of(list: Seq<Command>, w: Seq<char>, i: int) -> int
    decreases list.len() - i,
{
    if i < 0 || i >= list.len() {
        list.len() as int
    } else if views_of(list[i].callers@).contains(w) {
        i
    } else {
        command_of(list, w, i + 1)
    }
}

/// The index of the first of `aliases` from `i` on with the name `w`, or
/// the length of `aliases`.
pub open spec fn alias_of(aliases: Seq<Alias>, w: Seq<char>, i: int) -> int
    decreases aliases.len() - i,
{
    if i < 0 || i >= aliases.len() {
        aliases.len() as int
    } else if aliases[i].name@ == w {
        i
    } else {
        alias_of(aliases, w, i + 1)
    }
}

/// The first alias with a name stands at or after where the search
/// began, and within the aliases or at their end.
pub proof fn lemma_alias_of(aliases: Seq<Alias>, w: Seq<char>, i: int)
    requires
        0 <= i <= aliases.len(),
    ensures
        i <= alias_of(aliases, w, i) <= aliases.len(),
    decreases aliases.len() - i,
{
    if i < aliases.len() && aliases[i].name@ != w {
        lemma_alias_of(aliases, w, i + 1);
    }
}

/// The first command with a caller stands at or after where the search
/// began, and within the commands or at their end.
pub proof fn lemma_command_of(list: Seq<Command>, w: Seq<char>, i: int)
    requires
        0 <= i <= list.len(),
    ensures
        i <= command_of(list, w, i) <= list.len(),
    decreases list.len() - i,
{
    if i < list.len() && !views_of(list[i].callers@).contains(w) {
        lemma_command_of(list, w, i + 1);
    }
}

/// The index of the first of `callers` from `j` on that is among `new`,
/// or the length of `callers`.
pub open spec fn clash_in(callers: Seq<String>, new: Seq<String>, j: int) -> int
    decreases callers.len() - j,
{
    if j < 0 || j >= callers.len() {
        callers.len() as int
    } else if views_of(new).contains(callers[j]@) {
        j
    } else {
        clash_in(callers, new, j + 1)
    }
}

/// The first caller of the commands of `list` from `i` on that is among
/// `new`, if there is one.
pub open spec fn clash_of(list: Seq<Command>, new: Seq<String>, i: int) -> Option<Seq<char>>
    decreases list.len() - i,
{
    if i < 0 || i >= list.len() {
        None
    } else {
        let j = clash_in(list[i].callers@, new, 0);
        if 0 <= j < list[i].callers@.len() {
            Some(list[i].callers@[j]@)
        } else {
            clash_of(list, new, i + 1)
        }
    }
}

/// A call that was resolved: the command to run, its flags, and its
/// arguments.
#[derive(Debug)]
pub struct Resolved {
    pub command: usize,
    pub flags: InnerFlags,
    pub args: Vec<String>,
}

/// The words of a call with its alias, if its caller is one, replaced by
/// the words of the call that the alias stands for.
pub open spec fn expanded(aliases: Seq<Alias>, words: Seq<Seq<char>>) -> Seq<Seq<char>> {
    let k = alias_of(aliases, words[0], 0);
    if 0 <= k < aliases.len() {
        words_from(aliases[k].call@, 0) + words.skip(1)
    } else {
        words
    }
}

impl CommandTable {
    /// Whether every alias runs a command of the table and stands for a
    /// call that is not empty, and no two aliases have one name.
    pub open spec fn wf(&self) -> bool {
        &&& forall|k: int|
            0 <= k < self.aliases@.len() ==> (#[trigger] self.aliases@[k]).command
                < self.list@.len() && words_from(self.aliases@[k].call@, 0).len() > 0
        &&& forall|k: int, l: int|
            0 <= k < l < self.aliases@.len() ==> (#[trigger] self.aliases@[k]).name@ != (
            #[trigger] self.aliases@[l]).name@
    }

    /// The table with one command, whose caller is `alias`, and without
    /// aliases.
    pub fn new() -> (r: Self)
        ensures
            r.wf(),
            r.list@.len() == 1,
            views_of(r.list@[0].callers@) == seq!["alias"@],
            r.aliases@.len() == 0,
    {
        let mut callers: Vec<String> = Vec::new();
        callers.push(String::from_str("alias"));
        assert(views_of(callers@) =~= seq!["alias"@]);
        let mut list: Vec<Command> = Vec::new();
        list.push(Command { callers });
        CommandTable { list, aliases: Vec::new() }
    }

    /// The index of the first command with the caller, if there is one.
    pub fn find(&self, caller: &str) -> (r: Option<usize>)
        ensures
            r == if command_of(self.list@, caller@, 0) < self.list@.len() {
                Some(command_of(self.list@, caller@, 0) as usize)
            } else {
                None
            },
            r is Some ==> r.unwrap() < self.list@.len() && r.unwrap() == command_of(
                self.list@,
                caller@,
                0,
            ),
            r is None ==> command_of(self.list@, caller@, 0) == self.list@.len(),
    {
        proof {
            lemma_command_of(self.list@, caller@, 0);
        }
        let mut i: usize = 0;
        while i < self.list.len()
            invariant
                i <= self.list@.len(),
                command_of(self.list@, caller@, 0) == command_of(self.list@, caller@, i as int),
            decreases self.list.len() - i,
        {
            if has_unit(&self.list[i].callers, caller) {
                return Some(i);
            }
            i += 1;
        }
        None
    }

    /// The index of the alias with the name, if there is one.
    pub fn find_alias(&self, name: &str) -> (r: Option<usize>)
        ensures
            r == if alias_of(self.aliases@, name@, 0) < self.aliases@.len() {
                Some(alias_of(self.aliases@, name@, 0) as usize)
            } else {
                None
            },
            r is Some ==> r.unwrap() < self.aliases@.len() && self.aliases@[r.unwrap() as int].name@
                == name@ && r.unwrap() == alias_of(self.aliases@, name@, 0),
            r is None ==> alias_of(self.aliases@, name@, 0) == self.aliases@.len(),
            r is None ==> forall|k: int|
                0 <= k < self.aliases@.len() ==> (#[trigger] self.aliases@[k]).name@ != name@,
    {
        proof {
            lemma_alias_of(self.aliases@, name@, 0);
        }
        let mut i: usize = 0;
        while i < self.aliases.len()
            invariant
                i <= self.aliases@.len(),
                alias_of(self.aliases@, name@, 0) == alias_of(self.aliases@, name@, i as int),
                forall|k: int| 0 <= k < i ==> (#[trigger] self.aliases@[k]).name@ != name@,
            decreases self.aliases.len() - i,
        {
            if str_equal(self.aliases[i].name.as_str(), name) {
                return Some(i);
            }
            i += 1;
        }
        None
    }

    /// Whether `caller` is the name of an alias or a caller of a command.
    pub fn caller_exists(&self, caller: &str) -> (r: bool)
        ensures
            r == (alias_of(self.aliases@, caller@, 0) < self.aliases@.len() || command_of(
                self.list@,
                caller@,
                0,
            ) < self.list@.len()),
    {
        self.find_alias(caller).is_some() || self.find(caller).is_some()
    }

    /// Adds a command, unless one of its callers is a caller of a command
    /// of the table already: the error then holds the first such caller
    /// of the table. Returns the index of the command.
    pub fn try_add(&mut self, command: Command) -> (r: Result<usize, CmdError>)
        requires
            old(self).wf(),
            command.wf(),
        ensures
            final(self).wf(),
            final(self).aliases == old(self).aliases,
            match clash_of(old(self).list@, command.callers@, 0) {
                Some(c) => r is Err && r.unwrap_err()@ == CmdErrorView::CallerAlreadyExists(c)
                    && final(self).list == old(self).list,
                None => r == Ok::<usize, CmdError>(old(self).list@.len() as usize) && final(self).list@ == old(self).list@.push(command),
            },
    {
        let mut i: usize = 0;
        while i < self.list.len()
            invariant
                i <= self.list@.len(),
                *self == *old(self),
                self.wf(),
                clash_of(self.list@, command.callers@, 0) == clash_of(
                    self.list@,
                    command.callers@,
                    i as int,
                ),
            decreases self.list.len() - i,
        {
            let mut j: usize = 0;
            while j < self.list[i].callers.len()
                invariant
                    i < self.list@.len(),
                    *self == *old(self),
                    self.wf(),
                    j <= self.list@[i as int].callers@.len(),
                    clash_in(self.list@[i as int].callers@, command.callers@, 0) == clash_in(
                        self.list@[i as int].callers@,
                        command.callers@,
                        j as int,
                    ),
                    clash_of(self.list@, command.callers@, 0) == clash_of(
                        self.list@,
                        command.callers@,
                        i as int,
                    ),
                decreases self.list@[i as int].callers@.len() - j,
            {
                if has_unit(&command.callers, self.list[i].callers[j].as_str()) {
                    let found = self.list[i].callers[j].clone();
                    proof {
                        assert(clash_in(
                            self.list@[i as int].callers@,
                            command.callers@,
                            j as int,
                        ) == j);
                        assert(clash_of(self.list@, command.callers@, i as int) == Some(found@));
                    }
                    return Err(CmdError::CallerAlreadyExists(found));
                }
                j += 1;
            }
            i += 1;
        }
        let at = self.list.len();
        self.list.push(command);
        proof {
            assert forall|k: int| 0 <= k < self.aliases@.len() implies (
            #[trigger] self.aliases@[k]).command < self.list@.len() && words_from(
                self.aliases@[k].call@,
                0,
            ).len() > 0 by {
                assert(old(self).aliases@[k].command < old(self).list@.len());
            }
        }
        Ok(at)
    }

    /// Makes `alias` stand for `call`. The alias must be one word, and
    /// the first word of the call a caller of a command of the table.
    /// Returns the call that the alias stood for before, if it stood for
    /// one.
    pub fn try_alias(&mut self, alias: &str, call: &str) -> (r: Result<Option<String>, CmdError>)
        requires
            old(self).wf(),
        ensures
            final(self).wf(),
            final(self).list == old(self).list,
            words_from(alias@, 0).len() != 1 ==> r is Err && r.unwrap_err()@
                == CmdErrorView::AliasNotSingleWord(alias@) && final(self).aliases == old(self).aliases,
            words_from(alias@, 0).len() == 1 && words_from(call@, 0).len() == 0 ==> r is Err
                && r.unwrap_err()@ == CmdErrorView::Empty && final(self).aliases == old(self).aliases,
            words_from(alias@, 0).len() == 1 && words_from(call@, 0).len() > 0 && command_of(
                old(self).list@,
                words_from(call@, 0)[0],
                0,
            ) >= old(self).list@.len() ==> r is Err && r.unwrap_err()@
                == CmdErrorView::CallerNotFound(words_from(call@, 0)[0]) && final(self).aliases
                == old(self).aliases,
            words_from(alias@, 0).len() == 1 && words_from(call@, 0).len() > 0 && command_of(
                old(self).list@,
                words_from(call@, 0)[0],
                0,
            ) < old(self).list@.len() ==> {
                let k = alias_of(old(self).aliases@, alias@, 0);
                let c = command_of(old(self).list@, words_from(call@, 0)[0], 0);
                &&& r is Ok
                &&& final(self).aliases@.len() == if k < old(self).aliases@.len() {
                    old(self).aliases@.len()
                } else {
                    old(self).aliases@.len() + 1
                }
                &&& 0 <= k < final(self).aliases@.len()
                &&& final(self).aliases@[k].name@ == alias@
                &&& final(self).aliases@[k].command == c
                &&& final(self).aliases@[k].call@ == call@
                &&& forall|l: int|
                    0 <= l < old(self).aliases@.len() && l != k ==> final(self).aliases@[l] == old(self).aliases@[l]
                &&& match r.unwrap() {
                    Some(prev) => k < old(self).aliases@.len() && prev@ == old(self).aliases@[k].call@,
                    None => k == old(self).aliases@.len(),
                }
            },
    {
        let alias_words = split_words(alias);
        assert(views_of(alias_words@).len() == alias_words@.len());
        if alias_words.len() != 1 {
            return Err(CmdError::AliasNotSingleWord(String::from_str(alias)));
        }
        let words = split_words(call);
        assert(views_of(words@).len() == words@.len());
        if words.len() == 0 {
            return Err(CmdError::Empty);
        }
        assert(views_of(words@)[0] == words@[0]@);
        let command = match self.find(words[0].as_str()) {
            Some(c) => c,
            None => {
                return Err(CmdError::CallerNotFound(words[0].clone()));
            },
        };
        let entry = Alias { name: String::from_str(alias), command, call: String::from_str(call) };
        let ghost was = self.aliases@;
        proof {
            assert(was == old(self).aliases@);
            assert(self.list@ == old(self).list@);
            assert(command < self.list@.len());
            assert(entry.call@ == call@);
            assert(entry.name@ == alias@);
            assert(words_from(entry.call@, 0).len() > 0);
        }
        match self.find_alias(alias) {
            Some(k) => {
                let prev = self.aliases[k].call.clone();
                self.aliases.set(k, entry);
                proof {
                    assert forall|a: int, b: int| 0 <= a < b < self.aliases@.len() implies (
                    #[trigger] self.aliases@[a]).name@ != (#[trigger] self.aliases@[b]).name@ by {
                        assert(was[a].name@ != was[b].name@);
                    }
                    assert forall|a: int| 0 <= a < self.aliases@.len() implies (
                    #[trigger] self.aliases@[a]).command < self.list@.len() && words_from(
                        self.aliases@[a].call@,
                        0,
                    ).len() > 0 by {
                        if a != k {
                            assert(self.aliases@[a] == was[a]);
                            assert(old(self).aliases@[a].command < old(self).list@.len());
                            assert(words_from(old(self).aliases@[a].call@, 0).len() > 0);
                        } else {
                            assert(self.aliases@[a] == entry);
                        }
                    }
                }
                Ok(Some(prev))
            },
            None => {
                self.aliases.push(entry);
                proof {
                    assert forall|a: int, b: int| 0 <= a < b < self.aliases@.len() implies (
                    #[trigger] self.aliases@[a]).name@ != (#[trigger] self.aliases@[b]).name@ by {
                        if b < was.len() {
                            assert(was[a].name@ != was[b].name@);
                        } else {
                            assert(was[a].name@ != alias@);
                        }
                    }
                    assert forall|a: int| 0 <= a < self.aliases@.len() implies (
                    #[trigger] self.aliases@[a]).command < self.list@.len() && words_from(
                        self.aliases@[a].call@,
                        0,
                    ).len() > 0 by {
                        if a < was.len() {
                            assert(self.aliases@[a] == was[a]);
                            assert(old(self).aliases@[a].command < old(self).list@.len());
                            assert(words_from(old(self).aliases@[a].call@, 0).len() > 0);
                        } else {
                            assert(self.aliases@[a] == entry);
                        }
                    }
                }
                Ok(None)
            },
        }
    }

    /// Resolves a call: its first word is the caller, which is the name
    /// of an alias or a caller of a command. For an alias, the words of
    /// the call that it stands for take the place of the caller. Of the
    /// words after the caller, those that begin with a dash are flags, up
    /// to the first that does not or that is two dashes alone; the others
    /// are the arguments.
    pub fn resolve(&self, call: &str) -> (r: Result<Resolved, CmdError>)
        requires
            self.wf(),
        ensures
            words_from(call@, 0).len() == 0 ==> r is Err && r.unwrap_err()@ == CmdErrorView::Empty,
            words_from(call@, 0).len() > 0 ==> {
                let words = words_from(call@, 0);
                let k = alias_of(self.aliases@, words[0], 0);
                let c = command_of(self.list@, words[0], 0);
                let all = expanded(self.aliases@, words).skip(1);
                let split = spec_split(all, 0, Seq::empty(), Seq::empty());
                if k >= self.aliases@.len() && c >= self.list@.len() {
                    r is Err && r.unwrap_err()@ == CmdErrorView::CallerNotFound(words[0])
                } else {
                    &&& r is Ok
                    &&& r.unwrap().command == if k < self.aliases@.len() {
                        self.aliases@[k].command as int
                    } else {
                        c
                    }
                    &&& r.unwrap().flags.blob@ == split.blob
                    &&& views_of(r.unwrap().flags.units@) == split.units
                    &&& views_of(r.unwrap().args@) == all.skip(split.rest as int)
                }
            },
    {
        let words = split_words(call);
        assert(views_of(words@).len() == words@.len());
        if words.len() == 0 {
            return Err(CmdError::Empty);
        }
        assert(views_of(words@)[0] == words@[0]@);
        let ghost all = expanded(self.aliases@, views_of(words@)).skip(1);
        let mut rest: Vec<String> = Vec::new();
        let command;
        match self.find_alias(words[0].as_str()) {
            Some(k) => {
                command = self.aliases[k].command;
                let first = split_words(self.aliases[k].call.as_str());
                assert(views_of(first@).len() == first@.len());
                append_from(&mut rest, &first, 1);
                append_from(&mut rest, &words, 1);
                proof {
                    assert(views_of(rest@) =~= all);
                }
            },
            None => {
                command = match self.find(words[0].as_str()) {
                    Some(c) => c,
                    None => {
                        return Err(CmdError::CallerNotFound(words[0].clone()));
                    },
                };
                append_from(&mut rest, &words, 1);
                proof {
                    assert(views_of(rest@) =~= all);
                }
            },
        }
        let (flags, at) = split_flags(&rest);
        let mut args: Vec<String> = Vec::new();
        append_from(&mut args, &rest, at);
        proof {
            assert(views_of(args@) =~= all.skip(at as int));
        }
        Ok(Resolved { command, flags, args })
    }
}

/// Adds to `out` the strings of `v` from `from` on.
pub fn append_from(out: &mut Vec<String>, v: &Vec<String>, from: usize)
    requires
        from <= v@.len(),
    ensures
        views_of(final(out)@) == views_of(old(out)@) + views_of(v@).skip(from as int),
{
    let ghost start = views_of(out@);
    let mut i: usize = from;
    proof {
        assert(views_of(out@) =~= start + views_of(v@).subrange(from as int, i as int));
    }
    while i < v.len()
        invariant
            from <= i <= v@.len(),
            views_of(out@) == start + views_of(v@).subrange(from as int, i as int),
        decreases v.len() - i,
    {
        let ghost before = views_of(out@);
        out.push(v[i].clone());
        proof {
            assert(views_of(out@) =~= before.push(v@[i as int]@));
            assert(views_of(out@) =~= start + views_of(v@).subrange(from as int, i + 1));
        }
        i += 1;
    }
    proof {
        assert(views_of(v@).subrange(from as int, v@.len() as int) =~= views_of(v@).skip(
            from as int,
        ));
    }
}

} // verus!
