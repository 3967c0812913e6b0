//! Keys, and the input scheme of a command line: what each key does to
//! the line through the cursor engine.

use crate::buffer::{
    chars_upto, is_start, lemma_counts_monotone, lemma_splice_boundary, lemma_splice_valid,
    on_boundary, spliced, MAX_LEN,
};
use crate::cfg::PrintCfg;
use crate::cursor::{
    clamp_add, count_lying_before, first_lying_after, inserted, inserted_all, merged_cursor,
    same_sels, Cursor,
};
use crate::edit::{moved_by, Diff};
use crate::file::{
    edit_batch, nth_moved, settled, spec_moved, Edit, EditView, File, Motion,
};
use crate::tags::TagEntry;
use crate::text::{char_start_from, lemma_snap, Text};
use vstd::prelude::*;
use vstd::utf8::{encode_utf8, valid_utf8};

verus! {

/// The key that was pressed.
#[derive(Clone, Copy, Debug, PartialEq, Eq, Structural)]
pub enum KeyCode {
    Char(char),
    Enter,
    Tab,
    Backspace,
    Delete,
    Esc,
    Up,
    Down,
    Left,
    Right,
    Home,
    End,
    PageUp,
    PageDown,
    /// A function key, by its number.
    F(u8),
    Insert,
}

/// The bit of the shift key among the modifiers.
pub const SHIFT: u8 = 0x01;

/// The bit of the control key among the modifiers.
pub const CONTROL: u8 = 0x02;

/// The bit of the alt key among the modifiers.
pub const ALT: u8 = 0x04;

/// The bit of the meta key among the modifiers.
pub const META: u8 = 0x20;

/// The modifiers that were held, as a set of bits.
#[derive(Clone, Copy, Debug, PartialEq, Eq, Structural)]
pub struct KeyMod {
    pub bits: u8,
}

impl KeyMod {
    /// No modifier.
    pub fn none() -> (r: Self)
        ensures
            r.bits == 0,
    {
        KeyMod { bits: 0 }
    }

    /// Whether no modifier was held.
    pub fn is_empty(&self) -> (r: bool)
        ensures
            r == (self.bits == 0),
    {
        self.bits == 0
    }

    /// Whether all the modifiers of `bits` were held.
    pub fn contains(&self, bits: u8) -> (r: bool)
        ensures
            r == (self.bits & bits == bits),
    {
        self.bits & bits == bits
    }

    /// These modifiers and those of `bits`.
    pub fn with(self, bits: u8) -> (r: Self)
        ensures
            r.bits == self.bits | bits,
    {
        KeyMod { bits: self.bits | bits }
    }
}

/// A key with the modifiers that were held.
#[derive(Clone, Copy, Debug, PartialEq, Eq, Structural)]
pub struct KeyEvent {
    pub code: KeyCode,
    pub modifiers: KeyMod,
}

impl KeyEvent {
    /// The event of a key with modifiers.
    pub fn new(code: KeyCode, modifiers: KeyMod) -> (r: Self)
        ensures
            r == (KeyEvent { code, modifiers }),
    {
        KeyEvent { code, modifiers }
    }
}

/// The keys that type the characters of a string, each with the given
/// modifiers.
pub fn key_events(s: &str, modifiers: KeyMod) -> (r: Vec<KeyEvent>)
    ensures
        r@.len() == s@.len(),
        forall|i: int|
            0 <= i < r@.len() ==> #[trigger] r@[i] == (KeyEvent {
                code: KeyCode::Char(s@[i]),
                modifiers,
            }),
{
    let n = s.unicode_len();
    let mut out: Vec<KeyEvent> = Vec::new();
    let mut i: usize = 0;
    while i < n
        invariant
            i <= n == s@.len(),
            out@.len() == i,
            forall|j: int|
                0 <= j < i ==> #[trigger] out@[j] == (KeyEvent {
                    code: KeyCode::Char(s@[j]),
                    modifiers,
                }),
        decreases n - i,
    {
        out.push(KeyEvent { code: KeyCode::Char(s.get_char(i)), modifiers });
        i += 1;
    }
    out
}

/// The number of characters of a string, counted on its bytes: those that
/// begin a character.
pub fn len_chars(s: &str) -> (r: usize)
    ensures
        r == crate::buffer::chars_upto(encode_utf8(s@), encode_utf8(s@).len() as int),
{
    let b = s.as_bytes();
    let mut n: usize = 0;
    let mut i: usize = 0;
    while i < b.len()
        invariant
            i <= b@.len(),
            b@ == encode_utf8(s@),
            n == crate::buffer::chars_upto(b@, i as int),
            n <= i,
        decreases b.len() - i,
    {
        if crate::buffer::byte_is_start(b[i]) {
            n += 1;
        }
        i += 1;
    }
    n
}

/// A bound of a range.
#[derive(Clone, Copy, Debug, PartialEq, Eq, Structural)]
pub enum Bound {
    Included(usize),
    Excluded(usize),
    Unbounded,
}

/// The ends of a range within `max`: where it begins, and the index after
/// its last one. A range without a bound begins at 0 and ends at `max`.
pub fn get_ends(start: Bound, end: Bound, max: usize) -> (r: (usize, usize))
    requires
        start matches Bound::Excluded(s) ==> s < usize::MAX,
        end matches Bound::Included(e) ==> e < usize::MAX,
    ensures
        r.0 == match start {
            Bound::Included(s) => s as int,
            Bound::Excluded(s) => s + 1,
            Bound::Unbounded => 0,
        },
        r.1 == match end {
            Bound::Included(e) => e + 1,
            Bound::Excluded(e) => e as int,
            Bound::Unbounded => max as int,
        },
{
    let s = match start {
        Bound::Included(s) => s,
        Bound::Excluded(s) => s + 1,
        Bound::Unbounded => 0,
    };
    let e = match end {
        Bound::Included(e) => e + 1,
        Bound::Excluded(e) => e,
        Bound::Unbounded => max,
    };
    (s, e)
}

/// What a key asked of the one who sent it.
#[derive(Clone, Copy, Debug, PartialEq, Eq, Structural)]
pub enum Sent {
    /// The command line goes on.
    Stay,
    /// The command line is done, and the file takes the keys again.
    ReturnToFile,
}

/// The input scheme of a command line.
#[derive(Clone, Copy, Debug, PartialEq, Eq, Structural)]
pub struct Commander {
    /// Whether the command line takes the keys.
    pub active: bool,
}

/// What a key does to a command line: whether it moves, and by how many
/// characters; whether it takes characters away, and on which side; what
/// it types; and whether the line is done.
#[derive(Clone, Copy, Debug, PartialEq, Eq, Structural)]
pub enum Action {
    /// Takes the character before the caret away.
    EraseBefore,
    /// Takes the character at the caret away.
    EraseAt,
    /// Types a character.
    Type(char),
    /// Moves the caret by so many characters, without a selection.
    Move(isize),
    /// Takes the whole line away, and the line is done.
    Abandon,
    /// The line is done.
    Accept,
    /// Nothing.
    Ignore,
}

/// What a key does to a command line. Backspace and delete take a
/// character away; a character, alone or with shift, is typed; the arrows
/// to the left and to the right move the caret; escape abandons the line
/// and enter accepts it; any other key does nothing.
pub open spec fn spec_action(key: KeyEvent) -> Action {
    if key.modifiers.bits == 0 {
        match key.code {
            KeyCode::Backspace => Action::EraseBefore,
            KeyCode::Delete => Action::EraseAt,
            KeyCode::Char(c) => Action::Type(c),
            KeyCode::Left => Action::Move(-1isize),
            KeyCode::Right => Action::Move(1isize),
            KeyCode::Esc => Action::Abandon,
            KeyCode::Enter => Action::Accept,
            _ => Action::Ignore,
        }
    } else if key.modifiers.bits == SHIFT {
        match key.code {
            KeyCode::Char(c) => Action::Type(c),
            _ => Action::Ignore,
        }
    } else {
        Action::Ignore
    }
}

/// What a key does to a command line.
pub fn action_of(key: KeyEvent) -> (r: Action)
    ensures
        r == spec_action(key),
{
    if key.modifiers.bits == 0 {
        match key.code {
            KeyCode::Backspace => Action::EraseBefore,
            KeyCode::Delete => Action::EraseAt,
            KeyCode::Char(c) => Action::Type(c),
            KeyCode::Left => Action::Move(-1),
            KeyCode::Right => Action::Move(1),
            KeyCode::Esc => Action::Abandon,
            KeyCode::Enter => Action::Accept,
            _ => Action::Ignore,
        }
    } else if key.modifiers.bits == SHIFT {
        match key.code {
            KeyCode::Char(c) => Action::Type(c),
            _ => Action::Ignore,
        }
    } else {
        Action::Ignore
    }
}

/// The `to_string` of std on a character: the string that holds it
/// alone.
#[verifier::external_body]
pub(crate) fn char_to_string(c: char) -> (r: String)
    ensures
        r@ == seq![c],
{
    c.to_string()
}

impl Commander {
    /// The input scheme of a command line that takes no keys yet.
    pub fn new() -> (r: Self)
        ensures
            !r.active,
    {
        Commander { active: false }
    }

    /// Takes away what lies between the caret of the main cursor and
    /// where it reaches by `n` characters: the character before it if `n`
    /// is -1, the one at it if `n` is 1.
    pub fn erase(line: &mut File, n: isize)
        requires
            old(line).wf(),
        ensures
            final(line).wf(),
            final(line).cfg == old(line).cfg,
            final(line).print_info == old(line).print_info,
            final(line).text.bytes().len() <= old(line).text.bytes().len(),
            old(line).cursors.list@.len() == 0 ==> final(line).text.bytes() == old(line).text.bytes(),
            old(line).cursors.list@.len() == 1 ==> erased(
                old(line).text.bytes(),
                old(line).cursors.list@[0],
                n,
                final(line).text.bytes(),
                final(line).cursors.list@,
            ),
    {
        if line.cursors.len() == 0 {
            return ;
        }
        let ghost alone = line.cursors.list@.len() == 1;
        let ghost bytes = line.text.bytes();
        let ghost c0 = line.cursors.list@[0];
        Commander::select_by(line, n);
        let ghost c2 = line.cursors.list@[0];
        proof {
            if alone {
                lemma_char_start_bounds(
                    bytes,
                    0,
                    clamp_add(c0.caret.ch, n, chars_upto(bytes, bytes.len() as int) as usize) as nat,
                );
                assert(c2.start_byte() == erase_range(bytes, c0, n).0);
                assert(c2.end_byte() == erase_range(bytes, c0, n).1);
            }
        }
        Commander::take_selection(line);
        let ghost c3 = line.cursors.list@[0];
        proof {
            if alone {
                assert(line.cursors.list@ =~= seq![c3]);
                lemma_alone_moved(c3, Motion::UnsetAnchor, line.text, line.cfg);
            }
        }
        if line.cursors.len() > 0 {
            line.move_main(&Motion::UnsetAnchor);
        }
    }

    /// Selects with the main cursor what lies between its caret and where
    /// it reaches by `n` characters.
    pub fn select_by(line: &mut File, n: isize)
        requires
            old(line).wf(),
        ensures
            final(line).wf(),
            final(line).cfg == old(line).cfg,
            final(line).print_info == old(line).print_info,
            final(line).history == old(line).history,
            final(line).text.bytes() == old(line).text.bytes(),
            old(line).cursors.list@.len() == 1 ==> {
                &&& final(line).cursors.list@.len() == 1
                &&& final(line).cursors.list@[0].caret.byte == hor_target(
                    old(line).text.bytes(),
                    old(line).cursors.list@[0].caret.ch,
                    n,
                )
                &&& final(line).cursors.list@[0].anchor == Some(old(line).cursors.list@[0].caret)
            },
    {
        let ghost alone = line.cursors.list@.len() == 1;
        let ghost bytes = line.text.bytes();
        let ghost c0 = line.cursors.list@[0];
        proof {
            if alone {
                assert(line.cursors.list@ =~= seq![c0]);
                lemma_alone_moved(c0, Motion::SetAnchor, line.text, line.cfg);
            }
        }
        if line.cursors.len() > 0 {
            line.move_main(&Motion::SetAnchor);
        }
        let ghost c1 = line.cursors.list@[0];
        proof {
            if alone {
                assert(line.cursors.list@ =~= seq![c1]);
                lemma_alone_moved(c1, Motion::Hor(n), line.text, line.cfg);
                lemma_char_start_bounds(
                    bytes,
                    0,
                    clamp_add(c0.caret.ch, n, chars_upto(bytes, bytes.len() as int) as usize) as nat,
                );
            }
        }
        if line.cursors.len() > 0 {
            line.move_main(&Motion::Hor(n));
        }
    }

    /// Replaces the selection of the main cursor by nothing.
    pub fn take_selection(line: &mut File)
        requires
            old(line).wf(),
        ensures
            final(line).wf(),
            final(line).cfg == old(line).cfg,
            final(line).print_info == old(line).print_info,
            final(line).text.bytes().len() <= old(line).text.bytes().len(),
            old(line).cursors.list@.len() == 0 ==> final(line).text.bytes() == old(line).text.bytes(),
            old(line).cursors.list@.len() > 0 ==> ({
                let b = edit_batch(
                    old(line).text.bytes(),
                    old(line).plain_tags(),
                    old(line).cursors.list@,
                    0,
                    old(line).cursors.main as int,
                    old(line).cursors.main + 1,
                    0,
                    EditView { bytes: Seq::empty(), replace: true },
                );
                let cs = inserted_all(
                    Seq::empty(),
                    0,
                    settled(b.cursors, b.bytes, old(line).cursors.main),
                );
                &&& final(line).text.bytes() == b.bytes
                &&& same_sels(final(line).cursors.list@, cs.0)
                &&& final(line).cursors.main == cs.1
            }),
            old(line).cursors.list@.len() == 1 ==> {
                &&& final(line).text.bytes() == spliced(
                    old(line).text.bytes(),
                    old(line).cursors.list@[0].start_byte() as int,
                    old(line).cursors.list@[0].end_byte() as int,
                    Seq::empty(),
                )
                &&& final(line).cursors.list@.len() == 1
                &&& final(line).cursors.list@[0].caret.byte == old(line).cursors.list@[0].start_byte()
            },
    {
        if line.cursors.len() > 0 {
            let empty = Edit::Replace(String::new());
            proof {
                assert(empty@.bytes =~= Seq::<u8>::empty());
                assert(empty@ == EditView { bytes: Seq::empty(), replace: true });
                lemma_erase_shrinks(
                    line.text.bytes(),
                    line.plain_tags(),
                    line.cursors.list@,
                    0,
                    line.cursors.main as int,
                    line.cursors.main + 1,
                    0,
                );
                if line.cursors.list@.len() == 1 {
                    let c = line.cursors.list@[0];
                    assert(line.cursors.list@ =~= seq![c]);
                    assert(c.wf_in(line.text.bytes()));
                    lemma_alone_edit(line.text.bytes(), line.plain_tags(), c, empty@);
                }
            }
            line.edit_on_main(&empty);
        }
    }

    /// Types a character at the caret of the main cursor, if there is a
    /// cursor and the line has room for four bytes more.
    pub fn type_char(line: &mut File, c: char)
        requires
            old(line).wf(),
        ensures
            final(line).wf(),
            final(line).cfg == old(line).cfg,
            final(line).print_info == old(line).print_info,
            old(line).cursors.list@.len() > 0 && old(line).text.bytes().len() + 4 <= MAX_LEN
                ==> final(line).text.bytes() == edit_batch(
                old(line).text.bytes(),
                old(line).plain_tags(),
                old(line).cursors.list@,
                0,
                old(line).cursors.main as int,
                old(line).cursors.main + 1,
                0,
                EditView { bytes: encode_utf8(seq![c]), replace: false },
            ).bytes,
            !(old(line).cursors.list@.len() > 0 && old(line).text.bytes().len() + 4 <= MAX_LEN)
                ==> final(line).text.bytes() == old(line).text.bytes(),
            old(line).cursors.list@.len() == 1 && old(line).text.bytes().len() + 4 <= MAX_LEN
                ==> typed(
                old(line).text.bytes(),
                old(line).cursors.list@[0],
                c,
                final(line).text.bytes(),
                final(line).cursors.list@,
            ),
    {
        if line.cursors.len() > 0 && line.text.len_bytes() + 4 <= MAX_LEN {
            let s = char_to_string(c);
            proof {
                lemma_char_bytes(c);
                vstd::utf8::encode_utf8_valid_utf8(seq![c]);
                if line.cursors.list@.len() == 1 {
                    let cur = line.cursors.list@[0];
                    assert(line.cursors.list@ =~= seq![cur]);
                    assert(cur.wf_in(line.text.bytes()));
                    lemma_alone_edit(
                        line.text.bytes(),
                        line.plain_tags(),
                        cur,
                        EditView { bytes: encode_utf8(seq![c]), replace: false },
                    );
                }
            }
            line.edit_on_main(&Edit::Insert(s));
        }
    }

    /// Moves the caret of the main cursor by `n` characters, without a
    /// selection.
    pub fn move_caret(line: &mut File, n: isize)
        requires
            old(line).wf(),
        ensures
            final(line).wf(),
            final(line).cfg == old(line).cfg,
            final(line).print_info == old(line).print_info,
            final(line).history == old(line).history,
            final(line).text.bytes() == old(line).text.bytes(),
            old(line).cursors.list@.len() == 1 ==> {
                &&& final(line).cursors.list@.len() == 1
                &&& final(line).cursors.list@[0].caret.byte == hor_target(
                    old(line).text.bytes(),
                    old(line).cursors.list@[0].caret.ch,
                    n,
                )
                &&& final(line).cursors.list@[0].anchor is None
            },
    {
        let ghost alone = line.cursors.list@.len() == 1;
        let ghost bytes = line.text.bytes();
        let ghost c0 = line.cursors.list@[0];
        proof {
            if alone {
                assert(line.cursors.list@ =~= seq![c0]);
                lemma_alone_moved(c0, Motion::UnsetAnchor, line.text, line.cfg);
            }
        }
        if line.cursors.len() > 0 {
            line.move_main(&Motion::UnsetAnchor);
        }
        let ghost c1 = line.cursors.list@[0];
        proof {
            if alone {
                assert(line.cursors.list@ =~= seq![c1]);
                lemma_alone_moved(c1, Motion::Hor(n), line.text, line.cfg);
                lemma_char_start_bounds(
                    bytes,
                    0,
                    clamp_add(c0.caret.ch, n, chars_upto(bytes, bytes.len() as int) as usize) as nat,
                );
            }
        }
        if line.cursors.len() > 0 {
            line.move_main(&Motion::Hor(n));
        }
    }

    /// Takes the whole line away.
    pub fn abandon(line: &mut File)
        requires
            old(line).wf(),
        ensures
            final(line).wf(),
            final(line).cfg == old(line).cfg,
            final(line).print_info == old(line).print_info,
            final(line).text.bytes().len() <= old(line).text.bytes().len(),
            old(line).cursors.list@.len() == 0 ==> final(line).text.bytes() == old(line).text.bytes(),
            old(line).cursors.list@.len() == 1 ==> {
                &&& final(line).text.bytes().len() == 0
                &&& final(line).cursors.list@.len() == 1
                &&& final(line).cursors.list@[0].caret.byte == 0
            },
    {
        if line.cursors.len() == 0 {
            return ;
        }
        let ghost alone = line.cursors.list@.len() == 1;
        let ghost bytes = line.text.bytes();
        let ghost len_chars = chars_upto(bytes, bytes.len() as int);
        let ghost c0 = line.cursors.list@[0];
        proof {
            if alone {
                assert(line.cursors.list@ =~= seq![c0]);
                lemma_alone_moved(c0, Motion::Hor(isize::MIN), line.text, line.cfg);
                assert(c0.wf_in(bytes));
                lemma_counts_monotone(bytes, 0, bytes.len() as int);
                lemma_counts_monotone(bytes, c0.caret.byte as int, bytes.len() as int);
                lemma_counts_monotone(bytes, 0, c0.caret.byte as int);
                crate::buffer::lemma_valid_starts_with_start(bytes);
                assert(clamp_add(c0.caret.ch, isize::MIN, len_chars as usize) == 0);
                assert(char_start_from(bytes, 0, 0) == 0);
            }
        }
        line.move_main(&Motion::Hor(isize::MIN));
        let ghost c1 = line.cursors.list@[0];
        proof {
            if alone {
                assert(line.cursors.list@ =~= seq![c1]);
                assert(c1.caret.byte == 0);
                lemma_alone_moved(c1, Motion::SetAnchor, line.text, line.cfg);
            }
        }
        if line.cursors.len() > 0 {
            line.move_main(&Motion::SetAnchor);
        }
        let ghost c2 = line.cursors.list@[0];
        proof {
            if alone {
                assert(line.cursors.list@ =~= seq![c2]);
                lemma_alone_moved(c2, Motion::Hor(isize::MAX), line.text, line.cfg);
                assert(c2.caret.ch == 0);
                assert(clamp_add(0, isize::MAX, len_chars as usize) == len_chars);
                lemma_char_start_last(bytes, 0, len_chars);
            }
        }
        if line.cursors.len() > 0 {
            line.move_main(&Motion::Hor(isize::MAX));
        }
        let ghost c3 = line.cursors.list@[0];
        proof {
            if alone {
                assert(line.cursors.list@ =~= seq![c3]);
                assert(c3.caret.byte == bytes.len());
                assert(c3.anchor.unwrap().byte == 0);
                assert(spliced(bytes, 0, bytes.len() as int, Seq::empty()) =~= Seq::<u8>::empty());
            }
        }
        Commander::take_selection(line);
    }

    /// Takes a key for the command line `line`. The key acts on the main
    /// cursor, as `spec_action` says; escape and enter give the keys back
    /// to the file. A line without a cursor, or one that is full, takes
    /// no key in.
    pub fn send_key(&mut self, key: KeyEvent, line: &mut File) -> (r: Sent)
        requires
            old(line).wf(),
        ensures
            final(line).wf(),
            final(line).cfg == old(line).cfg,
            final(line).print_info == old(line).print_info,
            r == match spec_action(key) {
                Action::Abandon => Sent::ReturnToFile,
                Action::Accept => Sent::ReturnToFile,
                _ => Sent::Stay,
            },
            final(self).active == (r == Sent::Stay),
            old(line).cursors.list@.len() == 0 ==> final(line).text.bytes() == old(line).text.bytes(),
            match spec_action(key) {
                Action::Move(_) => final(line).text.bytes() == old(line).text.bytes() && final(line).history == old(line).history,
                Action::Accept => *final(line) == *old(line),
                Action::Ignore => *final(line) == *old(line),
                Action::Type(c) => old(line).cursors.list@.len() > 0 && old(line).text.bytes().len()
                    + 4 <= MAX_LEN ==> final(line).text.bytes() == edit_batch(
                    old(line).text.bytes(),
                    old(line).plain_tags(),
                    old(line).cursors.list@,
                    0,
                    old(line).cursors.main as int,
                    old(line).cursors.main + 1,
                    0,
                    EditView { bytes: encode_utf8(seq![c]), replace: false },
                ).bytes,
                _ => final(line).text.bytes().len() <= old(line).text.bytes().len(),
            },
            old(line).cursors.list@.len() == 1 ==> match spec_action(key) {
                Action::EraseBefore => erased(
                    old(line).text.bytes(),
                    old(line).cursors.list@[0],
                    -1isize,
                    final(line).text.bytes(),
                    final(line).cursors.list@,
                ),
                Action::EraseAt => erased(
                    old(line).text.bytes(),
                    old(line).cursors.list@[0],
                    1isize,
                    final(line).text.bytes(),
                    final(line).cursors.list@,
                ),
                Action::Type(c) => old(line).text.bytes().len() + 4 <= MAX_LEN ==> typed(
                    old(line).text.bytes(),
                    old(line).cursors.list@[0],
                    c,
                    final(line).text.bytes(),
                    final(line).cursors.list@,
                ),
                Action::Move(n) => {
                    &&& final(line).cursors.list@.len() == 1
                    &&& final(line).cursors.list@[0].caret.byte == hor_target(
                        old(line).text.bytes(),
                        old(line).cursors.list@[0].caret.ch,
                        n,
                    )
                    &&& final(line).cursors.list@[0].anchor is None
                },
                Action::Abandon => {
                    &&& final(line).text.bytes().len() == 0
                    &&& final(line).cursors.list@.len() == 1
                    &&& final(line).cursors.list@[0].caret.byte == 0
                },
                _ => true,
            },
    {
        let action = action_of(key);
        match action {
            Action::EraseBefore => {
                Commander::erase(line, -1);
                self.active = true;
                Sent::Stay
            },
            Action::EraseAt => {
                Commander::erase(line, 1);
                self.active = true;
                Sent::Stay
            },
            Action::Type(c) => {
                Commander::type_char(line, c);
                self.active = true;
                Sent::Stay
            },
            Action::Move(n) => {
                Commander::move_caret(line, n);
                self.active = true;
                Sent::Stay
            },
            Action::Abandon => {
                Commander::abandon(line);
                self.active = false;
                Sent::ReturnToFile
            },
            Action::Accept => {
                self.active = false;
                Sent::ReturnToFile
            },
            Action::Ignore => {
                self.active = true;
                Sent::Stay
            },
        }
    }
}

/// Whether `new` and `list` are the bytes and the cursors of a line whose
/// only cursor `c` took away what lay between its caret and where it
/// reached by `n` characters: that range is gone, and the cursor stands
/// where it began, without a selection.
pub open spec fn erased(bytes: Seq<u8>, c: Cursor, n: isize, new: Seq<u8>, list: Seq<Cursor>) -> bool {
    let r = erase_range(bytes, c, n);
    &&& new == spliced(bytes, r.0, r.1, Seq::empty())
    &&& list.len() == 1
    &&& list[0].caret.byte == r.0
    &&& list[0].anchor is None
}

/// Whether `new` and `list` are the bytes and the cursors of a line whose
/// only cursor `c` typed the character `ch`: its bytes stand where the
/// caret was, and the caret behind them.
pub open spec fn typed(bytes: Seq<u8>, c: Cursor, ch: char, new: Seq<u8>, list: Seq<Cursor>) -> bool {
    &&& new == spliced(bytes, c.caret.byte as int, c.caret.byte as int, encode_utf8(seq![ch]))
    &&& list.len() == 1
    &&& list[0].caret.byte == c.caret.byte + encode_utf8(seq![ch]).len()
}

/// From a character on that the text does not have, there is no
/// character to begin: the search ends at the end of the text.
pub proof fn lemma_char_start_last(bytes: Seq<u8>, i: int, c: nat)
    requires
        0 <= i <= bytes.len(),
        c >= chars_upto(bytes, bytes.len() as int) - chars_upto(bytes, i),
    ensures
        char_start_from(bytes, i, c) == bytes.len(),
    decreases bytes.len() - i,
{
    if i < bytes.len() {
        lemma_counts_monotone(bytes, i + 1, bytes.len() as int);
        if is_start(bytes[i]) {
            assert(chars_upto(bytes, i + 1) == chars_upto(bytes, i) + 1);
            lemma_char_start_last(bytes, i + 1, (c - 1) as nat);
        } else {
            assert(chars_upto(bytes, i + 1) == chars_upto(bytes, i));
            lemma_char_start_last(bytes, i + 1, c);
        }
    }
}

/// The offset that a caret at the character `ch` reaches when it moves
/// by `n` characters.
pub open spec fn hor_target(bytes: Seq<u8>, ch: usize, n: isize) -> int {
    char_start_from(
        bytes,
        0,
        clamp_add(ch, n, chars_upto(bytes, bytes.len() as int) as usize) as nat,
    )
}

/// The range that goes when a caret takes away what lies between it and
/// where it reaches by `n` characters.
pub open spec fn erase_range(bytes: Seq<u8>, c: Cursor, n: isize) -> (int, int) {
    let t = hor_target(bytes, c.caret.ch, n);
    if t < c.caret.byte {
        (t, c.caret.byte as int)
    } else {
        (c.caret.byte as int, t)
    }
}

/// The character of an index begins within the text, or at its end.
pub proof fn lemma_char_start_bounds(bytes: Seq<u8>, i: int, c: nat)
    requires
        0 <= i <= bytes.len(),
    ensures
        i <= char_start_from(bytes, i, c) <= bytes.len(),
    decreases bytes.len() - i,
{
    if i < bytes.len() {
        if is_start(bytes[i]) {
            if c > 0 {
                lemma_char_start_bounds(bytes, i + 1, (c - 1) as nat);
            }
        } else {
            lemma_char_start_bounds(bytes, i + 1, c);
        }
    }
}

/// One cursor that is put in among none stands alone, and is the main
/// one.
pub proof fn lemma_alone_inserted(c: Cursor, was_main: bool)
    ensures
        inserted_all(Seq::empty(), 0, seq![(c, was_main)]) == (seq![c], 0usize),
{
    let cs = seq![(c, was_main)];
    let none = Seq::<Cursor>::empty();
    assert(cs.drop_last() =~= Seq::<(Cursor, bool)>::empty());
    assert(inserted_all(none, 0, cs.drop_last()) == (none, 0usize));
    assert(cs.last() == (c, was_main));
    assert(inserted_all(none, 0, cs) == inserted(none, 0, was_main, c));
    assert(count_lying_before(none, c.start_byte(), 0) == 0);
    assert(first_lying_after(none, c.start_byte(), c.end_byte(), 0) == 0);
    assert(none.take(0).push(merged_cursor(none, 0, 0, c)) + none.skip(0) =~= seq![c]);
}

/// A motion of a cursor that stands alone leaves it alone.
pub proof fn lemma_alone_moved(c: Cursor, m: Motion, text: Text, cfg: PrintCfg)
    ensures
        inserted_all(Seq::empty(), 0, nth_moved(seq![c], 0, 0, m, text, cfg)) == (
            seq![spec_moved(c, m, text, cfg)],
            0usize,
        ),
{
    assert(nth_moved(seq![c], 0, 0, m, text, cfg) =~= seq![(spec_moved(c, m, text, cfg), true)]);
    lemma_alone_inserted(spec_moved(c, m, text, cfg), true);
}

/// An edit on a cursor that stands alone: the bytes that it gives, and
/// where the caret stands afterwards.
pub proof fn lemma_alone_edit(bytes: Seq<u8>, tags: Seq<TagEntry>, c: Cursor, e: EditView)
    requires
        valid_utf8(bytes),
        valid_utf8(e.bytes),
        c.wf_in(bytes),
        bytes.len() + e.bytes.len() <= MAX_LEN,
    ensures
        ({
            let b = edit_batch(bytes, tags, seq![c], 0, 0, 1, 0, e);
            let cs = inserted_all(Seq::empty(), 0, settled(b.cursors, b.bytes, 0));
            &&& b.bytes == e.spec_bytes_after(bytes, c)
            &&& cs.1 == 0
            &&& cs.0.len() == 1
            &&& cs.0[0].caret.byte == e.start(c) + e.bytes.len()
        }),
{
    let list = seq![c];
    let shifted = (Diff { bytes: 0, changes: 0 }).spec_shifted(c, bytes);
    lemma_snap(bytes, c.caret.byte as int);
    assert(moved_by(c.caret.byte, 0) == c.caret.byte);
    assert(shifted.caret == c.caret);
    if let Some(a) = c.anchor {
        lemma_snap(bytes, a.byte as int);
        assert(moved_by(a.byte, 0) == a.byte);
    }
    assert(shifted == c);
    let new = e.spec_bytes_after(bytes, c);
    let start = e.start(c);
    let end = start + e.taken(c);
    let rest = edit_batch(
        new,
        e.spec_tags_after(tags, c),
        list,
        1,
        0,
        1,
        (0 + e.bytes.len() - e.taken(c)) as isize,
        e,
    );
    assert(rest.cursors =~= Seq::<Cursor>::empty());
    assert(rest.bytes == new);
    let b = edit_batch(bytes, tags, list, 0, 0, 1, 0, e);
    let cur = Cursor {
        caret: e.spec_caret_after(bytes, c),
        anchor: e.spec_anchor_after(bytes, c),
        ..c
    };
    assert(b.cursors =~= seq![cur]);
    assert(b.bytes == new);
    let after = (Diff { bytes: 0, changes: 0 }).spec_shifted(cur, new);
    assert(settled(b.cursors, new, 0) =~= seq![(after, true)]);
    lemma_alone_inserted(after, true);
    assert(on_boundary(bytes, start) && on_boundary(bytes, end) && start <= end) by {
        if let Some(a) = c.anchor {
        }
    }
    lemma_splice_boundary(bytes, start, end, e.bytes, end);
    lemma_splice_valid(bytes, start, end, e.bytes);
    assert(on_boundary(new, start + e.bytes.len()));
    lemma_snap(new, start + e.bytes.len());
    assert(cur.caret.byte == start + e.bytes.len());
    assert(moved_by(cur.caret.byte, 0) == cur.caret.byte);
    assert(after.caret.byte == start + e.bytes.len());
}

/// An edit that replaces selections by nothing makes a text no longer.
pub proof fn lemma_erase_shrinks(
    bytes: Seq<u8>,
    tags: Seq<crate::tags::TagEntry>,
    list: Seq<crate::cursor::Cursor>,
    k: int,
    lo: int,
    hi: int,
    d: isize,
)
    ensures
        edit_batch(
            bytes,
            tags,
            list,
            k,
            lo,
            hi,
            d,
            crate::file::EditView { bytes: Seq::empty(), replace: true },
        ).bytes.len() <= bytes.len(),
    decreases list.len() - k,
{
    let e = crate::file::EditView { bytes: Seq::<u8>::empty(), replace: true };
    if 0 <= k < list.len() {
        let c = (crate::edit::Diff { bytes: d, changes: 0 }).spec_shifted(list[k], bytes);
        if lo <= k < hi {
            let next = e.spec_bytes_after(bytes, c);
            crate::text::lemma_snap_bounds(bytes, crate::edit::moved_by(list[k].caret.byte, d) as int);
            if let Some(a) = list[k].anchor {
                crate::text::lemma_snap_bounds(bytes, crate::edit::moved_by(a.byte, d) as int);
            }
            assert(0 <= c.start_byte() <= c.end_byte() <= bytes.len());
            assert(next.len() <= bytes.len());
            lemma_erase_shrinks(
                next,
                e.spec_tags_after(tags, c),
                list,
                k + 1,
                lo,
                hi,
                (d + e.bytes.len() - e.taken(c)) as isize,
            );
        } else {
            lemma_erase_shrinks(bytes, tags, list, k + 1, lo, hi, d);
        }
    }
}

/// A character takes at most four bytes.
pub proof fn lemma_char_bytes(c: char)
    ensures
        encode_utf8(seq![c]).len() <= 4,
{
    let s = seq![c];
    assert(s.drop_first() =~= Seq::<char>::empty());
    assert(encode_utf8(s) == vstd::utf8::encode_scalar(c as u32) + encode_utf8(s.drop_first()));
    assert(encode_utf8(s.drop_first()).len() == 0);
}

} // verus!
