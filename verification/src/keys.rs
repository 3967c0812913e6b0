//! Keys written as text: plain characters stand for themselves, and a
//! name between `<` and `>`, with or without modifiers before a hyphen,
//! stands for a key.

use crate::input::{KeyCode, KeyEvent, KeyMod, ALT, CONTROL, META, SHIFT};
use vstd::prelude::*;

verus! {

/// The named result of `char::is_lowercase`: whether a character has the
/// Unicode property `Lowercase`.
pub uninterp spec fn is_lowercase(c: char) -> bool;

/// The named result of `char::is_uppercase`: whether a character has the
/// Unicode property `Uppercase`.
pub uninterp spec fn is_uppercase(c: char) -> bool;

/// `char::is_lowercase` of std. Of the ASCII characters the letters from
/// `a` to `z` are lowercase and no others.
#[verifier::external_body]
pub(crate) fn char_is_lowercase(c: char) -> (r: bool)
    ensures
        r == is_lowercase(c),
        c <= '\x7f' ==> r == ('a' <= c && c <= 'z'),
{
    c.is_lowercase()
}

/// `char::is_uppercase` of std. Of the ASCII characters the letters from
/// `A` to `Z` are uppercase and no others.
#[verifier::external_body]
pub(crate) fn char_is_uppercase(c: char) -> (r: bool)
    ensures
        r == is_uppercase(c),
        c <= '\x7f' ==> r == ('A' <= c && c <= 'Z'),
{
    c.is_uppercase()
}

/// The key that types `c`, without modifiers.
pub open spec fn plain_key(c: char) -> KeyEvent {
    KeyEvent { code: KeyCode::Char(c), modifiers: KeyMod { bits: 0 } }
}

/// The keys that type the characters of `s`, without modifiers.
pub open spec fn plain_keys(s: Seq<char>) -> Seq<KeyEvent>
    decreases s.len(),
{
    if s.len() == 0 {
        Seq::empty()
    } else {
        plain_keys(s.drop_last()).push(plain_key(s.last()))
    }
}

/// Where the piece that begins at `i` ends: after the first `<` or `>`
/// from there on, or at the end of `s`.
pub open spec fn piece_end(s: Seq<char>, i: int) -> int
    decreases s.len() - i,
{
    if i < 0 || i >= s.len() {
        s.len() as int
    } else if s[i] == '<' || s[i] == '>' {
        i + 1
    } else {
        piece_end(s, i + 1)
    }
}

/// The index of the first hyphen of `s` from `i` on, or the length of `s`
/// where there is none.
pub open spec fn dash_from(s: Seq<char>, i: int) -> int
    decreases s.len() - i,
{
    if i < 0 || i >= s.len() {
        s.len() as int
    } else if s[i] == '-' {
        i
    } else {
        dash_from(s, i + 1)
    }
}

/// How often `c` occurs among the first `n` characters of `s`.
pub open spec fn occurrences(s: Seq<char>, c: char, n: int) -> nat
    decreases n,
{
    if n <= 0 || n > s.len() {
        0
    } else {
        occurrences(s, c, n - 1) + if s[n - 1] == c {
            1nat
        } else {
            0nat
        }
    }
}

/// Whether `c` is the letter of a modifier.
pub open spec fn is_mod_letter(c: char) -> bool {
    c == 'C' || c == 'A' || c == 'S' || c == 'M'
}

/// Whether `s` names modifiers: it is not empty, holds the letters of
/// modifiers only, and none of them twice.
pub open spec fn good_mods(s: Seq<char>) -> bool {
    &&& s.len() > 0
    &&& forall|i: int| 0 <= i < s.len() ==> is_mod_letter(#[trigger] s[i])
    &&& occurrences(s, 'C', s.len() as int) <= 1
    &&& occurrences(s, 'A', s.len() as int) <= 1
    &&& occurrences(s, 'S', s.len() as int) <= 1
    &&& occurrences(s, 'M', s.len() as int) <= 1
}

/// The bit `bit` if `c` occurs in `s`, and no bit otherwise.
pub open spec fn bit_of(s: Seq<char>, c: char, bit: u8) -> u8 {
    if occurrences(s, c, s.len() as int) > 0 {
        bit
    } else {
        0
    }
}

/// The modifiers whose letters occur in `s`.
pub open spec fn mods_of(s: Seq<char>) -> KeyMod {
    KeyMod {
        bits: bit_of(s, 'C', CONTROL) | bit_of(s, 'A', ALT) | bit_of(s, 'S', SHIFT) | bit_of(
            s,
            'M',
            META,
        ),
    }
}

/// The key that a name stands for, if it is the name of a key.
pub open spec fn named_key(name: Seq<char>) -> Option<KeyCode> {
    if name == "Enter"@ {
        Some(KeyCode::Enter)
    } else if name == "Tab"@ {
        Some(KeyCode::Tab)
    } else if name == "Backspace"@ {
        Some(KeyCode::Backspace)
    } else if name == "Del"@ {
        Some(KeyCode::Delete)
    } else if name == "Esc"@ {
        Some(KeyCode::Esc)
    } else if name == "Up"@ {
        Some(KeyCode::Up)
    } else if name == "Down"@ {
        Some(KeyCode::Down)
    } else if name == "Left"@ {
        Some(KeyCode::Left)
    } else if name == "Right"@ {
        Some(KeyCode::Right)
    } else if name == "PageUp"@ {
        Some(KeyCode::PageUp)
    } else if name == "PageDown"@ {
        Some(KeyCode::PageDown)
    } else if name == "Home"@ {
        Some(KeyCode::Home)
    } else if name == "End"@ {
        Some(KeyCode::End)
    } else if name == "Insert"@ {
        Some(KeyCode::Insert)
    } else if name == "F1"@ {
        Some(KeyCode::F(1))
    } else if name == "F2"@ {
        Some(KeyCode::F(2))
    } else if name == "F3"@ {
        Some(KeyCode::F(3))
    } else if name == "F4"@ {
        Some(KeyCode::F(4))
    } else if name == "F5"@ {
        Some(KeyCode::F(5))
    } else if name == "F6"@ {
        Some(KeyCode::F(6))
    } else if name == "F7"@ {
        Some(KeyCode::F(7))
    } else if name == "F8"@ {
        Some(KeyCode::F(8))
    } else if name == "F9"@ {
        Some(KeyCode::F(9))
    } else if name == "F10"@ {
        Some(KeyCode::F(10))
    } else if name == "F11"@ {
        Some(KeyCode::F(11))
    } else if name == "F12"@ {
        Some(KeyCode::F(12))
    } else {
        None
    }
}

/// The key that `name` stands for: a named key; or the character that is
/// the whole name, where it is a lowercase one, or an uppercase one with
/// shift held.
pub open spec fn code_of(name: Seq<char>, shift: bool) -> Option<KeyCode> {
    match named_key(name) {
        Some(code) => Some(code),
        None => if name.len() == 1 && (is_lowercase(name[0]) || (is_uppercase(name[0]) && shift)) {
            Some(KeyCode::Char(name[0]))
        } else {
            None
        },
    }
}

/// The keys of what stood between a `<` and the `>` with which `piece`
/// ends. With a hyphen, what stands before the first one names the
/// modifiers, and what stands between it and the next one names the key;
/// without one, all but the `>` names the key. Where the modifiers are
/// none, the keys are those that type `<` and the letters before the
/// hyphen; where the name is that of no key, those that type `<` and the
/// whole piece.
pub open spec fn special_keys(piece: Seq<char>) -> Seq<KeyEvent> {
    let trimmed = piece.drop_last();
    let d = dash_from(trimmed, 0);
    let open = seq![plain_key('<')];
    if d < trimmed.len() {
        let mods = trimmed.take(d);
        let rest = trimmed.skip(d + 1);
        let name = rest.take(dash_from(rest, 0));
        if !good_mods(mods) {
            open + plain_keys(mods)
        } else {
            match code_of(name, occurrences(mods, 'S', mods.len() as int) > 0) {
                Some(code) => seq![KeyEvent { code, modifiers: mods_of(mods) }],
                None => open + plain_keys(piece),
            }
        }
    } else {
        match code_of(trimmed, false) {
            Some(code) => seq![KeyEvent { code, modifiers: KeyMod { bits: 0 } }],
            None => open + plain_keys(piece),
        }
    }
}

/// The keys that `s` stands for from `i` on, where `special` says whether
/// a `<` is open. Outside of one, the characters up to the next `<` type
/// themselves. Inside of one, what ends with `>` is read as a key, and
/// what ends otherwise is left out.
pub open spec fn keys_from(s: Seq<char>, i: int, special: bool) -> Seq<KeyEvent>
    decreases s.len() - i,
{
    if i < 0 || i >= s.len() {
        Seq::empty()
    } else {
        let e = piece_end(s, i);
        let piece = s.subrange(i, e);
        if e <= i || e > s.len() {
            Seq::empty()
        } else if !special {
            if piece.last() == '<' {
                plain_keys(piece.drop_last()) + keys_from(s, e, true)
            } else {
                plain_keys(piece) + keys_from(s, e, false)
            }
        } else if piece.last() == '>' {
            special_keys(piece) + keys_from(s, e, false)
        } else {
            keys_from(s, e, true)
        }
    }
}

/// The characters of a string.
pub fn chars_of(s: &str) -> (r: Vec<char>)
    ensures
        r@ == s@,
{
    let n = s.unicode_len();
    let mut out: Vec<char> = Vec::new();
    let mut i: usize = 0;
    while i < n
        invariant
            i <= n == s@.len(),
            out@ == s@.take(i as int),
        decreases n - i,
    {
        out.push(s.get_char(i));
        assert(s@.take(i + 1) =~= s@.take(i as int).push(s@[i as int]));
        i += 1;
    }
    assert(s@.take(n as int) =~= s@);
    out
}

/// The characters of `v` from `lo` up to `hi`.
pub fn chars_between(v: &Vec<char>, lo: usize, hi: usize) -> (r: Vec<char>)
    requires
        lo <= hi <= v@.len(),
    ensures
        r@ == v@.subrange(lo as int, hi as int),
{
    let mut out: Vec<char> = Vec::new();
    let mut i: usize = lo;
    while i < hi
        invariant
            lo <= i <= hi <= v@.len(),
            out@ == v@.subrange(lo as int, i as int),
        decreases hi - i,
    {
        out.push(v[i]);
        assert(v@.subrange(lo as int, i + 1) =~= v@.subrange(lo as int, i as int).push(
            v@[i as int],
        ));
        i += 1;
    }
    out
}

/// Whether the characters of `v` are those of `word`.
pub fn is_word(v: &Vec<char>, word: &str) -> (r: bool)
    ensures
        r == (v@ == word@),
{
    let n = word.unicode_len();
    if v.len() != n {
        return false;
    }
    let mut i: usize = 0;
    while i < n
        invariant
            i <= n == word@.len(),
            v@.len() == n,
            forall|j: int| 0 <= j < i ==> v@[j] == word@[j],
        decreases n - i,
    {
        if v[i] != word.get_char(i) {
            return false;
        }
        i += 1;
    }
    assert(v@ =~= word@);
    true
}

/// Adds to `keys` those that type the characters of `v`.
pub fn push_plain(keys: &mut Vec<KeyEvent>, v: &Vec<char>)
    ensures
        final(keys)@ == old(keys)@ + plain_keys(v@),
{
    let ghost start = keys@;
    let mut i: usize = 0;
    assert(keys@ =~= start + plain_keys(v@.take(0)));
    while i < v.len()
        invariant
            i <= v@.len(),
            keys@ == start + plain_keys(v@.take(i as int)),
        decreases v.len() - i,
    {
        let ghost was = keys@;
        keys.push(KeyEvent { code: KeyCode::Char(v[i]), modifiers: KeyMod { bits: 0 } });
        assert(v@.take(i + 1).drop_last() =~= v@.take(i as int));
        assert(keys@ == was.push(plain_key(v@[i as int])));
        assert(keys@ =~= start + plain_keys(v@.take(i + 1)));
        i += 1;
    }
    assert(v@.take(v@.len() as int) =~= v@);
}

/// The index of the first hyphen of `v`, or its length where there is
/// none.
pub fn find_dash(v: &Vec<char>) -> (r: usize)
    ensures
        r == dash_from(v@, 0),
        r <= v@.len(),
{
    let mut i: usize = 0;
    while i < v.len()
        invariant
            i <= v@.len(),
            dash_from(v@, 0) == dash_from(v@, i as int),
        decreases v.len() - i,
    {
        if v[i] == '-' {
            return i;
        }
        i += 1;
    }
    i
}

/// Where the piece that begins at `i` ends.
pub fn find_piece_end(v: &Vec<char>, i: usize) -> (r: usize)
    requires
        i < v@.len(),
    ensures
        r == piece_end(v@, i as int),
        i < r <= v@.len(),
{
    let mut j: usize = i;
    while j < v.len()
        invariant
            i <= j <= v@.len(),
            piece_end(v@, i as int) == piece_end(v@, j as int),
            j > i || j < v@.len(),
        decreases v.len() - j,
    {
        if v[j] == '<' || v[j] == '>' {
            return j + 1;
        }
        j += 1;
    }
    j
}

/// The key that a name stands for, if it is the name of a key.
pub fn named_code(name: &Vec<char>) -> (r: Option<KeyCode>)
    ensures
        r == named_key(name@),
{
    if is_word(name, "Enter") {
        Some(KeyCode::Enter)
    } else if is_word(name, "Tab") {
        Some(KeyCode::Tab)
    } else if is_word(name, "Backspace") {
        Some(KeyCode::Backspace)
    } else if is_word(name, "Del") {
        Some(KeyCode::Delete)
    } else if is_word(name, "Esc") {
        Some(KeyCode::Esc)
    } else if is_word(name, "Up") {
        Some(KeyCode::Up)
    } else if is_word(name, "Down") {
        Some(KeyCode::Down)
    } else if is_word(name, "Left") {
        Some(KeyCode::Left)
    } else if is_word(name, "Right") {
        Some(KeyCode::Right)
    } else if is_word(name, "PageUp") {
        Some(KeyCode::PageUp)
    } else if is_word(name, "PageDown") {
        Some(KeyCode::PageDown)
    } else if is_word(name, "Home") {
        Some(KeyCode::Home)
    } else if is_word(name, "End") {
        Some(KeyCode::End)
    } else if is_word(name, "Insert") {
        Some(KeyCode::Insert)
    } else if is_word(name, "F1") {
        Some(KeyCode::F(1))
    } else if is_word(name, "F2") {
        Some(KeyCode::F(2))
    } else if is_word(name, "F3") {
        Some(KeyCode::F(3))
    } else if is_word(name, "F4") {
        Some(KeyCode::F(4))
    } else if is_word(name, "F5") {
        Some(KeyCode::F(5))
    } else if is_word(name, "F6") {
        Some(KeyCode::F(6))
    } else if is_word(name, "F7") {
        Some(KeyCode::F(7))
    } else if is_word(name, "F8") {
        Some(KeyCode::F(8))
    } else if is_word(name, "F9") {
        Some(KeyCode::F(9))
    } else if is_word(name, "F10") {
        Some(KeyCode::F(10))
    } else if is_word(name, "F11") {
        Some(KeyCode::F(11))
    } else if is_word(name, "F12") {
        Some(KeyCode::F(12))
    } else {
        None
    }
}

/// The key that `name` stands for.
pub fn key_code(name: &Vec<char>, shift: bool) -> (r: Option<KeyCode>)
    ensures
        r == code_of(name@, shift),
{
    match named_code(name) {
        Some(code) => Some(code),
        None => {
            if name.len() == 1 && (char_is_lowercase(name[0]) || (char_is_uppercase(name[0])
                && shift)) {
                Some(KeyCode::Char(name[0]))
            } else {
                None
            }
        },
    }
}

/// How often `c` occurs in `v`.
pub fn count_of(v: &Vec<char>, c: char) -> (r: usize)
    ensures
        r == occurrences(v@, c, v@.len() as int),
{
    let mut n: usize = 0;
    let mut i: usize = 0;
    while i < v.len()
        invariant
            i <= v@.len(),
            n == occurrences(v@, c, i as int),
            n <= i,
        decreases v.len() - i,
    {
        if v[i] == c {
            n += 1;
        }
        i += 1;
    }
    n
}

/// Whether `v` names modifiers.
pub fn are_mods(v: &Vec<char>) -> (r: bool)
    ensures
        r == good_mods(v@),
{
    let mut i: usize = 0;
    while i < v.len()
        invariant
            i <= v@.len(),
            forall|j: int| 0 <= j < i ==> is_mod_letter(#[trigger] v@[j]),
        decreases v.len() - i,
    {
        let c = v[i];
        if !(c == 'C' || c == 'A' || c == 'S' || c == 'M') {
            return false;
        }
        i += 1;
    }
    v.len() > 0 && count_of(v, 'C') <= 1 && count_of(v, 'A') <= 1 && count_of(v, 'S') <= 1
        && count_of(v, 'M') <= 1
}

/// The bit `bit` if `c` occurs in `v`, and no bit otherwise.
pub fn bit_if(v: &Vec<char>, c: char, bit: u8) -> (r: u8)
    ensures
        r == bit_of(v@, c, bit),
{
    if count_of(v, c) > 0 {
        bit
    } else {
        0
    }
}

/// The keys of what stood between a `<` and the `>` with which `piece`
/// ends.
pub fn read_special(piece: &Vec<char>) -> (r: Vec<KeyEvent>)
    requires
        piece@.len() > 0,
    ensures
        r@ == special_keys(piece@),
{
    let trimmed = chars_between(piece, 0, piece.len() - 1);
    assert(trimmed@ =~= piece@.drop_last());
    let d = find_dash(&trimmed);
    let mut out: Vec<KeyEvent> = Vec::new();
    if d < trimmed.len() {
        let mods = chars_between(&trimmed, 0, d);
        let rest = chars_between(&trimmed, d + 1, trimmed.len());
        assert(mods@ =~= trimmed@.take(d as int));
        assert(rest@ =~= trimmed@.skip(d + 1));
        let e = find_dash(&rest);
        let name = chars_between(&rest, 0, e);
        assert(name@ =~= rest@.take(e as int));
        if !are_mods(&mods) {
            out.push(KeyEvent { code: KeyCode::Char('<'), modifiers: KeyMod { bits: 0 } });
            push_plain(&mut out, &mods);
        } else {
            match key_code(&name, count_of(&mods, 'S') > 0) {
                Some(code) => {
                    let bits = bit_if(&mods, 'C', CONTROL) | bit_if(&mods, 'A', ALT) | bit_if(
                        &mods,
                        'S',
                        SHIFT,
                    ) | bit_if(&mods, 'M', META);
                    out.push(KeyEvent { code, modifiers: KeyMod { bits } });
                },
                None => {
                    out.push(
                        KeyEvent { code: KeyCode::Char('<'), modifiers: KeyMod { bits: 0 } },
                    );
                    push_plain(&mut out, piece);
                },
            }
        }
    } else {
        match key_code(&trimmed, false) {
            Some(code) => {
                out.push(KeyEvent { code, modifiers: KeyMod { bits: 0 } });
            },
            None => {
                out.push(KeyEvent { code: KeyCode::Char('<'), modifiers: KeyMod { bits: 0 } });
                push_plain(&mut out, piece);
            },
        }
    }
    assert(out@ =~= special_keys(piece@));
    out
}

/// The keys that a text stands for. Plain characters type themselves.
/// Between `<` and `>` stands the name of a key (`Enter`, `Tab`,
/// `Backspace`, `Del`, `Esc`, the arrows, `PageUp`, `PageDown`, `Home`,
/// `End`, `Insert`, `F1` to `F12`, or one character), and before it, with
/// a hyphen, the letters of the modifiers: `C`, `A`, `S` and `M`.
pub fn str_to_keys(s: &str) -> (r: Vec<KeyEvent>)
    ensures
        r@ == keys_from(s@, 0, false),
{
    let v = chars_of(s);
    let mut keys: Vec<KeyEvent> = Vec::new();
    let mut special = false;
    let mut i: usize = 0;
    while i < v.len()
        invariant
            i <= v@.len(),
            v@ == s@,
            keys@ + keys_from(v@, i as int, special) == keys_from(v@, 0, false),
        decreases v.len() - i,
    {
        let e = find_piece_end(&v, i);
        let piece = chars_between(&v, i, e);
        let ghost before = keys@;
        let ghost was = special;
        let last = piece[piece.len() - 1];
        if !special {
            if last == '<' {
                let body = chars_between(&piece, 0, piece.len() - 1);
                assert(body@ =~= piece@.drop_last());
                push_plain(&mut keys, &body);
                special = true;
            } else {
                push_plain(&mut keys, &piece);
            }
        } else if last == '>' {
            let mut found = read_special(&piece);
            keys.append(&mut found);
            special = false;
        }
        proof {
            assert(piece@.last() == last);
            assert(before + keys_from(v@, i as int, was) =~= keys@ + keys_from(
                v@,
                e as int,
                special,
            ));
        }
        i = e;
    }
    assert(keys@ =~= keys@ + Seq::<KeyEvent>::empty());
    keys
}

} // verus!
