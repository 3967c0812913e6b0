//! What a status line says of a file: where the main cursor stands, and
//! how many cursors there are.

use crate::buffer::{col_upto, MAX_LEN};
use crate::builder::{tags_balanced, Builder};
use crate::cursor::{main_col, main_line, Cursors};
use crate::file::File;
use crate::line_numbers::{chars_to_string, digits, digits_of};
use crate::lines::lemma_all_bytes;
use crate::tags::{FormId, Tag};
use crate::text::Text;
use vstd::prelude::*;
use vstd::utf8::encode_utf8;

verus! {

/// Ten raised to `k`.
pub open spec fn pow10(k: nat) -> nat
    decreases k,
{
    if k == 0 {
        1
    } else {
        10 * pow10((k - 1) as nat)
    }
}

/// A number below ten raised to `k` has no more than `k` digits.
pub proof fn lemma_digits_len(n: nat, k: nat)
    requires
        k >= 1,
        n < pow10(k),
    ensures
        1 <= digits_of(n).len() <= k,
    decreases k,
{
    if n >= 10 {
        assert(k >= 2) by {
            reveal_with_fuel(pow10, 2);
        }
        assert(n / 10 < pow10((k - 1) as nat));
        lemma_digits_len(n / 10, (k - 1) as nat);
    }
}

/// A number of the machine has no more than twenty digits, which take no
/// more than eighty bytes.
pub proof fn lemma_digits_fit(n: usize)
    ensures
        1 <= digits_of(n as nat).len() <= 20,
        encode_utf8(digits_of(n as nat)).len() <= 80,
{
    reveal_with_fuel(pow10, 21);
    assert(pow10(20) == 100000000000000000000nat);
    lemma_digits_len(n as nat, 20);
    lemma_all_bytes(digits_of(n as nat));
}

/// A column is no more than the offset at which it stands.
pub proof fn lemma_col_bound(bytes: Seq<u8>, i: int)
    ensures
        col_upto(bytes, i) <= if i < 0 {
            0
        } else {
            i
        },
    decreases i,
{
    if 0 < i <= bytes.len() && bytes[i - 1] != 10u8 {
        lemma_col_bound(bytes, i - 1);
    }
}

/// The bytes of what is said of the main cursor: its column, a colon, its
/// line, a stroke, and the number of lines.
pub open spec fn main_bytes(col: usize, line: usize, lines: usize) -> Seq<u8> {
    encode_utf8(digits_of(col as nat)) + encode_utf8(":"@) + encode_utf8(digits_of(line as nat))
        + encode_utf8("/"@) + encode_utf8(digits_of(lines as nat))
}

/// Adds a number to a text that is being built.
fn push_number(builder: &mut Builder, n: usize)
    requires
        old(builder).wf(),
        old(builder).text.bytes().len() + 80 <= MAX_LEN,
    ensures
        final(builder).wf(),
        final(builder).text.bytes() == old(builder).text.bytes() + encode_utf8(
            digits_of(n as nat),
        ),
        final(builder).text.bytes().len() <= old(builder).text.bytes().len() + 80,
        final(builder).marker == old(builder).marker,
{
    proof {
        lemma_digits_fit(n);
    }
    let s = chars_to_string(&digits(n));
    builder.push_str(s.as_str());
}

/// Adds a piece in a form to a text that is being built.
fn push_in(builder: &mut Builder, form: FormId, s: &str)
    requires
        old(builder).wf(),
        old(builder).text.bytes().len() + encode_utf8(s@).len() <= MAX_LEN,
    ensures
        final(builder).wf(),
        final(builder).text.bytes() == old(builder).text.bytes() + encode_utf8(s@),
        final(builder).text.bytes().len() == old(builder).text.bytes().len() + encode_utf8(
            s@,
        ).len(),
        final(builder).marker == old(builder).marker,
{
    builder.push_tag(Tag::PushForm(form));
    builder.push_str(s);
}

/// What is said of the main cursor of a file: its column and its line,
/// counted from 1, and the number of lines, the numbers in the form
/// `coord` and what stands between them in the form `separator`. Without
/// a cursor nothing is said.
pub fn main_fmt(file: &File, cursors: &Cursors, coord: FormId, separator: FormId) -> (r: Text)
    requires
        file.wf(),
        cursors.wf_in(file.text.bytes()),
    ensures
        r.wf(),
        tags_balanced(r.tags@),
        r.bytes() == if cursors.list@.len() == 0 {
            Seq::<u8>::empty()
        } else {
            main_bytes(
                (cursors.list@[cursors.main as int].caret.col + 1) as usize,
                (cursors.list@[cursors.main as int].caret.row + 1) as usize,
                file.text.spec_len_lines() as usize,
            )
        },
{
    let mut builder = Builder::new();
    if cursors.is_empty() {
        return builder.finish();
    }
    proof {
        reveal_strlit(":");
        reveal_strlit("/");
        lemma_all_bytes(":"@);
        lemma_all_bytes("/"@);
        let c = cursors.list@[cursors.main as int];
        assert(c.wf_in(file.text.bytes()));
        crate::buffer::lemma_counts_monotone(file.text.bytes(), 0, c.caret.byte as int);
        lemma_col_bound(file.text.bytes(), c.caret.byte as int);
    }
    let col = main_col(cursors);
    let line = main_line(cursors);
    let lines = file.text.len_lines();
    builder.push_tag(Tag::PushForm(coord));
    push_number(&mut builder, col);
    push_in(&mut builder, separator, ":");
    builder.push_tag(Tag::PushForm(coord));
    push_number(&mut builder, line);
    push_in(&mut builder, separator, "/");
    builder.push_tag(Tag::PushForm(coord));
    push_number(&mut builder, lines);
    let text = builder.finish();
    proof {
        assert(text.bytes() =~= main_bytes(col, line, lines));
    }
    text
}

/// The bytes of what is said of `n` cursors.
pub open spec fn selections_bytes(n: usize) -> Seq<u8> {
    if n == 1 {
        encode_utf8("1 sel"@)
    } else {
        encode_utf8(digits_of(n as nat)) + encode_utf8(" sels"@)
    }
}

/// How many cursors there are, in the form `form`.
pub fn selections_fmt(cursors: &Cursors, form: FormId) -> (r: Text)
    ensures
        r.wf(),
        tags_balanced(r.tags@),
        r.bytes() == selections_bytes(cursors.list@.len() as usize),
{
    proof {
        reveal_strlit("1 sel");
        reveal_strlit(" sels");
        lemma_all_bytes("1 sel"@);
        lemma_all_bytes(" sels"@);
    }
    let mut builder = Builder::new();
    builder.push_tag(Tag::PushForm(form));
    let n = cursors.len();
    if n == 1 {
        builder.push_str("1 sel");
    } else {
        push_number(&mut builder, n);
        builder.push_str(" sels");
    }
    let text = builder.finish();
    proof {
        assert(text.bytes() =~= selections_bytes(n));
    }
    text
}

} // verus!
