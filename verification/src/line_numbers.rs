//! The numbers of the lines of a file, as a widget beside it shows them.

use crate::forms::{
    LINE_NUMBERS_ID, MAIN_LINE_NUMBER_ID, WRAPPED_LINE_NUMBERS_ID, WRAPPED_MAIN_LINE_NUMBER_ID,
};
use crate::tags::{FormId, Tag};
use vstd::prelude::*;

verus! {

/// Which number a line shows.
#[derive(Clone, Copy, Debug, PartialEq, Eq, Structural)]
pub enum Numbers {
    /// Its number in the file, from 1.
    Absolute,
    /// Its distance from the line of the main cursor.
    Relative,
    /// Its distance from the line of the main cursor, and for that line
    /// its number in the file.
    RelAbs,
}

/// To which side the numbers are aligned.
#[derive(Clone, Copy, Debug, PartialEq, Eq, Structural)]
pub enum Align {
    Right,
    Left,
    Center,
}

impl Default for Align {
    fn default() -> (r: Self)
        ensures
            r == Align::Right,
    {
        Align::Right
    }
}

/// How the numbers of the lines are shown.
#[derive(Clone, Copy, Debug, PartialEq, Eq, Structural)]
pub struct LineNumbersCfg {
    pub numbers: Numbers,
    pub align: Align,
    pub main_align: Align,
    pub show_wraps: bool,
}

impl Default for LineNumbersCfg {
    fn default() -> (r: Self)
        ensures
            r == (LineNumbersCfg {
                numbers: Numbers::Absolute,
                align: Align::Right,
                main_align: Align::Right,
                show_wraps: false,
            }),
    {
        LineNumbersCfg {
            numbers: Numbers::Absolute,
            align: Align::Right,
            main_align: Align::Right,
            show_wraps: false,
        }
    }
}

impl LineNumbersCfg {
    /// Numbers in the file, and none on wrapped lines.
    pub fn absolute(align: Align, main_align: Align) -> (r: Self)
        ensures
            r == (LineNumbersCfg { numbers: Numbers::Absolute, align, main_align, show_wraps: false }),
    {
        LineNumbersCfg { numbers: Numbers::Absolute, align, main_align, show_wraps: false }
    }

    /// Numbers in the file, on wrapped lines too.
    pub fn absolute_wraps(align: Align, main_align: Align) -> (r: Self)
        ensures
            r == (LineNumbersCfg { numbers: Numbers::Absolute, align, main_align, show_wraps: true }),
    {
        LineNumbersCfg { numbers: Numbers::Absolute, align, main_align, show_wraps: true }
    }

    /// Distances from the main line, and none on wrapped lines.
    pub fn relative(align: Align, main_align: Align) -> (r: Self)
        ensures
            r == (LineNumbersCfg { numbers: Numbers::Relative, align, main_align, show_wraps: false }),
    {
        LineNumbersCfg { numbers: Numbers::Relative, align, main_align, show_wraps: false }
    }

    /// Distances from the main line, on wrapped lines too.
    pub fn relative_wraps(align: Align, main_align: Align) -> (r: Self)
        ensures
            r == (LineNumbersCfg { numbers: Numbers::Relative, align, main_align, show_wraps: true }),
    {
        LineNumbersCfg { numbers: Numbers::Relative, align, main_align, show_wraps: true }
    }

    /// Distances from the main line and its own number on it, and none on
    /// wrapped lines.
    pub fn rel_abs(align: Align, main_align: Align) -> (r: Self)
        ensures
            r == (LineNumbersCfg { numbers: Numbers::RelAbs, align, main_align, show_wraps: false }),
    {
        LineNumbersCfg { numbers: Numbers::RelAbs, align, main_align, show_wraps: false }
    }

    /// Distances from the main line and its own number on it, on wrapped
    /// lines too.
    pub fn rel_abs_wraps(align: Align, main_align: Align) -> (r: Self)
        ensures
            r == (LineNumbersCfg { numbers: Numbers::RelAbs, align, main_align, show_wraps: true }),
    {
        LineNumbersCfg { numbers: Numbers::RelAbs, align, main_align, show_wraps: true }
    }
}

/// The tag that gives the number of a line its form: that of the main
/// line or of the others, wrapped or not.
pub fn get_tag(line: usize, main_line: usize, is_wrapped: bool) -> (r: Tag)
    ensures
        r == Tag::PushForm(
            FormId {
                id: if line == main_line {
                    if is_wrapped {
                        WRAPPED_MAIN_LINE_NUMBER_ID
                    } else {
                        MAIN_LINE_NUMBER_ID
                    }
                } else {
                    if is_wrapped {
                        WRAPPED_LINE_NUMBERS_ID
                    } else {
                        LINE_NUMBERS_ID
                    }
                },
            },
        ),
{
    let id = if line == main_line {
        if is_wrapped {
            WRAPPED_MAIN_LINE_NUMBER_ID
        } else {
            MAIN_LINE_NUMBER_ID
        }
    } else {
        if is_wrapped {
            WRAPPED_LINE_NUMBERS_ID
        } else {
            LINE_NUMBERS_ID
        }
    };
    Tag::PushForm(FormId { id })
}

/// The digit of a number below ten.
pub open spec fn digit_of(d: nat) -> char {
    if d == 0 {
        '0'
    } else if d == 1 {
        '1'
    } else if d == 2 {
        '2'
    } else if d == 3 {
        '3'
    } else if d == 4 {
        '4'
    } else if d == 5 {
        '5'
    } else if d == 6 {
        '6'
    } else if d == 7 {
        '7'
    } else if d == 8 {
        '8'
    } else {
        '9'
    }
}

/// The decimal digits of a number.
pub open spec fn digits_of(n: nat) -> Seq<char>
    decreases n,
{
    if n < 10 {
        seq![digit_of(n)]
    } else {
        digits_of(n / 10).push(digit_of(n % 10))
    }
}

/// The digit of a number below ten.
pub fn digit(d: usize) -> (r: char)
    requires
        d < 10,
    ensures
        r == digit_of(d as nat),
{
    if d == 0 {
        '0'
    } else if d == 1 {
        '1'
    } else if d == 2 {
        '2'
    } else if d == 3 {
        '3'
    } else if d == 4 {
        '4'
    } else if d == 5 {
        '5'
    } else if d == 6 {
        '6'
    } else if d == 7 {
        '7'
    } else if d == 8 {
        '8'
    } else {
        '9'
    }
}

/// The decimal digits of a number.
pub fn digits(n: usize) -> (r: Vec<char>)
    ensures
        r@ == digits_of(n as nat),
{
    let mut rev: Vec<char> = Vec::new();
    let mut m = n;
    while m >= 10
        invariant
            digits_of(n as nat) == digits_of(m as nat) + rev@.reverse(),
        decreases m,
    {
        let ghost before = rev@;
        rev.push(digit(m % 10));
        proof {
            assert(digits_of(m as nat) == digits_of((m / 10) as nat).push(digit_of((m % 10) as nat)));
            assert(rev@.reverse() =~= seq![digit_of((m % 10) as nat)] + before.reverse());
            assert(digits_of((m / 10) as nat).push(digit_of((m % 10) as nat)) + before.reverse()
                =~= digits_of((m / 10) as nat) + rev@.reverse());
        }
        m = m / 10;
    }
    let mut out: Vec<char> = Vec::new();
    out.push(digit(m));
    let mut i: usize = rev.len();
    while i > 0
        invariant
            i <= rev@.len(),
            m < 10,
            out@ == seq![digit_of(m as nat)] + rev@.reverse().take(rev@.len() - i),
        decreases i,
    {
        i -= 1;
        out.push(rev[i]);
        proof {
            let r = rev@.reverse();
            let k = rev@.len() - i;
            assert(r.take(k) =~= r.take(k - 1).push(r[k - 1]));
            assert(r[k - 1] == rev@[i as int]);
        }
    }
    proof {
        assert(rev@.reverse().take(rev@.len() as int) == rev@.reverse());
        assert(digits_of(m as nat) == seq![digit_of(m as nat)]);
    }
    out
}

/// `n` spaces.
pub open spec fn spaces(n: nat) -> Seq<char> {
    Seq::new(n, |i: int| ' ')
}

/// The number that a line shows.
pub open spec fn spec_number(line: usize, main_line: usize, numbers: Numbers) -> nat {
    let diff = if line > main_line {
        (line - main_line) as nat
    } else {
        (main_line - line) as nat
    };
    match numbers {
        Numbers::Absolute => (line + 1) as nat,
        Numbers::Relative => diff,
        Numbers::RelAbs => if line != main_line {
            diff
        } else {
            (line + 1) as nat
        },
    }
}

/// The digits `d` in a field `width` wide: with spaces after them, before
/// them, or around them, no more at the left than at the right; as they
/// are where they fill the field.
pub open spec fn aligned(d: Seq<char>, width: usize, align: Align) -> Seq<char> {
    let pad = if width > d.len() {
        (width - d.len()) as nat
    } else {
        0
    };
    match align {
        Align::Left => d + spaces(pad),
        Align::Right => spaces(pad) + d,
        Align::Center => spaces(pad / 2) + d + spaces((pad - pad / 2) as nat),
    }
}

/// What the widget shows for a line: spaces for a wrapped line whose
/// number is not shown, else the number of the line, aligned as the main
/// line or the others are; and a line feed.
pub open spec fn spec_line_text(
    line: usize,
    main_line: usize,
    is_wrapped: bool,
    width: usize,
    cfg: LineNumbersCfg,
) -> Seq<char> {
    if is_wrapped && !cfg.show_wraps {
        spaces(width as nat).push('\n')
    } else {
        aligned(
            digits_of(spec_number(line, main_line, cfg.numbers)),
            width,
            if line == main_line {
                cfg.main_align
            } else {
                cfg.align
            },
        ).push('\n')
    }
}

/// Adds `n` spaces to `out`.
pub fn push_spaces(out: &mut Vec<char>, n: usize)
    ensures
        final(out)@ == old(out)@ + spaces(n as nat),
{
    let mut i: usize = 0;
    while i < n
        invariant
            i <= n,
            out@ == old(out)@ + spaces(i as nat),
        decreases n - i,
    {
        out.push(' ');
        proof {
            assert(out@ =~= old(out)@ + spaces((i + 1) as nat));
        }
        i += 1;
    }
}

/// What the widget shows for a line, as characters.
pub fn line_text(line: usize, main_line: usize, is_wrapped: bool, width: usize, cfg: &LineNumbersCfg) -> (r:
    Vec<char>)
    requires
        line < usize::MAX,
    ensures
        r@ == spec_line_text(line, main_line, is_wrapped, width, *cfg),
{
    let mut out: Vec<char> = Vec::new();
    if is_wrapped && !cfg.show_wraps {
        push_spaces(&mut out, width);
        out.push('\n');
        proof {
            assert(out@ =~= spaces(width as nat).push('\n'));
        }
        return out;
    }
    let diff = if line > main_line {
        line - main_line
    } else {
        main_line - line
    };
    let number = match cfg.numbers {
        Numbers::Absolute => line + 1,
        Numbers::Relative => diff,
        Numbers::RelAbs => {
            if line != main_line {
                diff
            } else {
                line + 1
            }
        },
    };
    let align = if line == main_line {
        cfg.main_align
    } else {
        cfg.align
    };
    let d = digits(number);
    let pad = if width > d.len() {
        width - d.len()
    } else {
        0
    };
    let (left, right) = match align {
        Align::Left => (0, pad),
        Align::Right => (pad, 0),
        Align::Center => (pad / 2, pad - pad / 2),
    };
    push_spaces(&mut out, left);
    let mut i: usize = 0;
    while i < d.len()
        invariant
            i <= d@.len(),
            out@ == spaces(left as nat) + d@.take(i as int),
        decreases d.len() - i,
    {
        out.push(d[i]);
        proof {
            assert(d@.take(i + 1) =~= d@.take(i as int).push(d@[i as int]));
            assert(out@ =~= spaces(left as nat) + d@.take(i + 1));
        }
        i += 1;
    }
    proof {
        assert(d@.take(i as int) == d@);
    }
    push_spaces(&mut out, right);
    out.push('\n');
    proof {
        assert(spaces(0) =~= Seq::<char>::empty());
        assert(out@ =~= aligned(d@, width, align).push('\n'));
    }
    out
}

/// The `collect` of std on the characters of a vector: the string that
/// holds them, in order.
#[verifier::external_body]
pub(crate) fn chars_to_string(v: &Vec<char>) -> (r: String)
    ensures
        r@ == v@,
{
    v.iter().collect()
}

/// Writes what the widget shows for a line into `text`, in the place of
/// what it held.
pub fn write_text(
    text: &mut String,
    line: usize,
    main_line: usize,
    is_wrapped: bool,
    width: usize,
    cfg: &LineNumbersCfg,
)
    requires
        line < usize::MAX,
    ensures
        final(text)@ == spec_line_text(line, main_line, is_wrapped, width, *cfg),
{
    let chars = line_text(line, main_line, is_wrapped, width, cfg);
    *text = chars_to_string(&chars);
}

} // verus!
