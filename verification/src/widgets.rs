//! Widgets: the kinds of them, the lines of a file that a view shows, and
//! the widget that shows their numbers.

use crate::buffer::MAX_LEN;
use crate::builder::{tags_balanced, Builder};
use crate::file::File;
use crate::line_numbers::{chars_to_string, get_tag, line_text, spec_line_text, LineNumbersCfg};
use crate::parts::Part;
use crate::text::Text;
use crate::wrap::{sat_add, wrapped, wrapped_of, WrapItem};
use vstd::prelude::*;
use vstd::utf8::encode_utf8;

verus! {

/// What a widget does with keys.
#[derive(Clone, Copy, Debug, PartialEq, Eq, Structural)]
pub enum WidgetKind {
    /// It takes none: a view of something else, such as the numbers of
    /// the lines of a file.
    NoInput,
    /// It has cursors, and gets its keys through an input scheme that
    /// edits and moves on them.
    SchemeInput,
    /// It handles its keys itself.
    DirectInput,
}

/// Data that a status line can show.
pub trait DataToString {
    /// The data as a string.
    fn to_string(&self) -> String;

    /// Whether the data changed since it was read last.
    fn has_changed(&self) -> bool;
}

/// Something that holds data of the type `T`.
pub trait DataHolder<T> where T: Sized {

}

/// A widget that handles its keys itself.
pub trait DirectInputWidget {
    /// What the widget does when it gets the focus.
    fn on_focus(&mut self);

    /// What the widget does when it loses the focus.
    fn on_unfocus(&mut self);
}

/// The lines that the visual lines of `w` from the item `i` on belong to,
/// for up to `left` visual lines that begin at or after the character
/// `first_char`: for each the number of its line, and whether it is a
/// wrapped part of it, which it is if a character of the line came before
/// it.
pub open spec fn rows_from(
    w: Seq<WrapItem>,
    i: int,
    line: usize,
    fresh: bool,
    first_char: usize,
    left: nat,
) -> Seq<(usize, bool)>
    decreases w.len() - i,
{
    if i < 0 || i >= w.len() || left == 0 {
        Seq::empty()
    } else {
        let shown = w[i].nl is Some && w[i].item.ch >= first_char;
        let head = if shown {
            seq![(line, !fresh)]
        } else {
            Seq::empty()
        };
        let rest = match w[i].item.part {
            Part::Char(c) => if c == '\n' {
                rows_from(
                    w,
                    i + 1,
                    sat_add(line, 1),
                    true,
                    first_char,
                    if shown {
                        (left - 1) as nat
                    } else {
                        left
                    },
                )
            } else {
                rows_from(
                    w,
                    i + 1,
                    line,
                    false,
                    first_char,
                    if shown {
                        (left - 1) as nat
                    } else {
                        left
                    },
                )
            },
            _ => rows_from(
                w,
                i + 1,
                line,
                fresh,
                first_char,
                if shown {
                    (left - 1) as nat
                } else {
                    left
                },
            ),
        };
        head + rest
    }
}

impl File {
    /// The lines that are shown in an area of `width` columns and
    /// `height` lines: for each visual line from the first character
    /// shown on, the number of its line, and whether it is a wrapped part
    /// of it.
    pub fn printed_lines(&self, width: usize, height: usize) -> (r: Vec<(usize, bool)>)
        requires
            self.wf(),
        ensures
            r@ == rows_from(
                wrapped_of(
                    self.text.spec_parts(0, self.text.bytes().len() as int + 1),
                    self.cfg,
                    width,
                ),
                0,
                0,
                true,
                self.print_info.first_char,
                height as nat,
            ),
    {
        let items = self.text.parts();
        let w = wrapped(&items, &self.cfg, width);
        let first_char = self.print_info.first_char;
        let mut out: Vec<(usize, bool)> = Vec::new();
        let mut line: usize = 0;
        let mut fresh = true;
        let mut left = height;
        let mut i: usize = 0;
        while i < w.len() && left > 0
            invariant
                i <= w@.len(),
                out@ + rows_from(w@, i as int, line, fresh, first_char, left as nat) == rows_from(
                    w@,
                    0,
                    0,
                    true,
                    first_char,
                    height as nat,
                ),
            decreases w.len() - i,
        {
            let it = w[i];
            let ghost before = out@;
            let ghost all = rows_from(w@, i as int, line, fresh, first_char, left as nat);
            let ghost old_line = line;
            let ghost old_fresh = fresh;
            let shown = it.nl.is_some() && it.item.ch >= first_char;
            if shown {
                out.push((line, !fresh));
                left -= 1;
            }
            match it.item.part {
                Part::Char(c) => {
                    if c == '\n' {
                        line = line.saturating_add(1);
                        fresh = true;
                    } else {
                        fresh = false;
                    }
                },
                _ => {},
            }
            i += 1;
            proof {
                let rest = rows_from(w@, i as int, line, fresh, first_char, left as nat);
                let head = if shown {
                    seq![(old_line, !old_fresh)]
                } else {
                    Seq::empty()
                };
                assert(all == head + rest);
                assert(before + (head + rest) =~= out@ + rest);
            }
        }
        proof {
            assert(out@ + Seq::<(usize, bool)>::empty() =~= out@);
        }
        out
    }
}

/// The bytes of what the widget shows for the lines of `printed`, one
/// after the other.
pub open spec fn numbers_bytes(
    printed: Seq<(usize, bool)>,
    main_line: usize,
    width: usize,
    cfg: LineNumbersCfg,
) -> Seq<u8>
    decreases printed.len(),
{
    if printed.len() == 0 {
        Seq::empty()
    } else {
        numbers_bytes(printed.drop_last(), main_line, width, cfg) + encode_utf8(
            spec_line_text(printed.last().0, main_line, printed.last().1, width, cfg),
        )
    }
}

/// The number of the lines of `printed` that a text has room for, where
/// it has room for the first `k` of them.
pub open spec fn fitting(
    printed: Seq<(usize, bool)>,
    k: int,
    main_line: usize,
    width: usize,
    cfg: LineNumbersCfg,
) -> int
    decreases printed.len() - k,
{
    if 0 <= k < printed.len() && numbers_bytes(printed.take(k + 1), main_line, width, cfg).len()
        <= MAX_LEN {
        fitting(printed, k + 1, main_line, width, cfg)
    } else {
        k
    }
}

/// The number of columns that the numbers of `len` lines need: as many
/// as ten has to be raised to for it to reach them, and one at least.
pub open spec fn width_from(len: int, power: int, width: int) -> int
    decreases
        (if len > power {
            len - power
        } else {
            0
        }),
{
    if len > power && power > 0 && power * 10 <= usize::MAX {
        width_from(len, power * 10, width + 1)
    } else {
        width
    }
}

/// The widget that shows the numbers of the lines of a file.
pub struct LineNumbers {
    pub text: Text,
    pub cfg: LineNumbersCfg,
}

impl LineNumbers {
    /// The widget, which shows nothing yet.
    pub fn new(cfg: LineNumbersCfg) -> (r: Self)
        ensures
            r.cfg == cfg,
            r.text.bytes().len() == 0,
            r.text.wf(),
    {
        LineNumbers { text: Builder::new().finish(), cfg }
    }

    /// What kind of widget this is.
    pub fn kind(&self) -> (r: WidgetKind)
        ensures
            r == WidgetKind::NoInput,
    {
        WidgetKind::NoInput
    }

    /// The number of columns that the numbers of a file of `len_lines`
    /// lines need.
    pub fn calculate_width(len_lines: usize) -> (r: usize)
        requires
            len_lines < usize::MAX,
        ensures
            r == width_from(len_lines + 1, 10, 1),
            r >= 1,
    {
        let len = len_lines + 1;
        let mut width: usize = 1;
        let mut power: usize = 10;
        while len > power && power <= usize::MAX / 10
            invariant
                1 <= width,
                width <= power,
                power > 0,
                width_from(len as int, 10, 1) == width_from(len as int, power as int, width as int),
            decreases
                (if len > power {
                    len - power
                } else {
                    0
                }),
        {
            power = power * 10;
            width += 1;
        }
        width
    }

    /// Shows the numbers of the lines of `printed`: for each the tag that
    /// gives the number its form, and the number. A text has room for
    /// `MAX_LEN` bytes: the lines from the first that does not fit in
    /// are left out. Returns whether all of them fit.
    pub fn update(&mut self, printed: &Vec<(usize, bool)>, main_line: usize, width: usize) -> (r: bool)
        requires
            forall|i: int| 0 <= i < printed@.len() ==> (#[trigger] printed@[i]).0 < usize::MAX,
        ensures
            final(self).cfg == old(self).cfg,
            final(self).text.wf(),
            tags_balanced(final(self).text.tags@),
            final(self).text.bytes() == numbers_bytes(
                printed@.take(fitting(printed@, 0, main_line, width, old(self).cfg)),
                main_line,
                width,
                old(self).cfg,
            ),
            r == (fitting(printed@, 0, main_line, width, old(self).cfg) == printed@.len()),
    {
        let mut builder = Builder::new();
        let mut fits = true;
        let mut i: usize = 0;
        proof {
            assert(builder.text.bytes() =~= Seq::<u8>::empty());
            assert(printed@.take(0).len() == 0);
        }
        while i < printed.len() && fits
            invariant
                i <= printed@.len(),
                self.cfg == old(self).cfg,
                builder.wf(),
                forall|i: int| 0 <= i < printed@.len() ==> (#[trigger] printed@[i]).0 < usize::MAX,
                builder.text.bytes() == numbers_bytes(
                    printed@.take(i as int),
                    main_line,
                    width,
                    self.cfg,
                ),
                fits ==> fitting(printed@, i as int, main_line, width, self.cfg) == fitting(
                    printed@,
                    0,
                    main_line,
                    width,
                    self.cfg,
                ),
                !fits ==> i < printed@.len() && fitting(printed@, 0, main_line, width, self.cfg)
                    == i,
            decreases printed.len() - i + if fits { 1int } else { 0int },
        {
            let (line, is_wrapped) = printed[i];
            let chars = line_text(line, main_line, is_wrapped, width, &self.cfg);
            let s = chars_to_string(&chars);
            let slen = s.as_str().as_bytes().len();
            proof {
                assert(printed@.take(i + 1).drop_last() == printed@.take(i as int));
                assert(printed@.take(i + 1).last() == printed@[i as int]);
            }
            if slen <= MAX_LEN && builder.text.len_bytes() <= MAX_LEN - slen {
                builder.push_tag(get_tag(line, main_line, is_wrapped));
                builder.push_str(s.as_str());
                i += 1;
            } else {
                fits = false;
            }
        }
        proof {
            if fits {
                assert(printed@.take(i as int) == printed@);
            }
        }
        self.text = builder.finish();
        fits
    }
}

} // verus!
