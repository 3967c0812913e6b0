//! The scroll state of a view of a text, which follows the main cursor and
//! keeps the scrolling gaps around it.

use crate::cfg::{PrintCfg, WrapMethod};
use crate::position::Pos;
use crate::text::{line_end_of, line_start_of, valid_pos, Text};
use crate::wrap::{
    get_width, run_upto, spec_get_width, starts_of, wrap_starts, wrapped, wrapped_of,
};
use vstd::prelude::*;

verus! {

/// Information about how to print a text on an area: the first character
/// that is shown, how far the text is shifted to the left, and where the
/// main cursor was when the view last followed it.
#[derive(Clone, Copy, Debug, PartialEq, Eq, Structural)]
pub struct PrintInfo {
    pub first_char: usize,
    pub x_shift: usize,
    pub last_main: Pos,
}

impl Default for PrintInfo {
    fn default() -> (r: Self)
        ensures
            r == (PrintInfo {
                first_char: 0,
                x_shift: 0,
                last_main: Pos { byte: 0, ch: 0, col: 0, row: 0 },
            }),
    {
        PrintInfo { first_char: 0, x_shift: 0, last_main: Pos { byte: 0, ch: 0, col: 0, row: 0 } }
    }
}

/// Whether the elements of `s` grow strictly.
pub open spec fn increasing(s: Seq<usize>) -> bool {
    forall|i: int, j: int| 0 <= i < j < s.len() ==> s[i] < s[j]
}

/// The start of the visual line that should be the first one shown, so
/// that `limit` visual lines reach from it to the one that holds the
/// character `target`: the start of the line `limit - 1` lines before that
/// one, or of the first line of all where there are fewer. `None` where no
/// visual line begins at or before `target`.
pub open spec fn spec_row_back(starts: Seq<usize>, target: usize, limit: usize) -> Option<usize> {
    let n = run_upto(starts, target, 0);
    if n == 0 {
        None
    } else if 1 <= limit <= n {
        Some(starts[n - limit])
    } else {
        Some(starts[0])
    }
}

/// The start of the visual line `limit - 1` lines before the one that
/// holds the character `target`.
pub fn row_back(starts: &Vec<usize>, target: usize, limit: usize) -> (r: Option<usize>)
    ensures
        r == spec_row_back(starts@, target, limit),
{
    let mut n: usize = 0;
    while n < starts.len() && starts[n] <= target
        invariant
            n <= starts@.len(),
            n + run_upto(starts@, target, n as int) == run_upto(starts@, target, 0),
        decreases starts.len() - n,
    {
        n += 1;
    }
    if n == 0 {
        None
    } else if 1 <= limit && limit <= n {
        Some(starts[n - limit])
    } else {
        Some(starts[0])
    }
}

/// The first character shown after the view followed the main cursor from
/// `last` to `target`, both given by their characters: going up, the view
/// moves up as far as needed for the gap above the cursor; going down, it
/// moves down as far as needed for the gap below it.
pub open spec fn spec_scroll_ver(
    starts: Seq<usize>,
    first: usize,
    last: usize,
    target: usize,
    gap: usize,
    height: usize,
) -> usize {
    if target < last {
        match spec_row_back(starts, target, (gap + 1) as usize) {
            Some(index) => if index < first {
                index
            } else {
                first
            },
            None => first,
        }
    } else if target > last {
        match spec_row_back(
            starts,
            target,
            if height > gap {
                (height - gap) as usize
            } else {
                0
            },
        ) {
            Some(index) => if index > first {
                index
            } else {
                first
            },
            None => first,
        }
    } else {
        first
    }
}

/// The first character shown after the view followed the main cursor from
/// the character `last` to the character `target`, where `starts` holds
/// the starts of the visual lines.
pub fn scroll_ver(
    starts: &Vec<usize>,
    first: usize,
    last: usize,
    target: usize,
    gap: usize,
    height: usize,
) -> (r: usize)
    requires
        gap < usize::MAX,
    ensures
        r == spec_scroll_ver(starts@, first, last, target, gap, height),
{
    if target < last {
        match row_back(starts, target, gap + 1) {
            Some(index) => {
                if index < first {
                    index
                } else {
                    first
                }
            },
            None => first,
        }
    } else if target > last {
        let limit = if height > gap {
            height - gap
        } else {
            0
        };
        match row_back(starts, target, limit) {
            Some(index) => {
                if index > first {
                    index
                } else {
                    first
                }
            },
            None => first,
        }
    } else {
        first
    }
}

/// The number of visual lines between the one that holds the character
/// `first` and the one that holds the character `target`.
pub open spec fn rows_between(starts: Seq<usize>, first: usize, target: usize) -> int {
    run_upto(starts, target, 0) - run_upto(starts, first, 0)
}

/// Whether the scrolling gap holds: the visual line of the character
/// `target` lies at least `gap` lines below the first line shown, unless
/// the view is at the top of the text, and at least `gap` lines above the
/// last line of an area of `height` lines.
pub open spec fn gap_holds(
    starts: Seq<usize>,
    first: usize,
    target: usize,
    gap: usize,
    height: usize,
) -> bool {
    &&& rows_between(starts, first, target) >= gap || (starts.len() > 0 && first <= starts[0])
    &&& rows_between(starts, first, target) <= height - 1 - gap
}

/// In growing starts, the number of them up to the one of index `k` is
/// `k + 1`, and the number up to a character grows with the character.
pub proof fn lemma_run_upto(s: Seq<usize>, c: usize, from: int)
    requires
        increasing(s),
        0 <= from <= s.len(),
    ensures
        run_upto(s, c, from) <= s.len() - from,
        forall|k: int| from <= k < from + run_upto(s, c, from) ==> #[trigger] s[k] <= c,
        from + run_upto(s, c, from) < s.len() ==> s[from + run_upto(s, c, from)] > c,
    decreases s.len() - from,
{
    if from < s.len() && s[from] <= c {
        lemma_run_upto(s, c, from + 1);
    }
}

/// In growing starts the number of them up to a character grows with the
/// character.
pub proof fn lemma_rows_monotone(s: Seq<usize>, c1: usize, c2: usize)
    requires
        increasing(s),
        c1 <= c2,
    ensures
        run_upto(s, c1, 0) <= run_upto(s, c2, 0) <= s.len(),
{
    lemma_run_upto(s, c1, 0);
    lemma_run_upto(s, c2, 0);
    let n1 = run_upto(s, c1, 0) as int;
    let n2 = run_upto(s, c2, 0) as int;
    if n1 > n2 {
        assert(s[n2] <= c1);
    }
}

/// In growing starts the number of them up to the one of index `k` is
/// `k + 1`.
pub proof fn lemma_rows_at(s: Seq<usize>, k: int)
    requires
        increasing(s),
        0 <= k < s.len(),
    ensures
        run_upto(s, s[k], 0) == k + 1,
{
    lemma_run_upto(s, s[k], 0);
    let m = run_upto(s, s[k], 0) as int;
    if m < k + 1 {
        assert(s[m] > s[k]);
        if m < k {
            assert(s[m] < s[k]);
        }
    } else if m > k + 1 {
        assert(s[k + 1] <= s[k]);
        assert(s[k] < s[k + 1]);
    }
}

/// Scrolloff: where the visual lines of a text stay as they are and
/// begin with the first character, an area is tall enough for both gaps,
/// and the gap held for the main cursor where it was, the gap holds again
/// after the view followed the main cursor to `target`.
pub proof fn lemma_scrolloff(
    starts: Seq<usize>,
    first: usize,
    last: usize,
    target: usize,
    gap: usize,
    height: usize,
)
    requires
        increasing(starts),
        starts.len() > 0,
        starts[0] == 0,
        height >= 2 * gap + 1,
        gap_holds(starts, first, last, gap, height),
    ensures
        gap_holds(
            starts,
            spec_scroll_ver(starts, first, last, target, gap, height),
            target,
            gap,
            height,
        ),
{
    let f = spec_scroll_ver(starts, first, last, target, gap, height);
    lemma_rows_monotone(starts, 0, target);
    lemma_rows_monotone(starts, 0, first);
    lemma_rows_monotone(starts, 0, last);
    lemma_rows_at(starts, 0);
    let nt = run_upto(starts, target, 0) as int;
    let nf = run_upto(starts, first, 0) as int;
    let nl = run_upto(starts, last, 0) as int;
    if target < last {
        lemma_rows_monotone(starts, target, last);
        let limit = gap + 1;
        let k: int = if limit <= nt {
            nt - limit
        } else {
            0
        };
        let index = starts[k];
        lemma_rows_at(starts, k);
        if index < first {
            assert(f == index);
        } else {
            assert(f == first);
            lemma_rows_monotone(starts, first, index);
        }
    } else if target > last {
        lemma_rows_monotone(starts, last, target);
        let limit = height - gap;
        let k: int = if limit <= nt {
            nt - limit
        } else {
            0
        };
        let index = starts[k];
        lemma_rows_at(starts, k);
        if index > first {
            assert(f == index);
        } else {
            assert(f == first);
            lemma_rows_monotone(starts, index, first);
        }
    }
}

/// How far a text is shifted to the left after the view followed the
/// main cursor, which stands at the visual column `target_dist` of a line
/// `line_width` columns wide: the shift changes as little as keeps the
/// cursor `x_gap` columns from both sides of an area `width` columns
/// wide, stays as it is where the whole line fits, and never goes beyond
/// `max_x_shift`.
pub open spec fn spec_scroll_hor(
    x_shift: usize,
    target_dist: usize,
    line_width: usize,
    width: usize,
    x_gap: usize,
    max_x_shift: usize,
) -> usize {
    let max_dist: int = if width > x_gap {
        width - (x_gap + 1)
    } else {
        0
    };
    let min_dist = x_shift + x_gap;
    let moved: int = if target_dist < min_dist {
        if min_dist - target_dist > x_shift {
            0
        } else {
            x_shift - (min_dist - target_dist)
        }
    } else if target_dist > x_shift + max_dist {
        if line_width < width {
            x_shift as int
        } else {
            target_dist - max_dist
        }
    } else {
        x_shift as int
    };
    if target_dist > x_shift + max_dist && line_width < width && target_dist >= min_dist {
        x_shift
    } else if moved > max_x_shift {
        max_x_shift
    } else {
        moved as usize
    }
}

/// How far a text is shifted to the left after the view followed the
/// main cursor.
pub fn scroll_hor(
    x_shift: usize,
    target_dist: usize,
    line_width: usize,
    width: usize,
    x_gap: usize,
    max_x_shift: usize,
) -> (r: usize)
    requires
        x_shift + x_gap <= usize::MAX,
        x_shift + width <= usize::MAX,
    ensures
        r == spec_scroll_hor(x_shift, target_dist, line_width, width, x_gap, max_x_shift),
{
    let max_dist = if width > x_gap {
        width - (x_gap + 1)
    } else {
        0
    };
    let min_dist = x_shift + x_gap;
    let moved = if target_dist < min_dist {
        if min_dist - target_dist > x_shift {
            0
        } else {
            x_shift - (min_dist - target_dist)
        }
    } else if target_dist > x_shift + max_dist {
        if line_width < width {
            return x_shift;
        }
        target_dist - max_dist
    } else {
        x_shift
    };
    if moved > max_x_shift {
        max_x_shift
    } else {
        moved
    }
}

/// The greatest shift to the left that a wrap method allows in an area
/// `width` columns wide, or `None` where the text never shifts: texts
/// that wrap at the width of the area do not shift, capped ones shift by
/// what the cap goes beyond the area, and unwrapped ones without limit.
pub open spec fn spec_max_x_shift(method: WrapMethod, width: usize) -> Option<usize> {
    match method {
        WrapMethod::Width => None,
        WrapMethod::Word => None,
        WrapMethod::Capped(cap) => if cap > width {
            Some((cap - width) as usize)
        } else {
            None
        },
        WrapMethod::NoWrap => Some(usize::MAX),
    }
}

/// The greatest shift to the left that a wrap method allows.
pub fn max_x_shift(method: &WrapMethod, width: usize) -> (r: Option<usize>)
    ensures
        r == spec_max_x_shift(*method, width),
{
    match method {
        WrapMethod::Width => None,
        WrapMethod::Word => None,
        WrapMethod::Capped(cap) => {
            if *cap > width {
                Some(*cap - width)
            } else {
                None
            }
        },
        WrapMethod::NoWrap => Some(usize::MAX),
    }
}

impl PrintInfo {
    /// The first character that is shown.
    pub fn first_char(&self) -> (r: usize)
        ensures
            r == self.first_char,
    {
        self.first_char
    }

    /// How far the text is shifted to the left.
    pub fn x_shift(&self) -> (r: usize)
        ensures
            r == self.x_shift,
    {
        self.x_shift
    }

    /// Where the main cursor was when the view last followed it.
    pub fn last_main(&self) -> (r: Pos)
        ensures
            r == self.last_main,
    {
        self.last_main
    }

    /// The state after the view followed the main cursor to `target` in
    /// an area of `width` columns and `height` lines.
    pub open spec fn spec_update(
        self,
        target: Pos,
        text: Text,
        cfg: PrintCfg,
        width: usize,
        height: usize,
    ) -> PrintInfo {
        if target == self.last_main {
            self
        } else {
            let bytes = text.bytes();
            let ls = line_start_of(bytes, target.byte as int);
            let le = line_end_of(bytes, ls);
            let line = text.spec_parts(ls, le + 1);
            let x_shift = match spec_max_x_shift(cfg.wrap_method, width) {
                Some(max) => spec_scroll_hor(
                    self.x_shift,
                    spec_get_width(line, cfg, width, target.ch, true),
                    spec_get_width(line, cfg, width, usize::MAX, false),
                    width,
                    cfg.scrolloff.x_gap,
                    max,
                ),
                None => self.x_shift,
            };
            let starts = starts_of(wrapped_of(text.spec_parts(0, bytes.len() as int + 1), cfg, width));
            PrintInfo {
                first_char: spec_scroll_ver(
                    starts,
                    self.first_char,
                    self.last_main.ch,
                    target.ch,
                    cfg.scrolloff.y_gap,
                    height,
                ),
                x_shift,
                last_main: target,
            }
        }
    }

    /// Follows the main cursor to `target` in an area of `width` columns
    /// and `height` lines: scrolls sideways and up or down as far as the
    /// scrolling gaps ask. Nothing changes where the cursor is where it
    /// was.
    pub fn update(&mut self, target: Pos, text: &Text, cfg: &PrintCfg, width: usize, height: usize)
        requires
            text.wf(),
            valid_pos(text.bytes(), target),
            old(self).x_shift + cfg.scrolloff.x_gap <= usize::MAX,
            old(self).x_shift + width <= usize::MAX,
            cfg.scrolloff.y_gap < usize::MAX,
        ensures
            *final(self) == old(self).spec_update(target, *text, *cfg, width, height),
    {
        if target == self.last_main {
            return ;
        }
        if let Some(max) = max_x_shift(&cfg.wrap_method, width) {
            let ls = text.line_start(target.byte);
            let le = text.line_end(ls);
            let line = text.parts_in(ls, le + 1);
            let dist = get_width(&line, cfg, width, target.ch, true);
            let line_width = get_width(&line, cfg, width, usize::MAX, false);
            self.x_shift = scroll_hor(
                self.x_shift,
                dist,
                line_width,
                width,
                cfg.scrolloff.x_gap,
                max,
            );
        }
        let items = text.parts();
        let w = wrapped(&items, cfg, width);
        let starts = wrap_starts(&w);
        self.first_char = scroll_ver(
            &starts,
            self.first_char,
            self.last_main.ch,
            target.ch,
            cfg.scrolloff.y_gap,
            height,
        );
        self.last_main = target;
    }
}

} // verus!
