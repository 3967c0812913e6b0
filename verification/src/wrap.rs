//! The first stages of printing: the width of characters, the indentation
//! of lines, and where lines wrap, by characters or by words.

use crate::cfg::{PrintCfg, TabStops, WordChars, WrapMethod};
use crate::parts::{Item, Part};
use vstd::prelude::*;

verus! {

/// The named result of `UnicodeWidthChar::width`: the number of columns
/// that a character takes, or `None` for a control character.
pub uninterp spec fn unicode_width(c: char) -> Option<usize>;

/// `UnicodeWidthChar::width` of the outside crate. Its source gives the
/// width 1 to the printable ASCII characters and none to the control
/// characters below U+00A0, and looks every other character up in tables
/// whose entries are at most 3.
#[verifier::external_body]
pub(crate) fn char_width(c: char) -> (r: Option<usize>)
    ensures
        r == unicode_width(c),
        0x20 <= c as u32 && (c as u32) < 0x7f ==> r == Some(1usize),
        (c as u32) < 0x20 || (0x7f <= c as u32 && (c as u32) < 0xa0) ==> r is None,
        r is Some ==> r.unwrap() <= 3,
{
    unicode_width::UnicodeWidthChar::width(c)
}

/// `a + b`, or the largest number where the sum is beyond it.
pub open spec fn sat_add(a: usize, b: usize) -> usize {
    if a + b > usize::MAX {
        usize::MAX
    } else {
        (a + b) as usize
    }
}

/// The number of columns that `c` takes at column `x`: a tab goes to its
/// stop, a line feed takes one column, and any other character takes its
/// Unicode width, which is 0 for a control character.
pub open spec fn spec_len_from(c: char, x: usize, tabs: TabStops) -> usize {
    if c == '\t' {
        tabs.spec_tab_width(x)
    } else if c == '\n' {
        1
    } else {
        match unicode_width(c) {
            Some(w) => w,
            None => 0,
        }
    }
}

/// The number of columns that `c` takes at column `x`.
pub fn len_from(c: char, x: usize, tabs: &TabStops) -> (r: usize)
    ensures
        r == spec_len_from(c, x, *tabs),
{
    if c == '\t' {
        tabs.tab_width(x)
    } else if c == '\n' {
        1
    } else {
        match char_width(c) {
            Some(w) => w,
            None => 0,
        }
    }
}

/// The number of columns that a part takes at column `x`: those of its
/// character, or none for a tag.
pub open spec fn part_len(p: Part, x: usize, tabs: TabStops) -> usize {
    match p {
        Part::Char(c) => spec_len_from(c, x, tabs),
        _ => 0,
    }
}

/// The character that `c` is rendered as: a line feed becomes the glyph
/// that the policy gives it after `last`, any other character is itself.
pub open spec fn spec_real_char_from(c: char, new_line: crate::cfg::NewLine, last: char) -> char {
    if c == '\n' {
        new_line.spec_new_line_char(last)
    } else {
        c
    }
}

/// The character that `c` is rendered as, given the one rendered before.
pub fn real_char_from(c: char, new_line: &crate::cfg::NewLine, last: char) -> (r: char)
    ensures
        r == spec_real_char_from(c, *new_line, last),
{
    if c == '\n' {
        new_line.new_line_char(last)
    } else {
        c
    }
}

/// An item with the indentation of its line, as far as it is known when
/// the item comes.
#[derive(Clone, Copy, Debug, PartialEq, Eq, Structural)]
pub struct Indented {
    pub indent: usize,
    pub item: Item,
}

/// An item with the decision taken before it: whether a new visual line
/// begins, and at which indentation.
#[derive(Clone, Copy, Debug, PartialEq, Eq, Structural)]
pub struct WrapItem {
    pub nl: Option<usize>,
    pub item: Item,
}

/// What is known of the indentation of the current line: its width so
/// far, and whether only blanks were seen in the line.
#[derive(Clone, Copy, Debug, PartialEq, Eq, Structural)]
pub struct IndentState {
    pub indent: usize,
    pub on_indent: bool,
}

/// The indentation after a part: blanks at the start of a line add to
/// it, a line feed begins a new line, any other character ends the
/// indentation, and a tag changes nothing.
pub open spec fn indent_step(st: IndentState, p: Part, tabs: TabStops) -> IndentState {
    match p {
        Part::Char(c) => if c == '\n' {
            IndentState { indent: 0, on_indent: true }
        } else if c == '\t' && st.on_indent {
            IndentState { indent: sat_add(st.indent, tabs.spec_tab_width(st.indent)), on_indent: true }
        } else if c == ' ' && st.on_indent {
            IndentState { indent: sat_add(st.indent, 1), on_indent: true }
        } else {
            IndentState { indent: st.indent, on_indent: false }
        },
        _ => st,
    }
}

/// The indentation after the parts of `items`.
pub open spec fn indent_state(items: Seq<Item>, tabs: TabStops) -> IndentState
    decreases items.len(),
{
    if items.len() == 0 {
        IndentState { indent: 0, on_indent: true }
    } else {
        indent_step(indent_state(items.drop_last(), tabs), items.last().part, tabs)
    }
}

/// The indentation that a wrapped line gets: that of its line where
/// wrapped lines are indented and it is less than the width, else none.
pub open spec fn capped_indent(indent: usize, width: usize, indent_wrap: bool) -> usize {
    if indent_wrap && indent < width {
        indent
    } else {
        0
    }
}

/// The items with the indentation of their lines: each item gets the
/// indentation seen before it.
pub open spec fn indents_of(items: Seq<Item>, tabs: TabStops, width: usize, indent_wrap: bool) -> Seq<
    Indented,
> {
    Seq::new(
        items.len(),
        |i: int|
            Indented {
                indent: capped_indent(indent_state(items.take(i), tabs).indent, width, indent_wrap),
                item: items[i],
            },
    )
}

/// Tracks the indentation of the lines of `items`.
pub fn indents(items: &Vec<Item>, tabs: &TabStops, width: usize, indent_wrap: bool) -> (r: Vec<
    Indented,
>)
    ensures
        r@ == indents_of(items@, *tabs, width, indent_wrap),
{
    let mut out: Vec<Indented> = Vec::new();
    let mut st = IndentState { indent: 0, on_indent: true };
    let mut i: usize = 0;
    while i < items.len()
        invariant
            i <= items@.len(),
            st == indent_state(items@.take(i as int), *tabs),
            out@ == indents_of(items@, *tabs, width, indent_wrap).take(i as int),
        decreases items.len() - i,
    {
        let item = items[i];
        let indent = if indent_wrap && st.indent < width {
            st.indent
        } else {
            0
        };
        out.push(Indented { indent, item });
        proof {
            assert(items@.take(i + 1).drop_last() == items@.take(i as int));
            assert(out@ =~= indents_of(items@, *tabs, width, indent_wrap).take(i + 1));
        }
        st = match item.part {
            Part::Char(c) => {
                if c == '\n' {
                    IndentState { indent: 0, on_indent: true }
                } else if c == '\t' && st.on_indent {
                    IndentState {
                        indent: st.indent.saturating_add(tabs.tab_width(st.indent)),
                        on_indent: true,
                    }
                } else if c == ' ' && st.on_indent {
                    IndentState { indent: st.indent.saturating_add(1), on_indent: true }
                } else {
                    IndentState { indent: st.indent, on_indent: false }
                }
            },
            _ => st,
        };
        i += 1;
    }
    proof {
        assert(indents_of(items@, *tabs, width, indent_wrap).take(i as int) == indents_of(
            items@,
            *tabs,
            width,
            indent_wrap,
        ));
    }
    out
}

/// Where the next character goes: the column, and whether a visual line
/// has yet to begin.
#[derive(Clone, Copy, Debug, PartialEq, Eq, Structural)]
pub struct BitState {
    pub x: usize,
    pub next_line: bool,
}

/// Whether a new visual line begins before an item, wrapping by
/// characters: it does at the first item of a line, unless that is a tag
/// within the indentation, and where the item goes beyond the width,
/// unless lines do not wrap.
pub open spec fn bit_wraps(st: BitState, it: Indented, width: usize, tabs: TabStops, no_wrap: bool) -> bool {
    let len = part_len(it.item.part, st.x, tabs);
    let x = sat_add(st.x, len);
    let surpassed = x > width || (x == width && len == 0);
    let tag_on_indent = it.indent > x - len && !(it.item.part is Char);
    (st.next_line && !tag_on_indent) || (!no_wrap && surpassed)
}

/// Where the next character goes after an item, wrapping by characters.
pub open spec fn bit_step(st: BitState, it: Indented, width: usize, tabs: TabStops, no_wrap: bool) -> BitState {
    let len = part_len(it.item.part, st.x, tabs);
    if it.item.part == Part::Char('\n') {
        BitState { x: 0, next_line: true }
    } else if bit_wraps(st, it, width, tabs, no_wrap) {
        BitState { x: sat_add(it.indent, len), next_line: false }
    } else {
        BitState { x: sat_add(st.x, len), next_line: st.next_line }
    }
}

/// Where the next character goes after the items of `items`.
pub open spec fn bit_state(items: Seq<Indented>, width: usize, tabs: TabStops, no_wrap: bool) -> BitState
    decreases items.len(),
{
    if items.len() == 0 {
        BitState { x: 0, next_line: true }
    } else {
        bit_step(bit_state(items.drop_last(), width, tabs, no_wrap), items.last(), width, tabs, no_wrap)
    }
}

/// The items with the wraps that wrapping by characters puts before them.
pub open spec fn bits_of(items: Seq<Indented>, width: usize, tabs: TabStops, no_wrap: bool) -> Seq<
    WrapItem,
> {
    Seq::new(
        items.len(),
        |i: int|
            WrapItem {
                nl: if bit_wraps(
                    bit_state(items.take(i), width, tabs, no_wrap),
                    items[i],
                    width,
                    tabs,
                    no_wrap,
                ) {
                    Some(items[i].indent)
                } else {
                    None
                },
                item: items[i].item,
            },
    )
}

/// Wraps by characters: a new visual line begins where the next character
/// would go beyond `width`.
pub fn bits(items: &Vec<Indented>, width: usize, tabs: &TabStops, no_wrap: bool) -> (r: Vec<WrapItem>)
    ensures
        r@ == bits_of(items@, width, *tabs, no_wrap),
{
    let mut out: Vec<WrapItem> = Vec::new();
    let mut st = BitState { x: 0, next_line: true };
    let mut i: usize = 0;
    while i < items.len()
        invariant
            i <= items@.len(),
            st == bit_state(items@.take(i as int), width, *tabs, no_wrap),
            out@ == bits_of(items@, width, *tabs, no_wrap).take(i as int),
        decreases items.len() - i,
    {
        let it = items[i];
        let len = match it.item.part {
            Part::Char(c) => len_from(c, st.x, tabs),
            _ => 0,
        };
        let x = st.x.saturating_add(len);
        let surpassed = x > width || (x == width && len == 0);
        let tag_on_indent = it.indent > x - len && it.item.part.is_tag();
        let wraps = (st.next_line && !tag_on_indent) || (!no_wrap && surpassed);
        out.push(
            WrapItem {
                nl: if wraps {
                    Some(it.indent)
                } else {
                    None
                },
                item: it.item,
            },
        );
        proof {
            assert(items@.take(i + 1).drop_last() == items@.take(i as int));
            assert(out@ =~= bits_of(items@, width, *tabs, no_wrap).take(i + 1));
        }
        let is_nl = match it.item.part {
            Part::Char(c) => c == '\n',
            _ => false,
        };
        st = if is_nl {
            BitState { x: 0, next_line: true }
        } else if wraps {
            BitState { x: it.indent.saturating_add(len), next_line: false }
        } else {
            BitState { x, next_line: st.next_line }
        };
        i += 1;
    }
    proof {
        assert(bits_of(items@, width, *tabs, no_wrap).take(i as int) == bits_of(
            items@,
            width,
            *tabs,
            no_wrap,
        ));
    }
    out
}

/// Whether an item belongs to a word: a tag does, and a character does if
/// it is a word character.
pub open spec fn in_word(it: Indented, wc: WordChars) -> bool {
    match it.item.part {
        Part::Char(c) => wc.spec_contains(c),
        _ => true,
    }
}

/// The end of the word that begins at `i`: the index of the first item
/// from `i` on that is a character outside words, or the number of items.
pub open spec fn word_end(items: Seq<Indented>, i: int, wc: WordChars) -> int
    decreases items.len() - i,
{
    if i < 0 || i >= items.len() {
        items.len() as int
    } else if !in_word(items[i], wc) {
        i
    } else {
        word_end(items, i + 1, wc)
    }
}

/// The number of columns that the characters of `items[i..j]` take, the
/// first of them at column `x`.
pub open spec fn word_len(items: Seq<Indented>, i: int, j: int, x: usize, tabs: TabStops) -> usize
    decreases j - i,
{
    if j <= i || j > items.len() || i < 0 {
        0
    } else {
        let w = word_len(items, i, j - 1, x, tabs);
        sat_add(w, part_len(items[j - 1].item.part, sat_add(x, w), tabs))
    }
}

/// The indentation of the last character among `items[i..j]`, or `prev`
/// where there is none.
pub open spec fn last_indent(items: Seq<Indented>, i: int, j: int, prev: usize) -> usize
    decreases j - i,
{
    if j <= i || j > items.len() || i < 0 {
        prev
    } else if items[j - 1].item.part is Char {
        items[j - 1].indent
    } else {
        last_indent(items, i, j - 1, prev)
    }
}

/// Where the next character goes while words are wrapped: the column,
/// whether a visual line has yet to begin, and the indentation of the
/// line.
#[derive(Clone, Copy, Debug, PartialEq, Eq, Structural)]
pub struct WordState {
    pub x: usize,
    pub next_line: bool,
    pub indent: usize,
}

/// The column after the items `i..k` of a word that begins at `i`, where
/// the column was `x0` when it began: the first item never wraps here, and
/// each later one wraps where it would go beyond the width.
pub open spec fn word_x(
    items: Seq<Indented>,
    i: int,
    k: int,
    x0: usize,
    ind: usize,
    width: usize,
    tabs: TabStops,
) -> usize
    decreases k - i,
{
    if k <= i || k > items.len() || i < 0 {
        x0
    } else {
        let x = word_x(items, i, k - 1, x0, ind, width, tabs);
        let len = part_len(items[k - 1].item.part, x, tabs);
        if k - 1 == i {
            sat_add(x, len)
        } else if inner_wraps(items[k - 1].item.part, x, width, tabs) {
            sat_add(ind, len)
        } else {
            sat_add(x, len)
        }
    }
}

/// Whether an item inside a word wraps at column `x`: a character where
/// it would go beyond the width, a tag where the width is reached.
pub open spec fn inner_wraps(p: Part, x: usize, width: usize, tabs: TabStops) -> bool {
    match p {
        Part::Char(c) => sat_add(x, spec_len_from(c, x, tabs)) > width,
        _ => x >= width,
    }
}

/// The items `i..k` of a word that begins at `i`, with their wraps: the
/// first one wraps if the whole word does, each later one where it would
/// go beyond the width.
pub open spec fn word_items(
    items: Seq<Indented>,
    i: int,
    k: int,
    x0: usize,
    ind: usize,
    first: bool,
    width: usize,
    tabs: TabStops,
) -> Seq<WrapItem>
    decreases k - i,
{
    if k <= i || k > items.len() || i < 0 {
        Seq::empty()
    } else {
        let x = word_x(items, i, k - 1, x0, ind, width, tabs);
        let wraps = if k - 1 == i {
            first
        } else {
            inner_wraps(items[k - 1].item.part, x, width, tabs)
        };
        word_items(items, i, k - 1, x0, ind, first, width, tabs).push(
            WrapItem {
                nl: if wraps {
                    Some(ind)
                } else {
                    None
                },
                item: items[k - 1].item,
            },
        )
    }
}

/// The items from `i` on with the wraps that wrapping by words puts
/// before them. A word is a run of word characters, with the tags among
/// them; it begins a new visual line if it does not fit on the current
/// one. A character outside words wraps alone.
pub open spec fn words_from(
    items: Seq<Indented>,
    i: int,
    st: WordState,
    width: usize,
    tabs: TabStops,
    wc: WordChars,
) -> Seq<WrapItem>
    decreases items.len() - i,
    via words_from_decreases
{
    if i < 0 || i >= items.len() {
        Seq::empty()
    } else {
        let j = word_end(items, i, wc);
        if j <= i {
            let p = items[i].item.part;
            let ind = items[i].indent;
            let len = part_len(p, st.x, tabs);
            let wraps = st.next_line || sat_add(st.x, len) > width;
            let x = sat_add(
                if wraps {
                    ind
                } else {
                    st.x
                },
                len,
            );
            seq![
                WrapItem {
                    nl: if wraps {
                        Some(ind)
                    } else {
                        None
                    },
                    item: items[i].item,
                },
            ] + words_from(
                items,
                i + 1,
                WordState { x, next_line: p == Part::Char('\n'), indent: ind },
                width,
                tabs,
                wc,
            )
        } else {
            let peeked = if j < items.len() {
                j + 1
            } else {
                j
            };
            let ind = last_indent(items, i, peeked, st.indent);
            let len = word_len(items, i, j, st.x, tabs);
            let wraps = st.next_line || sat_add(st.x, len) > width;
            let x0 = if wraps {
                ind
            } else {
                st.x
            };
            word_items(items, i, j, x0, ind, wraps, width, tabs) + words_from(
                items,
                j,
                WordState {
                    x: word_x(items, i, j, x0, ind, width, tabs),
                    next_line: false,
                    indent: ind,
                },
                width,
                tabs,
                wc,
            )
        }
    }
}

#[via_fn]
proof fn words_from_decreases(
    items: Seq<Indented>,
    i: int,
    st: WordState,
    width: usize,
    tabs: TabStops,
    wc: WordChars,
) {
    if 0 <= i < items.len() {
        lemma_word_end(items, i, wc);
    }
}

/// The items with the wraps that wrapping by words puts before them.
pub open spec fn words_of(items: Seq<Indented>, width: usize, tabs: TabStops, wc: WordChars) -> Seq<
    WrapItem,
> {
    words_from(items, 0, WordState { x: 0, next_line: true, indent: 0 }, width, tabs, wc)
}

/// The end of a word lies between its beginning and the end of the items,
/// every item before it belongs to the word, and the item at it does not.
pub proof fn lemma_word_end(items: Seq<Indented>, i: int, wc: WordChars)
    requires
        0 <= i <= items.len(),
    ensures
        i <= word_end(items, i, wc) <= items.len(),
        forall|k: int| i <= k < word_end(items, i, wc) ==> in_word(#[trigger] items[k], wc),
        word_end(items, i, wc) < items.len() ==> !in_word(items[word_end(items, i, wc)], wc),
    decreases items.len() - i,
{
    if i < items.len() && in_word(items[i], wc) {
        lemma_word_end(items, i + 1, wc);
    }
}

/// Wraps by words: a word that does not fit on the current visual line
/// begins a new one.
pub fn words(items: &Vec<Indented>, width: usize, tabs: &TabStops, wc: &WordChars) -> (r: Vec<
    WrapItem,
>)
    ensures
        r@ == words_of(items@, width, *tabs, *wc),
{
    let n = items.len();
    let mut out: Vec<WrapItem> = Vec::new();
    let mut st = WordState { x: 0, next_line: true, indent: 0 };
    let mut i: usize = 0;
    while i < n
        invariant
            i <= n == items@.len(),
            out@ + words_from(items@, i as int, st, width, *tabs, *wc) == words_of(
                items@,
                width,
                *tabs,
                *wc,
            ),
        decreases n - i,
    {
        let ghost before = out@;
        // Find the end of the word.
        let mut j: usize = i;
        proof {
            lemma_word_end(items@, i as int, *wc);
        }
        while j < n && item_in_word(&items[j], wc)
            invariant
                i <= j <= n == items@.len(),
                word_end(items@, i as int, *wc) == word_end(items@, j as int, *wc),
            decreases n - j,
        {
            j += 1;
        }
        if j == i {
            let it = items[i];
            let len = match it.item.part {
                Part::Char(c) => len_from(c, st.x, tabs),
                _ => 0,
            };
            let wraps = st.next_line || st.x.saturating_add(len) > width;
            let x = if wraps {
                it.indent.saturating_add(len)
            } else {
                st.x.saturating_add(len)
            };
            let is_nl = match it.item.part {
                Part::Char(c) => c == '\n',
                _ => false,
            };
            let item = WrapItem {
                nl: if wraps {
                    Some(it.indent)
                } else {
                    None
                },
                item: it.item,
            };
            out.push(item);
            let ghost next = WordState { x, next_line: is_nl, indent: it.indent };
            proof {
                let rest = words_from(items@, i + 1, next, width, *tabs, *wc);
                assert(words_from(items@, i as int, st, width, *tabs, *wc) == seq![item] + rest);
                assert(before + (seq![item] + rest) =~= out@ + rest);
            }
            st = WordState { x, next_line: is_nl, indent: it.indent };
            i += 1;
        } else {
            let peeked = if j < n {
                j + 1
            } else {
                j
            };
            // Measure the word and find the indentation of its line.
            let mut ind = st.indent;
            let mut len: usize = 0;
            let mut k: usize = i;
            while k < peeked
                invariant
                    i <= k <= peeked <= n == items@.len(),
                    j <= peeked,
                    ind == last_indent(items@, i as int, k as int, st.indent),
                    len == word_len(
                        items@,
                        i as int,
                        if k <= j {
                            k as int
                        } else {
                            j as int
                        },
                        st.x,
                        *tabs,
                    ),
                decreases peeked - k,
            {
                let it = items[k];
                if let Part::Char(c) = it.item.part {
                    ind = it.indent;
                    if k < j {
                        len = len.saturating_add(len_from(c, st.x.saturating_add(len), tabs));
                    }
                } else if k < j {
                    proof {
                        assert(part_len(it.item.part, sat_add(st.x, len), *tabs) == 0);
                    }
                }
                k += 1;
            }
            let wraps = st.next_line || st.x.saturating_add(len) > width;
            let x0 = if wraps {
                ind
            } else {
                st.x
            };
            // Emit the items of the word.
            let mut x = x0;
            let mut m: usize = i;
            while m < j
                invariant
                    i <= m <= j <= n == items@.len(),
                    x == word_x(items@, i as int, m as int, x0, ind, width, *tabs),
                    out@ == before + word_items(
                        items@,
                        i as int,
                        m as int,
                        x0,
                        ind,
                        wraps,
                        width,
                        *tabs,
                    ),
                decreases j - m,
            {
                let it = items[m];
                let (l, inner) = match it.item.part {
                    Part::Char(c) => {
                        let l = len_from(c, x, tabs);
                        (l, x.saturating_add(l) > width)
                    },
                    _ => (0, x >= width),
                };
                let w = if m == i {
                    wraps
                } else {
                    inner
                };
                out.push(
                    WrapItem {
                        nl: if w {
                            Some(ind)
                        } else {
                            None
                        },
                        item: it.item,
                    },
                );
                proof {
                    assert(out@ =~= before + word_items(
                        items@,
                        i as int,
                        m + 1,
                        x0,
                        ind,
                        wraps,
                        width,
                        *tabs,
                    ));
                }
                x = if m == i {
                    x.saturating_add(l)
                } else if inner {
                    ind.saturating_add(l)
                } else {
                    x.saturating_add(l)
                };
                m += 1;
            }
            let ghost next = WordState { x, next_line: false, indent: ind };
            proof {
                let word = word_items(items@, i as int, j as int, x0, ind, wraps, width, *tabs);
                let rest = words_from(items@, j as int, next, width, *tabs, *wc);
                assert(words_from(items@, i as int, st, width, *tabs, *wc) == word + rest);
                assert(before + (word + rest) =~= out@ + rest);
            }
            st = WordState { x, next_line: false, indent: ind };
            i = j;
        }
    }
    proof {
        assert(out@ + Seq::<WrapItem>::empty() == out@);
    }
    out
}

/// Whether an item belongs to a word.
pub fn item_in_word(it: &Indented, wc: &WordChars) -> (r: bool)
    ensures
        r == in_word(*it, *wc),
{
    match it.item.part {
        Part::Char(c) => wc.contains(c),
        _ => true,
    }
}

/// The items of a text with the wraps that the configuration puts before
/// them, in an area `area_width` columns wide.
pub open spec fn wrapped_of(items: Seq<Item>, cfg: PrintCfg, area_width: usize) -> Seq<WrapItem> {
    let width = cfg.wrap_method.spec_wrapping_cap(area_width);
    let ind = indents_of(items, cfg.tab_stops, width, cfg.indent_wrap);
    if cfg.wrap_method == WrapMethod::Word {
        words_of(ind, width, cfg.tab_stops, cfg.word_chars)
    } else {
        bits_of(ind, width, cfg.tab_stops, cfg.wrap_method == WrapMethod::NoWrap)
    }
}

/// Decides where the lines of `items` wrap in an area `area_width`
/// columns wide.
pub fn wrapped(items: &Vec<Item>, cfg: &PrintCfg, area_width: usize) -> (r: Vec<WrapItem>)
    ensures
        r@ == wrapped_of(items@, *cfg, area_width),
{
    let width = cfg.wrap_method.wrapping_cap(area_width);
    let ind = indents(items, &cfg.tab_stops, width, cfg.indent_wrap);
    match cfg.wrap_method {
        WrapMethod::Word => words(&ind, width, &cfg.tab_stops, &cfg.word_chars),
        _ => bits(&ind, width, &cfg.tab_stops, cfg.wrap_method.is_no_wrap()),
    }
}

/// The characters at which the visual lines of `w` begin: the index of
/// each item before which a new visual line begins, in order.
pub open spec fn starts_of(w: Seq<WrapItem>) -> Seq<usize>
    decreases w.len(),
{
    if w.len() == 0 {
        Seq::empty()
    } else if w.last().nl is Some {
        starts_of(w.drop_last()).push(w.last().item.ch)
    } else {
        starts_of(w.drop_last())
    }
}

/// The characters at which the visual lines of `w` begin.
pub fn wrap_starts(w: &Vec<WrapItem>) -> (r: Vec<usize>)
    ensures
        r@ == starts_of(w@),
{
    let mut out: Vec<usize> = Vec::new();
    let mut i: usize = 0;
    while i < w.len()
        invariant
            i <= w@.len(),
            out@ == starts_of(w@.take(i as int)),
        decreases w.len() - i,
    {
        proof {
            assert(w@.take(i + 1).drop_last() == w@.take(i as int));
        }
        if w[i].nl.is_some() {
            out.push(w[i].item.ch);
        }
        i += 1;
    }
    proof {
        assert(w@.take(i as int) == w@);
    }
    out
}

/// The number of elements of `s` from `from` on that come before the
/// first one beyond `max`.
pub open spec fn run_upto(s: Seq<usize>, max: usize, from: int) -> nat
    decreases s.len() - from,
{
    if from < 0 || from >= s.len() || s[from] > max {
        0
    } else {
        1 + run_upto(s, max, from + 1)
    }
}

/// The number of times that a line wraps up to the character `max_index`:
/// one less than the number of visual lines that begin at or before it,
/// and none where lines do not wrap.
pub open spec fn spec_wrap_count(items: Seq<Item>, cfg: PrintCfg, area_width: usize, max_index: usize) -> nat {
    let n = run_upto(starts_of(wrapped_of(items, cfg, area_width)), max_index, 0);
    if cfg.wrap_method == WrapMethod::NoWrap || n == 0 {
        0
    } else {
        (n - 1) as nat
    }
}

/// The number of times that the text of `items` wraps up to the
/// character `max_index`, in an area `area_width` columns wide.
pub fn wrap_count(items: &Vec<Item>, cfg: &PrintCfg, area_width: usize, max_index: usize) -> (r: usize)
    ensures
        r == spec_wrap_count(items@, *cfg, area_width, max_index),
{
    if cfg.wrap_method.is_no_wrap() {
        return 0;
    }
    let w = wrapped(items, cfg, area_width);
    let starts = wrap_starts(&w);
    let mut n: usize = 0;
    while n < starts.len() && starts[n] <= max_index
        invariant
            n <= starts@.len(),
            n + run_upto(starts@, max_index, n as int) == run_upto(starts@, max_index, 0),
        decreases starts.len() - n,
    {
        n += 1;
    }
    if n == 0 {
        0
    } else {
        n - 1
    }
}

/// The character at which visual line `wrap` begins, if there are so many:
/// where lines do not wrap, the first character of all.
pub open spec fn spec_char_at_wrap(items: Seq<Item>, wrap: usize, cfg: PrintCfg, area_width: usize) -> Option<
    usize,
> {
    if cfg.wrap_method == WrapMethod::NoWrap {
        if items.len() > 0 {
            Some(items[0].ch)
        } else {
            None
        }
    } else {
        let starts = starts_of(wrapped_of(items, cfg, area_width));
        if wrap < starts.len() {
            Some(starts[wrap as int])
        } else {
            None
        }
    }
}

/// The character at which visual line `wrap` of the text of `items`
/// begins, in an area `area_width` columns wide.
pub fn char_at_wrap(items: &Vec<Item>, wrap: usize, cfg: &PrintCfg, area_width: usize) -> (r: Option<
    usize,
>)
    ensures
        r == spec_char_at_wrap(items@, wrap, *cfg, area_width),
{
    if cfg.wrap_method.is_no_wrap() {
        if items.len() > 0 {
            Some(items[0].ch)
        } else {
            None
        }
    } else {
        let w = wrapped(items, cfg, area_width);
        let starts = wrap_starts(&w);
        if wrap < starts.len() {
            Some(starts[wrap])
        } else {
            None
        }
    }
}

/// The index of the first item of `w` from `from` on whose character is
/// at or beyond `max_index`, or the number of items.
pub open spec fn first_from(w: Seq<WrapItem>, max_index: usize, from: int) -> int
    decreases w.len() - from,
{
    if from < 0 || from >= w.len() {
        w.len() as int
    } else if w[from].item.ch >= max_index {
        from
    } else {
        first_from(w, max_index, from + 1)
    }
}

/// The column reached after the items of `w`: each character adds its
/// width, and each wrap goes back to its indentation if `wrap_around`.
pub open spec fn width_after(w: Seq<WrapItem>, wrap_around: bool, tabs: TabStops) -> usize
    decreases w.len(),
{
    if w.len() == 0 {
        0
    } else {
        let before = width_after(w.drop_last(), wrap_around, tabs);
        let x = if wrap_around && w.last().nl is Some {
            w.last().nl.unwrap()
        } else {
            before
        };
        sat_add(x, part_len(w.last().item.part, x, tabs))
    }
}

/// The column at which the character `max_index` stands: the column
/// reached after the items before it.
pub open spec fn spec_get_width(
    items: Seq<Item>,
    cfg: PrintCfg,
    area_width: usize,
    max_index: usize,
    wrap_around: bool,
) -> usize {
    let w = wrapped_of(items, cfg, area_width);
    width_after(w.take(first_from(w, max_index, 0)), wrap_around, cfg.tab_stops)
}

/// The column at which the character `max_index` of the text of `items`
/// stands, counted from the start of its visual line if `wrap_around`, and
/// from the start of the items otherwise.
pub fn get_width(
    items: &Vec<Item>,
    cfg: &PrintCfg,
    area_width: usize,
    max_index: usize,
    wrap_around: bool,
) -> (r: usize)
    ensures
        r == spec_get_width(items@, *cfg, area_width, max_index, wrap_around),
{
    let w = wrapped(items, cfg, area_width);
    let mut x: usize = 0;
    let mut i: usize = 0;
    proof {
        assert(w@.take(0).len() == 0);
    }
    while i < w.len() && w[i].item.ch < max_index
        invariant
            i <= w@.len(),
            first_from(w@, max_index, 0) == first_from(w@, max_index, i as int),
            x == width_after(w@.take(i as int), wrap_around, cfg.tab_stops),
        decreases w.len() - i,
    {
        proof {
            assert(w@.take(i + 1).drop_last() == w@.take(i as int));
        }
        let it = w[i];
        if wrap_around {
            if let Some(indent) = it.nl {
                x = indent;
            }
        }
        if let Part::Char(c) = it.item.part {
            x = x.saturating_add(len_from(c, x, &cfg.tab_stops));
        }
        i += 1;
    }
    x
}

/// The number of characters of `items` from `i` on that begin at or
/// before column `dist`, the first of them standing at column `x`, up to
/// the first one that does not.
pub open spec fn chars_before_dist(items: Seq<Item>, i: int, x: usize, dist: usize, tabs: TabStops) -> nat
    decreases items.len() - i,
{
    if i < 0 || i >= items.len() {
        0
    } else {
        match items[i].part {
            Part::Char(c) => if x <= dist {
                1 + chars_before_dist(items, i + 1, sat_add(x, spec_len_from(c, x, tabs)), dist, tabs)
            } else {
                0
            },
            _ => chars_before_dist(items, i + 1, x, dist, tabs),
        }
    }
}

/// The column, counted in characters, that lies at the visual distance
/// `dist` from the start of `items`: the index of the last character that
/// begins at or before that distance, or 0.
pub open spec fn spec_col_at_dist(items: Seq<Item>, dist: usize, tabs: TabStops) -> nat {
    let n = chars_before_dist(items, 0, 0, dist, tabs);
    if n == 0 {
        0
    } else {
        (n - 1) as nat
    }
}

/// The column, counted in characters, that lies at the visual distance
/// `dist` from the start of `items`.
pub fn col_at_dist(items: &Vec<Item>, dist: usize, cfg: &PrintCfg) -> (r: usize)
    ensures
        r == spec_col_at_dist(items@, dist, cfg.tab_stops),
{
    let mut n: usize = 0;
    let mut x: usize = 0;
    let mut i: usize = 0;
    let mut done = false;
    while i < items.len() && !done
        invariant
            i <= items@.len(),
            n <= i,
            done ==> chars_before_dist(items@, i as int, x, dist, cfg.tab_stops) == 0,
            n + chars_before_dist(items@, i as int, x, dist, cfg.tab_stops) == chars_before_dist(
                items@,
                0,
                0,
                dist,
                cfg.tab_stops,
            ),
        decreases items.len() - i + if done { 0int } else { 1int },
    {
        if let Part::Char(c) = items[i].part {
            if x <= dist {
                n += 1;
                x = x.saturating_add(len_from(c, x, &cfg.tab_stops));
                i += 1;
            } else {
                done = true;
            }
        } else {
            i += 1;
        }
    }
    if n == 0 {
        0
    } else {
        n - 1
    }
}

/// The column reached after the characters of `items`, the first of them
/// at column 0, with no wrapping.
pub open spec fn spec_items_width(items: Seq<Item>, tabs: TabStops) -> usize
    decreases items.len(),
{
    if items.len() == 0 {
        0
    } else {
        let x = spec_items_width(items.drop_last(), tabs);
        sat_add(x, part_len(items.last().part, x, tabs))
    }
}

/// The column reached after the characters of `items`, with no wrapping.
pub fn items_width(items: &Vec<Item>, tabs: &TabStops) -> (r: usize)
    ensures
        r == spec_items_width(items@, *tabs),
{
    let mut x: usize = 0;
    let mut i: usize = 0;
    while i < items.len()
        invariant
            i <= items@.len(),
            x == spec_items_width(items@.take(i as int), *tabs),
        decreases items.len() - i,
    {
        proof {
            assert(items@.take(i + 1).drop_last() == items@.take(i as int));
        }
        if let Part::Char(c) = items[i].part {
            x = x.saturating_add(len_from(c, x, tabs));
        }
        i += 1;
    }
    proof {
        assert(items@.take(i as int) == items@);
    }
    x
}

} // verus!
