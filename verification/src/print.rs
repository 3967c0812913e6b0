//! The last stage of printing: from the wrapped items of a text to the
//! commands that a terminal carries out.

use crate::cfg::{PrintCfg, TabStops, WrapMethod};
use crate::forms::{composed, Form, FormFormer, Palette, EXTRA_CURSOR_ID, MAIN_CURSOR_ID};
use crate::parts::Part;
use crate::print_info::PrintInfo;
use crate::tags::FormId;
use crate::text::{char_start_from, line_start_of, Text};
use crate::wrap::{
    bits, bits_of, indents, indents_of, len_from, part_len, real_char_from, sat_add,
    spec_len_from, spec_real_char_from, words, words_of, Indented, WrapItem,
};
use vstd::prelude::*;

verus! {

/// A cell of the screen.
#[derive(Clone, Copy, Debug, PartialEq, Eq, Structural)]
pub struct Coord {
    pub x: usize,
    pub y: usize,
}

/// A rectangle of the screen, from its top left cell to the cell beyond
/// its bottom right one.
#[derive(Clone, Copy, Debug, PartialEq, Eq, Structural)]
pub struct Coords {
    pub tl: Coord,
    pub br: Coord,
}

impl Coords {
    /// Whether the corners are in order.
    pub open spec fn wf(&self) -> bool {
        self.tl.x <= self.br.x && self.tl.y <= self.br.y
    }

    /// The number of columns.
    pub fn width(&self) -> (r: usize)
        requires
            self.wf(),
        ensures
            r == self.br.x - self.tl.x,
    {
        self.br.x - self.tl.x
    }

    /// The number of lines.
    pub fn height(&self) -> (r: usize)
        requires
            self.wf(),
        ensures
            r == self.br.y - self.tl.y,
    {
        self.br.y - self.tl.y
    }
}

/// A command for the terminal.
#[derive(Clone, Copy, Debug, PartialEq, Eq, Structural)]
pub enum Cmd {
    MoveTo(usize, usize),
    ResetColor,
    SetStyle(Form),
    Print(char),
    /// Prints so many spaces.
    Spaces(usize),
    ShowCursor,
    SavePosition,
}

/// How the characters of a visual line are laid out in the area.
#[derive(Clone, Copy, Debug, PartialEq, Eq, Structural)]
pub enum Alignment {
    Left,
    Center,
    Right,
}

/// `a - b`, or 0 where `b` is the greater.
pub open spec fn sat_sub(a: usize, b: usize) -> usize {
    if a >= b {
        (a - b) as usize
    } else {
        0
    }
}

/// The commands that clear the rest of a line and go to the start of the
/// line `cursor.y`: the spaces up to the right edge, and no more of them
/// than the area is wide.
pub open spec fn clear_line_cmds(cursor: Coord, coords: Coords, x_shift: usize) -> Seq<Cmd> {
    let len = sat_sub(sat_add(coords.br.x, x_shift), cursor.x);
    let width = sat_sub(coords.br.x, coords.tl.x);
    seq![
        Cmd::ResetColor,
        Cmd::Spaces(
            if len < width {
                len
            } else {
                width
            },
        ),
        Cmd::MoveTo(coords.tl.x, cursor.y),
    ]
}

/// Clears the rest of a line and goes to the start of the line
/// `cursor.y`.
pub fn clear_line(cursor: Coord, coords: Coords, x_shift: usize, out: &mut Vec<Cmd>)
    ensures
        final(out)@ == old(out)@ + clear_line_cmds(cursor, coords, x_shift),
{
    let len = coords.br.x.saturating_add(x_shift).saturating_sub(cursor.x);
    let width = coords.br.x.saturating_sub(coords.tl.x);
    out.push(Cmd::ResetColor);
    out.push(
        Cmd::Spaces(
            if len < width {
                len
            } else {
                width
            },
        ),
    );
    out.push(Cmd::MoveTo(coords.tl.x, cursor.y));
    proof {
        assert(out@ =~= old(out)@ + clear_line_cmds(cursor, coords, x_shift));
    }
}

/// The commands that print a character at `cursor`: spaces for the part
/// of it that lies within the area where the text is shifted beyond its
/// start, the character itself where it fits, with spaces for a tab, and
/// spaces up to the right edge where it would go beyond it.
pub open spec fn print_char_cmds(
    cursor: Coord,
    c: char,
    coords: Coords,
    x_shift: usize,
    tabs: TabStops,
) -> Seq<Cmd> {
    let len = spec_len_from(c, sat_sub(cursor.x, coords.tl.x), tabs);
    let left = sat_add(coords.tl.x, x_shift);
    let right = sat_add(coords.br.x, x_shift);
    if cursor.x < left {
        seq![Cmd::Spaces(sat_sub(sat_add(cursor.x, len), left))]
    } else if sat_add(cursor.x, len) <= right {
        if c == '\t' {
            seq![Cmd::Spaces(len)]
        } else {
            seq![Cmd::Print(c)]
        }
    } else if cursor.x < right {
        seq![Cmd::Spaces(sat_sub(right, cursor.x))]
    } else {
        Seq::empty()
    }
}

/// Prints a character at `cursor` and returns the columns that it takes.
pub fn print_char(
    cursor: Coord,
    c: char,
    coords: Coords,
    x_shift: usize,
    tabs: &TabStops,
    out: &mut Vec<Cmd>,
) -> (len: usize)
    ensures
        len == spec_len_from(c, sat_sub(cursor.x, coords.tl.x), *tabs),
        final(out)@ == old(out)@ + print_char_cmds(cursor, c, coords, x_shift, *tabs),
{
    let len = len_from(c, cursor.x.saturating_sub(coords.tl.x), tabs);
    let left = coords.tl.x.saturating_add(x_shift);
    let right = coords.br.x.saturating_add(x_shift);
    if cursor.x < left {
        out.push(Cmd::Spaces(cursor.x.saturating_add(len).saturating_sub(left)));
    } else if cursor.x.saturating_add(len) <= right {
        if c == '\t' {
            out.push(Cmd::Spaces(len));
        } else {
            out.push(Cmd::Print(c));
        }
    } else if cursor.x < right {
        out.push(Cmd::Spaces(right.saturating_sub(cursor.x)));
    }
    proof {
        assert(out@ =~= old(out)@ + print_char_cmds(cursor, c, coords, x_shift, *tabs));
    }
    len
}

/// The state of the printing of a text.
pub struct Printer {
    /// Where the next character goes.
    pub cursor: Coord,
    /// The character that was rendered last.
    pub last_char: char,
    /// Whether the caret of the terminal is to be shown.
    pub show_cursor: bool,
    /// The style to go back to after the next character.
    pub prev_style: Option<Form>,
    /// How the visual lines are laid out.
    pub align: Alignment,
    /// Whether the area is full.
    pub full: bool,
    /// The forms in force.
    pub forms: FormFormer,
}

/// What does not change while a text is printed, besides the
/// configuration and the palette: the area, the shift of the text, and
/// whether the area is the active one and the terminal shows a caret of
/// its own.
#[derive(Clone, Copy, Debug, PartialEq, Eq, Structural)]
pub struct PrintCtx {
    pub coords: Coords,
    pub x_shift: usize,
    pub is_active: bool,
    pub hardware_caret: bool,
}

/// The state of a printer as specifications see it.
pub struct PrinterView {
    pub cursor: Coord,
    pub last_char: char,
    pub show_cursor: bool,
    pub prev_style: Option<Form>,
    pub align: Alignment,
    pub full: bool,
    pub stack: Seq<FormId>,
}

/// A state with the commands that led to it.
pub struct Printed {
    pub state: PrinterView,
    pub cmds: Seq<Cmd>,
}

/// The stack of forms after a form was taken off it.
pub open spec fn stack_without(stack: Seq<FormId>, id: FormId) -> Seq<FormId> {
    if crate::forms::last_index_of(stack, id) >= 0 {
        stack.remove(crate::forms::last_index_of(stack, id))
    } else {
        stack
    }
}

/// The width of the visual line that begins with the item `i` of `w`:
/// the columns of the items from `i` up to the next one that begins a
/// visual line, the first of them at column `x`.
pub open spec fn line_width(w: Seq<WrapItem>, i: int, x: usize, first: bool, tabs: TabStops) -> usize
    decreases w.len() - i,
{
    if i < 0 || i >= w.len() || (!first && w[i].nl is Some) {
        x
    } else {
        line_width(w, i + 1, sat_add(x, part_len(w[i].item.part, x, tabs)), false, tabs)
    }
}

/// The width of the visual line that begins with the item `i` of `w`.
pub fn measure_line(w: &Vec<WrapItem>, i: usize, x: usize, tabs: &TabStops) -> (r: usize)
    ensures
        r == line_width(w@, i as int, x, true, *tabs),
{
    let mut k: usize = i;
    let mut cur = x;
    let mut first = true;
    while k < w.len() && (first || w[k].nl.is_none())
        invariant
            i <= k,
            line_width(w@, i as int, x, true, *tabs) == line_width(w@, k as int, cur, first, *tabs),
        decreases w.len() - k,
    {
        if let Part::Char(c) = w[k].item.part {
            cur = cur.saturating_add(len_from(c, cur, tabs));
        }
        first = false;
        k += 1;
    }
    cur
}

/// The padding that an alignment puts before a visual line `line`
/// columns wide in an area `width` columns wide.
pub open spec fn spec_padding(align: Alignment, line: usize, width: usize) -> usize {
    match align {
        Alignment::Left => 0,
        Alignment::Center => sat_sub(width, line) / 2,
        Alignment::Right => sat_sub(width, line),
    }
}

/// The padding that an alignment puts before a visual line.
pub fn padding(align: Alignment, line: usize, width: usize) -> (r: usize)
    ensures
        r == spec_padding(align, line, width),
{
    match align {
        Alignment::Left => 0,
        Alignment::Center => width.saturating_sub(line) / 2,
        Alignment::Right => width.saturating_sub(line),
    }
}

/// What the beginning of a visual line at the indentation `indent` does:
/// it clears the rest of the line before; if the area is full, the
/// printing ends; else the cursor goes to the indentation and the padding
/// of the alignment, the spaces up to there are printed in the style in
/// force, and the line counts.
pub open spec fn new_line_step(
    st: PrinterView,
    indent: usize,
    line: usize,
    ctx: PrintCtx, cfg: PrintCfg, palette: Palette) -> Printed {
    let cleared = clear_line_cmds(st.cursor, ctx.coords, ctx.x_shift);
    if st.cursor.y >= ctx.coords.br.y {
        Printed {
            state: PrinterView {
                cursor: Coord { x: st.cursor.x, y: sat_add(st.cursor.y, 1) },
                full: true,
                ..st
            },
            cmds: cleared,
        }
    } else {
        let width = sat_sub(ctx.coords.br.x, ctx.coords.tl.x);
        let x = sat_add(
            sat_add(ctx.coords.tl.x, indent),
            spec_padding(st.align, sat_add(indent, line), width),
        );
        Printed {
            state: PrinterView { cursor: Coord { x, y: (st.cursor.y + 1) as usize }, ..st },
            cmds: cleared + seq![
                Cmd::Spaces(sat_sub(x, sat_add(ctx.coords.tl.x, ctx.x_shift))),
                Cmd::SetStyle(composed(palette, st.stack, Form::spec_plain())),
            ],
        }
    }
}

/// What a part does to the printing. A character is printed as its
/// glyph, and the style goes back to what it was where a cursor changed
/// it. The tags of forms change the style. The main cursor shows the
/// caret of the terminal in an active area that has one, and else takes
/// the form of the main cursor for one character; an extra cursor takes
/// its form for one character. The tags of alignment are kept for the
/// visual lines to come.
pub open spec fn part_step(st: PrinterView, p: Part, ctx: PrintCtx, cfg: PrintCfg, palette: Palette) -> Printed {
    match p {
        Part::Char(c) => {
            let glyph = spec_real_char_from(c, cfg.new_line, st.last_char);
            let len = spec_len_from(glyph, sat_sub(st.cursor.x, ctx.coords.tl.x), cfg.tab_stops);
            Printed {
                state: PrinterView {
                    cursor: Coord { x: sat_add(st.cursor.x, len), y: st.cursor.y },
                    last_char: glyph,
                    prev_style: None,
                    ..st
                },
                cmds: print_char_cmds(st.cursor, glyph, ctx.coords, ctx.x_shift, cfg.tab_stops) + match st.prev_style {
                    Some(style) => seq![Cmd::ResetColor, Cmd::SetStyle(style)],
                    None => Seq::empty(),
                },
            }
        },
        Part::PushForm(id) => {
            let stack = st.stack.push(id);
            Printed {
                state: PrinterView { stack, ..st },
                cmds: seq![
                    Cmd::ResetColor,
                    Cmd::SetStyle(composed(palette, stack, Form::spec_plain())),
                ],
            }
        },
        Part::PopForm(id) => {
            let stack = stack_without(st.stack, id);
            Printed {
                state: PrinterView { stack, ..st },
                cmds: seq![
                    Cmd::ResetColor,
                    Cmd::SetStyle(composed(palette, stack, Form::spec_plain())),
                ],
            }
        },
        Part::MainCursor => if ctx.is_active && ctx.hardware_caret {
            Printed {
                state: PrinterView { show_cursor: true, ..st },
                cmds: seq![
                    Cmd::MoveTo(st.cursor.x, sat_sub(st.cursor.y, 1)),
                    Cmd::ShowCursor,
                    Cmd::SavePosition,
                ],
            }
        } else {
            Printed {
                state: PrinterView {
                    prev_style: Some(composed(palette, st.stack, Form::spec_plain())),
                    ..st
                },
                cmds: seq![
                    Cmd::SetStyle(palette.spec_form_of(FormId { id: MAIN_CURSOR_ID })),
                ],
            }
        },
        Part::ExtraCursor => Printed {
            state: PrinterView {
                prev_style: Some(composed(palette, st.stack, Form::spec_plain())),
                ..st
            },
            cmds: seq![Cmd::SetStyle(palette.spec_form_of(FormId { id: EXTRA_CURSOR_ID }))],
        },
        Part::AlignLeft => Printed {
            state: PrinterView { align: Alignment::Left, ..st },
            cmds: Seq::empty(),
        },
        Part::AlignCenter => Printed {
            state: PrinterView { align: Alignment::Center, ..st },
            cmds: Seq::empty(),
        },
        Part::AlignRight => Printed {
            state: PrinterView { align: Alignment::Right, ..st },
            cmds: Seq::empty(),
        },
        _ => Printed { state: st, cmds: Seq::empty() },
    }
}

/// What the item `i` of `w` does to the printing: nothing once the area
/// is full; else a new visual line begins if the item asks for one, and
/// then, unless that filled the area, the part is printed.
pub open spec fn item_step(st: PrinterView, w: Seq<WrapItem>, i: int, ctx: PrintCtx, cfg: PrintCfg, palette: Palette) -> Printed {
    if st.full {
        Printed { state: st, cmds: Seq::empty() }
    } else {
        let begun = match w[i].nl {
            Some(indent) => new_line_step(
                st,
                indent,
                line_width(w, i, 0, true, cfg.tab_stops), ctx, cfg, palette),
            None => Printed { state: st, cmds: Seq::empty() },
        };
        if begun.state.full {
            begun
        } else {
            let printed = part_step(begun.state, w[i].item.part, ctx, cfg, palette);
            Printed { state: printed.state, cmds: begun.cmds + printed.cmds }
        }
    }
}

/// The printing of the first `n` items of `w`.
pub open spec fn printed_upto(st: PrinterView, w: Seq<WrapItem>, n: int, ctx: PrintCtx, cfg: PrintCfg, palette: Palette) -> Printed
    decreases n,
{
    if n <= 0 {
        Printed { state: st, cmds: Seq::empty() }
    } else {
        let before = printed_upto(st, w, n - 1, ctx, cfg, palette);
        let step = item_step(before.state, w, n - 1, ctx, cfg, palette);
        Printed { state: step.state, cmds: before.cmds + step.cmds }
    }
}

/// The commands that clear the lines of the area from the line of
/// `cursor` on, `left` of them.
pub open spec fn clear_rest_cmds(cursor: Coord, coords: Coords, left: nat) -> Seq<Cmd>
    decreases left,
{
    if left == 0 {
        Seq::empty()
    } else {
        clear_line_cmds(cursor, coords, 0) + clear_rest_cmds(
            Coord { x: coords.tl.x, y: sat_add(cursor.y, 1) },
            coords,
            (left - 1) as nat,
        )
    }
}

/// The commands that print the items of `w` in the area: the cursor goes
/// to the top left; the items are printed one after the other, and a
/// space after the last; then the rest of the area is cleared, and the
/// caret is shown if the main cursor asked for it.
pub open spec fn print_cmds(w: Seq<WrapItem>, ctx: PrintCtx, cfg: PrintCfg, palette: Palette) -> Seq<Cmd> {
    let start = PrinterView {
        cursor: ctx.coords.tl,
        last_char: 'a',
        show_cursor: false,
        prev_style: None,
        align: Alignment::Left,
        full: false,
        stack: Seq::empty(),
    };
    let body = printed_upto(start, w, w.len() as int, ctx, cfg, palette);
    let last = if body.state.full {
        Printed { state: body.state, cmds: Seq::empty() }
    } else {
        part_step(body.state, Part::Char(' '), ctx, cfg, palette)
    };
    let left = if last.state.cursor.y <= ctx.coords.br.y {
        (ctx.coords.br.y - last.state.cursor.y + 1) as nat
    } else {
        0
    };
    seq![Cmd::MoveTo(ctx.coords.tl.x, ctx.coords.tl.y)] + body.cmds + last.cmds + clear_rest_cmds(
        last.state.cursor,
        ctx.coords,
        left,
    ) + if last.state.show_cursor {
        seq![Cmd::ShowCursor, Cmd::ResetColor]
    } else {
        seq![Cmd::ResetColor]
    }
}

impl Printer {
    /// The state as specifications see it.
    pub open spec fn view(&self) -> PrinterView {
        PrinterView {
            cursor: self.cursor,
            last_char: self.last_char,
            show_cursor: self.show_cursor,
            prev_style: self.prev_style,
            align: self.align,
            full: self.full,
            stack: self.forms.stack@,
        }
    }

    /// The printer at the top left of an area.
    pub fn new(coords: Coords) -> (r: Self)
        ensures
            r.view() == (PrinterView {
                cursor: coords.tl,
                last_char: 'a',
                show_cursor: false,
                prev_style: None,
                align: Alignment::Left,
                full: false,
                stack: Seq::empty(),
            }),
    {
        let r = Printer {
            cursor: coords.tl,
            last_char: 'a',
            show_cursor: false,
            prev_style: None,
            align: Alignment::Left,
            full: false,
            forms: FormFormer::new(),
        };
        proof {
            assert(r.forms.stack@ =~= Seq::empty());
        }
        r
    }

    /// Begins a visual line at the indentation `indent`, where the line
    /// to come is `line` columns wide.
    pub fn begin_line(&mut self, indent: usize, line: usize, ctx: &PrintCtx, cfg: &PrintCfg, palette: &Palette, out: &mut Vec<Cmd>)
        ensures
            final(self).view() == new_line_step(old(self).view(), indent, line, *ctx, *cfg, *palette).state,
            final(out)@ == old(out)@ + new_line_step(old(self).view(), indent, line, *ctx, *cfg, *palette).cmds,
    {
        clear_line(self.cursor, ctx.coords, ctx.x_shift, out);
        if self.cursor.y >= ctx.coords.br.y {
            self.cursor.y = self.cursor.y.saturating_add(1);
            self.full = true;
        } else {
            let width = ctx.coords.br.x.saturating_sub(ctx.coords.tl.x);
            let x = ctx.coords.tl.x.saturating_add(indent).saturating_add(
                padding(self.align, indent.saturating_add(line), width),
            );
            self.cursor.x = x;
            self.cursor.y = self.cursor.y + 1;
            out.push(Cmd::Spaces(x.saturating_sub(ctx.coords.tl.x.saturating_add(ctx.x_shift))));
            out.push(Cmd::SetStyle(self.forms.make_form(palette)));
            proof {
                assert(out@ =~= old(out)@ + new_line_step(
                    old(self).view(),
                    indent,
                    line,
                    *ctx, *cfg, *palette,
                ).cmds);
            }
        }
    }

    /// Prints a part.
    pub fn print_part(&mut self, p: Part, ctx: &PrintCtx, cfg: &PrintCfg, palette: &Palette, out: &mut Vec<Cmd>)
        ensures
            final(self).view() == part_step(old(self).view(), p, *ctx, *cfg, *palette).state,
            final(out)@ == old(out)@ + part_step(old(self).view(), p, *ctx, *cfg, *palette).cmds,
    {
        match p {
            Part::Char(c) => {
                let glyph = real_char_from(c, &cfg.new_line, self.last_char);
                let len = print_char(self.cursor, glyph, ctx.coords, ctx.x_shift, &cfg.tab_stops, out);
                self.cursor.x = self.cursor.x.saturating_add(len);
                self.last_char = glyph;
                if let Some(style) = self.prev_style {
                    out.push(Cmd::ResetColor);
                    out.push(Cmd::SetStyle(style));
                }
                self.prev_style = None;
            },
            Part::PushForm(id) => {
                self.forms.apply(id);
                out.push(Cmd::ResetColor);
                out.push(Cmd::SetStyle(self.forms.make_form(palette)));
            },
            Part::PopForm(id) => {
                self.forms.remove(id);
                out.push(Cmd::ResetColor);
                out.push(Cmd::SetStyle(self.forms.make_form(palette)));
            },
            Part::MainCursor => {
                if ctx.is_active && ctx.hardware_caret {
                    out.push(Cmd::MoveTo(self.cursor.x, self.cursor.y.saturating_sub(1)));
                    out.push(Cmd::ShowCursor);
                    out.push(Cmd::SavePosition);
                    self.show_cursor = true;
                } else {
                    self.prev_style = Some(self.forms.make_form(palette));
                    out.push(Cmd::SetStyle(palette.form_of(FormId { id: MAIN_CURSOR_ID })));
                }
            },
            Part::ExtraCursor => {
                self.prev_style = Some(self.forms.make_form(palette));
                out.push(Cmd::SetStyle(palette.form_of(FormId { id: EXTRA_CURSOR_ID })));
            },
            Part::AlignLeft => {
                self.align = Alignment::Left;
            },
            Part::AlignCenter => {
                self.align = Alignment::Center;
            },
            Part::AlignRight => {
                self.align = Alignment::Right;
            },
            _ => {},
        }
        proof {
            assert(out@ =~= old(out)@ + part_step(old(self).view(), p, *ctx, *cfg, *palette).cmds);
        }
    }

    /// Prints the item `i` of `w`.
    pub fn print_item(&mut self, w: &Vec<WrapItem>, i: usize, ctx: &PrintCtx, cfg: &PrintCfg, palette: &Palette, out: &mut Vec<Cmd>)
        requires
            i < w@.len(),
        ensures
            final(self).view() == item_step(old(self).view(), w@, i as int, *ctx, *cfg, *palette).state,
            final(out)@ == old(out)@ + item_step(old(self).view(), w@, i as int, *ctx, *cfg, *palette).cmds,
    {
        if self.full {
            proof {
                assert(out@ =~= old(out)@ + Seq::<Cmd>::empty());
            }
            return ;
        }
        let ghost mid = out@;
        if let Some(indent) = w[i].nl {
            let line = measure_line(w, i, 0, &cfg.tab_stops);
            self.begin_line(indent, line, ctx, cfg, palette, out);
        } else {
            proof {
                assert(out@ =~= old(out)@ + Seq::<Cmd>::empty());
            }
        }
        if !self.full {
            let ghost begun = out@;
            self.print_part(w[i].item.part, ctx, cfg, palette, out);
            proof {
                let b = match w@[i as int].nl {
                    Some(indent) => new_line_step(
                        old(self).view(),
                        indent,
                        line_width(w@, i as int, 0, true, cfg.tab_stops),
                        *ctx, *cfg, *palette,
                    ),
                    None => Printed { state: old(self).view(), cmds: Seq::empty() },
                };
                let p = part_step(b.state, w@[i as int].item.part, *ctx, *cfg, *palette);
                assert(out@ =~= old(out)@ + (b.cmds + p.cmds));
            }
        }
    }
}

/// Prints the wrapped items of a text in an area: the commands that a
/// terminal carries out to show them.
pub fn print(w: &Vec<WrapItem>, ctx: &PrintCtx, cfg: &PrintCfg, palette: &Palette) -> (r: Vec<Cmd>)
    requires
        ctx.coords.br.y < usize::MAX,
    ensures
        r@ == print_cmds(w@, *ctx, *cfg, *palette),
{
    let mut out: Vec<Cmd> = Vec::new();
    out.push(Cmd::MoveTo(ctx.coords.tl.x, ctx.coords.tl.y));
    let mut printer = Printer::new(ctx.coords);
    let ghost start = printer.view();
    let mut i: usize = 0;
    while i < w.len()
        invariant
            i <= w@.len(),
            out@ == seq![Cmd::MoveTo(ctx.coords.tl.x, ctx.coords.tl.y)] + printed_upto(
                start,
                w@,
                i as int,
                *ctx, *cfg, *palette,
            ).cmds,
            printer.view() == printed_upto(start, w@, i as int, *ctx, *cfg, *palette).state,
        decreases w.len() - i,
    {
        let ghost before = out@;
        printer.print_item(w, i, ctx, cfg, palette, &mut out);
        i += 1;
        proof {
            let b = printed_upto(start, w@, i - 1, *ctx, *cfg, *palette);
            let s = item_step(b.state, w@, i - 1, *ctx, *cfg, *palette);
            assert(out@ =~= seq![Cmd::MoveTo(ctx.coords.tl.x, ctx.coords.tl.y)] + (b.cmds
                + s.cmds));
        }
    }
    let ghost body = printed_upto(start, w@, w@.len() as int, *ctx, *cfg, *palette);
    let ghost head = out@;
    if !printer.full {
        printer.print_part(Part::Char(' '), ctx, cfg, palette, &mut out);
    }
    let ghost last = if body.state.full {
        Printed { state: body.state, cmds: Seq::empty() }
    } else {
        part_step(body.state, Part::Char(' '), *ctx, *cfg, *palette)
    };
    proof {
        assert(out@ =~= head + last.cmds);
    }
    let ghost mid = out@;
    let mut cursor = printer.cursor;
    let ghost total = if cursor.y <= ctx.coords.br.y {
        (ctx.coords.br.y - cursor.y + 1) as nat
    } else {
        0
    };
    let ghost first = cursor;
    while cursor.y <= ctx.coords.br.y
        invariant
            ctx.coords.br.y < usize::MAX,
            total == if first.y <= ctx.coords.br.y {
                (ctx.coords.br.y - first.y + 1) as nat
            } else {
                0
            },
            first.y <= cursor.y,
            out@ + clear_rest_cmds(
                cursor,
                ctx.coords,
                if cursor.y <= ctx.coords.br.y {
                    (ctx.coords.br.y - cursor.y + 1) as nat
                } else {
                    0
                },
            ) == mid + clear_rest_cmds(first, ctx.coords, total),
        decreases
            (if cursor.y <= ctx.coords.br.y {
                ctx.coords.br.y + 1 - cursor.y
            } else {
                0
            }),
    {
        let ghost before = out@;
        let ghost c0 = cursor;
        let ghost left = (ctx.coords.br.y - cursor.y + 1) as nat;
        clear_line(cursor, ctx.coords, 0, &mut out);
        cursor = Coord { x: ctx.coords.tl.x, y: cursor.y + 1 };
        proof {
            let rest = clear_rest_cmds(cursor, ctx.coords, (left - 1) as nat);
            assert(clear_rest_cmds(c0, ctx.coords, left) == clear_line_cmds(c0, ctx.coords, 0)
                + rest);
            assert(before + (clear_line_cmds(c0, ctx.coords, 0) + rest) =~= out@ + rest);
        }
    }
    proof {
        assert(out@ + Seq::<Cmd>::empty() =~= out@);
    }
    if printer.show_cursor {
        out.push(Cmd::ShowCursor);
    }
    out.push(Cmd::ResetColor);
    proof {
        assert(out@ =~= print_cmds(w@, *ctx, *cfg, *palette));
    }
    out
}

/// The items of `ind` that are shown where the first character shown is
/// `first_char`: the characters from it on, and all tags.
pub open spec fn shown_from(ind: Seq<Indented>, first_char: usize) -> Seq<Indented> {
    ind.filter(|it: Indented| it.item.ch >= first_char || !(it.item.part is Char))
}

/// The items of `ind` that are shown where the first character shown is
/// `first_char`.
pub fn keep_from(ind: &Vec<Indented>, first_char: usize) -> (r: Vec<Indented>)
    ensures
        r@ == shown_from(ind@, first_char),
{
    let mut out: Vec<Indented> = Vec::new();
    let mut i: usize = 0;
    proof {
        reveal(Seq::filter);
        assert(ind@.take(0).len() == 0);
    }
    while i < ind.len()
        invariant
            i <= ind@.len(),
            out@ == shown_from(ind@.take(i as int), first_char),
        decreases ind.len() - i,
    {
        let it = ind[i];
        proof {
            reveal(Seq::filter);
            assert(ind@.take(i + 1).drop_last() == ind@.take(i as int));
        }
        if it.item.ch >= first_char || it.item.part.is_tag() {
            out.push(it);
        }
        i += 1;
    }
    proof {
        assert(ind@.take(i as int) == ind@);
    }
    out
}

impl Text {
    /// The commands that print the text in an area, from the character
    /// `info.first_char` on: the line of that character is read from its
    /// start, so that its indentation and its tags are known, and the
    /// characters before the first one shown are left out.
    pub open spec fn spec_print(
        &self,
        info: PrintInfo,
        cfg: PrintCfg,
        ctx: PrintCtx,
        palette: Palette,
    ) -> Seq<Cmd> {
        let bytes = self.bytes();
        let b = char_start_from(bytes, 0, info.first_char as nat);
        let ls = line_start_of(bytes, b);
        let width = cfg.wrap_method.spec_wrapping_cap(sat_sub(ctx.coords.br.x, ctx.coords.tl.x));
        let kept = shown_from(
            indents_of(
                self.spec_parts(ls, bytes.len() as int + 1),
                cfg.tab_stops,
                width,
                cfg.indent_wrap,
            ),
            info.first_char,
        );
        let w = if cfg.wrap_method == WrapMethod::Word {
            words_of(kept, width, cfg.tab_stops, cfg.word_chars)
        } else {
            bits_of(kept, width, cfg.tab_stops, cfg.wrap_method == WrapMethod::NoWrap)
        };
        print_cmds(w, ctx, cfg, palette)
    }

    /// Prints the text in an area: the commands that a terminal carries
    /// out to show it from the character `info.first_char` on, shifted by
    /// `info.x_shift`.
    pub fn print(
        &self,
        info: PrintInfo,
        cfg: &PrintCfg,
        coords: Coords,
        is_active: bool,
        hardware_caret: bool,
        palette: &Palette,
    ) -> (r: Vec<Cmd>)
        requires
            self.wf(),
            coords.br.y < usize::MAX,
        ensures
            r@ == self.spec_print(
                info,
                *cfg,
                PrintCtx { coords, x_shift: info.x_shift, is_active, hardware_caret },
                *palette,
            ),
    {
        let ctx = PrintCtx { coords, x_shift: info.x_shift, is_active, hardware_caret };
        let b = self.char_to_byte(info.first_char);
        let ls = self.line_start(b);
        let len = self.len_bytes();
        let items = self.parts_in(ls, len + 1);
        let width = cfg.wrap_method.wrapping_cap(coords.br.x.saturating_sub(coords.tl.x));
        let ind = indents(&items, &cfg.tab_stops, width, cfg.indent_wrap);
        let kept = keep_from(&ind, info.first_char);
        let w = match cfg.wrap_method {
            WrapMethod::Word => words(&kept, width, &cfg.tab_stops, &cfg.word_chars),
            _ => bits(&kept, width, &cfg.tab_stops, cfg.wrap_method.is_no_wrap()),
        };
        print(&w, &ctx, cfg, palette)
    }
}

} // verus!
