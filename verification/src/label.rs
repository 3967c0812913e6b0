//! A label: the part of the screen on which a text is printed.

use crate::cfg::{PrintCfg, WrapMethod};
use crate::forms::Palette;
use crate::parts::Item;
use crate::print::{Cmd, Coord, Coords, PrintCtx};
use crate::print_info::PrintInfo;
use crate::text::Text;
use crate::wrap::{
    char_at_wrap, col_at_dist, get_width, spec_char_at_wrap, spec_col_at_dist, spec_get_width,
    spec_wrap_count, wrap_count,
};
use vstd::prelude::*;

verus! {

/// A label: its area on the screen, and whether it is the one that takes
/// the keys.
#[derive(Clone, Copy, Debug, PartialEq, Eq, Structural)]
pub struct Label {
    pub area: Coords,
    pub is_active: bool,
}

/// The area that begins where `area` begins and is `width` columns wide
/// and `height` lines high, as far as the numbers reach.
pub open spec fn spec_from_tl(area: Coords, width: usize, height: usize) -> Coords {
    Coords {
        tl: area.tl,
        br: Coord {
            x: if area.tl.x + width > usize::MAX {
                usize::MAX
            } else {
                (area.tl.x + width) as usize
            },
            y: if area.tl.y + height > usize::MAX {
                usize::MAX
            } else {
                (area.tl.y + height) as usize
            },
        },
    }
}

impl Label {
    /// The label of an area, which does not take the keys yet.
    pub fn new(area: Coords) -> (r: Self)
        ensures
            r == (Label { area, is_active: false }),
    {
        Label { area, is_active: false }
    }

    /// Makes the label the one that takes the keys.
    pub fn set_as_active(&mut self)
        ensures
            *final(self) == (Label { area: old(self).area, is_active: true }),
    {
        self.is_active = true;
    }

    /// The area of the label.
    pub fn area(&self) -> (r: Coords)
        ensures
            r == self.area,
    {
        self.area
    }

    /// The area in which the lines of a text are wrapped: with a cap on
    /// the width of lines, an area as wide as the cap, and otherwise the
    /// area of the label.
    pub fn wrapping_coords(&self, cfg: &PrintCfg) -> (r: Coords)
        requires
            self.area.wf(),
        ensures
            r == match cfg.wrap_method {
                WrapMethod::Capped(cap) => spec_from_tl(
                    self.area,
                    cap,
                    (self.area.br.y - self.area.tl.y) as usize,
                ),
                _ => self.area,
            },
    {
        match cfg.wrap_method {
            WrapMethod::Capped(cap) => Coords {
                tl: self.area.tl,
                br: Coord {
                    x: self.area.tl.x.saturating_add(cap),
                    y: self.area.tl.y.saturating_add(self.area.height()),
                },
            },
            _ => self.area,
        }
    }

    /// Prints a text on the label: the commands that a terminal carries
    /// out to show it.
    pub fn print(
        &self,
        text: &Text,
        info: PrintInfo,
        cfg: &PrintCfg,
        palette: &Palette,
        hardware_caret: bool,
    ) -> (r: Vec<Cmd>)
        requires
            text.wf(),
            self.area.br.y < usize::MAX,
        ensures
            r@ == text.spec_print(
                info,
                *cfg,
                PrintCtx {
                    coords: self.area,
                    x_shift: info.x_shift,
                    is_active: self.is_active,
                    hardware_caret,
                },
                *palette,
            ),
    {
        text.print(info, cfg, self.area, self.is_active, hardware_caret, palette)
    }

    /// The number of times that the items wrap on the label before the
    /// character of index `max_index`.
    pub fn wrap_count(&self, items: &Vec<Item>, cfg: &PrintCfg, max_index: usize) -> (r: usize)
        requires
            self.area.wf(),
        ensures
            r == spec_wrap_count(
                items@,
                *cfg,
                (self.area.br.x - self.area.tl.x) as usize,
                max_index,
            ),
    {
        wrap_count(items, cfg, self.area.width(), max_index)
    }

    /// The index of the character with which the visual line `wrap` of
    /// the items begins on the label.
    pub fn char_at_wrap(&self, items: &Vec<Item>, wrap: usize, cfg: &PrintCfg) -> (r: Option<
        usize,
    >)
        requires
            self.area.wf(),
        ensures
            r == spec_char_at_wrap(
                items@,
                wrap,
                *cfg,
                (self.area.br.x - self.area.tl.x) as usize,
            ),
    {
        char_at_wrap(items, wrap, cfg, self.area.width())
    }

    /// The visual distance of the character of index `max_index` from
    /// the start of its line, or of its visual line if `wrap_around`.
    pub fn get_width(
        &self,
        items: &Vec<Item>,
        cfg: &PrintCfg,
        max_index: usize,
        wrap_around: bool,
    ) -> (r: usize)
        requires
            self.area.wf(),
        ensures
            r == spec_get_width(
                items@,
                *cfg,
                (self.area.br.x - self.area.tl.x) as usize,
                max_index,
                wrap_around,
            ),
    {
        get_width(items, cfg, self.area.width(), max_index, wrap_around)
    }

    /// The column of the items at the visual distance `dist`.
    pub fn col_at_dist(&self, items: &Vec<Item>, dist: usize, cfg: &PrintCfg) -> (r: usize)
        ensures
            r == spec_col_at_dist(items@, dist, cfg.tab_stops),
    {
        col_at_dist(items, dist, cfg)
    }
}

} // verus!
