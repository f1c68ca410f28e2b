//! Text: a font as a sheet of glyphs, and a cursor that draws glyphs of it
//! on a surface with the blitter.

use vstd::prelude::*;
use crate::raster::copy_pen;
use crate::raster::BitOrder;
use crate::raster::Raster;
use crate::vdi::VDI;

verus! {

/// A font: one packed bitmap, a single row of glyphs high, that holds all
/// glyphs side by side, with the place of each.
///
/// The sheet is stored with bit 15 of each word as its leftmost pixel.
pub struct Font<'a> {
    /// The glyph sheet, `height` rows of `width` pixels.
    pub bits: &'a [u16],
    /// The left edge of each glyph in the sheet, and after the last glyph
    /// the right edge of the sheet's used part: glyph `i` fills the columns
    /// from `left_edges[i]` up to `left_edges[i + 1]`.
    pub left_edges: &'a [u16],
    /// The width of the sheet, in pixels.
    pub width: u16,
    /// The number of rows of a glyph that lie above its baseline.
    pub ascender: u16,
    /// The height of every glyph, in pixels.
    pub height: u16,
}

impl<'a> Font<'a> {
    /// Whether the font has the glyph `chr`: both of its edges are in the
    /// table, the left one not right of the right one.
    pub open spec fn has_glyph(&self, chr: int) -> bool {
        &&& 0 <= chr
        &&& chr + 1 < self.left_edges@.len()
        &&& self.left_edges@[chr] <= self.left_edges@[chr + 1]
    }

    /// The width of the glyph `chr`.
    pub open spec fn glyph_width(&self, chr: int) -> int {
        self.left_edges@[chr + 1] - self.left_edges@[chr]
    }
}

/// A place to write text: a surface, a font, the cursor at which the next
/// glyph goes, and the margins inside which glyphs show.
pub struct TextContext<'a, V: VDI + ?Sized> {
    /// The surface that is written on.
    pub vdi: &'a mut V,
    /// The font that is written with.
    pub font: &'a Font<'a>,
    /// The column of the next glyph's left edge.
    pub left: u16,
    /// The row on which glyphs stand.
    pub baseline: u16,
    /// The combine function with which glyphs are struck on the surface.
    pub strike_fn: u8,
    /// The first column in which glyphs show.
    pub left_margin: u16,
    /// The column after the last in which glyphs show.
    pub right_margin: u16,
    /// The first row in which glyphs show.
    pub top_margin: u16,
    /// The row after the last in which glyphs show.
    pub bottom_margin: u16,
}

impl<'a, V: VDI + ?Sized> TextContext<'a, V> {
    /// The raster of the surface that is written on.
    pub open spec fn surface(&self) -> Raster {
        self.vdi.raster()
    }

    /// The row of the top of a glyph at the cursor. It is negative where the
    /// baseline is nearer to the top of the surface than the ascender is
    /// high.
    pub open spec fn glyph_top(&self) -> int {
        self.baseline - self.font.ascender
    }

    /// Whether the pixel `(x, y)` lies inside the margins.
    pub open spec fn shows(&self, x: int, y: int) -> bool {
        &&& self.left_margin <= x < self.right_margin
        &&& self.top_margin <= y < self.bottom_margin
    }

    /// New pen at `(x, y)` after the glyph `chr` is put at the cursor:
    /// inside the margins, what a copy of the whole glyph from the sheet to
    /// the cursor gives; outside them, what was there.
    pub open spec fn glyph_pen(&self, chr: int, x: int, y: int, was: u8) -> u8 {
        if self.shows(x, y) {
            copy_pen(
                (self.font.left_edges@[chr] as int, 0),
                self.font.width as int,
                self.font.bits@,
                (self.left as int, self.glyph_top()),
                (self.font.glyph_width(chr), self.font.height as int),
                self.strike_fn,
                BitOrder::BigEndian,
                x,
                y,
                was,
            )
        } else {
            was
        }
    }

    /// The raster of the surface after the glyph `chr` is put at the cursor.
    pub open spec fn with_glyph(&self, chr: int) -> Raster {
        self.surface().map_pens(|x: int, y: int, was: u8| self.glyph_pen(chr, x, y, was))
    }

    /// A glyph that lies wholly outside the margins is not drawn: one whose
    /// rows all lie above the top margin or below the bottom margin, or
    /// whose columns all lie left of the left margin or right of the right
    /// margin, leaves the surface as it is.
    pub proof fn lemma_hidden_glyph(&self, chr: int)
        requires
            self.glyph_top() + self.font.height <= self.top_margin || self.bottom_margin
                <= self.glyph_top() || self.left + self.font.glyph_width(chr) <= self.left_margin
                || self.right_margin <= self.left,
        ensures
            self.with_glyph(chr) == self.surface(),
    {
        assert(self.with_glyph(chr).pixels =~= self.surface().pixels);
    }

    /// A glyph that lies wholly inside the margins is drawn as a copy of
    /// the glyph's rectangle of the sheet to the cursor.
    pub proof fn lemma_whole_glyph(&self, chr: int)
        requires
            self.top_margin <= self.glyph_top(),
            self.glyph_top() + self.font.height <= self.bottom_margin,
            self.left_margin <= self.left,
            self.left + self.font.glyph_width(chr) <= self.right_margin,
        ensures
            self.with_glyph(chr) == self.surface().copy_rect(
                (self.font.left_edges@[chr] as int, 0),
                self.font.width as int,
                self.font.bits@,
                (self.left as int, self.glyph_top()),
                (self.font.glyph_width(chr), self.font.height as int),
                self.strike_fn,
                BitOrder::BigEndian,
            ),
    {
        assert(self.with_glyph(chr).pixels =~= self.surface().copy_rect(
            (self.font.left_edges@[chr] as int, 0),
            self.font.width as int,
            self.font.bits@,
            (self.left as int, self.glyph_top()),
            (self.font.glyph_width(chr), self.font.height as int),
            self.strike_fn,
            BitOrder::BigEndian,
        ).pixels);
    }

    /// The size of the glyph `chr`: its width, the font's height and the
    /// font's ascender.
    pub fn get_real_size(&self, chr: u8) -> (size: (u16, u16, u16))
        requires
            self.font.has_glyph(chr as int),
        ensures
            size.0 == self.font.glyph_width(chr as int),
            size.1 == self.font.height,
            size.2 == self.font.ascender,
    {
        let font = self.font;
        let chr_left: u16 = font.left_edges[chr as usize];
        let chr_right: u16 = font.left_edges[chr as usize + 1];
        let width: u16 = chr_right - chr_left;
        let height: u16 = font.height;
        let ascender: u16 = font.ascender;

        (width, height, ascender)
    }

    /// Puts the glyph `chr` at the cursor and moves the cursor to its right
    /// edge.
    ///
    /// The glyph stands with its top `ascender` rows above the baseline and
    /// its left edge at `left`. Only the part of it inside the margins is
    /// drawn, with the combine function `strike_fn`; that part looks as it
    /// would if the whole glyph had been drawn. The cursor moves by the
    /// glyph's full width, whatever was drawn of it, and must stay within
    /// 16 bits. The context goes on writing on the same surface.
    pub fn simple_put_char(&mut self, chr: u8)
        requires
            old(self).font.has_glyph(chr as int),
            old(self).left + old(self).font.glyph_width(chr as int) <= 0xFFFF,
        ensures
            final(self).surface() == old(self).with_glyph(chr as int),
            old(self).surface().wf() ==> final(self).surface().wf(),
            final(self).left == old(self).left + old(self).font.glyph_width(chr as int),
            final(self).font == old(self).font,
            final(self).baseline == old(self).baseline,
            final(self).strike_fn == old(self).strike_fn,
            final(self).left_margin == old(self).left_margin,
            final(self).right_margin == old(self).right_margin,
            final(self).top_margin == old(self).top_margin,
            final(self).bottom_margin == old(self).bottom_margin,
            final(final(self).vdi).raster() == final(old(self).vdi).raster(),
    {
        let font = self.font;
        let ghost before = self.vdi.raster();
        let ghost after = self.with_glyph(chr as int);

        let chr_left: u16 = font.left_edges[chr as usize];
        let chr_right: u16 = font.left_edges[chr as usize + 1];
        let chr_width: u16 = chr_right - chr_left;

        let vdi_top: i32 = self.baseline as i32 - font.ascender as i32;
        let vdi_top_clipped: i32 = if vdi_top > self.top_margin as i32 {
            vdi_top
        } else {
            self.top_margin as i32
        };
        let vdi_bottom: i32 = vdi_top + font.height as i32;
        let vdi_bottom_clipped: i32 = if (self.bottom_margin as i32) < vdi_bottom {
            self.bottom_margin as i32
        } else {
            vdi_bottom
        };

        let vdi_left_clipped: u16 = if self.left_margin > self.left {
            self.left_margin
        } else {
            self.left
        };
        let vdi_right: u16 = self.left + chr_width;
        let vdi_right_clipped: u16 = if self.right_margin < vdi_right {
            self.right_margin
        } else {
            vdi_right
        };

        if vdi_top_clipped < vdi_bottom_clipped && vdi_left_clipped < vdi_right_clipped {
            let chr_top_clipped: u16 = (vdi_top_clipped - vdi_top) as u16;
            let chr_height_clipped: u16 = (vdi_bottom_clipped - vdi_top_clipped) as u16;
            let delta_x: u16 = vdi_left_clipped - self.left;
            let chr_left_clipped: u16 = chr_left + delta_x;
            let chr_width_clipped: u16 = vdi_right_clipped - vdi_left_clipped;

            self.vdi.copy_rect_big_endian(
                (chr_left_clipped, chr_top_clipped),
                font.width as usize,
                font.bits,
                (vdi_left_clipped, vdi_top_clipped as u16),
                (chr_width_clipped, chr_height_clipped),
                self.strike_fn,
            );
            proof {
                assert(self.vdi.raster().pixels =~= after.pixels);
            }
        } else {
            // Outside the margins: nothing to show.
            proof {
                assert(before.pixels =~= after.pixels);
            }
        }

        self.left = vdi_right;
    }
}

} // verus!
