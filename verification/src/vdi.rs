//! The video driver interface: the drawing operations that every surface
//! offers, each with its effect on the surface's raster.

use vstd::prelude::*;
use crate::raster::point;
use crate::raster::BitOrder;
use crate::raster::Raster;

verus! {

/// Indication of an error somewhere behind the video driver interface.
#[derive(Debug)]
pub enum VdiError {
    /// The presentation layer failed; the text is its own message.
    FromSdl(String),
    /// Any other failure.
    Miscellaneous,
}

/// The drawing surface that every backend offers.
///
/// Only two pens exist. Pen indices 0 to 127 are ink (black), indices 128 to
/// 255 are paper (white); 255 is the index to use for paper.
///
/// No operation fails on its coordinates: what falls outside the surface is
/// not drawn.
pub trait VDI {
    /// The surface as a raster.
    spec fn raster(&self) -> Raster;

    /// Draws a single point. A point outside the surface is ignored.
    fn draw_point(&mut self, at: (u16, u16), pen: u8)
        ensures
            final(self).raster() == old(self).raster().draw_point(point(at), pen),
            final(self).raster().wf(),
    ;

    /// The pen at a point; ink for a point outside the surface.
    fn get_point(&self, at: (u16, u16)) -> (pen: u8)
        ensures
            pen == self.raster().get(at.0 as int, at.1 as int),
            self.raster().wf(),
    ;

    /// Sends the surface to the attached display, where there is one. The
    /// surface itself stays as it is, whether or not the display took it.
    fn commit(&mut self) -> (done: Result<(), VdiError>)
        ensures
            final(self).raster() == old(self).raster(),
            final(self).raster().wf(),
    ;

    /// Draws a horizontal line with a pattern: the pixels of row `at.1`
    /// whose column lies between `at.0` and `to`, the smaller of the two
    /// included and the larger not. The pattern is aligned with the left edge
    /// of the surface: column `x` takes bit `x mod 16`, so that a line drawn
    /// in several segments shows one unbroken pattern.
    fn hline(&mut self, at: (u16, u16), to: u16, pattern: u16)
        ensures
            final(self).raster() == old(self).raster().hline(point(at), to as int, pattern),
            final(self).raster().wf(),
    ;

    /// Draws a vertical line with a pattern: the pixels of column `at.0`
    /// whose row lies between `at.1` and `to`, the smaller of the two
    /// included and the larger not. The pattern is aligned with the top edge
    /// of the surface: row `y` takes bit `y mod 16`.
    fn vline(&mut self, at: (u16, u16), to: u16, pattern: u16)
        ensures
            final(self).raster() == old(self).raster().vline(point(at), to as int, pattern),
            final(self).raster().wf(),
    ;

    /// Draws a filled rectangle between the corners `at` and `to`; on each
    /// axis the smaller coordinate is included and the larger is not. Row
    /// `y` is drawn with the line pattern `pattern[y mod 16]`, so the pattern
    /// is aligned with the left and the top edge of the surface.
    fn rect(&mut self, at: (u16, u16), to: (u16, u16), pattern: &[u16; 16])
        ensures
            final(self).raster() == old(self).raster().rect(point(at), point(to), pattern@),
            final(self).raster().wf(),
    ;

    /// Draws the frame of the rectangle between the corners `at` and `to`
    /// with a line pattern: its top and bottom rows, then its left and right
    /// columns.
    fn frame(&mut self, at: (u16, u16), to: (u16, u16), pattern: u16)
        ensures
            final(self).raster() == old(self).raster().frame(point(at), point(to), pattern),
            final(self).raster().wf(),
    ;

    /// Inverts the pixels that `hline` would draw.
    fn invert_line(&mut self, at: (u16, u16), to: u16)
        ensures
            final(self).raster() == old(self).raster().invert_line(point(at), to as int),
            final(self).raster().wf(),
    ;

    /// Inverts the pixels that `rect` would draw.
    fn invert_rect(&mut self, at: (u16, u16), to: (u16, u16))
        ensures
            final(self).raster() == old(self).raster().invert_rect(point(at), point(to)),
            final(self).raster().wf(),
    ;

    /// Copies one row of pixels from a packed bitmap into the surface.
    ///
    /// The bitmap `from_bits` is `src_width` pixels wide, one bit for each
    /// pixel, and each of its rows fills whole 16-bit words; bit 0 of a word
    /// is its leftmost pixel. Up to `width` pixels are read from `from` on
    /// and written from `to` on. The copy ends early at the right edge of
    /// the bitmap, at the right edge of the surface and at the last word of
    /// `from_bits`; one that starts outside the bitmap or the surface copies
    /// nothing.
    ///
    /// `function` says how a source pixel S and the destination pixel D
    /// under it make the new pen: bit 0 of `function` is the pen for D and S
    /// both ink, bit 1 for D ink and S paper, bit 2 for D paper and S ink,
    /// bit 3 for both paper.
    fn copy_line(
        &mut self,
        from: (u16, u16),
        src_width: usize,
        from_bits: &[u16],
        to: (u16, u16),
        width: usize,
        function: u8,
    )
        ensures
            final(self).raster() == old(self).raster().copy_line(
                point(from),
                src_width as int,
                from_bits@,
                point(to),
                width as int,
                function,
                BitOrder::LittleEndian,
            ),
            final(self).raster().wf(),
    ;

    /// As `copy_line`, for a bitmap in which bit 15 of a word is its
    /// leftmost pixel.
    fn copy_line_big_endian(
        &mut self,
        from: (u16, u16),
        src_width: usize,
        from_bits: &[u16],
        to: (u16, u16),
        width: usize,
        function: u8,
    )
        ensures
            final(self).raster() == old(self).raster().copy_line(
                point(from),
                src_width as int,
                from_bits@,
                point(to),
                width as int,
                function,
                BitOrder::BigEndian,
            ),
            final(self).raster().wf(),
    ;

    /// Copies a rectangle of pixels from a packed bitmap into the surface:
    /// `dimensions.1` rows of `dimensions.0` pixels, row by row as
    /// `copy_line` copies them. The copy is clipped at the right and the
    /// bottom edge of the surface.
    fn copy_rect(
        &mut self,
        from: (u16, u16),
        src_width: usize,
        from_bits: &[u16],
        to: (u16, u16),
        dimensions: (u16, u16),
        function: u8,
    )
        ensures
            final(self).raster() == old(self).raster().copy_rect(
                point(from),
                src_width as int,
                from_bits@,
                point(to),
                point(dimensions),
                function,
                BitOrder::LittleEndian,
            ),
            final(self).raster().wf(),
    ;

    /// As `copy_rect`, for a bitmap in which bit 15 of a word is its
    /// leftmost pixel.
    fn copy_rect_big_endian(
        &mut self,
        from: (u16, u16),
        src_width: usize,
        from_bits: &[u16],
        to: (u16, u16),
        dimensions: (u16, u16),
        function: u8,
    )
        ensures
            final(self).raster() == old(self).raster().copy_rect(
                point(from),
                src_width as int,
                from_bits@,
                point(to),
                point(dimensions),
                function,
                BitOrder::BigEndian,
            ),
            final(self).raster().wf(),
    ;
}

} // verus!
