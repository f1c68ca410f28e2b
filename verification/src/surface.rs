//! The surface in memory: one byte for each pixel, row by row.

use vstd::prelude::*;
use crate::bits::front_bit;
use crate::bits::lemma_inverted_pen;
use crate::bits::lemma_shifted_again;
use crate::bits::lemma_shifted_front;
use crate::bits::lemma_turned_again;
use crate::bits::lemma_turned_front;
use crate::bits::pen_table;
use crate::bits::rotate_right;
use crate::bits::shift_word;
use crate::bits::shifted;
use crate::bits::table_entry;
use crate::bits::turned;
use crate::raster::BitOrder;
use crate::raster::combine;
use crate::raster::expanded_byte;
use crate::raster::inverted;
use crate::raster::lemma_copy_rect_by_rows;
use crate::raster::lemma_copy_rect_clipped;
use crate::raster::lemma_invert_rect_by_rows;
use crate::raster::lemma_invert_rect_corners;
use crate::raster::lemma_line_off_surface;
use crate::raster::lemma_offset_bound;
use crate::raster::lemma_offset_is_pixel;
use crate::raster::lemma_offset_joins;
use crate::raster::lemma_offset_splits;
use crate::raster::lemma_rect_by_rows;
use crate::raster::lemma_rect_corners;
use crate::raster::pattern_pen;
use crate::raster::point;
use crate::raster::Raster;
use crate::raster::source_bit;
use crate::raster::stride;
use crate::raster::table_index;
use crate::raster::word_index;
use crate::vdi::VDI;
use crate::vdi::VdiError;

verus! {

/// A drawing surface of fixed size that lives in memory and has no display
/// attached.
pub struct Surface {
    /// Width and height, in pixels.
    dimensions: (u16, u16),
    /// One pen for each pixel, row by row.
    backbuffer: Vec<u8>,
}

/// Stores `pen` at `offset` of a row-major store of pens.
fn store(pens: &mut Vec<u8>, offset: usize, pen: u8)
    requires
        offset < old(pens)@.len(),
    ensures
        final(pens)@ == old(pens)@.update(offset as int, pen),
    no_unwind
{
    pens[offset] = pen;
}

impl View for Surface {
    type V = Raster;

    closed spec fn view(&self) -> Raster {
        Raster {
            width: self.dimensions.0 as int,
            height: self.dimensions.1 as int,
            pixels: self.backbuffer@,
        }
    }
}

impl Surface {
    #[verifier::type_invariant]
    spec fn well_formed(self) -> bool {
        self@.wf()
    }

    /// A surface of `width` by `height` pixels, all of them ink.
    pub fn new(width: u16, height: u16) -> (surface: Surface)
        ensures
            surface@ == Raster::blank(width as int, height as int),
            surface@.wf(),
    {
        assert(width * height <= 0xFFFF * 0xFFFF) by (nonlinear_arith)
            requires
                width <= 0xFFFF,
                height <= 0xFFFF,
        ;
        let total_pixels: usize = width as usize * height as usize;
        let backbuffer: Vec<u8> = vec![0u8; total_pixels];
        let surface = Surface { dimensions: (width, height), backbuffer };
        assert(surface@.pixels =~= Raster::blank(width as int, height as int).pixels);
        surface
    }

    /// The width of the surface, in pixels.
    pub fn width(&self) -> (width: u16)
        ensures
            width == self@.width,
    {
        self.dimensions.0
    }

    /// The height of the surface, in pixels.
    pub fn height(&self) -> (height: u16)
        ensures
            height == self@.height,
    {
        self.dimensions.1
    }

    /// The pens of the surface, row by row.
    pub fn pixels(&self) -> (pixels: &[u8])
        ensures
            pixels@ == self@.pixels,
            self@.wf(),
    {
        proof {
            use_type_invariant(self);
        }
        self.backbuffer.as_slice()
    }

    /// Writes the surface into a buffer that holds four bytes for each
    /// pixel and `span` bytes for each row, as a display takes it: each of a
    /// pixel's four bytes is set to the pixel's pen. Bytes of the buffer
    /// between the end of one row and the start of the next stay as they
    /// are.
    pub fn expand(&self, bits: &mut [u8], span: usize)
        requires
            4 * self@.width <= span,
            self@.width > 0 && self@.height > 0 ==> (self@.height - 1) * span + 4 * self@.width
                <= old(bits)@.len(),
        ensures
            final(bits)@.len() == old(bits)@.len(),
            forall|j: int|
                0 <= j < old(bits)@.len() ==> final(bits)@[j] == expanded_byte(
                    self@,
                    span as int,
                    old(bits)@,
                    j,
                ),
    {
        proof {
            use_type_invariant(self);
        }
        let ghost was = bits@;
        let width: usize = self.dimensions.0 as usize;
        let height: usize = self.dimensions.1 as usize;
        if width == 0 || height == 0 {
            proof {
                assert forall|j: int| 0 <= j < was.len() implies bits@[j] == expanded_byte(
                    self@,
                    span as int,
                    was,
                    j,
                ) by {
                    if 0 < span {
                        lemma_offset_joins(span as int, j);
                    }
                }
            }
            return ;
        }
        proof {
            assert(self.backbuffer.len() <= usize::MAX);
            assert(bits.len() <= usize::MAX);
        }
        let mut source_offset: usize = 0;
        let mut dest_offset: usize = 0;
        let mut y: usize = 0;
        while y < height
            invariant
                self@.wf(),
                self@.pixels.len() <= usize::MAX,
                was.len() <= usize::MAX,
                width == self@.width,
                height == self@.height,
                0 < width,
                4 * width <= span,
                (height - 1) * span + 4 * width <= was.len(),
                bits@.len() == was.len(),
                y <= height,
                source_offset == y * width,
                y < height ==> dest_offset == y * span,
                forall|j: int|
                    0 <= j < was.len() ==> bits@[j] == if j / (span as int) < y && j % (
                    span as int) < 4 * width {
                        self@.pixels[self@.offset((j % (span as int)) / 4, j / (span as int))]
                    } else {
                        was[j]
                    },
            decreases height - y,
        {
            let ghost row = bits@;
            proof {
                lemma_offset_bound(width as int, height as int, 0, y as int);
                assert(y * span <= (height - 1) * span) by (nonlinear_arith)
                    requires
                        y <= height - 1,
                        0 <= span,
                ;
            }
            let mut x: usize = 0;
            while x < width
                invariant
                    self@.wf(),
                    self@.pixels.len() <= usize::MAX,
                    was.len() <= usize::MAX,
                    width == self@.width,
                    height == self@.height,
                    y < height,
                    x <= width,
                    4 * width <= span,
                    dest_offset == y * span,
                    dest_offset + 4 * width <= was.len(),
                    bits@.len() == was.len(),
                    row.len() == was.len(),
                    source_offset == y * width + x,
                    y * width + width <= self@.pixels.len(),
                    forall|j: int|
                        0 <= j < was.len() ==> bits@[j] == if dest_offset <= j < dest_offset + 4
                            * x {
                            self@.pixels[y * width + (j - dest_offset) / 4]
                        } else {
                            row[j]
                        },
                decreases width - x,
            {
                let pen: u8 = self.backbuffer[source_offset];
                source_offset += 1;

                let x4: usize = dest_offset + x * 4;
                bits[x4] = pen;
                bits[x4 + 1] = pen;
                bits[x4 + 2] = pen;
                bits[x4 + 3] = pen;
                x += 1;
            }
            proof {
                assert forall|j: int| 0 <= j < was.len() implies bits@[j] == if j / (span as int)
                    < y + 1 && j % (span as int) < 4 * width {
                    self@.pixels[self@.offset((j % (span as int)) / 4, j / (span as int))]
                } else {
                    was[j]
                } by {
                    lemma_offset_joins(span as int, j);
                    if dest_offset <= j < dest_offset + 4 * width {
                        lemma_offset_splits(span as int, j - dest_offset, y as int);
                    }
                }
                assert((y + 1) * span == y * span + span && (y + 1) * width == y * width + width)
                    by (nonlinear_arith);
            }
            y += 1;
            if y < height {
                proof {
                    assert(y * span <= (height - 1) * span) by (nonlinear_arith)
                        requires
                            y <= height - 1,
                            0 <= span,
                    ;
                }
                dest_offset += span;
            }
        }
    }

    /// Copies one row of a packed bitmap, in either bit order. The source
    /// pixel is named by `usize` coordinates: a rectangle that starts near
    /// the last row that 16 bits can name goes on below it.
    fn blit_line(
        &mut self,
        from: (usize, usize),
        src_width: usize,
        from_bits: &[u16],
        to: (u16, u16),
        width: usize,
        function: u8,
        order: BitOrder,
    )
        ensures
            final(self)@ == old(self)@.copy_line(
                (from.0 as int, from.1 as int),
                src_width as int,
                from_bits@,
                point(to),
                width as int,
                function,
                order,
            ),
            final(self)@.wf(),
    {
        proof {
            use_type_invariant(&*self);
        }
        let ghost before = self@;
        let ghost after = before.copy_line(
            (from.0 as int, from.1 as int),
            src_width as int,
            from_bits@,
            point(to),
            width as int,
            function,
            order,
        );
        let surface_width: usize = self.dimensions.0 as usize;
        let surface_height: usize = self.dimensions.1 as usize;
        let src_left: usize = from.0;
        let dst_left: usize = to.0 as usize;
        let dst_top: usize = to.1 as usize;
        let largest_offset: usize = from_bits.len();

        // Source preparation.
        let src_width_u16: usize = src_width / 16 + if src_width % 16 == 0 { 0 } else { 1 };
        let ghost row_start: int = from.1 as int * stride(src_width as int);
        proof {
            assert(src_width_u16 == stride(src_width as int));
            assert(0 <= from.1 * src_width_u16 <= u64::MAX * u64::MAX) by (nonlinear_arith)
                requires
                    0 <= from.1 <= u64::MAX,
                    0 <= src_width_u16 <= u64::MAX,
            ;
        }
        let first: u128 = (from.1 as u128) * (src_width_u16 as u128) + (src_left / 16) as u128;
        if dst_left >= surface_width || dst_top >= surface_height || src_left >= src_width || first
            >= largest_offset as u128 {
            proof {
                assert forall|i: int| 0 <= i < before.pixels.len() implies before.pixels[i]
                    == after.pixels[i] by {
                    lemma_offset_is_pixel(before.width, before.height, i);
                }
                assert(before.pixels =~= after.pixels);
            }
            return ;
        }
        let mut soffset: usize = first as usize;
        let mut ix: u16 = (src_left % 16) as u16;
        let mut src_word: u16 = shift_word(from_bits[soffset], ix, order);
        let src_width_adjusted: usize = if width < src_width - src_left {
            width
        } else {
            src_width - src_left
        };

        // Destination preparation.
        let dst_width_adjusted: usize = if width < surface_width - dst_left {
            width
        } else {
            surface_width - dst_left
        };
        let count: usize = if src_width_adjusted < dst_width_adjusted {
            src_width_adjusted
        } else {
            dst_width_adjusted
        };
        proof {
            lemma_offset_bound(
                surface_width as int,
                surface_height as int,
                dst_left as int,
                dst_top as int,
            );
            assert(self.backbuffer.len() <= usize::MAX);
        }
        let pens: [u8; 4] = pen_table(function);
        let start: usize = dst_top * surface_width + dst_left;
        let mut doffset: usize = start;

        // Copy loop.
        let mut copied: usize = 0;
        while copied < count && soffset < largest_offset
            invariant
                before.wf(),
                self@.wf(),
                before.pixels.len() <= usize::MAX,
                self@.width == before.width,
                self@.height == before.height,
                self@.pixels.len() == before.pixels.len(),
                surface_width == before.width,
                largest_offset == from_bits@.len(),
                row_start == from.1 as int * stride(src_width as int),
                0 <= row_start,
                src_left == from.0,
                src_left < src_width,
                dst_left < surface_width,
                copied <= count,
                count <= width,
                count <= src_width - src_left,
                count <= surface_width - dst_left,
                start == to.1 * surface_width + to.0,
                start + (surface_width - dst_left) <= before.pixels.len(),
                doffset == start + copied,
                ix < 16,
                soffset <= largest_offset,
                soffset == largest_offset ==> ix == 0,
                16 * soffset + ix == 16 * row_start + src_left + copied,
                soffset < largest_offset ==> src_word == shifted(
                    from_bits@[soffset as int],
                    ix,
                    order,
                ),
                forall|source: bool, dest: u8|
                    pens@[#[trigger] table_index(source, dest)] == combine(function, source, dest),
                forall|i: int|
                    0 <= i < before.pixels.len() ==> self@.pixels[i] == if start <= i < start
                        + copied {
                        combine(
                            function,
                            source_bit(
                                from_bits@,
                                src_width as int,
                                src_left + (i - start),
                                from.1 as int,
                                order,
                            ),
                            before.pixels[i],
                        )
                    } else {
                        before.pixels[i]
                    },
            decreases count - copied,
        {
            proof {
                lemma_shifted_front(from_bits@[soffset as int], ix, order);
                if ix < 15 {
                    lemma_shifted_again(from_bits@[soffset as int], ix, order);
                }
                assert(word_index(src_width as int, src_left + copied, from.1 as int) == soffset);
                assert((src_left + copied) % 16 == ix);
            }
            let bit: u8 = front_bit(src_word, order);
            let index: usize = table_entry(bit, self.backbuffer[doffset]);
            store(&mut self.backbuffer, doffset, pens[index]);
            doffset += 1;
            copied += 1;
            if ix == 15 {
                ix = 0;
                soffset += 1;
                if soffset < largest_offset {
                    src_word = from_bits[soffset];
                    proof {
                        lemma_shifted_again(src_word, 0, order);
                    }
                }
            } else {
                ix += 1;
                src_word = shift_word(src_word, 1, order);
            }
        }
        proof {
            assert forall|i: int| 0 <= i < before.pixels.len() implies self@.pixels[i]
                == after.pixels[i] by {
                lemma_offset_is_pixel(before.width, before.height, i);
                if start <= i < start + copied {
                    lemma_offset_splits(before.width, to.0 + (i - start), to.1 as int);
                }
                let x = i % before.width;
                let y = i / before.width;
                if y == to.1 && x >= to.0 {
                    assert(i == start + (x - to.0));
                }
            }
            assert(self@.pixels =~= after.pixels);
        }
    }

    /// Copies a rectangle of a packed bitmap, in either bit order.
    fn blit_rect(
        &mut self,
        from: (u16, u16),
        src_width: usize,
        from_bits: &[u16],
        to: (u16, u16),
        dimensions: (u16, u16),
        function: u8,
        order: BitOrder,
    )
        ensures
            final(self)@ == old(self)@.copy_rect(
                point(from),
                src_width as int,
                from_bits@,
                point(to),
                point(dimensions),
                function,
                order,
            ),
            final(self)@.wf(),
    {
        proof {
            use_type_invariant(&*self);
        }
        let ghost before = self@;
        proof {
            lemma_copy_rect_clipped(
                before,
                point(from),
                src_width as int,
                from_bits@,
                point(to),
                point(dimensions),
                function,
                order,
            );
            lemma_copy_rect_clipped(
                before,
                point(from),
                src_width as int,
                from_bits@,
                point(to),
                (dimensions.0 as int, 0),
                function,
                order,
            );
        }
        if to.0 >= self.dimensions.0 {
            return ;
        }
        if to.1 >= self.dimensions.1 {
            return ;
        }
        let room: u16 = self.dimensions.1 - to.1;
        let adjusted_height: u16 = if dimensions.1 < room {
            dimensions.1
        } else {
            room
        };
        let mut y: u16 = 0;
        while y < adjusted_height
            invariant
                y <= adjusted_height,
                to.1 + adjusted_height <= 0xFFFF,
                self@.wf(),
                self@ == before.copy_rect(
                    point(from),
                    src_width as int,
                    from_bits@,
                    point(to),
                    (dimensions.0 as int, y as int),
                    function,
                    order,
                ),
            decreases adjusted_height - y,
        {
            proof {
                lemma_copy_rect_by_rows(
                    before,
                    point(from),
                    src_width as int,
                    from_bits@,
                    point(to),
                    dimensions.0 as int,
                    y as int,
                    function,
                    order,
                );
            }
            self.blit_line(
                (from.0 as usize, from.1 as usize + y as usize),
                src_width,
                from_bits,
                (to.0, to.1 + y),
                dimensions.0 as usize,
                function,
                order,
            );
            y += 1;
        }
    }
}

impl VDI for Surface {
    open spec fn raster(&self) -> Raster {
        self@
    }

    fn draw_point(&mut self, at: (u16, u16), pen: u8) {
        proof {
            use_type_invariant(&*self);
        }
        let x: usize = at.0 as usize;
        let y: usize = at.1 as usize;
        let width: usize = self.dimensions.0 as usize;
        let height: usize = self.dimensions.1 as usize;
        let ghost before = self@;
        if x >= width || y >= height {
            proof {
                assert forall|i: int| 0 <= i < before.pixels.len() implies before.pixels[i]
                    == before.draw_point(point(at), pen).pixels[i] by {
                    lemma_offset_is_pixel(before.width, before.height, i);
                }
                assert(self@.pixels =~= before.draw_point(point(at), pen).pixels);
            }
            return ;
        }
        proof {
            lemma_offset_bound(width as int, height as int, x as int, y as int);
            assert(self.backbuffer.len() <= usize::MAX);
        }
        let p: u8 = if pen >= 128 { 255 } else { 0 };
        store(&mut self.backbuffer, y * width + x, p);
        proof {
            assert forall|i: int| 0 <= i < before.pixels.len() implies self@.pixels[i]
                == before.draw_point(point(at), pen).pixels[i] by {
                lemma_offset_is_pixel(before.width, before.height, i);
                lemma_offset_splits(before.width, x as int, y as int);
            }
            assert(self@.pixels =~= before.draw_point(point(at), pen).pixels);
        }
    }

    fn get_point(&self, at: (u16, u16)) -> (pen: u8) {
        proof {
            use_type_invariant(self);
        }
        let x: usize = at.0 as usize;
        let y: usize = at.1 as usize;
        let width: usize = self.dimensions.0 as usize;
        let height: usize = self.dimensions.1 as usize;
        if x >= width || y >= height {
            0
        } else {
            proof {
                lemma_offset_bound(width as int, height as int, x as int, y as int);
                assert(self.backbuffer.len() <= usize::MAX);
            }
            self.backbuffer[y * width + x]
        }
    }

    fn commit(&mut self) -> (done: Result<(), VdiError>)
        ensures
            done is Ok,
    {
        proof {
            use_type_invariant(&*self);
        }
        Ok(())
    }

    fn hline(&mut self, at: (u16, u16), to: u16, pattern: u16) {
        proof {
            use_type_invariant(&*self);
        }
        let ghost before = self@;
        let ghost after = before.hline(point(at), to as int, pattern);
        let width: usize = self.dimensions.0 as usize;
        let height: usize = self.dimensions.1 as usize;
        let y: usize = at.1 as usize;
        let mut left: usize = at.0 as usize;
        let mut right: usize = to as usize;
        if left >= right {
            let swapped: usize = left;
            left = right;
            right = swapped;
        }
        if left >= width {
            left = width;
        }
        if right >= width {
            right = width;
        }
        if y >= height || left >= right {
            proof {
                assert forall|i: int| 0 <= i < before.pixels.len() implies before.pixels[i]
                    == after.pixels[i] by {
                    lemma_offset_is_pixel(before.width, before.height, i);
                }
                assert(before.pixels =~= after.pixels);
            }
            return ;
        }
        proof {
            lemma_offset_bound(width as int, height as int, left as int, y as int);
            assert(self.backbuffer.len() <= usize::MAX);
        }
        let row: usize = y * width;
        let mut offset: usize = row + left;
        let mut p: u16 = rotate_right(pattern, (left % 16) as u16);
        let mut x: usize = left;
        while x < right
            invariant
                before.wf(),
                self@.wf(),
                before.pixels.len() <= usize::MAX,
                self@.width == before.width,
                self@.height == before.height,
                self@.pixels.len() == before.pixels.len(),
                left <= x <= right <= width,
                row + width <= before.pixels.len(),
                offset == row + x,
                p == turned(pattern, (x % 16) as u16),
                forall|i: int|
                    0 <= i < before.pixels.len() ==> self@.pixels[i] == if row + left <= i < row
                        + x {
                        pattern_pen(pattern, i - row)
                    } else {
                        before.pixels[i]
                    },
            decreases right - x,
        {
            proof {
                lemma_turned_front(pattern, (x % 16) as u16);
                lemma_turned_again(pattern, (x % 16) as u16);
            }
            let pen: u8 = if (p & 1) != 0 { 255 } else { 0 };
            store(&mut self.backbuffer, offset, pen);
            p = rotate_right(p, 1);
            offset += 1;
            x += 1;
        }
        proof {
            assert forall|i: int| 0 <= i < before.pixels.len() implies self@.pixels[i]
                == after.pixels[i] by {
                lemma_offset_is_pixel(before.width, before.height, i);
                if row + left <= i < row + right {
                    lemma_offset_splits(before.width, i - row, y as int);
                }
            }
            assert(self@.pixels =~= after.pixels);
        }
    }

    fn vline(&mut self, at: (u16, u16), to: u16, pattern: u16) {
        proof {
            use_type_invariant(&*self);
        }
        let ghost before = self@;
        let ghost after = before.vline(point(at), to as int, pattern);
        let width: usize = self.dimensions.0 as usize;
        let height: usize = self.dimensions.1 as usize;
        let left: usize = at.0 as usize;
        let mut top: usize = at.1 as usize;
        let mut bottom: usize = to as usize;
        if top >= bottom {
            let swapped: usize = top;
            top = bottom;
            bottom = swapped;
        }
        if top >= height {
            top = height;
        }
        if bottom >= height {
            bottom = height;
        }
        if left >= width || top >= bottom {
            proof {
                assert forall|i: int| 0 <= i < before.pixels.len() implies before.pixels[i]
                    == after.pixels[i] by {
                    lemma_offset_is_pixel(before.width, before.height, i);
                }
                assert(before.pixels =~= after.pixels);
            }
            return ;
        }
        proof {
            lemma_offset_bound(width as int, height as int, left as int, top as int);
            assert(self.backbuffer.len() <= usize::MAX);
        }
        let mut offset: usize = top * width + left;
        let mut p: u16 = rotate_right(pattern, (top % 16) as u16);
        let mut y: usize = top;
        while y < bottom
            invariant
                before.wf(),
                self@.wf(),
                before.pixels.len() <= usize::MAX,
                self@.width == before.width,
                self@.height == before.height,
                self@.pixels.len() == before.pixels.len(),
                width == before.width,
                height == before.height,
                top <= y <= bottom <= height,
                left < width,
                y < bottom ==> offset == y * width + left,
                p == turned(pattern, (y % 16) as u16),
                forall|i: int|
                    0 <= i < before.pixels.len() ==> self@.pixels[i] == if i % (width as int)
                        == left && top <= i / (width as int) < y {
                        pattern_pen(pattern, i / (width as int))
                    } else {
                        before.pixels[i]
                    },
            decreases bottom - y,
        {
            proof {
                lemma_turned_front(pattern, (y % 16) as u16);
                lemma_turned_again(pattern, (y % 16) as u16);
                lemma_offset_bound(width as int, height as int, left as int, y as int);
                lemma_offset_splits(width as int, left as int, y as int);
                assert((y + 1) * width + left == y * width + left + width) by (nonlinear_arith);
            }
            let pen: u8 = if (p & 1) != 0 { 255 } else { 0 };
            store(&mut self.backbuffer, offset, pen);
            p = rotate_right(p, 1);
            proof {
                assert forall|i: int| 0 <= i < before.pixels.len() implies self@.pixels[i] == if i
                    % (width as int) == left && top <= i / (width as int) < y + 1 {
                    pattern_pen(pattern, i / (width as int))
                } else {
                    before.pixels[i]
                } by {
                    lemma_offset_is_pixel(before.width, before.height, i);
                }
            }
            y += 1;
            if y < bottom {
                proof {
                    lemma_offset_bound(width as int, height as int, left as int, y as int);
                }
                offset += width;
            }
        }
        proof {
            assert forall|i: int| 0 <= i < before.pixels.len() implies self@.pixels[i]
                == after.pixels[i] by {
                lemma_offset_is_pixel(before.width, before.height, i);
            }
            assert(self@.pixels =~= after.pixels);
        }
    }

    fn rect(&mut self, at: (u16, u16), to: (u16, u16), pattern: &[u16; 16]) {
        proof {
            use_type_invariant(&*self);
        }
        let ghost before = self@;
        let mut top: u16 = at.1;
        let mut bottom: u16 = to.1;
        if top >= bottom {
            let swapped: u16 = top;
            top = bottom;
            bottom = swapped;
        }
        proof {
            lemma_rect_corners(
                before,
                (at.0 as int, top as int),
                (to.0 as int, top as int),
                pattern@,
            );
        }
        let mut y: u16 = top;
        while y < bottom
            invariant
                top <= y <= bottom,
                self@.wf(),
                self@ == before.rect((at.0 as int, top as int), (to.0 as int, y as int), pattern@),
            decreases bottom - y,
        {
            proof {
                lemma_rect_by_rows(
                    before,
                    at.0 as int,
                    to.0 as int,
                    top as int,
                    y as int,
                    pattern@,
                );
            }
            self.hline((at.0, y), to.0, pattern[(y % 16) as usize]);
            y += 1;
        }
        proof {
            lemma_rect_corners(before, point(at), point(to), pattern@);
        }
    }

    fn frame(&mut self, at: (u16, u16), to: (u16, u16), pattern: u16) {
        proof {
            use_type_invariant(&*self);
        }
        let mut left: u16 = at.0;
        let mut top: u16 = at.1;
        let mut right: u16 = to.0;
        let mut bottom: u16 = to.1;
        if left > right {
            let swapped: u16 = left;
            left = right;
            right = swapped;
        }
        if top > bottom {
            let swapped: u16 = top;
            top = bottom;
            bottom = swapped;
        }
        self.hline((left, top), right, pattern);
        if bottom > 0 {
            self.hline((left, bottom - 1), right, pattern);
        } else {
            proof {
                lemma_line_off_surface(self@, (left as int, bottom - 1), right as int, pattern);
            }
        }
        self.vline((left, top), bottom, pattern);
        if right > 0 {
            self.vline((right - 1, top), bottom, pattern);
        } else {
            proof {
                lemma_line_off_surface(self@, (right - 1, top as int), bottom as int, pattern);
            }
        }
    }

    fn invert_line(&mut self, at: (u16, u16), to: u16) {
        proof {
            use_type_invariant(&*self);
        }
        let ghost before = self@;
        let ghost after = before.invert_line(point(at), to as int);
        let width: usize = self.dimensions.0 as usize;
        let height: usize = self.dimensions.1 as usize;
        let y: usize = at.1 as usize;
        let mut left: usize = at.0 as usize;
        let mut right: usize = to as usize;
        if left >= right {
            let swapped: usize = left;
            left = right;
            right = swapped;
        }
        if left >= width {
            left = width;
        }
        if right >= width {
            right = width;
        }
        if y >= height || left >= right {
            proof {
                assert forall|i: int| 0 <= i < before.pixels.len() implies before.pixels[i]
                    == after.pixels[i] by {
                    lemma_offset_is_pixel(before.width, before.height, i);
                }
                assert(before.pixels =~= after.pixels);
            }
            return ;
        }
        proof {
            lemma_offset_bound(width as int, height as int, left as int, y as int);
            assert(self.backbuffer.len() <= usize::MAX);
        }
        let row: usize = y * width;
        let mut offset: usize = row + left;
        let mut x: usize = left;
        while x < right
            invariant
                before.wf(),
                self@.wf(),
                before.pixels.len() <= usize::MAX,
                self@.width == before.width,
                self@.height == before.height,
                self@.pixels.len() == before.pixels.len(),
                left <= x <= right <= width,
                row + width <= before.pixels.len(),
                offset == row + x,
                forall|i: int|
                    0 <= i < before.pixels.len() ==> self@.pixels[i] == if row + left <= i < row
                        + x {
                        inverted(before.pixels[i])
                    } else {
                        before.pixels[i]
                    },
            decreases right - x,
        {
            let was: u8 = self.backbuffer[offset];
            proof {
                lemma_inverted_pen(was);
            }
            store(&mut self.backbuffer, offset, was ^ 0xFF);
            offset += 1;
            x += 1;
        }
        proof {
            assert forall|i: int| 0 <= i < before.pixels.len() implies self@.pixels[i]
                == after.pixels[i] by {
                lemma_offset_is_pixel(before.width, before.height, i);
                if row + left <= i < row + right {
                    lemma_offset_splits(before.width, i - row, y as int);
                }
            }
            assert(self@.pixels =~= after.pixels);
        }
    }

    fn invert_rect(&mut self, at: (u16, u16), to: (u16, u16)) {
        proof {
            use_type_invariant(&*self);
        }
        let ghost before = self@;
        let mut top: u16 = at.1;
        let mut bottom: u16 = to.1;
        if top >= bottom {
            let swapped: u16 = top;
            top = bottom;
            bottom = swapped;
        }
        proof {
            lemma_invert_rect_corners(before, (at.0 as int, top as int), (to.0 as int, top as int));
        }
        let mut y: u16 = top;
        while y < bottom
            invariant
                top <= y <= bottom,
                self@.wf(),
                self@ == before.invert_rect((at.0 as int, top as int), (to.0 as int, y as int)),
            decreases bottom - y,
        {
            proof {
                lemma_invert_rect_by_rows(before, at.0 as int, to.0 as int, top as int, y as int);
            }
            self.invert_line((at.0, y), to.0);
            y += 1;
        }
        proof {
            lemma_invert_rect_corners(before, point(at), point(to));
        }
    }

    fn copy_line(
        &mut self,
        from: (u16, u16),
        src_width: usize,
        from_bits: &[u16],
        to: (u16, u16),
        width: usize,
        function: u8,
    ) {
        self.blit_line(
            (from.0 as usize, from.1 as usize),
            src_width,
            from_bits,
            to,
            width,
            function,
            BitOrder::LittleEndian,
        );
    }

    fn copy_line_big_endian(
        &mut self,
        from: (u16, u16),
        src_width: usize,
        from_bits: &[u16],
        to: (u16, u16),
        width: usize,
        function: u8,
    ) {
        self.blit_line(
            (from.0 as usize, from.1 as usize),
            src_width,
            from_bits,
            to,
            width,
            function,
            BitOrder::BigEndian,
        );
    }

    fn copy_rect(
        &mut self,
        from: (u16, u16),
        src_width: usize,
        from_bits: &[u16],
        to: (u16, u16),
        dimensions: (u16, u16),
        function: u8,
    ) {
        self.blit_rect(
            from,
            src_width,
            from_bits,
            to,
            dimensions,
            function,
            BitOrder::LittleEndian,
        );
    }

    fn copy_rect_big_endian(
        &mut self,
        from: (u16, u16),
        src_width: usize,
        from_bits: &[u16],
        to: (u16, u16),
        dimensions: (u16, u16),
        function: u8,
    ) {
        self.blit_rect(from, src_width, from_bits, to, dimensions, function, BitOrder::BigEndian);
    }
}

} // verus!
