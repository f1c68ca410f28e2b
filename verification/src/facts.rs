//! What holds of the drawing operations whatever the surface and the
//! arguments: each statement here is proved from the definitions in
//! [`crate::raster`].

use vstd::prelude::*;
use crate::raster::combine;
use crate::raster::copy_pen;
use crate::raster::copy_reaches;
use crate::raster::hline_pen;
use crate::raster::invert_line_pen;
use crate::raster::invert_rect_pen;
use crate::raster::lemma_map_pens_get;
use crate::raster::lemma_offset_bound;
use crate::raster::lemma_offset_is_pixel;
use crate::raster::point_pen;
use crate::raster::rect_pen;
use crate::raster::source_bit;
use crate::raster::stride;
use crate::raster::vline_pen;
use crate::raster::BitOrder;
use crate::raster::Raster;

verus! {

/// Every drawing operation keeps a well-formed raster well formed: the
/// extents stay, and every pen written is ink or paper.
pub proof fn lemma_operations_keep_well_formed(
    r: Raster,
    at: (int, int),
    to: (int, int),
    pen: u8,
    line_pattern: u16,
    fill_pattern: Seq<u16>,
    src_width: int,
    bits: Seq<u16>,
    dimensions: (int, int),
    function: u8,
    order: BitOrder,
)
    requires
        r.wf(),
    ensures
        r.draw_point(at, pen).wf(),
        r.hline(at, to.0, line_pattern).wf(),
        r.vline(at, to.1, line_pattern).wf(),
        r.rect(at, to, fill_pattern).wf(),
        r.frame(at, to, line_pattern).wf(),
        r.invert_line(at, to.0).wf(),
        r.invert_rect(at, to).wf(),
        r.copy_line(at, src_width, bits, to, dimensions.0, function, order).wf(),
        r.copy_rect(at, src_width, bits, to, dimensions, function, order).wf(),
{
    assert forall|p: u8| p == 0 || p == 255 implies #[trigger] (p ^ 0xFFu8) == 0 || (p ^ 0xFFu8)
        == 255 by {
        assert(p == 0 || p == 255 ==> (p ^ 0xFFu8) == 0 || (p ^ 0xFFu8) == 255) by (bit_vector);
    }
}

/// A raster that was never drawn on reads as ink everywhere.
pub proof fn lemma_blank_reads_ink(width: int, height: int, x: int, y: int)
    requires
        0 <= width <= 0xFFFF,
        0 <= height <= 0xFFFF,
    ensures
        Raster::blank(width, height).wf(),
        Raster::blank(width, height).get(x, y) == 0,
{
    assert(0 <= width * height) by (nonlinear_arith)
        requires
            0 <= width,
            0 <= height,
    ;
    if Raster::blank(width, height).contains(x, y) {
        lemma_offset_bound(width, height, x, y);
    }
}

/// What is read at a pixel after an operation is the operation's new pen
/// for that pixel, given the pen that was read there before.
pub proof fn lemma_pens_read_back(
    r: Raster,
    x: int,
    y: int,
    at: (int, int),
    to: (int, int),
    pen: u8,
    line_pattern: u16,
    fill_pattern: Seq<u16>,
    src_width: int,
    bits: Seq<u16>,
    dimensions: (int, int),
    function: u8,
    order: BitOrder,
)
    requires
        r.wf(),
        r.contains(x, y),
    ensures
        r.draw_point(at, pen).get(x, y) == point_pen(at, pen, x, y, r.get(x, y)),
        r.hline(at, to.0, line_pattern).get(x, y) == hline_pen(
            at,
            to.0,
            line_pattern,
            x,
            y,
            r.get(x, y),
        ),
        r.vline(at, to.1, line_pattern).get(x, y) == vline_pen(
            at,
            to.1,
            line_pattern,
            x,
            y,
            r.get(x, y),
        ),
        r.rect(at, to, fill_pattern).get(x, y) == rect_pen(at, to, fill_pattern, x, y, r.get(x, y)),
        r.invert_line(at, to.0).get(x, y) == invert_line_pen(at, to.0, x, y, r.get(x, y)),
        r.invert_rect(at, to).get(x, y) == invert_rect_pen(at, to, x, y, r.get(x, y)),
        r.copy_rect(at, src_width, bits, to, dimensions, function, order).get(x, y) == copy_pen(
            at,
            src_width,
            bits,
            to,
            dimensions,
            function,
            order,
            x,
            y,
            r.get(x, y),
        ),
{
    lemma_map_pens_get(r, |x: int, y: int, was: u8| point_pen(at, pen, x, y, was), x, y);
    lemma_map_pens_get(
        r,
        |x: int, y: int, was: u8| hline_pen(at, to.0, line_pattern, x, y, was),
        x,
        y,
    );
    lemma_map_pens_get(
        r,
        |x: int, y: int, was: u8| vline_pen(at, to.1, line_pattern, x, y, was),
        x,
        y,
    );
    lemma_map_pens_get(
        r,
        |x: int, y: int, was: u8| rect_pen(at, to, fill_pattern, x, y, was),
        x,
        y,
    );
    lemma_map_pens_get(r, |x: int, y: int, was: u8| invert_line_pen(at, to.0, x, y, was), x, y);
    lemma_map_pens_get(r, |x: int, y: int, was: u8| invert_rect_pen(at, to, x, y, was), x, y);
    lemma_map_pens_get(
        r,
        |x: int, y: int, was: u8|
            copy_pen(at, src_width, bits, to, dimensions, function, order, x, y, was),
        x,
        y,
    );
}

/// A point that was drawn reads back as ink where its pen index is below
/// 128 and as paper otherwise; every other point reads back as before; and
/// a point drawn outside the raster changes nothing.
pub proof fn lemma_point_reads_back(r: Raster, at: (int, int), pen: u8, x: int, y: int)
    requires
        r.wf(),
    ensures
        r.contains(at.0, at.1) ==> r.draw_point(at, pen).get(at.0, at.1) == (if pen < 128 {
            0u8
        } else {
            255u8
        }),
        (x, y) != at ==> r.draw_point(at, pen).get(x, y) == r.get(x, y),
        !r.contains(at.0, at.1) ==> r.draw_point(at, pen) == r,
{
    let drawn = r.draw_point(at, pen);
    if r.contains(at.0, at.1) {
        lemma_map_pens_get(
            r,
            |x: int, y: int, was: u8| point_pen(at, pen, x, y, was),
            at.0,
            at.1,
        );
    }
    if r.contains(x, y) {
        lemma_map_pens_get(
            r,
            |x: int, y: int, was: u8| point_pen(at, pen, x, y, was),
            x,
            y,
        );
    }
    if !r.contains(at.0, at.1) {
        assert forall|i: int| 0 <= i < r.pixels.len() implies drawn.pixels[i] == r.pixels[i] by {
            lemma_offset_is_pixel(r.width, r.height, i);
        }
        assert(drawn.pixels =~= r.pixels);
    }
}

/// Inverting the same line or the same rectangle twice gives back the
/// raster as it was.
pub proof fn lemma_invert_twice(r: Raster, at: (int, int), to: (int, int))
    ensures
        r.invert_rect(at, to).invert_rect(at, to) == r,
        r.invert_line(at, to.0).invert_line(at, to.0) == r,
{
    assert forall|p: u8| #[trigger] ((p ^ 0xFFu8) ^ 0xFFu8) == p by {
        assert((p ^ 0xFFu8) ^ 0xFFu8 == p) by (bit_vector);
    }
    assert(r.invert_rect(at, to).invert_rect(at, to).pixels =~= r.pixels);
    assert(r.invert_line(at, to.0).invert_line(at, to.0).pixels =~= r.pixels);
}

/// A horizontal or vertical line is the same from either end: its two end
/// coordinates may be exchanged.
pub proof fn lemma_line_ends_exchange(r: Raster, at: (int, int), to: int, pattern: u16)
    ensures
        r.hline(at, to, pattern) == r.hline((to, at.1), at.0, pattern),
        r.vline(at, to, pattern) == r.vline((at.0, to), at.1, pattern),
        r.invert_line(at, to) == r.invert_line((to, at.1), at.0),
{
    assert(r.hline(at, to, pattern).pixels =~= r.hline((to, at.1), at.0, pattern).pixels);
    assert(r.vline(at, to, pattern).pixels =~= r.vline((at.0, to), at.1, pattern).pixels);
    assert(r.invert_line(at, to).pixels =~= r.invert_line((to, at.1), at.0).pixels);
}

/// A pattern shows no seam: a line drawn in two segments that meet, with
/// one pattern, is the line drawn in one piece. The same holds of the
/// segments of a vertical line.
pub proof fn lemma_line_segments_join(
    r: Raster,
    start: int,
    middle: int,
    end: int,
    across: int,
    pattern: u16,
)
    requires
        start <= middle <= end,
    ensures
        r.hline((start, across), middle, pattern).hline((middle, across), end, pattern) == r.hline(
            (start, across),
            end,
            pattern,
        ),
        r.vline((across, start), middle, pattern).vline((across, middle), end, pattern) == r.vline(
            (across, start),
            end,
            pattern,
        ),
{
    assert(r.hline((start, across), middle, pattern).hline(
        (middle, across),
        end,
        pattern,
    ).pixels =~= r.hline((start, across), end, pattern).pixels);
    assert(r.vline((across, start), middle, pattern).vline(
        (across, middle),
        end,
        pattern,
    ).pixels =~= r.vline((across, start), end, pattern).pixels);
}

/// The combine function `0b1110` is OR: a source pixel of paper gives paper
/// whatever the destination, and a source pixel of ink leaves a two-tone
/// destination as it is. The combine function `0` gives ink whatever the
/// source and the destination.
pub proof fn lemma_combine_or_and_ink(source: bool, dest: u8)
    ensures
        combine(0b1110, true, dest) == 255,
        dest == 0 || dest == 255 ==> combine(0b1110, false, dest) == dest,
        combine(0, source, dest) == 0,
{
    assert(dest & 2u8 == 0u8 || dest & 2u8 == 2u8) by (bit_vector);
    assert(0u8 & 2u8 == 0u8 && 255u8 & 2u8 == 2u8) by (bit_vector);
    assert((0b1110u8 >> 0u8) & 1u8 == 0u8 && (0b1110u8 >> 1u8) & 1u8 == 1u8 && (0b1110u8 >> 2u8)
        & 1u8 == 1u8 && (0b1110u8 >> 3u8) & 1u8 == 1u8) by (bit_vector);
    assert(forall|k: u8| (0u8 >> k) & 1u8 == 0u8) by (bit_vector);
}

/// The pixels that a copied row reaches are the first of the row from the
/// destination column on, as many as the smallest of three counts: the
/// width asked for, the pixels from the source column to the right edge of
/// the bitmap, and the pixels from the source column to the end of the last
/// word of the bitmap. The right edge of the raster ends the copy as well,
/// since there are no pixels beyond it.
pub proof fn lemma_copy_reaches_the_first(
    src_width: int,
    bits_len: int,
    from_x: int,
    sy: int,
    to_x: int,
    width: int,
    x: int,
)
    ensures
        copy_reaches(src_width, bits_len, from_x, sy, to_x, width, x) <==> (to_x <= x && x - to_x
            < width && x - to_x < src_width - from_x && x - to_x < 16 * (bits_len - sy * stride(
            src_width,
        )) - from_x),
{
}

/// A copy with the combine function `0b1110` turns every pixel that it
/// reaches from a source pixel of paper into paper, and a copy with the
/// combine function `0` turns every pixel that it reaches into ink.
pub proof fn lemma_copy_or_and_ink(
    r: Raster,
    from: (int, int),
    src_width: int,
    bits: Seq<u16>,
    to: (int, int),
    dimensions: (int, int),
    order: BitOrder,
    x: int,
    y: int,
)
    requires
        r.wf(),
        r.contains(x, y),
        to.1 <= y < to.1 + dimensions.1,
        copy_reaches(
            src_width,
            bits.len() as int,
            from.0,
            from.1 + (y - to.1),
            to.0,
            dimensions.0,
            x,
        ),
    ensures
        source_bit(bits, src_width, from.0 + (x - to.0), from.1 + (y - to.1), order)
            ==> r.copy_rect(from, src_width, bits, to, dimensions, 0b1110, order).get(x, y) == 255,
        r.copy_rect(from, src_width, bits, to, dimensions, 0, order).get(x, y) == 0,
{
    let source = source_bit(bits, src_width, from.0 + (x - to.0), from.1 + (y - to.1), order);
    lemma_combine_or_and_ink(source, r.get(x, y));
    lemma_pens_read_back(
        r,
        x,
        y,
        from,
        to,
        0,
        0,
        Seq::empty(),
        src_width,
        bits,
        dimensions,
        0b1110,
        order,
    );
    lemma_pens_read_back(
        r,
        x,
        y,
        from,
        to,
        0,
        0,
        Seq::empty(),
        src_width,
        bits,
        dimensions,
        0,
        order,
    );
}

} // verus!
