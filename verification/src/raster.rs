//! The mathematical model of a two-tone pixel surface.
//!
//! A [`Raster`] is what a drawing surface looks like to a specification: its
//! extents and its pens, row by row. Every drawing operation of the crate is
//! described here as a function from the raster before to the raster after,
//! given pixel by pixel: the new pen at `(x, y)` depends only on the
//! arguments, on `(x, y)` and on the pen that was there.

use vstd::prelude::*;
use vstd::arithmetic::div_mod::lemma_fundamental_div_mod;
use vstd::arithmetic::div_mod::lemma_fundamental_div_mod_converse;
use vstd::arithmetic::div_mod::lemma_mod_bound;

verus! {

/// The order in which the pixels of a packed bitmap sit in each 16-bit word.
#[derive(Clone, Copy, Debug)]
pub enum BitOrder {
    /// Bit 0 of a word is its leftmost pixel.
    LittleEndian,
    /// Bit 15 of a word is its leftmost pixel.
    BigEndian,
}

/// The pen that is stored for a pen index: indices below 128 are ink, the
/// others paper.
pub open spec fn two_tone(pen: u8) -> u8 {
    if pen >= 128 {
        255u8
    } else {
        0u8
    }
}

/// Whether `v` lies in the half-open span between `a` and `b`, whichever of
/// the two is the smaller: `min(a, b) <= v < max(a, b)`.
pub open spec fn between(a: int, b: int, v: int) -> bool {
    (a <= v && v < b) || (b <= v && v < a)
}

/// Bit `k` of a 16-bit word, for `0 <= k < 16`.
pub open spec fn word_bit(word: u16, k: int) -> bool {
    (word >> (k as u16)) & 1u16 == 1u16
}

/// The bit of a line pattern that falls on the absolute coordinate `at`:
/// bit `at mod 16`.
pub open spec fn pattern_bit(pattern: u16, at: int) -> bool {
    word_bit(pattern, at % 16)
}

/// The pen that a line pattern gives at the absolute coordinate `at`: paper
/// where the pattern's bit is set, ink where it is clear.
pub open spec fn pattern_pen(pattern: u16, at: int) -> u8 {
    if pattern_bit(pattern, at) {
        255u8
    } else {
        0u8
    }
}

/// The inverse of a pen: every bit of the byte flipped.
pub open spec fn inverted(pen: u8) -> u8 {
    pen ^ 0xFFu8
}

/// The entry of a combine function's truth table that a source bit and a
/// destination pen select. The destination counts as paper when bit 1 of its
/// byte is set; the entry's number is twice the destination bit plus the
/// source bit.
pub open spec fn table_index(source: bool, dest: u8) -> int {
    (if dest & 2u8 != 0u8 { 2int } else { 0int }) + (if source { 1int } else { 0int })
}

/// The pen that the combine function `function` gives for a source bit over
/// a destination pen: paper where the selected bit of `function` is set, ink
/// where it is clear. Only the low four bits of `function` are read.
pub open spec fn combine(function: u8, source: bool, dest: u8) -> u8 {
    if (function >> (table_index(source, dest) as u8)) & 1u8 == 1u8 {
        255u8
    } else {
        0u8
    }
}

/// The number of 16-bit words in each row of a packed bitmap that is
/// `src_width` pixels wide.
pub open spec fn stride(src_width: int) -> int {
    (src_width + 15) / 16
}

/// The index, in a packed bitmap's words, of the word that holds the pixel
/// `(sx, sy)`.
pub open spec fn word_index(src_width: int, sx: int, sy: int) -> int {
    sy * stride(src_width) + sx / 16
}

/// Pixel `k` of a word of a packed bitmap, for `0 <= k < 16`, counted from
/// the left.
pub open spec fn word_pixel(word: u16, k: int, order: BitOrder) -> bool {
    match order {
        BitOrder::LittleEndian => word_bit(word, k),
        BitOrder::BigEndian => word_bit(word, 15 - k),
    }
}

/// The pixel `(sx, sy)` of a packed bitmap, for a pixel whose word lies
/// inside `bits`.
pub open spec fn source_bit(bits: Seq<u16>, src_width: int, sx: int, sy: int, order: BitOrder)
    -> bool {
    word_pixel(bits[word_index(src_width, sx, sy)], sx % 16, order)
}

/// Whether a copy that starts at source column `from_x` and destination
/// column `to_x` reaches the destination column `x` from source row `sy`:
/// `x` is one of the `width` columns asked for, its source pixel lies inside
/// the bitmap's declared width, and that pixel's word lies inside the
/// bitmap's words.
pub open spec fn copy_reaches(
    src_width: int,
    bits_len: int,
    from_x: int,
    sy: int,
    to_x: int,
    width: int,
    x: int,
) -> bool {
    &&& to_x <= x < to_x + width
    &&& from_x + (x - to_x) < src_width
    &&& word_index(src_width, from_x + (x - to_x), sy) < bits_len
}

/// New pen at `(x, y)` after `draw_point`.
pub open spec fn point_pen(at: (int, int), pen: u8, x: int, y: int, was: u8) -> u8 {
    if x == at.0 && y == at.1 {
        two_tone(pen)
    } else {
        was
    }
}

/// New pen at `(x, y)` after `hline`.
pub open spec fn hline_pen(at: (int, int), to: int, pattern: u16, x: int, y: int, was: u8) -> u8 {
    if y == at.1 && between(at.0, to, x) {
        pattern_pen(pattern, x)
    } else {
        was
    }
}

/// New pen at `(x, y)` after `vline`.
pub open spec fn vline_pen(at: (int, int), to: int, pattern: u16, x: int, y: int, was: u8) -> u8 {
    if x == at.0 && between(at.1, to, y) {
        pattern_pen(pattern, y)
    } else {
        was
    }
}

/// New pen at `(x, y)` after `rect`: inside the rectangle, row `y` is drawn
/// with the line pattern `pattern[y mod 16]`.
pub open spec fn rect_pen(
    at: (int, int),
    to: (int, int),
    pattern: Seq<u16>,
    x: int,
    y: int,
    was: u8,
) -> u8 {
    if between(at.1, to.1, y) && between(at.0, to.0, x) {
        pattern_pen(pattern[y % 16], x)
    } else {
        was
    }
}

/// New pen at `(x, y)` after `invert_line`.
pub open spec fn invert_line_pen(at: (int, int), to: int, x: int, y: int, was: u8) -> u8 {
    if y == at.1 && between(at.0, to, x) {
        inverted(was)
    } else {
        was
    }
}

/// New pen at `(x, y)` after `invert_rect`.
pub open spec fn invert_rect_pen(at: (int, int), to: (int, int), x: int, y: int, was: u8) -> u8 {
    if between(at.1, to.1, y) && between(at.0, to.0, x) {
        inverted(was)
    } else {
        was
    }
}

/// New pen at `(x, y)` after a copy of `dimensions.0` by `dimensions.1`
/// pixels from `from` in a packed bitmap to `to`: where the copy reaches,
/// the source pixel combined with the pen that was there.
pub open spec fn copy_pen(
    from: (int, int),
    src_width: int,
    bits: Seq<u16>,
    to: (int, int),
    dimensions: (int, int),
    function: u8,
    order: BitOrder,
    x: int,
    y: int,
    was: u8,
) -> u8 {
    let sy = from.1 + (y - to.1);
    if to.1 <= y < to.1 + dimensions.1 && copy_reaches(
        src_width,
        bits.len() as int,
        from.0,
        sy,
        to.0,
        dimensions.0,
        x,
    ) {
        combine(function, source_bit(bits, src_width, from.0 + (x - to.0), sy, order), was)
    } else {
        was
    }
}

/// A surface of `width` by `height` pens, stored row by row.
pub struct Raster {
    /// The number of pixels in each row.
    pub width: int,
    /// The number of rows.
    pub height: int,
    /// The pens, row by row: the pixel `(x, y)` is at `y * width + x`.
    pub pixels: Seq<u8>,
}

impl Raster {
    /// A raster is well formed when its extents fit 16 bits, it holds one pen
    /// for each pixel, and every pen is ink or paper.
    pub open spec fn wf(self) -> bool {
        &&& 0 <= self.width <= 0xFFFF
        &&& 0 <= self.height <= 0xFFFF
        &&& self.pixels.len() == self.width * self.height
        &&& forall|i: int|
            0 <= i < self.pixels.len() ==> self.pixels[i] == 0 || self.pixels[i] == 255
    }

    /// Whether `(x, y)` is a pixel of the raster.
    pub open spec fn contains(self, x: int, y: int) -> bool {
        0 <= x < self.width && 0 <= y < self.height
    }

    /// The place of the pixel `(x, y)` in `pixels`.
    pub open spec fn offset(self, x: int, y: int) -> int {
        y * self.width + x
    }

    /// The pen at `(x, y)`; ink outside the raster.
    pub open spec fn get(self, x: int, y: int) -> u8 {
        if self.contains(x, y) {
            self.pixels[self.offset(x, y)]
        } else {
            0u8
        }
    }

    /// The raster in which the pen at each pixel `(x, y)` is
    /// `f(x, y, was)`, where `was` is the pen of this raster there.
    pub open spec fn map_pens(self, f: spec_fn(int, int, u8) -> u8) -> Raster {
        Raster {
            width: self.width,
            height: self.height,
            pixels: Seq::new(
                self.pixels.len(),
                |i: int| f(i % self.width, i / self.width, self.pixels[i]),
            ),
        }
    }

    /// A raster of the given extents in which every pen is ink.
    pub open spec fn blank(width: int, height: int) -> Raster {
        Raster { width, height, pixels: Seq::new((width * height) as nat, |i: int| 0u8) }
    }

    /// The raster after `draw_point(at, pen)`.
    pub open spec fn draw_point(self, at: (int, int), pen: u8) -> Raster {
        self.map_pens(|x: int, y: int, was: u8| point_pen(at, pen, x, y, was))
    }

    /// The raster after `hline(at, to, pattern)`.
    pub open spec fn hline(self, at: (int, int), to: int, pattern: u16) -> Raster {
        self.map_pens(|x: int, y: int, was: u8| hline_pen(at, to, pattern, x, y, was))
    }

    /// The raster after `vline(at, to, pattern)`.
    pub open spec fn vline(self, at: (int, int), to: int, pattern: u16) -> Raster {
        self.map_pens(|x: int, y: int, was: u8| vline_pen(at, to, pattern, x, y, was))
    }

    /// The raster after `rect(at, to, pattern)`.
    pub open spec fn rect(self, at: (int, int), to: (int, int), pattern: Seq<u16>) -> Raster {
        self.map_pens(|x: int, y: int, was: u8| rect_pen(at, to, pattern, x, y, was))
    }

    /// The raster after `frame(at, to, pattern)`: the top edge, the bottom
    /// edge, the left edge and the right edge, drawn in this order.
    pub open spec fn frame(self, at: (int, int), to: (int, int), pattern: u16) -> Raster {
        let left = if at.0 <= to.0 { at.0 } else { to.0 };
        let right = if at.0 <= to.0 { to.0 } else { at.0 };
        let top = if at.1 <= to.1 { at.1 } else { to.1 };
        let bottom = if at.1 <= to.1 { to.1 } else { at.1 };
        self.hline((left, top), right, pattern).hline((left, bottom - 1), right, pattern).vline(
            (left, top),
            bottom,
            pattern,
        ).vline((right - 1, top), bottom, pattern)
    }

    /// The raster after `invert_line(at, to)`.
    pub open spec fn invert_line(self, at: (int, int), to: int) -> Raster {
        self.map_pens(|x: int, y: int, was: u8| invert_line_pen(at, to, x, y, was))
    }

    /// The raster after `invert_rect(at, to)`.
    pub open spec fn invert_rect(self, at: (int, int), to: (int, int)) -> Raster {
        self.map_pens(|x: int, y: int, was: u8| invert_rect_pen(at, to, x, y, was))
    }

    /// The raster after a copy of a rectangle of a packed bitmap.
    pub open spec fn copy_rect(
        self,
        from: (int, int),
        src_width: int,
        bits: Seq<u16>,
        to: (int, int),
        dimensions: (int, int),
        function: u8,
        order: BitOrder,
    ) -> Raster {
        self.map_pens(
            |x: int, y: int, was: u8|
                copy_pen(from, src_width, bits, to, dimensions, function, order, x, y, was),
        )
    }

    /// The raster after a copy of one row of a packed bitmap: a copy of a
    /// rectangle one pixel high.
    pub open spec fn copy_line(
        self,
        from: (int, int),
        src_width: int,
        bits: Seq<u16>,
        to: (int, int),
        width: int,
        function: u8,
        order: BitOrder,
    ) -> Raster {
        self.copy_rect(from, src_width, bits, to, (width, 1), function, order)
    }
}

/// Byte `j` of a buffer of four bytes for each pixel, `span` bytes for each
/// row, after the raster `r` is written into it: each of the four bytes of
/// a pixel holds the pixel's pen, and the bytes between the rows hold what
/// was there.
pub open spec fn expanded_byte(r: Raster, span: int, was: Seq<u8>, j: int) -> u8 {
    if 0 < span && j / span < r.height && j % span < 4 * r.width {
        r.pixels[r.offset((j % span) / 4, j / span)]
    } else {
        was[j]
    }
}

/// The coordinates of a 16-bit point as integers.
pub open spec fn point(at: (u16, u16)) -> (int, int) {
    (at.0 as int, at.1 as int)
}

/// The pixel at offset `y * w + x` of a row-major store is the pixel
/// `(x, y)`.
pub proof fn lemma_offset_splits(w: int, x: int, y: int)
    requires
        0 <= x < w,
    ensures
        (y * w + x) % w == x,
        (y * w + x) / w == y,
{
    lemma_fundamental_div_mod_converse(y * w + x, w, y, x);
}

/// Every offset `i` of a row-major store of width `w` is the pixel
/// `(i mod w, i div w)`.
pub proof fn lemma_offset_joins(w: int, i: int)
    requires
        0 < w,
    ensures
        i == (i / w) * w + i % w,
        0 <= i % w < w,
        0 <= i ==> 0 <= i / w,
{
    lemma_fundamental_div_mod(i, w);
    lemma_mod_bound(i, w);
    assert(w * (i / w) == (i / w) * w) by (nonlinear_arith);
    let q = i / w;
    if q < 0 {
        assert(q * w <= -w) by (nonlinear_arith)
            requires
                q <= -1,
                w > 0,
        ;
    }
}

/// An offset inside a store of `w` by `h` pens names a pixel inside it.
pub proof fn lemma_offset_row_bound(w: int, h: int, i: int)
    requires
        0 < w,
        0 <= h,
        0 <= i < w * h,
    ensures
        0 <= i / w < h,
{
    lemma_offset_joins(w, i);
    let q = i / w;
    if q >= h {
        assert(q * w >= h * w) by (nonlinear_arith)
            requires
                q >= h,
                w > 0,
        ;
        assert(h * w == w * h) by (nonlinear_arith);
    }
}

/// A pixel inside a store of `w` by `h` pens has its offset inside it.
pub proof fn lemma_offset_bound(w: int, h: int, x: int, y: int)
    requires
        0 <= x < w,
        0 <= y < h,
    ensures
        0 <= y * w + x < w * h,
        y * w + w <= w * h,
{
    assert(y * w + w <= w * h && 0 <= y * w) by (nonlinear_arith)
        requires
            0 <= y,
            y + 1 <= h,
            0 < w,
    ;
}

/// Every offset of a store of `w` by `h` pens is the offset of a pixel
/// inside it: the pixel `(i mod w, i div w)`.
pub proof fn lemma_offset_is_pixel(w: int, h: int, i: int)
    requires
        0 <= w,
        0 <= h,
        0 <= i < w * h,
    ensures
        0 < w,
        0 <= i % w < w,
        0 <= i / w < h,
        i == (i / w) * w + i % w,
{
    if w == 0 {
        assert(w * h == 0) by (nonlinear_arith)
            requires
                w == 0,
        ;
    }
    lemma_offset_joins(w, i);
    lemma_offset_row_bound(w, h, i);
}

/// Repainting a raster changes each pixel by the repainting function alone.
pub proof fn lemma_map_pens_get(r: Raster, f: spec_fn(int, int, u8) -> u8, x: int, y: int)
    requires
        r.pixels.len() == r.width * r.height,
        r.contains(x, y),
    ensures
        r.map_pens(f).get(x, y) == f(x, y, r.get(x, y)),
{
    lemma_offset_bound(r.width, r.height, x, y);
    lemma_offset_splits(r.width, x, y);
}

/// A filled rectangle is its rows drawn one after another with `hline`:
/// the rectangle down to row `y`, then row `y` drawn with the line pattern
/// `pattern[y mod 16]`, is the rectangle down to row `y + 1`.
pub proof fn lemma_rect_by_rows(
    r: Raster,
    left: int,
    right: int,
    top: int,
    y: int,
    pattern: Seq<u16>,
)
    requires
        top <= y,
    ensures
        r.rect((left, top), (right, y), pattern).hline((left, y), right, pattern[y % 16]) == r.rect(
            (left, top),
            (right, y + 1),
            pattern,
        ),
{
    assert(r.rect((left, top), (right, y), pattern).hline(
        (left, y),
        right,
        pattern[y % 16],
    ).pixels =~= r.rect((left, top), (right, y + 1), pattern).pixels);
}

/// An inverted rectangle is its rows inverted one after another with
/// `invert_line`.
pub proof fn lemma_invert_rect_by_rows(r: Raster, left: int, right: int, top: int, y: int)
    requires
        top <= y,
    ensures
        r.invert_rect((left, top), (right, y)).invert_line((left, y), right) == r.invert_rect(
            (left, top),
            (right, y + 1),
        ),
{
    assert(r.invert_rect((left, top), (right, y)).invert_line((left, y), right).pixels
        =~= r.invert_rect((left, top), (right, y + 1)).pixels);
}

/// A rectangle is the same whichever of its corners are named, and a
/// rectangle without rows or without columns changes nothing.
pub proof fn lemma_rect_corners(r: Raster, at: (int, int), to: (int, int), pattern: Seq<u16>)
    ensures
        r.rect(at, to, pattern) == r.rect((to.0, at.1), (at.0, to.1), pattern),
        r.rect(at, to, pattern) == r.rect((at.0, to.1), (to.0, at.1), pattern),
        r.rect(at, to, pattern) == r.rect(to, at, pattern),
        at.0 == to.0 || at.1 == to.1 ==> r.rect(at, to, pattern) == r,
{
    assert(r.rect(at, to, pattern).pixels =~= r.rect((to.0, at.1), (at.0, to.1), pattern).pixels);
    assert(r.rect(at, to, pattern).pixels =~= r.rect((at.0, to.1), (to.0, at.1), pattern).pixels);
    assert(r.rect(at, to, pattern).pixels =~= r.rect(to, at, pattern).pixels);
    if at.0 == to.0 || at.1 == to.1 {
        assert(r.rect(at, to, pattern).pixels =~= r.pixels);
    }
}

/// An inverted rectangle is the same whichever of its corners are named, and
/// one without rows or without columns changes nothing.
pub proof fn lemma_invert_rect_corners(r: Raster, at: (int, int), to: (int, int))
    ensures
        r.invert_rect(at, to) == r.invert_rect((to.0, at.1), (at.0, to.1)),
        r.invert_rect(at, to) == r.invert_rect((at.0, to.1), (to.0, at.1)),
        r.invert_rect(at, to) == r.invert_rect(to, at),
        at.0 == to.0 || at.1 == to.1 ==> r.invert_rect(at, to) == r,
{
    assert(r.invert_rect(at, to).pixels =~= r.invert_rect((to.0, at.1), (at.0, to.1)).pixels);
    assert(r.invert_rect(at, to).pixels =~= r.invert_rect((at.0, to.1), (to.0, at.1)).pixels);
    assert(r.invert_rect(at, to).pixels =~= r.invert_rect(to, at).pixels);
    if at.0 == to.0 || at.1 == to.1 {
        assert(r.invert_rect(at, to).pixels =~= r.pixels);
    }
}

/// A line on a row or a column that the raster does not have changes
/// nothing.
pub proof fn lemma_line_off_surface(r: Raster, at: (int, int), to: int, pattern: u16)
    requires
        0 <= r.width,
        0 <= r.height,
        r.pixels.len() == r.width * r.height,
    ensures
        at.1 < 0 || at.1 >= r.height ==> r.hline(at, to, pattern) == r,
        at.1 < 0 || at.1 >= r.height ==> r.invert_line(at, to) == r,
        at.0 < 0 || at.0 >= r.width ==> r.vline(at, to, pattern) == r,
{
    if at.1 < 0 || at.1 >= r.height {
        assert forall|i: int| 0 <= i < r.pixels.len() implies r.hline(at, to, pattern).pixels[i]
            == r.pixels[i] && r.invert_line(at, to).pixels[i] == r.pixels[i] by {
            lemma_offset_is_pixel(r.width, r.height, i);
        }
        assert(r.hline(at, to, pattern).pixels =~= r.pixels);
        assert(r.invert_line(at, to).pixels =~= r.pixels);
    }
    if at.0 < 0 || at.0 >= r.width {
        assert forall|i: int| 0 <= i < r.pixels.len() implies r.vline(at, to, pattern).pixels[i]
            == r.pixels[i] by {
            lemma_offset_is_pixel(r.width, r.height, i);
        }
        assert(r.vline(at, to, pattern).pixels =~= r.pixels);
    }
}

/// A copied rectangle is its rows copied one after another with
/// `copy_line`: the first `rows` rows, then row `rows` of the rectangle, are
/// the first `rows + 1` rows.
pub proof fn lemma_copy_rect_by_rows(
    r: Raster,
    from: (int, int),
    src_width: int,
    bits: Seq<u16>,
    to: (int, int),
    width: int,
    rows: int,
    function: u8,
    order: BitOrder,
)
    requires
        0 <= rows,
    ensures
        r.copy_rect(from, src_width, bits, to, (width, rows), function, order).copy_line(
            (from.0, from.1 + rows),
            src_width,
            bits,
            (to.0, to.1 + rows),
            width,
            function,
            order,
        ) == r.copy_rect(from, src_width, bits, to, (width, rows + 1), function, order),
{
    assert(r.copy_rect(from, src_width, bits, to, (width, rows), function, order).copy_line(
        (from.0, from.1 + rows),
        src_width,
        bits,
        (to.0, to.1 + rows),
        width,
        function,
        order,
    ).pixels =~= r.copy_rect(
        from,
        src_width,
        bits,
        to,
        (width, rows + 1),
        function,
        order,
    ).pixels);
}

/// A copy is clipped at the bottom edge: rows asked for below the last row
/// of the raster change nothing, and a copy of no rows changes nothing.
pub proof fn lemma_copy_rect_clipped(
    r: Raster,
    from: (int, int),
    src_width: int,
    bits: Seq<u16>,
    to: (int, int),
    dimensions: (int, int),
    function: u8,
    order: BitOrder,
)
    requires
        0 <= r.width,
        0 <= r.height,
        r.pixels.len() == r.width * r.height,
    ensures
        dimensions.1 >= r.height - to.1 ==> r.copy_rect(
            from,
            src_width,
            bits,
            to,
            dimensions,
            function,
            order,
        ) == r.copy_rect(
            from,
            src_width,
            bits,
            to,
            (dimensions.0, r.height - to.1),
            function,
            order,
        ),
        dimensions.1 <= 0 || to.0 >= r.width || to.1 >= r.height ==> r.copy_rect(
            from,
            src_width,
            bits,
            to,
            dimensions,
            function,
            order,
        ) == r,
{
    let whole = r.copy_rect(from, src_width, bits, to, dimensions, function, order);
    let clipped = r.copy_rect(
        from,
        src_width,
        bits,
        to,
        (dimensions.0, r.height - to.1),
        function,
        order,
    );
    assert forall|i: int| 0 <= i < r.pixels.len() implies (dimensions.1 >= r.height - to.1
        ==> whole.pixels[i] == clipped.pixels[i]) && (dimensions.1 <= 0 || to.0 >= r.width || to.1
        >= r.height ==> whole.pixels[i] == r.pixels[i]) by {
        lemma_offset_is_pixel(r.width, r.height, i);
    }
    if dimensions.1 >= r.height - to.1 {
        assert(whole.pixels =~= clipped.pixels);
    }
    if dimensions.1 <= 0 || to.0 >= r.width || to.1 >= r.height {
        assert(whole.pixels =~= r.pixels);
    }
}

} // verus!
