//! The bit-level steps of the drawing loops: a pattern turned to its first
//! column, a bitmap word shifted to its next pixel, and the pens of a
//! combine function laid out as a table.

use vstd::prelude::*;
use crate::raster::combine;
use crate::raster::table_index;
use crate::raster::word_bit;
use crate::raster::word_pixel;
use crate::raster::BitOrder;

verus! {

/// A pattern turned right by `k` bits, for `0 <= k < 16`: bit 0 of the
/// result is bit `k` of the pattern.
pub closed spec fn turned(pattern: u16, k: u16) -> u16 {
    if k == 0 {
        pattern
    } else {
        (pattern >> k) | (pattern << ((16 - k) as u16))
    }
}

proof fn lemma_turned_front_bits(pattern: u16, k: u16)
    by (bit_vector)
    requires
        k < 16,
    ensures
        (turned(pattern, k) & 1 != 0) == ((pattern >> k) & 1 == 1),
{
}

proof fn lemma_turned_again_bits(pattern: u16, k: u16)
    by (bit_vector)
    requires
        k < 16,
    ensures
        turned(turned(pattern, k), 1) == turned(
            pattern,
            if k == 15 {
                0u16
            } else {
                (k + 1) as u16
            },
        ),
{
}

/// The lowest bit of a pattern turned by `k` is bit `k` of the pattern.
pub proof fn lemma_turned_front(pattern: u16, k: u16)
    requires
        k < 16,
    ensures
        (turned(pattern, k) & 1 != 0) == word_bit(pattern, k as int),
{
    lemma_turned_front_bits(pattern, k);
}

/// Turning by one bit more moves on to the next bit, and from bit 15 back
/// to bit 0.
pub proof fn lemma_turned_again(pattern: u16, k: u16)
    requires
        k < 16,
    ensures
        turned(turned(pattern, k), 1) == turned(pattern, ((k + 1) % 16) as u16),
{
    lemma_turned_again_bits(pattern, k);
}

/// Turns a pattern right by `k` bits.
pub fn rotate_right(pattern: u16, k: u16) -> (turned_pattern: u16)
    requires
        k < 16,
    ensures
        turned_pattern == turned(pattern, k),
{
    if k == 0 {
        pattern
    } else {
        (pattern >> k) | (pattern << (16 - k))
    }
}

/// The inverse of ink is paper, and the inverse of paper is ink.
pub proof fn lemma_inverted_pen(pen: u8)
    by (bit_vector)
    requires
        pen == 0 || pen == 255,
    ensures
        pen ^ 0xFF == 255 - pen,
{
}

/// A word of a packed bitmap shifted so that its pixel `k` comes first: in
/// the lowest bit for little-endian words, in the highest for big-endian
/// ones.
pub closed spec fn shifted(word: u16, k: u16, order: BitOrder) -> u16 {
    match order {
        BitOrder::LittleEndian => word >> k,
        BitOrder::BigEndian => word << k,
    }
}

/// The first pixel of a shifted word.
pub closed spec fn front(shifted_word: u16, order: BitOrder) -> bool {
    match order {
        BitOrder::LittleEndian => shifted_word & 1 == 1,
        BitOrder::BigEndian => (shifted_word & 0x8000) >> 15 == 1,
    }
}

proof fn lemma_front_bits(word: u16, k: u16)
    by (bit_vector)
    requires
        k < 16,
    ensures
        (((word << k) & 0x8000) >> 15 == 1) == ((word >> ((15 - k) as u16)) & 1 == 1),
{
}

proof fn lemma_again_bits(word: u16, k: u16)
    by (bit_vector)
    requires
        k < 15,
    ensures
        (word >> k) >> 1 == word >> ((k + 1) as u16),
        (word << k) << 1 == word << ((k + 1) as u16),
        word >> 0 == word,
        word << 0 == word,
{
}

/// The first pixel of a word shifted by `k` is pixel `k` of the word.
pub proof fn lemma_shifted_front(word: u16, k: u16, order: BitOrder)
    requires
        k < 16,
    ensures
        front(shifted(word, k, order), order) == word_pixel(word, k as int, order),
{
    lemma_front_bits(word, k);
}

/// Shifting by one pixel more moves on to the next pixel of the word, and
/// a word shifted by nothing is the word.
pub proof fn lemma_shifted_again(word: u16, k: u16, order: BitOrder)
    requires
        k < 15,
    ensures
        shifted(shifted(word, k, order), 1, order) == shifted(word, (k + 1) as u16, order),
        shifted(word, 0, order) == word,
{
    lemma_again_bits(word, k);
}

/// Shifts a word of a packed bitmap by `k` pixels.
pub fn shift_word(word: u16, k: u16, order: BitOrder) -> (shifted_word: u16)
    requires
        k < 16,
    ensures
        shifted_word == shifted(word, k, order),
{
    match order {
        BitOrder::LittleEndian => word >> k,
        BitOrder::BigEndian => word << k,
    }
}

/// The first pixel of a shifted word, as 0 or 1.
pub fn front_bit(shifted_word: u16, order: BitOrder) -> (bit: u8)
    ensures
        bit <= 1,
        (bit == 1) == front(shifted_word, order),
{
    match order {
        BitOrder::LittleEndian => {
            assert(shifted_word & 1 <= 1) by (bit_vector);
            (shifted_word & 1) as u8
        },
        BitOrder::BigEndian => {
            assert((shifted_word & 0x8000) >> 15 <= 1) by (bit_vector);
            ((shifted_word & 0x8000) >> 15) as u8
        },
    }
}

proof fn lemma_table_bits(function: u8)
    by (bit_vector)
    ensures
        (function & 1 == 0) == !((function >> 0) & 1 == 1),
        (function & 2 == 0) == !((function >> 1) & 1 == 1),
        (function & 4 == 0) == !((function >> 2) & 1 == 1),
        (function & 8 == 0) == !((function >> 3) & 1 == 1),
{
}

proof fn lemma_index_bits(bit: u8, dest: u8)
    by (bit_vector)
    requires
        bit <= 1,
    ensures
        dest & 2 == 0 ==> bit | (dest & 2) == bit,
        dest & 2 != 0 ==> bit | (dest & 2) == 2 + bit,
{
}

/// The four pens of a combine function, in the order of its truth table.
pub fn pen_table(function: u8) -> (pens: [u8; 4])
    ensures
        forall|source: bool, dest: u8|
            pens@[#[trigger] table_index(source, dest)] == combine(function, source, dest),
{
    proof {
        lemma_table_bits(function);
    }
    [
        if function & 1 == 0 { 0 } else { 255 },
        if function & 2 == 0 { 0 } else { 255 },
        if function & 4 == 0 { 0 } else { 255 },
        if function & 8 == 0 { 0 } else { 255 },
    ]
}

/// The place in the pen table that a source bit and a destination pen
/// select.
pub fn table_entry(bit: u8, dest: u8) -> (index: usize)
    requires
        bit <= 1,
    ensures
        index == table_index(bit == 1, dest),
        index < 4,
{
    proof {
        lemma_index_bits(bit, dest);
    }
    (bit | (dest & 2)) as usize
}

} // verus!
