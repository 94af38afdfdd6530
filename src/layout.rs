//! Bit layout of the packed word: the metadata fields, bit-field extraction, and
//! the bit-vector facts that the array operations are proved from.

use vstd::prelude::*;

verus! {

/// Bits of the size class field.
pub const SIZE_BITS: u128 = 3;

/// Mask of the size class field.
pub const SIZE_MASK: u128 = 0b111;

/// Bits of the length field.
pub const LEN_BITS: u128 = 5;

/// Mask of the length field, in place.
pub const LEN_MASK: u128 = 0b1111_1000;

/// The largest length that the length field holds.
pub const MAX_LEN: u128 = 31;

/// Bits taken by the metadata (size class and length) at the bottom of the word.
pub const META_BITS: u128 = SIZE_BITS + LEN_BITS;

/// Bits in the whole word.
pub const WORD_BITS: u128 = 128;

/// Bits left for the elements.
pub const DATA_BITS: u128 = WORD_BITS - META_BITS;

/// The lowest `n` bits set, for `n < 128`.
pub open spec fn low_mask(n: u128) -> u128 {
    !(u128::MAX << n)
}

/// The `n` bits of `w` starting at bit `off`, moved down to bit 0.
pub open spec fn field(w: u128, off: u128, n: u128) -> u128 {
    (w >> off) & !(u128::MAX << n)
}

/// `w` with its length field replaced by `n`.
pub open spec fn with_len(w: u128, n: u128) -> u128 {
    (w & !0xf8u128) | (n << 3u128)
}

/// Builds the mask of the lowest `n` bits.
pub fn low_bits(n: u128) -> (r: u128)
    requires
        n < 128,
    ensures
        r == low_mask(n),
{
    proof {
        assert(n < 128 ==> (1u128 << n) >= 1 && ((1u128 << n) - 1) as u128 == !(u128::MAX << n))
            by (bit_vector);
    }
    (1u128 << n) - 1
}

/// Replaces the length field of `w` by `n`.
pub fn set_len(w: u128, n: u128) -> (r: u128)
    requires
        n < 32,
    ensures
        r == with_len(w, n),
{
    (w & !LEN_MASK) | (n << SIZE_BITS)
}

/// Setting the length field sets it, and leaves the size class and every bit above
/// the metadata as they were.
pub proof fn lemma_with_len(w: u128, n: u128, off: u128, k: u128)
    requires
        n < 32,
        8 <= off < 128,
    ensures
        (with_len(w, n) >> 3) & 31 == n,
        with_len(w, n) & 7 == w & 7,
        field(with_len(w, n), off, k) == field(w, off, k),
        with_len(w, n) >> off == w >> off,
{
    assert(n < 32 ==> (((w & !0xf8u128) | (n << 3u128)) >> 3u128) & 31 == n) by (bit_vector);
    assert(((w & !0xf8u128) | (n << 3u128)) & 7 == w & 7) by (bit_vector);
    assert(n < 32 && 8 <= off && off < 128 ==> ((w & !0xf8u128) | (n << 3u128)) >> off == w >> off)
        by (bit_vector);
}

/// The size class and the length fields are small.
pub proof fn lemma_meta_bounds(w: u128)
    by (bit_vector)
    ensures
        w & 7 < 8,
        (w >> 3) & 31 < 32,
{
}

/// The width of a size class is one of the eight powers of two from 1 to 128.
pub proof fn lemma_width_cases(w: u128)
    by (bit_vector)
    ensures
        (1u128 << (w & 7)) == 1 && w & 7 == 0 || (1u128 << (w & 7)) == 2 && w & 7 == 1
            || (1u128 << (w & 7)) == 4 && w & 7 == 2 || (1u128 << (w & 7)) == 8 && w & 7 == 3
            || (1u128 << (w & 7)) == 16 && w & 7 == 4 || (1u128 << (w & 7)) == 32 && w & 7 == 5
            || (1u128 << (w & 7)) == 64 && w & 7 == 6 || (1u128 << (w & 7)) == 128 && w & 7 == 7,
{
}

/// Writing `item` into the `s` bits at `o`: that field then holds `item`, and every
/// other bit is kept.
pub proof fn lemma_write_slot(x: u128, o: u128, s: u128, item: u128, q: u128)
    requires
        8 <= o,
        1 <= s <= 64,
        o + s <= 128,
        item <= !(u128::MAX << s),
    ensures
        field((x & !(!(u128::MAX << s) << o)) | (item << o), o, s) == item,
        q + s <= o ==> field((x & !(!(u128::MAX << s) << o)) | (item << o), q, s) == field(x, q, s),
        ((x & !(!(u128::MAX << s) << o)) | (item << o)) & 0xff == x & 0xff,
{
    assert(8 <= o && 1 <= s && s <= 64 && o + s <= 128 && item <= !(u128::MAX << s) ==> ((((x
        & !(!(u128::MAX << s) << o)) | (item << o)) >> o) & !(u128::MAX << s)) == item)
        by (bit_vector);
    assert(8 <= o && 1 <= s && s <= 64 && o + s <= 128 && q + s <= o ==> ((((x & !(!(u128::MAX
        << s) << o)) | (item << o)) >> q) & !(u128::MAX << s)) == ((x >> q) & !(u128::MAX << s)))
        by (bit_vector);
    assert(8 <= o && o < 128 ==> ((x & !(!(u128::MAX << s) << o)) | (item << o)) & 0xff == x
        & 0xff) by (bit_vector);
}

#[verifier::rlimit(100)]
/// Shifting the bits from `o` upwards by `s` and writing `item` into the gap.
pub proof fn lemma_shift_up(x: u128, w: u128, o: u128, s: u128, item: u128, q: u128)
    requires
        8 <= o,
        1 <= s <= 64,
        o + s <= 128,
        item <= !(u128::MAX << s),
    ensures
        ({
            let r = (x & !(u128::MAX << o)) | ((w & (u128::MAX << o)) << s) | (item << o);
            &&& field(r, o, s) == item
            &&& q + s <= o ==> field(r, q, s) == field(x, q, s)
            &&& o <= q && q + s + s <= 128 ==> field(r, (q + s) as u128, s) == field(w, q, s)
            &&& r & 0xff == x & 0xff
        }),
{
    assert(8 <= o && 1 <= s && s <= 64 && o + s <= 128 && item <= !(u128::MAX << s) ==> ((((x
        & !(u128::MAX << o)) | ((w & (u128::MAX << o)) << s) | (item << o)) >> o) & !(u128::MAX
        << s)) == item) by (bit_vector);
    assert(8 <= o && 1 <= s && s <= 64 && o + s <= 128 && q + s <= o ==> ((((x & !(u128::MAX
        << o)) | ((w & (u128::MAX << o)) << s) | (item << o)) >> q) & !(u128::MAX << s)) == ((x
        >> q) & !(u128::MAX << s))) by (bit_vector);
    assert(8 <= o && 1 <= s && s <= 64 && o + s <= 128 && o <= q && q + s + s <= 128 && item
        <= !(u128::MAX << s) ==> ((((x & !(u128::MAX << o)) | ((w & (u128::MAX << o)) << s) | (
    item << o)) >> (q + s)) & !(u128::MAX << s)) == ((w >> q) & !(u128::MAX << s)))
        by (bit_vector);
    assert(8 <= o && o < 128 && s <= 64 ==> ((x & !(u128::MAX << o)) | ((w & (u128::MAX << o))
        << s) | (item << o)) & 0xff == x & 0xff) by (bit_vector);
}

#[verifier::rlimit(100)]
/// Dropping the `s` bits at `o`, moving the bits above them down by `s`.
pub proof fn lemma_shift_down(x: u128, w: u128, o: u128, s: u128, q: u128)
    requires
        8 <= o,
        1 <= s <= 64,
        o + s <= 128,
    ensures
        ({
            let r = (x & !(u128::MAX << o)) | (((w & (u128::MAX << o)) >> s) & (u128::MAX << o));
            &&& q + s <= o ==> field(r, q, s) == field(x, q, s)
            &&& o <= q && q + s + s <= 128 ==> field(r, q, s) == field(w, (q + s) as u128, s)
            &&& r & 0xff == x & 0xff
        }),
{
    assert(8 <= o && 1 <= s && s <= 64 && o + s <= 128 && q + s <= o ==> ((((x & !(u128::MAX
        << o)) | (((w & (u128::MAX << o)) >> s) & (u128::MAX << o))) >> q) & !(u128::MAX << s))
        == ((x >> q) & !(u128::MAX << s))) by (bit_vector);
    assert(8 <= o && 1 <= s && s <= 64 && o + s <= 128 && o <= q && q + s + s <= 128 ==> ((((x
        & !(u128::MAX << o)) | (((w & (u128::MAX << o)) >> s) & (u128::MAX << o))) >> q)
        & !(u128::MAX << s)) == ((w >> (q + s)) & !(u128::MAX << s))) by (bit_vector);
    assert(8 <= o && o < 128 && s <= 64 ==> ((x & !(u128::MAX << o)) | (((w & (u128::MAX << o))
        >> s) & (u128::MAX << o))) & 0xff == x & 0xff) by (bit_vector);
}

/// The metadata byte determines the size class and the length.
pub proof fn lemma_meta(x: u128, y: u128)
    requires
        x & 0xff == y & 0xff,
    ensures
        x & 7 == y & 7,
        (x >> 3) & 31 == (y >> 3) & 31,
{
    assert(x & 0xff == y & 0xff ==> x & 7 == y & 7 && (x >> 3) & 31 == (y >> 3) & 31)
        by (bit_vector);
}

} // verus!
