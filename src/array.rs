//! The packed array and its operations.

use vstd::prelude::*;
use crate::layout::{
    field, low_bits, low_mask, set_len, with_len, lemma_meta, lemma_meta_bounds, lemma_shift_down,
    lemma_shift_up, lemma_with_len, lemma_width_cases, lemma_write_slot, DATA_BITS, MAX_LEN, META_BITS,
    SIZE_BITS, SIZE_MASK,
};

verus! {

/// Why an operation on a packed array was refused.
#[derive(Debug, Clone, Copy, PartialEq, Eq, Structural)]
pub enum UintArrayError {
    /// The requested element width is not a power of two.
    NotPowerOfTwo,
    /// The requested element width is more than half the word.
    SizeTooLarge,
    /// A raw word claims more elements than its size class leaves room for.
    InvalidLength,
    /// The operation would store more elements than fit.
    CapacityExceeded,
    /// A value does not fit in the element width.
    ValueOutOfRange,
}

/// Multiple values stored in a single `u128`.
///
/// Can only contain values of the width chosen at creation time.
#[derive(Debug, Clone, Copy, PartialEq, Eq, Structural)]
pub struct UintArray(pub u128);

/// `n` is `2^k` for some `k < 7`: a power of two no larger than 64.
pub open spec fn is_pow2_width(n: int) -> bool {
    exists|k: u128| k < 7 && (1u128 << k) as int == n
}

/// The sum of a sequence of values.
pub open spec fn sum(s: Seq<u128>) -> int
    decreases s.len(),
{
    if s.len() == 0 {
        0
    } else {
        sum(s.drop_last()) + s.last()
    }
}

/// How many times `v` occurs in `s`.
pub open spec fn occurrences(s: Seq<u128>, v: u128) -> int
    decreases s.len(),
{
    if s.len() == 0 {
        0
    } else {
        occurrences(s.drop_last(), v) + if s.last() == v {
            1int
        } else {
            0int
        }
    }
}

/// A bound on each mapped value that keeps the sum of 31 of them within `u128`.
pub const AGGREGATE_ITEM_MAX: u128 = 0x07ff_ffff_ffff_ffff_ffff_ffff_ffff_ffff;

/// Summing the indicator of `v` over `s` counts the occurrences of `v`.
proof fn lemma_sum_indicator(s: Seq<u128>, ys: Seq<u128>, v: u128)
    requires
        ys.len() == s.len(),
        forall|i: int| 0 <= i < s.len() ==> ys[i] == if s[i] == v {
            1u128
        } else {
            0u128
        },
    ensures
        sum(ys) == occurrences(s, v),
    decreases s.len(),
{
    if s.len() > 0 {
        lemma_sum_indicator(s.drop_last(), ys.drop_last(), v);
    }
}

/// `p` is the first position of `s` that holds `v`.
pub open spec fn is_first_index(s: Seq<u128>, v: u128, p: int) -> bool {
    &&& 0 <= p < s.len()
    &&& s[p] == v
    &&& forall|j: int| 0 <= j < p ==> s[j] != v
}

/// `i * s + s <= p * s` when `i < p`.
proof fn lemma_slot_before(i: int, p: int, s: int)
    by (nonlinear_arith)
    requires
        0 <= i < p,
        0 <= s,
    ensures
        0 <= i * s,
        i * s + s <= p * s,
{
}

/// `(i + 1) * s == i * s + s`.
proof fn lemma_slot_next(i: int, s: int)
    by (nonlinear_arith)
    ensures
        (i + 1) * s == i * s + s,
{
}

/// The character for bit `i` of `w`.
pub open spec fn bit_char(w: u128, i: u128) -> char {
    if (w >> i) & 1 == 0 {
        '0'
    } else {
        '1'
    }
}

/// Bit `i` of `w` as text, followed by a line break at every 32nd bit and a space
/// at every other element boundary of width `s`.
pub open spec fn bit_text(w: u128, s: u128, i: u128) -> Seq<char> {
    seq![bit_char(w, i)] + if i % 32 == 0 {
        seq!['\n']
    } else if i % s == 0 {
        seq![' ']
    } else {
        Seq::empty()
    }
}

/// The text of the top `n` bits of `w`, most significant first.
pub open spec fn rendering(w: u128, s: u128, n: nat) -> Seq<char>
    decreases n,
{
    if n == 0 {
        Seq::empty()
    } else {
        rendering(w, s, (n - 1) as nat) + bit_text(w, s, (128 - n) as u128)
    }
}

/// Relies on `String`'s `FromIterator<char>`: the string holds the characters in order.
#[verifier::external_body]
fn chars_to_string(chars: &Vec<char>) -> (r: String)
    ensures
        r@ == chars@,
{
    chars.iter().collect()
}

impl UintArray {
    /// The size class: log2 of the element width.
    pub open spec fn size_class(self) -> u128 {
        self.0 & 7
    }

    /// The element width in bits.
    pub open spec fn width(self) -> u128 {
        1u128 << (self.0 & 7)
    }

    /// The number of stored elements.
    pub open spec fn length(self) -> u128 {
        (self.0 >> 3) & 31
    }

    /// How many elements of this width fit in the data bits.
    pub open spec fn capacity(self) -> u128 {
        120u128 / self.width()
    }

    /// One more element fits: below the capacity, and below the largest length
    /// that the 5-bit length field holds.
    pub open spec fn has_room(self) -> bool {
        self.length() < self.capacity() && self.length() < 31
    }

    /// The length does not exceed the capacity.
    pub open spec fn valid(self) -> bool {
        self.length() <= self.capacity()
    }

    /// Bit offset of slot `i`.
    pub open spec fn offset(self, i: int) -> int {
        8 + i * self.width()
    }

    /// The value held in slot `i`.
    pub open spec fn slot(self, i: int) -> u128 {
        field(self.0, self.offset(i) as u128, self.width())
    }

    /// The stored elements, in order.
    pub open spec fn elems(self) -> Seq<u128> {
        Seq::new(self.length() as nat, |i: int| self.slot(i))
    }

    /// The largest value that fits in one element.
    pub open spec fn max_item(self) -> u128 {
        low_mask(self.width())
    }

    /// The facts about widths and lengths that the operations rely on.
    proof fn lemma_shape(self)
        requires
            self.valid(),
        ensures
            1 <= self.width() <= 128,
            self.size_class() < 8,
            self.length() < 32,
            self.length() * self.width() <= 120,
            self.capacity() * self.width() <= 120,
            self.capacity() > 0 ==> self.width() <= 64,
    {
        lemma_width_cases(self.0);
        lemma_meta_bounds(self.0);
        let w = self.width();
        let n = self.length();
        if w == 1 {
            assert(self.capacity() == 120) by (nonlinear_arith)
                requires
                    w == 1,
                    self.capacity() == 120u128 / w,
            ;
        } else if w == 2 {
            assert(self.capacity() == 60) by (nonlinear_arith)
                requires
                    w == 2,
                    self.capacity() == 120u128 / w,
            ;
        } else if w == 4 {
            assert(self.capacity() == 30) by (nonlinear_arith)
                requires
                    w == 4,
                    self.capacity() == 120u128 / w,
            ;
        } else if w == 8 {
            assert(self.capacity() == 15) by (nonlinear_arith)
                requires
                    w == 8,
                    self.capacity() == 120u128 / w,
            ;
        } else if w == 16 {
            assert(self.capacity() == 7) by (nonlinear_arith)
                requires
                    w == 16,
                    self.capacity() == 120u128 / w,
            ;
        } else if w == 32 {
            assert(self.capacity() == 3) by (nonlinear_arith)
                requires
                    w == 32,
                    self.capacity() == 120u128 / w,
            ;
        } else if w == 64 {
            assert(self.capacity() == 1) by (nonlinear_arith)
                requires
                    w == 64,
                    self.capacity() == 120u128 / w,
            ;
        } else {
            assert(self.capacity() == 0) by (nonlinear_arith)
                requires
                    w == 128,
                    self.capacity() == 120u128 / w,
            ;
        }
        assert(n * w <= 120) by (nonlinear_arith)
            requires
                n <= self.capacity(),
                self.capacity() * w <= 120,
        ;
    }

    /// Reads the `size` bits at `offset`.
    fn read_slot(&self, size: u128, offset: u128) -> (r: u128)
        requires
            offset < 128,
            size < 128,
        ensures
            r == field(self.0, offset, size),
    {
        (self.0 >> offset) & low_bits(size)
    }

    /// Decides whether `item` may be added to an array of element width `size`
    /// that holds `len` elements.
    fn check_insert(size: u128, len: u128, item: u128) -> (r: Result<(), UintArrayError>)
        requires
            1 <= size <= 128,
            size <= 64 || 120u128 / size == 0,
        ensures
            !(len < 120u128 / size && len < 31) ==> r == Err::<(), UintArrayError>(
                UintArrayError::CapacityExceeded,
            ),
            len < 120u128 / size && len < 31 && item > low_mask(size) ==> r == Err::<
                (),
                UintArrayError,
            >(UintArrayError::ValueOutOfRange),
            len < 120u128 / size && len < 31 && item <= low_mask(size) ==> r == Ok::<
                (),
                UintArrayError,
            >(()),
    {
        if len >= DATA_BITS / size || len >= MAX_LEN {
            return Err(UintArrayError::CapacityExceeded);
        }
        if item > low_bits(size) {
            return Err(UintArrayError::ValueOutOfRange);
        }
        Ok(())
    }

    /// Wraps a raw word, provided its length does not exceed its capacity.
    pub fn from_raw(data: u128) -> (r: Result<UintArray, UintArrayError>)
        ensures
            UintArray(data).valid() ==> r == Ok::<UintArray, UintArrayError>(UintArray(data)),
            !UintArray(data).valid() ==> r == Err::<UintArray, UintArrayError>(
                UintArrayError::InvalidLength,
            ),
    {
        let ua = UintArray(data);
        if ua.len() > ua.cap() {
            Err(UintArrayError::InvalidLength)
        } else {
            Ok(ua)
        }
    }

    /// Gets the bit size of values stored in the array.
    pub fn size(&self) -> (r: u128)
        ensures
            r == self.width(),
    {
        proof {
            crate::layout::lemma_meta_bounds(self.0);
        }
        1u128 << (self.0 & SIZE_MASK)
    }

    /// Gets the current length of the array.
    pub fn len(&self) -> (r: u128)
        ensures
            r == self.length(),
    {
        (self.0 >> SIZE_BITS) & 31
    }

    /// How many elements can be stored in the array: its capacity.
    pub fn cap(&self) -> (r: u128)
        ensures
            r == self.capacity(),
    {
        proof {
            lemma_width_cases(self.0);
        }
        DATA_BITS / self.size()
    }

    /// Gets the item at position `pos`, counting from zero; `None` past the end.
    pub fn at(&self, pos: u128) -> (r: Option<u128>)
        requires
            self.valid(),
        ensures
            pos >= self.length() ==> r == None::<u128>,
            pos < self.length() ==> r == Some(self.elems()[pos as int]),
    {
        if pos >= self.len() {
            None
        } else {
            let size = self.size();
            proof {
                self.lemma_shape();
                lemma_slot_before(pos as int, self.length() as int, size as int);
            }
            let offset = pos * size + META_BITS;
            Some(self.read_slot(size, offset))
        }
    }

    /// A new array with `item` added at the end.
    pub fn append(&self, item: u128) -> (r: Result<UintArray, UintArrayError>)
        requires
            self.valid(),
        ensures
            !self.has_room() ==> r == Err::<UintArray, UintArrayError>(
                UintArrayError::CapacityExceeded,
            ),
            self.has_room() && item > self.max_item() ==> r == Err::<
                UintArray,
                UintArrayError,
            >(UintArrayError::ValueOutOfRange),
            self.has_room() && item <= self.max_item() ==> (r matches Ok(a)
                && a.valid() && a.size_class() == self.size_class() && a.elems()
                == self.elems().push(item)),
    {
        let len = self.len();
        let size = self.size();
        proof {
            self.lemma_shape();
        }
        match Self::check_insert(size, len, item) {
            Err(e) => return Err(e),
            Ok(()) => {},
        }
        proof {
            lemma_slot_before(len as int, self.capacity() as int, size as int);
            lemma_slot_before(len as int, (len + 1) as int, size as int);
        }
        let offset = len * size + META_BITS;
        let slot_mask = low_bits(size) << offset;
        let r = UintArray((set_len(self.0, len + 1) & !slot_mask) | (item << offset));
        proof {
            let x = with_len(self.0, (len + 1) as u128);
            lemma_write_slot(x, offset, size, item, 0);
            lemma_with_len(self.0, (len + 1) as u128, 8, size);
            lemma_meta(r.0, x);
            assert forall|i: int| 0 <= i < len implies r.slot(i) == self.slot(i) by {
                let q = (8 + i * size) as u128;
                lemma_slot_before(i, len as int, size as int);
                lemma_write_slot(x, offset, size, item, q);
                lemma_with_len(self.0, (len + 1) as u128, q, size);
            }
            assert(r.slot(len as int) == item);
            assert(r.elems() =~= self.elems().push(item));
        }
        Ok(r)
    }

    /// A new array with `item` inserted at `pos`; a `pos` past the end appends.
    pub fn insert(&self, pos: u128, item: u128) -> (r: Result<UintArray, UintArrayError>)
        requires
            self.valid(),
        ensures
            !self.has_room() ==> r == Err::<UintArray, UintArrayError>(
                UintArrayError::CapacityExceeded,
            ),
            self.has_room() && item > self.max_item() ==> r == Err::<
                UintArray,
                UintArrayError,
            >(UintArrayError::ValueOutOfRange),
            self.has_room() && item <= self.max_item() ==> (r matches Ok(a)
                && a.valid() && a.size_class() == self.size_class() && a.elems()
                == self.elems().insert(
                if pos > self.length() {
                    self.length() as int
                } else {
                    pos as int
                },
                item,
            )),
    {
        let len = self.len();
        let size = self.size();
        proof {
            self.lemma_shape();
        }
        match Self::check_insert(size, len, item) {
            Err(e) => return Err(e),
            Ok(()) => {},
        }
        let pos = if pos > len {
            len
        } else {
            pos
        };
        proof {
            lemma_slot_before(len as int, self.capacity() as int, size as int);
            lemma_slot_before(len as int, (len + 1) as int, size as int);
            if pos < len {
                lemma_slot_before(pos as int, len as int, size as int);
            }
        }
        let offset = pos * size + META_BITS;
        let high = u128::MAX << offset;
        // Everything from `offset` up moves one slot higher; `item` fills the gap.
        let r = UintArray(
            (set_len(self.0, len + 1) & !high) | ((self.0 & high) << size) | (item << offset),
        );
        proof {
            let x = with_len(self.0, (len + 1) as u128);
            lemma_shift_up(x, self.0, offset, size, item, 0);
            lemma_with_len(self.0, (len + 1) as u128, 8, size);
            lemma_meta(r.0, x);
            assert forall|i: int| 0 <= i < pos implies r.slot(i) == self.slot(i) by {
                let q = (8 + i * size) as u128;
                lemma_slot_before(i, pos as int, size as int);
                lemma_shift_up(x, self.0, offset, size, item, q);
                lemma_with_len(self.0, (len + 1) as u128, q, size);
            }
            assert forall|i: int| pos < i <= len implies r.slot(i) == self.slot(i - 1) by {
                lemma_slot_next(i - 1, size as int);
                lemma_slot_next(len as int, size as int);
                lemma_slot_before(i - 1, i, size as int);
                lemma_slot_before(i, (len + 1) as int, size as int);
                let q = (8 + (i - 1) * size) as u128;
                if pos < i - 1 {
                    lemma_slot_before(pos as int, i - 1, size as int);
                }
                lemma_shift_up(x, self.0, offset, size, item, q);
            }
            assert(r.slot(pos as int) == item);
            assert(r.elems() =~= self.elems().insert(pos as int, item));
        }
        Ok(r)
    }

    /// The array without the element at `pos`, the elements above it moved down.
    fn remove_at(&self, pos: u128) -> (r: UintArray)
        requires
            self.valid(),
            pos < self.length(),
        ensures
            r.valid(),
            r.size_class() == self.size_class(),
            r.elems() == self.elems().remove(pos as int),
    {
        let len = self.len();
        let size = self.size();
        proof {
            self.lemma_shape();
            lemma_slot_before(pos as int, len as int, size as int);
        }
        let offset = pos * size + META_BITS;
        let high = u128::MAX << offset;
        let r = UintArray(
            (set_len(self.0, len - 1) & !high) | (((self.0 & high) >> size) & high),
        );
        proof {
            let x = with_len(self.0, (len - 1) as u128);
            lemma_shift_down(x, self.0, offset, size, 0);
            lemma_with_len(self.0, (len - 1) as u128, 8, size);
            lemma_meta(r.0, x);
            assert forall|i: int| 0 <= i < pos implies r.slot(i) == self.slot(i) by {
                let q = (8 + i * size) as u128;
                lemma_slot_before(i, pos as int, size as int);
                lemma_shift_down(x, self.0, offset, size, q);
                lemma_with_len(self.0, (len - 1) as u128, q, size);
            }
            assert forall|i: int| pos <= i < len - 1 implies r.slot(i) == self.slot(i + 1) by {
                let q = (8 + i * size) as u128;
                lemma_slot_next(i, size as int);
                lemma_slot_before(i + 1, len as int, size as int);
                if pos < i {
                    lemma_slot_before(pos as int, i, size as int);
                }
                lemma_shift_down(x, self.0, offset, size, q);
            }
            assert(r.elems() =~= self.elems().remove(pos as int));
        }
        r
    }

    /// Removes the element at `pos`, returning the new array and the element;
    /// past the end, the array is returned unchanged with `None`.
    pub fn pop(&self, pos: u128) -> (r: (UintArray, Option<u128>))
        requires
            self.valid(),
        ensures
            pos >= self.length() ==> r == (*self, None::<u128>),
            pos < self.length() ==> r.1 == Some(self.elems()[pos as int]) && r.0.valid()
                && r.0.size_class() == self.size_class() && r.0.elems() == self.elems().remove(
                pos as int,
            ),
    {
        if pos >= self.len() {
            return (*self, None);
        }
        let item = self.at(pos);
        (self.remove_at(pos), item)
    }

    /// The position of the first occurrence of `item`, if any.
    pub fn index(&self, item: u128) -> (r: Option<u128>)
        requires
            self.valid(),
        ensures
            r is None <==> !self.elems().contains(item),
            r matches Some(p) ==> is_first_index(self.elems(), item, p as int),
    {
        let len = self.len();
        let mut i: u128 = 0;
        while i < len
            invariant
                self.valid(),
                len == self.length(),
                i <= len,
                forall|j: int| 0 <= j < i ==> self.elems()[j] != item,
            decreases len - i,
        {
            if self.at(i) == Some(item) {
                return Some(i);
            }
            i = i + 1;
        }
        None
    }

    /// The array without the first occurrence of `item`; unchanged if it holds none.
    pub fn remove(&self, item: u128) -> (r: UintArray)
        requires
            self.valid(),
        ensures
            !self.elems().contains(item) ==> r == *self,
            self.elems().contains(item) ==> r.valid() && r.size_class() == self.size_class(),
            forall|p: int|
                is_first_index(self.elems(), item, p) ==> r.elems() == self.elems().remove(p),
    {
        match self.index(item) {
            None => *self,
            Some(pos) => {
                let r = self.remove_at(pos);
                proof {
                    assert forall|p: int| is_first_index(self.elems(), item, p) implies p
                        == pos as int by {
                        if p < pos as int {
                        } else if pos < p {
                        }
                    }
                }
                r
            },
        }
    }

    /// A new empty array whose elements are `size` bits wide.
    pub fn new_size(size: usize) -> (r: Result<UintArray, UintArrayError>)
        ensures
            size > 64 ==> r == Err::<UintArray, UintArrayError>(UintArrayError::SizeTooLarge),
            size <= 64 && !is_pow2_width(size as int) ==> r == Err::<UintArray, UintArrayError>(
                UintArrayError::NotPowerOfTwo,
            ),
            size <= 64 && is_pow2_width(size as int) ==> (r matches Ok(a) && a.width() == size
                && a.0 < 8 && a.length() == 0 && a.elems() == Seq::<u128>::empty() && a.valid()),
    {
        if size > 64 {
            return Err(UintArrayError::SizeTooLarge);
        }
        let mut k: u128 = 0;
        while k < 7
            invariant
                k <= 7,
                size <= 64,
                forall|j: u128| j < k ==> (1u128 << j) != size as u128,
            decreases 7 - k,
        {
            if (1u128 << k) == size as u128 {
                let a = UintArray(k);
                proof {
                    assert(k < 7 ==> (k >> 3) & 31 == 0 && k & 7 == k) by (bit_vector);
                    assert(a.elems() =~= Seq::<u128>::empty());
                    assert(is_pow2_width(size as int));
                }
                return Ok(a);
            }
            k = k + 1;
        }
        proof {
            assert forall|j: u128| j < 7 implies (1u128 << j) as int != size as int by {
                assert(j < k);
            }
        }
        Err(UintArrayError::NotPowerOfTwo)
    }

    /// A new empty array whose elements are as wide as a value of type `T`.
    pub fn new<T>() -> (r: Result<UintArray, UintArrayError>)
        ensures
            vstd::layout::size_of::<T>() * 8 > 64 ==> r == Err::<UintArray, UintArrayError>(
                UintArrayError::SizeTooLarge,
            ),
            vstd::layout::size_of::<T>() * 8 <= 64 && !is_pow2_width(
                (vstd::layout::size_of::<T>() * 8) as int,
            ) ==> r == Err::<UintArray, UintArrayError>(UintArrayError::NotPowerOfTwo),
            vstd::layout::size_of::<T>() * 8 <= 64 && is_pow2_width(
                (vstd::layout::size_of::<T>() * 8) as int,
            ) ==> (r matches Ok(a) && a.width() == vstd::layout::size_of::<T>() * 8 && a.0 < 8
                && a.length() == 0 && a.valid()),
    {
        let bytes = core::mem::size_of::<T>();
        if bytes > 8 {
            return Err(UintArrayError::SizeTooLarge);
        }
        Self::new_size(bytes * 8)
    }

    /// A new array holding `self`'s elements followed by `items`.
    ///
    /// Capacity is checked while the items are taken, so the error for too many
    /// items comes before any check of their values; whether every item fits the
    /// element width is then decided once, from the largest of them.
    pub fn extend(&self, items: &[u128]) -> (r: Result<UintArray, UintArrayError>)
        requires
            self.valid(),
        ensures
            self.length() + items@.len() > self.capacity() || self.length() + items@.len() > 31
                ==> r == Err::<UintArray, UintArrayError>(UintArrayError::CapacityExceeded),
            self.length() + items@.len() <= self.capacity() && self.length() + items@.len() <= 31
                && (exists|j: int| 0 <= j < items@.len() && items@[j] > self.max_item()) ==> r
                == Err::<UintArray, UintArrayError>(UintArrayError::ValueOutOfRange),
            self.length() + items@.len() <= self.capacity() && self.length() + items@.len() <= 31
                && (forall|j: int| 0 <= j < items@.len() ==> items@[j] <= self.max_item()) ==> (r matches Ok(
                a,
            ) && a.valid() && a.size_class() == self.size_class() && a.elems() == self.elems()
                + items@),
    {
        let len = self.len();
        let cap = self.cap();
        let size = self.size();
        let mut count: u128 = 0;
        let mut max: u128 = 0;
        let mut k: usize = 0;
        proof {
            self.lemma_shape();
        }
        while k < items.len()
            invariant
                k <= items@.len(),
                count == k,
                len == self.length(),
                cap == self.capacity(),
                len + count <= cap,
                len + count <= 31,
                forall|j: int| 0 <= j < k ==> items@[j] <= max,
                max == 0 || exists|j: int| 0 <= j < k && items@[j] == max,
            decreases items@.len() - k,
        {
            count = count + 1;
            if len + count > cap || len + count > MAX_LEN {
                return Err(UintArrayError::CapacityExceeded);
            }
            if items[k] > max {
                max = items[k];
            }
            k = k + 1;
        }
        proof {
            self.lemma_shape();
        }
        if items.len() > 0 && max > low_bits(size) {
            return Err(UintArrayError::ValueOutOfRange);
        }
        let mut ua = *self;
        k = 0;
        while k < items.len()
            invariant
                k <= items@.len(),
                len == self.length(),
                self.valid(),
                len + items@.len() <= self.capacity(),
                len + items@.len() <= 31,
                forall|j: int| 0 <= j < items@.len() ==> items@[j] <= self.max_item(),
                ua.valid(),
                ua.size_class() == self.size_class(),
                ua.length() == len + k,
                ua.elems() == self.elems() + items@.subrange(0, k as int),
            decreases items@.len() - k,
        {
            let ghost prev = ua;
            ua = match ua.append(items[k]) {
                Ok(a) => a,
                Err(e) => return Err(e),
            };
            proof {
                assert(prev.elems().len() == prev.length() as nat);
                assert(ua.elems().len() == ua.length() as nat);
                assert(items@.subrange(0, k + 1) =~= items@.subrange(0, k as int).push(items@[k as int]));
            }
            k = k + 1;
        }
        proof {
            assert(items@.subrange(0, items@.len() as int) =~= items@);
        }
        Ok(ua)
    }

    /// The array emptied of its elements, keeping its element width.
    pub fn clear(&self) -> (r: UintArray)
        ensures
            r.0 == self.size_class(),
            r.size_class() == self.size_class(),
            r.length() == 0,
            r.elems() == Seq::<u128>::empty(),
            r.valid(),
    {
        let r = UintArray(self.0 & SIZE_MASK);
        proof {
            let w = self.0;
            assert((w & 7) & 7 == w & 7 && ((w & 7) >> 3) & 31 == 0) by (bit_vector);
            assert(r.elems() =~= Seq::<u128>::empty());
        }
        r
    }

    /// The number of occurrences of `item`.
    pub fn count(&self, item: u128) -> (r: u128)
        requires
            self.valid(),
        ensures
            r == occurrences(self.elems(), item),
    {
        let indicator = |x: u128| -> (c: u128)
            ensures
                c == if x == item {
                    1u128
                } else {
                    0u128
                },
            {
                if x == item {
                    1
                } else {
                    0
                }
            };
        proof {
            assert forall|i: int, y: u128|
                0 <= i < self.length() && indicator.ensures((self.elems()[i],), y) implies y
                    <= AGGREGATE_ITEM_MAX by {}
        }
        let r = self.aggregate(indicator);
        proof {
            let ys = choose|ys: Seq<u128>|
                ys.len() == self.length() && (forall|i: int|
                    0 <= i < self.length() ==> indicator.ensures((self.elems()[i],), #[trigger] ys[i]))
                    && r == sum(ys);
            lemma_sum_indicator(self.elems(), ys, item);
        }
        r
    }

    /// Applies `f` to every element, in order, and sums the results.
    pub fn aggregate<F>(&self, f: F) -> (r: u128)
        where
            F: Fn(u128) -> u128,
        requires
            self.valid(),
            forall|i: int| 0 <= i < self.length() ==> f.requires((self.elems()[i],)),
            forall|i: int, y: u128|
                0 <= i < self.length() && f.ensures((self.elems()[i],), y) ==> y
                    <= AGGREGATE_ITEM_MAX,
        ensures
            exists|ys: Seq<u128>|
                ys.len() == self.length() && (forall|i: int|
                    0 <= i < self.length() ==> f.ensures((self.elems()[i],), #[trigger] ys[i]))
                    && r == sum(ys),
    {
        let len = self.len();
        let mut n: u128 = 0;
        let mut i: u128 = 0;
        let ghost mut ys: Seq<u128> = Seq::empty();
        proof {
            self.lemma_shape();
        }
        while i < len
            invariant
                self.valid(),
                len == self.length(),
                len < 32,
                i <= len,
                ys.len() == i,
                forall|j: int| 0 <= j < i ==> f.ensures((self.elems()[j],), #[trigger] ys[j]),
                forall|j: int| 0 <= j < self.length() ==> f.requires((self.elems()[j],)),
                forall|j: int, y: u128|
                    0 <= j < self.length() && f.ensures((self.elems()[j],), y) ==> y
                        <= AGGREGATE_ITEM_MAX,
                n == sum(ys),
                n <= i * AGGREGATE_ITEM_MAX,
            decreases len - i,
        {
            let x = match self.at(i) {
                Some(x) => x,
                None => 0,
            };
            let y = f(x);
            proof {
                lemma_slot_next(i as int, AGGREGATE_ITEM_MAX as int);
                assert((i + 1) * AGGREGATE_ITEM_MAX <= 31 * AGGREGATE_ITEM_MAX) by (nonlinear_arith)
                    requires
                        i + 1 <= 31,
                ;
                assert(ys.push(y).drop_last() =~= ys);
            }
            n = n + y;
            proof {
                ys = ys.push(y);
            }
            i = i + 1;
        }
        n
    }

    /// Renders the whole word in binary, most significant bit first, with a space
    /// between elements and a line break after every 32 bits.
    pub fn format(&self) -> (r: String)
        ensures
            r@ == rendering(self.0, self.width(), 128),
    {
        let size = self.size();
        let mut out: Vec<char> = Vec::new();
        proof {
            lemma_width_cases(self.0);
        }
        let mut k: u128 = 0;
        while k < 128
            invariant
                k <= 128,
                size == self.width(),
                size >= 1,
                out@ == rendering(self.0, size, k as nat),
            decreases 128 - k,
        {
            let i = 127 - k;
            out.push(if (self.0 >> i) & 1 == 0 {
                '0'
            } else {
                '1'
            });
            if i % 32 == 0 {
                out.push('\n');
            } else if i % size == 0 {
                out.push(' ');
            }
            proof {
                assert(out@ =~= rendering(self.0, size, (k + 1) as nat));
            }
            k = k + 1;
        }
        chars_to_string(&out)
    }

    /// An iterator over the elements, in order.
    pub fn into_iter(self) -> (r: UintArrayIterator)
        ensures
            r.array() == self,
            r.position() == 0,
    {
        UintArrayIterator { ua: self, index: 0 }
    }

    /// The raw word that holds the whole array.
    pub fn raw_value(&self) -> (r: u128)
        ensures
            r == self.0,
    {
        self.0
    }
}

/// Walks the elements of an array in order.
pub struct UintArrayIterator {
    ua: UintArray,
    index: u128,
}

impl UintArrayIterator {
    /// The array walked.
    pub closed spec fn array(&self) -> UintArray {
        self.ua
    }

    /// The position of the next element.
    pub closed spec fn position(&self) -> u128 {
        self.index
    }

    /// The next element, or `None` once every element has been returned.
    pub fn next(&mut self) -> (r: Option<u128>)
        requires
            old(self).array().valid(),
        ensures
            final(self).array() == old(self).array(),
            old(self).position() < old(self).array().length() ==> r == Some(
                old(self).array().elems()[old(self).position() as int],
            ) && final(self).position() == old(self).position() + 1,
            old(self).position() >= old(self).array().length() ==> r == None::<u128>
                && final(self).position() == old(self).position(),
    {
        let r = self.ua.at(self.index);
        if r.is_some() {
            self.index = self.index + 1;
        }
        r
    }
}

} // verus!
