//! Laws that relate several operations of the packed array, stated over the
//! views that the operations' own contracts use.

use vstd::prelude::*;
use crate::array::UintArray;

verus! {

/// Wrapping the raw word of a valid array gives back the same array: `from_raw`
/// accepts it and the result is equal to the original in every field.
pub proof fn law_raw_round_trip(a: UintArray)
    requires
        a.valid(),
    ensures
        UintArray(a.0).valid(),
        UintArray(a.0) == a,
        UintArray(a.0).elems() == a.elems(),
{
}

/// After appending `item`, the last element is `item` and the length has grown
/// by exactly one.
pub proof fn law_append_then_last(a: UintArray, item: u128, b: UintArray)
    requires
        a.valid(),
        a.has_room(),
        item <= a.max_item(),
        b.elems() == a.elems().push(item),
    ensures
        b.length() == a.length() + 1,
        b.elems()[b.length() - 1] == item,
{
    assert(b.elems().len() == b.length() as nat);
    assert(a.elems().len() == a.length() as nat);
}

/// After inserting `x` at `pos` (at most the length), position `pos` holds `x`,
/// the elements below `pos` are unchanged, and those from `pos` up sit one
/// position higher.
pub proof fn law_insert_shifts(a: UintArray, pos: int, x: u128, b: UintArray)
    requires
        a.valid(),
        0 <= pos <= a.length(),
        b.elems() == a.elems().insert(pos, x),
    ensures
        b.elems()[pos] == x,
        forall|i: int| 0 <= i < pos ==> b.elems()[i] == a.elems()[i],
        forall|i: int| pos <= i < a.length() ==> b.elems()[i + 1] == a.elems()[i],
{
    assert(a.elems().len() == a.length() as nat);
}

/// Popping position `pos` and inserting the popped value back at `pos` is always
/// accepted, and gives an array with the original size class, length and elements.
pub proof fn law_pop_then_insert(a: UintArray, pos: int, b: UintArray, c: UintArray)
    requires
        a.valid(),
        0 <= pos < a.length(),
        b.valid(),
        b.size_class() == a.size_class(),
        b.elems() == a.elems().remove(pos),
        c.size_class() == b.size_class(),
        c.elems() == b.elems().insert(pos, a.elems()[pos]),
    ensures
        b.has_room(),
        a.elems()[pos] <= b.max_item(),
        c.size_class() == a.size_class(),
        c.length() == a.length(),
        c.elems() == a.elems(),
{
    assert(a.elems().len() == a.length() as nat);
    assert(b.elems().len() == b.length() as nat);
    assert(c.elems().len() == c.length() as nat);
    crate::layout::lemma_meta_bounds(a.0);
    let w = a.0;
    let o = (8 + pos * a.width()) as u128;
    let s = a.width();
    assert((w >> o) & !(u128::MAX << s) <= !(u128::MAX << s)) by (bit_vector);
    assert(c.elems() =~= a.elems());
}

} // verus!
