//! Presence masks: one bit per component type, 128 bits wide.

use vstd::prelude::*;

verus! {

/// Number of bits in a presence mask, and so the largest number of
/// component types a store can ever hand a bit to.
pub const MASK_BITS: usize = 128;

/// The mask with only bit `k` set.
pub open spec fn bit(k: int) -> u128 {
    1u128 << (k as u128)
}

/// Whether bit `k` is set in `mask`.
pub open spec fn has_bit(mask: u128, k: int) -> bool {
    mask & bit(k) != 0
}

/// Whether `mask` carries every bit of `wanted`.
pub open spec fn covers(mask: u128, wanted: u128) -> bool {
    mask & wanted == wanted
}

/// Computes the mask with only bit `k` set.
pub fn bit_at(k: usize) -> (b: u128)
    requires
        k < MASK_BITS,
    ensures
        b == bit(k as int),
        b != 0,
{
    let shift: u128 = k as u128;
    assert((1u128 << shift) != 0) by (bit_vector)
        requires
            shift < 128,
    ;
    1u128 << shift
}

/// A single bit is never the empty mask.
pub proof fn lemma_bit_nonzero(k: int)
    requires
        0 <= k < 128,
    ensures
        bit(k) != 0,
        has_bit(bit(k), k),
        covers(bit(k), bit(k)),
{
    let s = k as u128;
    assert((1u128 << s) != 0 && (1u128 << s) & (1u128 << s) == (1u128 << s)) by (bit_vector)
        requires
            s < 128,
    ;
}

/// The empty mask has no bit set.
pub proof fn lemma_empty_mask(k: int)
    requires
        0 <= k < 128,
    ensures
        !has_bit(0, k),
{
    let s = k as u128;
    assert(0u128 & (1u128 << s) == 0) by (bit_vector);
}

/// Setting bit `k` turns that bit on and leaves every other bit as it was.
pub proof fn lemma_set_bit(mask: u128, k: int, j: int)
    requires
        0 <= k < 128,
        0 <= j < 128,
    ensures
        has_bit(mask | bit(k), j) == (j == k || has_bit(mask, j)),
{
    let s = k as u128;
    let t = j as u128;
    assert(((mask | (1u128 << s)) & (1u128 << t) != 0) == (t == s || mask & (1u128 << t) != 0))
        by (bit_vector)
        requires
            s < 128,
            t < 128,
    ;
}

/// Clearing bit `k` turns that bit off and leaves every other bit as it was.
pub proof fn lemma_clear_bit(mask: u128, k: int, j: int)
    requires
        0 <= k < 128,
        0 <= j < 128,
    ensures
        has_bit(mask & !bit(k), j) == (j != k && has_bit(mask, j)),
{
    let s = k as u128;
    let t = j as u128;
    assert(((mask & !(1u128 << s)) & (1u128 << t) != 0) == (t != s && mask & (1u128 << t) != 0))
        by (bit_vector)
        requires
            s < 128,
            t < 128,
    ;
}

/// Clearing a bit a second time changes nothing.
pub proof fn lemma_clear_twice(mask: u128, k: int)
    requires
        0 <= k < 128,
    ensures
        (mask & !bit(k)) & !bit(k) == mask & !bit(k),
{
    let b = bit(k);
    assert((mask & !b) & !b == mask & !b) by (bit_vector);
}

/// Clearing a bit that is not set changes nothing; setting one that is set
/// changes nothing either.
pub proof fn lemma_bit_no_change(mask: u128, k: int)
    requires
        0 <= k < 128,
    ensures
        !has_bit(mask, k) ==> mask & !bit(k) == mask,
        has_bit(mask, k) ==> mask | bit(k) == mask,
{
    let s = k as u128;
    assert((mask & (1u128 << s) == 0) ==> mask & !(1u128 << s) == mask) by (bit_vector)
        requires
            s < 128,
    ;
    assert((mask & (1u128 << s) != 0) ==> mask | (1u128 << s) == mask) by (bit_vector)
        requires
            s < 128,
    ;
}

/// A mask covers a single bit exactly when it has that bit.
pub proof fn lemma_covers_bit(mask: u128, k: int)
    requires
        0 <= k < 128,
    ensures
        covers(mask, bit(k)) == has_bit(mask, k),
{
    let s = k as u128;
    assert((mask & (1u128 << s) == (1u128 << s)) == (mask & (1u128 << s) != 0)) by (bit_vector)
        requires
            s < 128,
    ;
}

/// A mask covers a union exactly when it covers both parts.
pub proof fn lemma_covers_union(mask: u128, a: u128, b: u128)
    ensures
        covers(mask, a | b) == (covers(mask, a) && covers(mask, b)),
        covers(mask, 0),
{
    assert((mask & (a | b) == (a | b)) == ((mask & a == a) && (mask & b == b))) by (bit_vector);
    assert(mask & 0 == 0) by (bit_vector);
}

/// A union is empty exactly when both parts are.
pub proof fn lemma_union_empty(a: u128, b: u128)
    ensures
        (a | b == 0) == (a == 0 && b == 0),
{
    assert((a | b == 0) == (a == 0 && b == 0)) by (bit_vector);
}

/// A union covers each of its parts and whatever one of its parts covers;
/// and what covers a mask covers whatever that mask covers.
pub proof fn lemma_covers_part(a: u128, b: u128, c: u128)
    ensures
        covers(a | b, a),
        covers(a | b, b),
        covers(a, c) ==> covers(a | b, c),
        covers(a, b) && covers(b, c) ==> covers(a, c),
{
    assert((a | b) & a == a) by (bit_vector);
    assert((a | b) & b == b) by (bit_vector);
    assert((a & c == c) ==> ((a | b) & c == c)) by (bit_vector);
    assert((a & b == b) && (b & c == c) ==> (a & c == c)) by (bit_vector);
}

/// A mask whose bits from `top` upwards are all clear and which is not
/// empty has a bit set below `top`.
proof fn lemma_find_bit(mask: u128, top: u128) -> (k: int)
    requires
        mask != 0,
        top <= 128,
        top < 128 ==> mask >> top == 0,
    ensures
        0 <= k < top,
        has_bit(mask, k),
    decreases top,
{
    assert(top != 0) by (bit_vector)
        requires
            mask != 0,
            top < 128 ==> mask >> top == 0,
    ;
    let below: u128 = (top - 1) as u128;
    if mask & (1u128 << below) != 0 {
        below as int
    } else {
        assert(mask >> below == 0) by (bit_vector)
            requires
                mask & (1u128 << below) == 0,
                below < 128,
                below < 127 ==> mask >> ((below + 1) as u128) == 0,
        ;
        lemma_find_bit(mask, below)
    }
}

/// A mask that is not empty has a bit set.
pub proof fn lemma_some_bit(mask: u128) -> (k: int)
    requires
        mask != 0,
    ensures
        0 <= k < 128,
        has_bit(mask, k),
{
    lemma_find_bit(mask, 128)
}

} // verus!
