//! Facts about single bits of machine words.

use vstd::prelude::*;

verus! {

/// Bit `i` of `x` is set; no position outside `0..64` ever is.
pub open spec fn bit(x: u64, i: int) -> bool {
    0 <= i < 64 && (x >> (i as u64)) & 1u64 == 1u64
}

pub proof fn lemma_bit_or(a: u64, b: u64, i: int)
    ensures
        bit(a | b, i) == (bit(a, i) || bit(b, i)),
{
    let j = i as u64;
    assert(((a | b) >> j) & 1u64 == 1u64 <==> (a >> j) & 1u64 == 1u64 || (b >> j) & 1u64 == 1u64)
        by (bit_vector);
}

pub proof fn lemma_bit_and(a: u64, b: u64, i: int)
    ensures
        bit(a & b, i) == (bit(a, i) && bit(b, i)),
{
    let j = i as u64;
    assert(((a & b) >> j) & 1u64 == 1u64 <==> (a >> j) & 1u64 == 1u64 && (b >> j) & 1u64 == 1u64)
        by (bit_vector);
}

pub proof fn lemma_bit_not(a: u64, i: int)
    requires
        0 <= i < 64,
    ensures
        bit(!a, i) == !bit(a, i),
{
    let j = i as u64;
    assert((!a >> j) & 1u64 == 1u64 <==> (a >> j) & 1u64 != 1u64) by (bit_vector)
        requires
            j < 64,
    ;
}

pub proof fn lemma_bit_single(p: u64, i: int)
    requires
        p < 64,
    ensures
        bit(1u64 << p, i) == (i == p),
        (1u64 << p) != 0,
{
    if 0 <= i < 64 {
        let j = i as u64;
        assert(((1u64 << p) >> j) & 1u64 == 1u64 <==> p == j) by (bit_vector)
            requires
                p < 64,
                j < 64,
        ;
    }
    assert((1u64 << p) != 0) by (bit_vector)
        requires
            p < 64,
    ;
}

pub proof fn lemma_bit_zero(i: int)
    ensures
        !bit(0, i),
{
    let j = i as u64;
    assert((0u64 >> j) & 1u64 == 0u64) by (bit_vector);
}

/// A word with the single-bit mask of `p` applied is nonzero exactly when bit
/// `p` is set.
pub proof fn lemma_mask_single(x: u64, p: u64)
    requires
        p < 64,
    ensures
        (x & (1u64 << p) != 0) == bit(x, p as int),
{
    assert((x & (1u64 << p) != 0) <==> (x >> p) & 1u64 == 1u64) by (bit_vector)
        requires
            p < 64,
    ;
}

/// A nonzero word has a set bit.
pub proof fn lemma_nonzero_has_bit(x: u64) -> (i: int)
    requires
        x != 0,
    ensures
        bit(x, i),
    decreases x,
{
    if x & 1 == 1 {
        assert((x >> 0u64) & 1u64 == 1u64) by (bit_vector)
            requires
                x & 1 == 1,
        ;
        0
    } else {
        let h = x >> 1u64;
        assert(h != 0 && h < x) by (bit_vector)
            requires
                x != 0,
                x & 1 != 1,
                h == x >> 1u64,
        ;
        let i = lemma_nonzero_has_bit(h);
        let j = i as u64;
        let k = (j + 1) as u64;
        assert((x >> k) & 1u64 == 1u64 && j < 63) by (bit_vector)
            requires
                h == x >> 1u64,
                (h >> j) & 1u64 == 1u64,
                j < 64,
                k == j + 1,
        ;
        i + 1
    }
}

/// Words with the same bits are the same word.
pub proof fn lemma_bits_extensional(a: u64, b: u64)
    requires
        forall|i: int| bit(a, i) == bit(b, i),
    ensures
        a == b,
{
    if a != b {
        let d = a ^ b;
        assert(d != 0) by (bit_vector)
            requires
                a != b,
                d == a ^ b,
        ;
        let i = lemma_nonzero_has_bit(d);
        let j = i as u64;
        assert((a >> j) & 1u64 != (b >> j) & 1u64) by (bit_vector)
            requires
                d == a ^ b,
                (d >> j) & 1u64 == 1u64,
        ;
        assert(((a >> j) & 1u64 == 1u64 || (a >> j) & 1u64 == 0u64) && ((b >> j) & 1u64 == 1u64 || (b
            >> j) & 1u64 == 0u64)) by (bit_vector);
        assert(bit(a, i) != bit(b, i));
    }
}

} // verus!
