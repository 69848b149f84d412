//! The signal-type bitset.

use vstd::prelude::*;

use crate::bits::{
    bit, lemma_bit_and, lemma_bit_not, lemma_bit_or, lemma_bit_single, lemma_bit_zero, lemma_bits_extensional,
    lemma_mask_single, lemma_nonzero_has_bit,
};
use crate::text::push_hex;

verus! {

/// Signal type bits. The first 16 are compiler-reserved.
#[derive(Clone, Copy, PartialEq, Eq, Structural, Debug, Hash)]
pub struct SignalBits {
    pub bits: u64,
}

impl SignalBits {
    /// Signal `i` is in the set.
    pub open spec fn has(self, i: int) -> bool {
        bit(self.bits, i)
    }

    /// Some signal is in both sets.
    pub open spec fn meets(self, other: SignalBits) -> bool {
        self.bits & other.bits != 0
    }

    /// Wrap a raw bitmask.
    #[verifier::allow_in_spec]
    pub fn new(bits: u64) -> SignalBits
        returns
            (SignalBits { bits }),
    {
        SignalBits { bits }
    }

    /// The empty set (no signals).
    #[verifier::allow_in_spec]
    pub fn empty() -> SignalBits
        returns
            (SignalBits { bits: 0 }),
    {
        SignalBits { bits: 0 }
    }

    /// The full set (all bits set).
    #[verifier::allow_in_spec]
    pub fn all() -> SignalBits
        returns
            (SignalBits { bits: !0u64 }),
    {
        SignalBits { bits: !0u64 }
    }

    /// A single-bit mask for bit position `pos`.
    pub fn from_bit(pos: u32) -> (r: SignalBits)
        requires
            pos < 64,
        ensures
            r.bits == 1u64 << pos,
            forall|i: int| r.has(i) == (i == pos),
    {
        proof {
            let m = 1u64 << pos;
            assert forall|i: int| #[trigger] bit(m, i) == (i == pos) by {
                lemma_bit_single(pos as u64, i);
            }
        }
        SignalBits { bits: 1u64 << pos }
    }

    /// Construct from the two's-complement bits of an integer value.
    pub fn from_i64(v: i64) -> (r: SignalBits)
        ensures
            r.bits == v as u64,
    {
        SignalBits { bits: v as u64 }
    }

    /// True when no bits are set: a normal return.
    pub fn is_empty(self) -> (r: bool)
        ensures
            r == (self == SignalBits::empty()),
            r == (forall|i: int| !self.has(i)),
    {
        proof {
            if self.bits == 0 {
                assert forall|i: int| !bit(self.bits, i) by {
                    lemma_bit_zero(i);
                }
            } else {
                let i = lemma_nonzero_has_bit(self.bits);
                assert(self.has(i));
            }
        }
        self.bits == 0
    }

    /// True when `self` and `other` share at least one bit. This is the routing
    /// question a fiber mask asks, so it is an overlap test and not a subset
    /// test.
    pub fn intersects(self, other: SignalBits) -> (r: bool)
        ensures
            r == self.meets(other),
            r == (exists|i: int| self.has(i) && other.has(i)),
    {
        proof {
            lemma_meets(self, other);
        }
        self.bits & other.bits != 0
    }

    /// True when `self` has bit at position `pos` set.
    pub fn has_bit(self, pos: u32) -> (r: bool)
        requires
            pos < 64,
        ensures
            r == self.has(pos as int),
    {
        proof {
            lemma_mask_single(self.bits, pos as u64);
        }
        self.bits & (1u64 << pos) != 0
    }

    /// True iff this mask handles `other` for signal routing purposes: plain
    /// overlap, with no bit privileged over another. The empty signal is
    /// covered by every mask.
    pub fn covers(self, other: SignalBits) -> (r: bool)
        ensures
            r == (other == SignalBits::empty() || self.meets(other)),
    {
        other.is_empty() || self.intersects(other)
    }

    /// Bits in either set.
    pub fn union(self, other: SignalBits) -> (r: SignalBits)
        ensures
            r.bits == self.bits | other.bits,
            forall|i: int| r.has(i) == (self.has(i) || other.has(i)),
    {
        proof {
            assert forall|i: int| bit(self.bits | other.bits, i) == (self.has(i) || other.has(i)) by {
                lemma_bit_or(self.bits, other.bits, i);
            }
        }
        SignalBits { bits: self.bits | other.bits }
    }

    /// Bits in both sets.
    pub fn intersection(self, other: SignalBits) -> (r: SignalBits)
        ensures
            r.bits == self.bits & other.bits,
            forall|i: int| r.has(i) == (self.has(i) && other.has(i)),
    {
        proof {
            assert forall|i: int| bit(self.bits & other.bits, i) == (self.has(i) && other.has(i)) by {
                lemma_bit_and(self.bits, other.bits, i);
            }
        }
        SignalBits { bits: self.bits & other.bits }
    }

    /// Bits in `self` that are not in `other`.
    pub fn subtract(self, other: SignalBits) -> (r: SignalBits)
        ensures
            r.bits == self.bits & !other.bits,
            forall|i: int| r.has(i) == (self.has(i) && !other.has(i)),
    {
        proof {
            assert forall|i: int| bit(self.bits & !other.bits, i) == (self.has(i) && !other.has(i)) by {
                lemma_bit_and(self.bits, !other.bits, i);
                if 0 <= i < 64 {
                    lemma_bit_not(other.bits, i);
                }
            }
        }
        SignalBits { bits: self.bits & !other.bits }
    }

    /// The bits that are not in `self`.
    pub fn complement(self) -> (r: SignalBits)
        ensures
            r.bits == !self.bits,
            forall|i: int| 0 <= i < 64 ==> r.has(i) == !self.has(i),
    {
        proof {
            assert forall|i: int| 0 <= i < 64 implies bit(!self.bits, i) == !self.has(i) by {
                lemma_bit_not(self.bits, i);
            }
        }
        SignalBits { bits: !self.bits }
    }

    /// Position of the lowest set bit, 64 when there is none.
    pub fn trailing_zeros(self) -> (r: u32)
        ensures
            r <= 64,
            r == 64 <==> self == SignalBits::empty(),
            r < 64 ==> self.has(r as int),
            forall|i: int| 0 <= i < r ==> !self.has(i),
    {
        let mut p: u32 = 0;
        while p < 64
            invariant
                p <= 64,
                forall|i: int| 0 <= i < p ==> !self.has(i),
            decreases 64 - p,
        {
            if self.has_bit(p) {
                proof {
                    lemma_bit_zero(p as int);
                }
                return p;
            }
            p = p + 1;
        }
        proof {
            if self.bits != 0 {
                let i = lemma_nonzero_has_bit(self.bits);
                assert(self.has(i));
            }
        }
        p
    }

    /// Raw bits. Prefer named methods; use this only for serialization, FFI, or
    /// bytecode encoding.
    pub fn raw(self) -> (r: u64)
        ensures
            r == self.bits,
    {
        self.bits
    }

    /// The set as a hexadecimal mask, `0x` first.
    pub fn render(self) -> (r: String)
        ensures
            r@ == "0x"@ + crate::text::digits(self.bits as nat, 16),
    {
        let mut out = "0x".to_string();
        push_hex(&mut out, self.bits);
        out
    }
}

impl core::ops::BitOr for SignalBits {
    type Output = SignalBits;

    fn bitor(self, rhs: SignalBits) -> (r: SignalBits) {
        SignalBits { bits: self.bits | rhs.bits }
    }
}

impl vstd::std_specs::ops::BitOrSpecImpl for SignalBits {
    open spec fn obeys_bitor_spec() -> bool {
        true
    }

    open spec fn bitor_req(self, rhs: SignalBits) -> bool {
        true
    }

    open spec fn bitor_spec(self, rhs: SignalBits) -> SignalBits {
        SignalBits { bits: self.bits | rhs.bits }
    }
}

impl core::ops::BitAnd for SignalBits {
    type Output = SignalBits;

    fn bitand(self, rhs: SignalBits) -> (r: SignalBits) {
        SignalBits { bits: self.bits & rhs.bits }
    }
}

impl vstd::std_specs::ops::BitAndSpecImpl for SignalBits {
    open spec fn obeys_bitand_spec() -> bool {
        true
    }

    open spec fn bitand_req(self, rhs: SignalBits) -> bool {
        true
    }

    open spec fn bitand_spec(self, rhs: SignalBits) -> SignalBits {
        SignalBits { bits: self.bits & rhs.bits }
    }
}

impl core::ops::Not for SignalBits {
    type Output = SignalBits;

    fn not(self) -> (r: SignalBits) {
        SignalBits { bits: !self.bits }
    }
}

impl vstd::std_specs::ops::NotSpecImpl for SignalBits {
    open spec fn obeys_not_spec() -> bool {
        true
    }

    open spec fn not_req(self) -> bool {
        true
    }

    open spec fn not_spec(self) -> SignalBits {
        SignalBits { bits: !self.bits }
    }
}

impl From<u64> for SignalBits {
    fn from(v: u64) -> (r: SignalBits) {
        SignalBits { bits: v }
    }
}

impl vstd::std_specs::convert::FromSpecImpl<u64> for SignalBits {
    open spec fn obeys_from_spec() -> bool {
        true
    }

    open spec fn from_spec(v: u64) -> SignalBits {
        SignalBits { bits: v }
    }
}

impl From<u32> for SignalBits {
    fn from(v: u32) -> (r: SignalBits) {
        SignalBits { bits: v as u64 }
    }
}

impl vstd::std_specs::convert::FromSpecImpl<u32> for SignalBits {
    open spec fn obeys_from_spec() -> bool {
        true
    }

    open spec fn from_spec(v: u32) -> SignalBits {
        SignalBits { bits: v as u64 }
    }
}

/// Two sets overlap exactly when some signal is in both.
pub proof fn lemma_meets(a: SignalBits, b: SignalBits)
    ensures
        a.meets(b) == (exists|i: int| a.has(i) && b.has(i)),
{
    if a.bits & b.bits != 0 {
        let i = lemma_nonzero_has_bit(a.bits & b.bits);
        lemma_bit_and(a.bits, b.bits, i);
        assert(a.has(i) && b.has(i));
    } else {
        assert forall|i: int| !(a.has(i) && b.has(i)) by {
            lemma_bit_and(a.bits, b.bits, i);
            lemma_bit_zero(i);
        }
    }
}

/// Overlap is symmetric, and the empty set overlaps nothing.
pub proof fn lemma_meets_symmetric(a: SignalBits, b: SignalBits)
    ensures
        a.meets(b) == b.meets(a),
        !a.meets(SignalBits::empty()),
        !SignalBits::empty().meets(a),
{
    lemma_meets(a, b);
    lemma_meets(b, a);
    let x = a.bits;
    assert(x & 0 == 0 && 0 & x == 0) by (bit_vector);
    if a.meets(b) {
        let i = choose|i: int| a.has(i) && b.has(i);
        assert(b.has(i) && a.has(i));
    }
    if b.meets(a) {
        let i = choose|i: int| b.has(i) && a.has(i);
        assert(a.has(i) && b.has(i));
    }
}

/// Sets with the same signals are the same set.
pub proof fn lemma_extensional(a: SignalBits, b: SignalBits)
    requires
        forall|i: int| a.has(i) == b.has(i),
    ensures
        a == b,
{
    assert forall|i: int| bit(a.bits, i) == bit(b.bits, i) by {
        assert(a.has(i) == b.has(i));
    }
    lemma_bits_extensional(a.bits, b.bits);
}

} // verus!
