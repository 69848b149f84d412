//! Which of a function's locally-defined slots need a capture cell, indexed by
//! slot with no upper bound.
//!
//! Bit `i` of the set lives in word `i / 64` at position `i % 64`. No mask ends
//! in a zero word, so equal sets have equal words.

use vstd::prelude::*;

use crate::bits::{
    bit, lemma_bit_or, lemma_bit_single, lemma_bit_zero, lemma_bits_extensional, lemma_mask_single,
    lemma_nonzero_has_bit,
};
use crate::text::{push_hex, push_hex16};

verus! {

/// A capture bitmask over a function's locally-defined slots, unbounded in
/// width. Bit `i` set means slot `i` needs a capture cell.
#[derive(Debug)]
pub struct CaptureMask {
    words: Vec<u64>,
}

/// Slot `i` is in the set that `words` encode.
pub open spec fn slot_in(words: Seq<u64>, i: int) -> bool {
    0 <= i / 64 < words.len() && bit(words[i / 64], i % 64)
}

/// No trailing zero word.
pub open spec fn trimmed(words: Seq<u64>) -> bool {
    words.len() > 0 ==> words.last() != 0
}

/// The words as one number, most significant first, without leading zeros.
pub open spec fn hex_words(words: Seq<u64>) -> Seq<char> {
    if words.len() == 0 {
        seq!['0']
    } else {
        crate::text::digits(words.last() as nat, 16) + hex_rest(words.drop_last())
    }
}

/// Every digit of the words, most significant word first.
pub open spec fn hex_rest(words: Seq<u64>) -> Seq<char>
    decreases words.len(),
{
    if words.len() == 0 {
        Seq::empty()
    } else {
        crate::text::hex_padded(words.last() as nat, 16) + hex_rest(words.drop_last())
    }
}

impl View for CaptureMask {
    type V = Seq<u64>;

    closed spec fn view(&self) -> Seq<u64> {
        self.words@
    }
}

impl CaptureMask {
    #[verifier::type_invariant]
    spec fn canonical(self) -> bool {
        trimmed(self.words@)
    }

    /// Slot `i` is captured.
    pub open spec fn has(self, i: int) -> bool {
        slot_in(self@, i)
    }

    /// The empty mask: no slot is captured.
    pub fn empty() -> (r: CaptureMask)
        ensures
            r@ == Seq::<u64>::empty(),
            forall|i: int| !r.has(i),
    {
        CaptureMask { words: Vec::new() }
    }

    /// Mark slot `i` as captured, growing the backing store as needed.
    pub fn set(&mut self, i: usize)
        ensures
            forall|j: int| 0 <= j ==> final(self).has(j) == (old(self).has(j) || j == i),
    {
        proof {
            use_type_invariant(&*self);
        }
        let ghost before = self@;
        let mut words: Vec<u64> = Vec::new();
        core::mem::swap(&mut words, &mut self.words);
        let w: usize = i / 64;
        while w >= words.len()
            invariant
                before.len() <= words@.len(),
                words@.len() > before.len() ==> words@.len() <= w + 1,
                words@.take(before.len() as int) == before,
                forall|k: int| before.len() <= k < words@.len() ==> words@[k] == 0,
            decreases w + 1 - words@.len(),
        {
            words.push(0);
            assert(words@.take(before.len() as int) =~= before);
        }
        let ghost grown = words@;
        let b: u64 = 1u64 << ((i % 64) as u64);
        let old_word: u64 = words[w];
        words.set(w, old_word | b);
        proof {
            let p = (i % 64) as u64;
            lemma_bit_single(p, 0);
            assert(old_word | b != 0) by (bit_vector)
                requires
                    b != 0,
            ;
            assert forall|j: int| 0 <= j implies slot_in(words@, j) == (slot_in(before, j) || j == i) by {
                lemma_bit_or(old_word, b, j % 64);
                lemma_bit_single(p, j % 64);
                lemma_bit_zero(j % 64);
                if j / 64 < before.len() {
                    assert(before[j / 64] == grown[j / 64]) by {
                        assert(grown.take(before.len() as int)[j / 64] == grown[j / 64]);
                    }
                }
            }
            if words@.len() - 1 != w {
                assert(grown.take(before.len() as int).last() == grown.last());
            }
        }
        self.words = words;
    }

    /// True if slot `i` is captured.
    pub fn is_set(&self, i: usize) -> (r: bool)
        ensures
            r == self.has(i as int),
    {
        let w: usize = i / 64;
        if w < self.words.len() {
            proof {
                lemma_mask_single(self.words@[w as int], (i % 64) as u64);
            }
            self.words[w] & (1u64 << ((i % 64) as u64)) != 0
        } else {
            false
        }
    }

    /// True if no slot is captured.
    pub fn is_empty(&self) -> (r: bool)
        ensures
            r == (self@.len() == 0),
            r == (forall|i: int| 0 <= i ==> !self.has(i)),
    {
        proof {
            use_type_invariant(self);
            if self@.len() > 0 {
                let k = self@.len() - 1;
                let p = lemma_nonzero_has_bit(self@[k]);
                assert((64 * k + p) / 64 == k && (64 * k + p) % 64 == p);
                assert(self.has(64 * k + p));
            }
        }
        self.words.len() == 0
    }

    /// Build a mask from a single word of low bits (slots 0 to 63).
    pub fn from_u64(bits: u64) -> (r: CaptureMask)
        ensures
            forall|i: int| 0 <= i ==> r.has(i) == bit(bits, i),
    {
        proof {
            assert forall|i: int| #[trigger] bit(0, i) == false by {
                lemma_bit_zero(i);
            }
        }
        if bits == 0 {
            CaptureMask::empty()
        } else {
            let mut words: Vec<u64> = Vec::new();
            words.push(bits);
            CaptureMask { words }
        }
    }

    /// The low word (slots 0 to 63); slots from 64 on are lost.
    pub fn low_u64(&self) -> (r: u64)
        ensures
            forall|i: int| 0 <= i < 64 ==> bit(r, i) == self.has(i),
    {
        proof {
            assert forall|i: int| #[trigger] bit(0, i) == false by {
                lemma_bit_zero(i);
            }
        }
        if self.words.len() == 0 {
            0
        } else {
            self.words[0]
        }
    }

    /// The backing words, least significant first, for serialization.
    pub fn words(&self) -> (r: &Vec<u64>)
        ensures
            r@ == self@,
            trimmed(r@),
    {
        proof {
            use_type_invariant(self);
        }
        &self.words
    }

    /// Reconstruct a mask from its serialized words, trimming trailing zero
    /// words so the result compares equal to any other encoding of the same
    /// set.
    pub fn from_words(words: Vec<u64>) -> (r: CaptureMask)
        ensures
            forall|i: int| 0 <= i ==> r.has(i) == slot_in(words@, i),
            trimmed(words@) ==> r@ == words@,
    {
        let ghost given = words@;
        let mut words = words;
        while words.len() > 0 && words[words.len() - 1] == 0
            invariant
                forall|i: int| 0 <= i ==> slot_in(words@, i) == slot_in(given, i),
                trimmed(given) ==> words@ == given,
            decreases words.len(),
        {
            let ghost before = words@;
            words.pop();
            proof {
                assert forall|i: int| 0 <= i implies slot_in(words@, i) == slot_in(given, i) by {
                    assert(slot_in(before, i) == slot_in(given, i));
                    lemma_bit_zero(i % 64);
                }
            }
        }
        CaptureMask { words }
    }

    /// The words as one hexadecimal number, `0` when empty.
    pub fn render_hex(&self) -> (r: String)
        ensures
            r@ == hex_words(self@),
    {
        let n: usize = self.words.len();
        if n == 0 {
            proof {
                reveal_strlit("0");
                assert("0"@ =~= seq!['0']);
            }
            return "0".to_string();
        }
        let mut out = String::new();
        push_hex(&mut out, self.words[n - 1]);
        let mut k: usize = n - 1;
        assert(self.words@.take(k as int) =~= self.words@.drop_last());
        while k > 0
            invariant
                k < n == self.words@.len(),
                out@ + hex_rest(self.words@.take(k as int)) == hex_words(self.words@),
            decreases k,
        {
            let ghost part = self.words@.take(k as int);
            assert(part.drop_last() =~= self.words@.take(k - 1));
            assert(part.last() == self.words@[k - 1]);
            let ghost before = out@;
            push_hex16(&mut out, self.words[k - 1]);
            k = k - 1;
            assert(out@ + hex_rest(self.words@.take(k as int)) =~= before + hex_rest(part));
        }
        assert(out@ + hex_rest(self.words@.take(0)) =~= out@);
        out
    }
}

impl Clone for CaptureMask {
    fn clone(&self) -> (r: CaptureMask)
        ensures
            r@ == self@,
    {
        proof {
            use_type_invariant(self);
        }
        let words = self.words.clone();
        CaptureMask { words }
    }
}

impl PartialEq for CaptureMask {
    fn eq(&self, other: &CaptureMask) -> (r: bool) {
        if self.words.len() != other.words.len() {
            return false;
        }
        let n: usize = self.words.len();
        let mut i: usize = 0;
        while i < n
            invariant
                i <= n,
                n == self@.len(),
                n == other@.len(),
                forall|k: int| 0 <= k < i ==> self@[k] == other@[k],
            decreases n - i,
        {
            if self.words[i] != other.words[i] {
                return false;
            }
            i = i + 1;
        }
        assert(self@ =~= other@);
        true
    }
}

impl vstd::std_specs::cmp::PartialEqSpecImpl for CaptureMask {
    open spec fn obeys_eq_spec() -> bool {
        true
    }

    open spec fn eq_spec(&self, other: &CaptureMask) -> bool {
        self@ == other@
    }
}

impl Eq for CaptureMask {

}

impl Default for CaptureMask {
    fn default() -> (r: CaptureMask)
        ensures
            r@ == Seq::<u64>::empty(),
    {
        CaptureMask::empty()
    }
}

/// Two encodings without a trailing zero word that hold the same slots are the
/// same words, so masks of equal sets compare equal.
pub proof fn lemma_equal_sets_equal_words(a: Seq<u64>, b: Seq<u64>)
    requires
        trimmed(a),
        trimmed(b),
        forall|i: int| 0 <= i ==> slot_in(a, i) == slot_in(b, i),
    ensures
        a == b,
{
    if a.len() > b.len() {
        let k = a.len() - 1;
        let p = lemma_nonzero_has_bit(a[k]);
        assert((64 * k + p) / 64 == k && (64 * k + p) % 64 == p);
        assert(slot_in(a, 64 * k + p));
    }
    if b.len() > a.len() {
        let k = b.len() - 1;
        let p = lemma_nonzero_has_bit(b[k]);
        assert((64 * k + p) / 64 == k && (64 * k + p) % 64 == p);
        assert(slot_in(b, 64 * k + p));
    }
    assert forall|k: int| 0 <= k < a.len() implies a[k] == b[k] by {
        assert forall|p: int| bit(a[k], p) == bit(b[k], p) by {
            if 0 <= p < 64 {
                assert((64 * k + p) / 64 == k && (64 * k + p) % 64 == p);
                assert(slot_in(a, 64 * k + p) == slot_in(b, 64 * k + p));
            }
        }
        lemma_bits_extensional(a[k], b[k]);
    }
    assert(a =~= b);
}

} // verus!
