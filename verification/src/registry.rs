//! The names of signal bits.

use vstd::prelude::*;

use crate::signalbits::SignalBits;

verus! {

/// Which bit has which name, in the order of registration.
pub struct SignalRegistry {
    pub entries: Vec<(u32, String)>,
}

/// The names of the entries whose bit is among `bits`, in order.
pub open spec fn names_in(entries: Seq<(u32, String)>, bits: SignalBits) -> Seq<Seq<char>>
    decreases entries.len(),
{
    if entries.len() == 0 {
        Seq::empty()
    } else {
        let rest = names_in(entries.drop_last(), bits);
        if entries.last().0 < 64 && bits.has(entries.last().0 as int) {
            rest.push(entries.last().1@)
        } else {
            rest
        }
    }
}

impl SignalRegistry {
    /// The names of the registered bits among `bits`, in order.
    pub fn names(&self, bits: SignalBits) -> (r: Vec<String>)
        ensures
            crate::text::texts(r@) == names_in(self.entries@, bits),
            r@.len() <= self.entries@.len(),
    {
        let mut out: Vec<String> = Vec::new();
        let mut i: usize = 0;
        assert(self.entries@.take(0) =~= Seq::empty());
        assert(crate::text::texts(out@) =~= Seq::empty());
        while i < self.entries.len()
            invariant
                i <= self.entries@.len(),
                out@.len() <= i,
                crate::text::texts(out@) == names_in(self.entries@.take(i as int), bits),
            decreases self.entries.len() - i,
        {
            assert(self.entries@.take(i + 1).drop_last() =~= self.entries@.take(i as int));
            let bit: u32 = self.entries[i].0;
            if bit < 64 && bits.has_bit(bit) {
                let ghost had = out@;
                out.push(self.entries[i].1.clone());
                assert(crate::text::texts(out@) =~= crate::text::texts(had).push(
                    self.entries@[i as int].1@,
                ));
            }
            i = i + 1;
        }
        assert(self.entries@.take(i as int) =~= self.entries@);
        out
    }
}

} // verus!
