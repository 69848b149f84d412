//! Region bookkeeping for fiber signals: the reference a parked terminal result
//! takes, and the releases owed when a parked signal is replaced at a resume or
//! discarded with a fiber that can never run again.

use vstd::prelude::*;

use crate::heap::{lemma_decref, EscapeSite, FiberHeap, HeapState};
use crate::signalbits::SignalBits;
use crate::signals::{SIG_ERROR, SIG_HALT, SIG_IO};
use crate::value::Value;

verus! {

/// A terminal signal is a fiber's result: a normal return, an error or a halt.
pub open spec fn terminal(bits: SignalBits) -> bool {
    bits == SignalBits::empty() || bits.meets(SignalBits::new(SIG_ERROR)) || bits.meets(
        SignalBits::new(SIG_HALT),
    )
}

/// One more reference to the region of a signal's value.
pub open spec fn signal_retained(s: HeapState, signal: Option<(SignalBits, Value)>) -> HeapState {
    match signal {
        Some((_, v)) => s.retained_opt(s.region_of(v)),
        None => s,
    }
}

/// A terminal signal parked in a fiber: one reference to its value's region,
/// and the edge that holds it.
pub open spec fn terminal_parked(
    s: HeapState,
    fiber_value: Value,
    signal: Option<(SignalBits, Value)>,
) -> HeapState {
    match signal {
        Some((bits, v)) => if terminal(bits) {
            s.retained_opt(s.region_of(v)).edge_recorded(s.region_of(fiber_value), s.region_of(v))
        } else {
            s
        },
        None => s,
    }
}

/// A discarded fiber's signal gives up the one reference its park left over.
pub open spec fn signal_discarded(s: HeapState, parked: Option<(SignalBits, Value)>) -> HeapState {
    match parked {
        Some((_, v)) => s.decref_opt(s.region_of(v)),
        None => s,
    }
}

/// A terminal signal replaced by another value: its edge is forgotten and its
/// reference given up.
pub open spec fn terminal_displaced(
    s: HeapState,
    fiber_value: Value,
    parked: Option<(SignalBits, Value)>,
) -> HeapState {
    match parked {
        Some((bits, v)) => if terminal(bits) && s.region_of(v) is Some {
            s.edge_unrecorded(s.region_of(fiber_value), s.region_of(v)).decref_opt(s.region_of(v))
        } else {
            s
        },
        None => s,
    }
}

/// A park that the resume owes a release: an io request whose answer lives
/// elsewhere, or a recorded capability denial.
pub open spec fn park_owed(
    s: HeapState,
    parked: Option<(SignalBits, Value)>,
    denial_payload: Option<Value>,
    resume_value: Value,
) -> bool {
    match parked {
        Some((bits, v)) => {
            &&& s.region_of(v) is Some
            &&& if bits.meets(SignalBits::new(SIG_IO)) {
                s.region_of(resume_value) != s.region_of(v)
            } else {
                denial_payload == Some(v)
            }
        },
        None => false,
    }
}

/// The heap once a resume replaces a parked signal.
pub open spec fn park_released(
    s: HeapState,
    parked: Option<(SignalBits, Value)>,
    denial_payload: Option<Value>,
    resume_value: Value,
) -> HeapState {
    if park_owed(s, parked, denial_payload, resume_value) {
        s.decref_opt(s.region_of((parked->0).1))
    } else {
        s
    }
}

/// A capability denial's payload replaced without a resume gives up the
/// reference its birth left, where the record names the parked value.
pub open spec fn denial_displaced(
    s: HeapState,
    parked: Option<(SignalBits, Value)>,
    denial_payload: Option<Value>,
) -> HeapState {
    match parked {
        Some((_, v)) => if denial_payload == Some(v) {
            s.decref_opt(s.region_of(v))
        } else {
            s
        },
        None => s,
    }
}

/// Take one reference to the region of a signal's value; none for no signal or
/// an immediate.
pub fn incref_signal_region(heap: &mut FiberHeap, signal: &Option<(SignalBits, Value)>)
    requires
        old(heap)@.valid(),
        old(heap)@.room(1),
    ensures
        final(heap)@ == signal_retained(old(heap)@, *signal),
        final(heap)@.valid(),
{
    if let Some((_, v)) = signal {
        let r = heap.region_of(*v);
        heap.incref_for_escape(r, EscapeSite::TerminalSignal);
    }
}

/// Take the reference and record the edge for a terminal signal installed in a
/// fiber; nothing for a suspending one.
pub fn record_terminal_signal_park(
    heap: &mut FiberHeap,
    fiber_value: Value,
    signal: &Option<(SignalBits, Value)>,
)
    requires
        old(heap)@.valid(),
        old(heap)@.room(1),
    ensures
        final(heap)@ == terminal_parked(old(heap)@, fiber_value, *signal),
        final(heap)@.valid(),
{
    let ghost start = heap@;
    if let Some((bits, v)) = signal {
        if !is_terminal_signal(*bits) {
            return ;
        }
        incref_signal_region(heap, signal);
        let fiber_r = heap.region_of(fiber_value);
        let sig_r = heap.region_of(*v);
        assert(heap@.region_of(*v) == start.region_of(*v));
        assert(heap@.region_of(fiber_value) == start.region_of(fiber_value));
        heap.record_outgoing_edge(fiber_r, sig_r);
    }
}

/// Whether a signal is a fiber's result: a normal return, an error or a halt.
pub fn is_terminal_signal(bits: SignalBits) -> (r: bool)
    ensures
        r == terminal(bits),
{
    bits.is_empty() || bits.intersects(SignalBits::new(SIG_ERROR)) || bits.intersects(
        SignalBits::new(SIG_HALT),
    )
}

/// Give up the one reference that a discarded fiber's parked signal leaves in
/// its continuation.
pub fn release_discarded_signal(heap: &mut FiberHeap, parked: Option<(SignalBits, Value)>)
    requires
        old(heap)@.valid(),
    ensures
        final(heap)@ == signal_discarded(old(heap)@, parked),
        final(heap)@.valid(),
        final(heap)@.same_objects(old(heap)@),
{
    if let Some((_, v)) = parked {
        let r = heap.region_of(v);
        heap.decref_region_opt(r);
    }
}

/// Give up what a parked terminal signal holds when a resume or an abort
/// replaces it.
pub fn release_displaced_terminal_signal(
    heap: &mut FiberHeap,
    fiber_value: Value,
    parked: Option<(SignalBits, Value)>,
)
    requires
        old(heap)@.valid(),
    ensures
        final(heap)@ == terminal_displaced(old(heap)@, fiber_value, parked),
        final(heap)@.valid(),
        final(heap)@.same_objects(old(heap)@),
{
    if let Some((bits, v)) = parked {
        if !is_terminal_signal(bits) {
            return ;
        }
        let sig_r = heap.region_of(v);
        if sig_r.is_none() {
            return ;
        }
        let fiber_r = heap.region_of(fiber_value);
        heap.unrecord_outgoing_edge(fiber_r, sig_r);
        heap.decref_region_opt(sig_r);
    }
}

/// Give up the reference that a capability denial's payload is left with when
/// an injected error replaces it. A record that no longer names the parked
/// value gives up nothing.
pub fn release_displaced_denial_payload(
    heap: &mut FiberHeap,
    parked: Option<(SignalBits, Value)>,
    denial_payload: Option<Value>,
)
    requires
        old(heap)@.valid(),
    ensures
        final(heap)@ == denial_displaced(old(heap)@, parked, denial_payload),
        final(heap)@.valid(),
        final(heap)@.same_objects(old(heap)@),
{
    if let Some((_, v)) = parked {
        if let Some(p) = denial_payload {
            if p.bit_identical(v) {
                let r = heap.region_of(v);
                heap.decref_region_opt(r);
            }
        }
    }
}

/// Give up the one reference that a park without a body reference leaves over
/// when the resume replaces its payload. An io request is owed it unless the
/// answer was built in the request's own region; a capability denial is owed it
/// while the record still names the parked value; nothing else is.
pub fn release_parked_signal(
    heap: &mut FiberHeap,
    parked: Option<(SignalBits, Value)>,
    denial_payload: Option<Value>,
    resume_value: Value,
)
    requires
        old(heap)@.valid(),
    ensures
        final(heap)@ == park_released(old(heap)@, parked, denial_payload, resume_value),
        final(heap)@.valid(),
        final(heap)@.same_objects(old(heap)@),
{
    if let Some((bits, value)) = parked {
        let region = heap.region_of(value);
        if region.is_none() {
            return ;
        }
        if bits.intersects(SignalBits::new(SIG_IO)) {
            if heap.region_of(resume_value) == region {
                return ;
            }
        } else {
            match denial_payload {
                Some(p) => {
                    if !p.bit_identical(value) {
                        return ;
                    }
                },
                None => {
                    return ;
                },
            }
        }
        heap.decref_region_opt(region);
    }
}

/// A park that is owed a release loses exactly one reference of its payload's
/// region, and one that is not leaves the heap as it was.
pub proof fn lemma_park_release_is_one_reference(
    s: HeapState,
    parked: Option<(SignalBits, Value)>,
    denial_payload: Option<Value>,
    resume_value: Value,
)
    requires
        s.valid(),
    ensures
        ({
            let after = park_released(s, parked, denial_payload, resume_value);
            &&& !park_owed(s, parked, denial_payload, resume_value) ==> after == s
            &&& park_owed(s, parked, denial_payload, resume_value) && s.count(
                s.region_of((parked->0).1)->0,
            ) > 0 ==> after.count(s.region_of((parked->0).1)->0) == s.count(
                s.region_of((parked->0).1)->0,
            ) - 1
        }),
{
    if park_owed(s, parked, denial_payload, resume_value) {
        let v = (parked->0).1;
        let i = s.target(v)->0;
        assert(s.owners[i] < s.counts.len());
        lemma_decref(s, s.owners[i]);
    }
}

/// The same edges, in whatever order they were recorded.
pub open spec fn same_edges(a: HeapState, b: HeapState) -> bool {
    &&& a.edges.len() == b.edges.len()
    &&& forall|i: int|
        0 <= i < a.edges.len() ==> (#[trigger] a.edges[i]).to_multiset() == b.edges[i].to_multiset()
}

/// Parking a terminal result and displacing it again gives the heap back: every
/// count, every object and every recorded edge. Where there is nothing to park (no
/// signal, one that is not terminal, or an immediate) neither changes anything. The
/// result's region is live, or dead and holds nothing.
pub proof fn lemma_terminal_park_balanced(
    s: HeapState,
    fiber_value: Value,
    signal: Option<(SignalBits, Value)>,
)
    requires
        s.valid(),
        signal matches Some((_, v)) ==> (s.region_of(v) matches Some(r) ==> s.count(r) > 0
            || s.edges[r.0 as int].len() == 0),
    ensures
        ({
            let parked = terminal_parked(s, fiber_value, signal);
            let back = terminal_displaced(parked, fiber_value, signal);
            &&& back.counts == s.counts
            &&& back.same_objects(s)
            &&& same_edges(back, s)
            &&& (signal is None || !terminal((signal->0).0) || s.region_of((signal->0).1) is None) ==> parked
                == s && back == s
        }),
{
    broadcast use vstd::seq_lib::group_to_multiset_ensures;

    let parked = terminal_parked(s, fiber_value, signal);
    let back = terminal_displaced(parked, fiber_value, signal);
    if signal is Some && terminal((signal->0).0) && s.region_of((signal->0).1) is Some {
        let v = (signal->0).1;
        let i = s.target(v)->0;
        let r = s.owners[i];
        assert(r < s.counts.len());
        let fr = s.region_of(fiber_value);
        let mid = parked.edge_unrecorded(fr, Some(crate::heap::RuntimeRegion(r)));
        assert(mid.counts == s.counts.update(r as int, s.counts[r as int] + 1));
        assert(mid.counts[r as int] >= 1);
        assert(parked.edges.len() == s.edges.len());
        assert(mid.valid()) by {
            assert forall|a: int, b: int|
                0 <= a < mid.edges.len() && 0 <= b < mid.edges[a].len() implies (
            #[trigger] mid.edges[a][b]) < mid.counts.len() && mid.edges[a][b] != a by {
                if fr is Some && a == (fr->0).0 {
                    let list = parked.edges[a];
                    crate::heap::lemma_without_first_from(list, r, b);
                    let c = choose|c: int| 0 <= c < list.len() && list[c] == mid.edges[a][b];
                    if c < s.edges[a].len() {
                        assert(s.edges[a][c] < s.counts.len());
                    }
                } else {
                    assert(s.edges[a][b] < s.counts.len());
                }
            }
        }
        lemma_decref(mid, r);
        assert(back == mid.decref(r));
        assert(back.counts =~= s.counts);
        assert(back.edges == mid.edges);
        if fr is Some {
            let f = (fr->0).0 as int;
            assert(s.owners[s.target(fiber_value)->0] < s.counts.len());
            if fr == s.region_of(v) {
                assert(parked.edges == s.edges);
                assert(!s.edges[f].contains(r)) by {
                    if s.edges[f].contains(r) {
                        let k = choose|k: int| 0 <= k < s.edges[f].len() && s.edges[f][k] == r;
                        assert(s.edges[f][k] != f);
                    }
                }
                crate::heap::lemma_without_absent(s.edges[f], r);
            } else {
                let list = s.edges[f].push(r);
                assert(parked.edges[f] == list);
                assert(list[list.len() - 1] == r);
                crate::heap::lemma_without_first_counts(list, r);
                let w = crate::heap::without_first(list, r);
                assert(w.to_multiset().insert(r) == s.edges[f].to_multiset().insert(r));
                assert(w.to_multiset() =~= w.to_multiset().insert(r).remove(r));
                assert(s.edges[f].to_multiset() =~= s.edges[f].to_multiset().insert(r).remove(r));
            }
        }
    }
}

} // verus!
