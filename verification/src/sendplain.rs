//! Plain data that crosses to another heap is equal there.

use vstd::prelude::*;

use crate::heap::HeapState;
use crate::object::{HeapObject, HeapTag};
use crate::sendarrive::{arrived, arrived_as, rebuilt, Arrival};
use crate::sendmirror::{mirrors, own, sent, sent_as, traits_travel, Names};
use crate::sendvalue::{SendBundle, SendValue};
use crate::value::{Value, TAG_EMPTY_LIST, TAG_FALSE, TAG_HEAP_START, TAG_INT, TAG_NIL, TAG_TRUE};

verus! {

/// Nil, a boolean, an integer or the end of a list.
pub open spec fn plain_word(v: Value) -> bool {
    v.tag == TAG_NIL || v.tag == TAG_TRUE || v.tag == TAG_FALSE || v.tag == TAG_INT || v.tag == TAG_EMPTY_LIST
}

/// A tree of plain words, strings, immutable arrays and pairs, at most `depth` objects
/// deep, whose traits are the defaults.
pub open spec fn plain_tree(s: HeapState, v: Value, depth: nat) -> bool
    decreases depth,
{
    if v.tag < TAG_HEAP_START {
        plain_word(v)
    } else {
        depth > 0 && s.resolves(v) && match s.object(v) {
            HeapObject::LString { .. } => true,
            HeapObject::LArray { elements, traits } => {
                &&& !traits_travel(s, traits, HeapTag::LArray)
                &&& forall|i: int|
                    0 <= i < elements@.len() ==> plain_tree(s, #[trigger] elements@[i], (depth - 1) as nat)
            },
            HeapObject::Pair(p) => {
                &&& !traits_travel(s, p.traits, HeapTag::Pair)
                &&& plain_tree(s, p.first, (depth - 1) as nat)
                &&& plain_tree(s, p.rest, (depth - 1) as nat)
            },
            _ => false,
        }
    }
}

/// Two values of two heaps are equal, as far as `depth` objects down: the same word, or
/// objects of one kind with equal contents.
pub open spec fn equal_trees(s: HeapState, a: Value, t: HeapState, b: Value, depth: nat) -> bool
    decreases depth,
{
    if a.tag < TAG_HEAP_START || b.tag < TAG_HEAP_START {
        a == b
    } else {
        depth > 0 ==> a.tag == b.tag && match (s.object(a), t.object(b)) {
            (HeapObject::LString { s: x, .. }, HeapObject::LString { s: y, .. }) => x@ == y@,
            (HeapObject::LArray { elements: x, .. }, HeapObject::LArray { elements: y, .. }) => {
                &&& x@.len() == y@.len()
                &&& forall|i: int|
                    0 <= i < x@.len() ==> equal_trees(s, #[trigger] x@[i], t, y@[i], (depth - 1) as nat)
            },
            (HeapObject::Pair(x), HeapObject::Pair(y)) => {
                &&& equal_trees(s, x.first, t, y.first, (depth - 1) as nat)
                &&& equal_trees(s, x.rest, t, y.rest, (depth - 1) as nat)
            },
            _ => false,
        }
    }
}

/// Every object of a tree of strings, arrays and pairs lives in the region, as far as
/// `depth` objects down.
pub open spec fn lives_in(h: HeapState, v: Value, region: u32, depth: nat) -> bool
    decreases depth,
{
    v.tag >= TAG_HEAP_START && depth > 0 ==> {
        &&& h.target(v) is Some
        &&& h.owners[h.target(v)->0] == region
        &&& match h.object(v) {
            HeapObject::LArray { elements, .. } => forall|i: int|
                0 <= i < elements@.len() ==> lives_in(
                    h,
                    #[trigger] elements@[i],
                    region,
                    (depth - 1) as nat,
                ),
            HeapObject::Pair(p) => lives_in(h, p.first, region, (depth - 1) as nat) && lives_in(
                h,
                p.rest,
                region,
                (depth - 1) as nat,
            ),
            _ => true,
        }
    }
}

proof fn lemma_plain_trip(
    s: HeapState,
    names: Names,
    keys: Seq<u64>,
    w: Arrival,
    open: Set<int>,
    a: Value,
    b: Value,
    sv: SendValue,
    depth: nat,
)
    requires
        plain_tree(s, a, depth),
        mirrors(s, names, keys, a, sv),
        rebuilt(w, open, b, sv),
    ensures
        equal_trees(s, a, w.heap, b, depth),
        lives_in(w.heap, b, w.region, depth),
    decreases depth,
{
    if a.tag >= TAG_HEAP_START {
        let d = (depth - 1) as nat;
        match s.object(a) {
            HeapObject::LArray { elements, .. } => {
                let items = sv->Tuple_0@;
                let rebuilt_items = w.heap.object(b)->LArray_elements@;
                assert forall|i: int| 0 <= i < elements@.len() implies equal_trees(
                    s,
                    #[trigger] elements@[i],
                    w.heap,
                    rebuilt_items[i],
                    d,
                ) && lives_in(w.heap, rebuilt_items[i], w.region, d) by {
                    assert(mirrors(s, names, keys, elements@[i], items[i]));
                    assert(rebuilt(w, open, rebuilt_items[i], items[i]));
                    lemma_plain_trip(s, names, keys, w, open, elements@[i], rebuilt_items[i], items[i], d);
                }
                assert forall|i: int| 0 <= i < rebuilt_items.len() implies lives_in(
                    w.heap,
                    #[trigger] rebuilt_items[i],
                    w.region,
                    d,
                ) by {
                    assert(equal_trees(s, elements@[i], w.heap, rebuilt_items[i], d));
                }
            },
            HeapObject::Pair(p) => {
                let q = w.heap.object(b)->Pair_0;
                lemma_plain_trip(s, names, keys, w, open, p.first, q.first, *sv->Pair_0, d);
                lemma_plain_trip(s, names, keys, w, open, p.rest, q.rest, *sv->Pair_1, d);
            },
            _ => {},
        }
    }
}

/// Plain data arrives equal: a tree of nil, booleans, integers, list ends, strings,
/// immutable arrays and pairs with default traits, sent and rebuilt, equals the one that
/// was sent, and every object of it lives in the region that it was rebuilt in.
pub proof fn lemma_plain_data_arrives_equal(
    s: HeapState,
    symbols: Seq<Seq<char>>,
    value: Value,
    bundle: SendBundle,
    h: HeapState,
    names: Seq<Seq<char>>,
    lo: int,
    region: u32,
    v: Value,
    depth: nat,
)
    requires
        sent(s, own(symbols), value, bundle),
        arrived(h, names, lo, region, bundle, v),
        plain_tree(s, value, depth),
    ensures
        equal_trees(s, value, h, v, depth),
        lives_in(h, v, region, depth),
{
    let keys = choose|keys: Seq<u64>| sent_as(s, own(symbols), value, bundle, keys);
    let (w, paths) = choose|w: Arrival, paths: Map<int, Set<int>>|
        #[trigger] arrived_as(w, paths, bundle, v) && w.heap == h && w.symbols == names && w.lo == lo && w.region
            == region;
    lemma_plain_trip(s, own(symbols), keys, w, Set::empty(), value, v, bundle.root, depth);
}

} // verus!
