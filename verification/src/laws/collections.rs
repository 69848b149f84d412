//! Adding to collections, emptying them, and going through them.

use vstd::prelude::*;

use crate::ctx::{birth, born, Alloc};
use crate::fiber::{Fiber, FiberStatus, NativeIter};
use crate::fibertable::FiberTable;
use crate::fields::field_is;
use crate::heap::{lemma_adopted, lemma_allocated, FiberHeap, HeapState, RuntimeRegion};
use crate::laws::words::lemma_signed_and_back;
use crate::object::HeapObject;
use crate::prim::{fiber_handle, string_at};
use crate::resume::{iterated, resumed, ResumeStep};
use crate::signalbits::SignalBits;
use crate::signals::{SIG_ERROR, SIG_OK, SIG_YIELD};
use crate::traitmethods::{
    conjoined, emptied, iterator_made, nth_asked, trait_coll_empty, trait_coll_has, trait_coll_length,
    trait_seq_first, trait_seq_last, trait_seq_rest, traitset_made, NthStep,
};
use crate::value::{
    Value, TAG_ARRAY, TAG_ARRAY_MUT, TAG_BYTES, TAG_BYTES_MUT, TAG_CONS, TAG_EMPTY_LIST, TAG_FALSE, TAG_HEAP_START,
    TAG_INT, TAG_SET, TAG_SET_MUT, TAG_STRING, TAG_STRING_MUT, TAG_STRUCT, TAG_STRUCT_MUT, TAG_TRUE,
};
use crate::vm::VM;

verus! {

/// Reading a value that was just born gives the object it was born as, in the region
/// that was named; whatever was there before reads as before, in the region it had.
pub proof fn lemma_newborn_reads_back(before: HeapState, after: HeapState, home: RuntimeRegion, v: Value)
    requires
        before.valid(),
        home.0 < before.counts.len(),
        before.room(1),
        born(before, after, home, v),
        birth(after).value_tag() >= TAG_HEAP_START,
    ensures
        after.target(v) == Some(before.objects.len() as int),
        after.object(v) == after.objects[before.objects.len() as int],
        after.region_of(v) == Some(home),
        v.tag == birth(after).value_tag(),
        forall|u: Value| #![trigger after.target(u)] #![trigger before.target(u)]
            before.target(u) is Some ==> after.target(u) == before.target(u) && after.object(u) == before.object(u)
                && after.region_of(u) == before.region_of(u) && u != v,
{
    lemma_allocated(before, birth(after), home.0);
    assert forall|u: Value| #![trigger after.target(u)] #![trigger before.target(u)]
        before.target(u) is Some implies after.target(u) == before.target(u) && after.object(u) == before.object(u)
        && after.region_of(u) == before.region_of(u) && u != v by {
        let i = before.target(u)->0;
        assert(before.target(u) is Some);
        assert(after.objects[i] == before.objects[i]);
    }
}

/// `conj` on an array gives a new array: one element more, every old index reading as
/// before, and the item at the end. The array itself is as it was.
pub proof fn lemma_conj_appends_to_array(
    before: HeapState,
    after: HeapState,
    home: RuntimeRegion,
    coll: Value,
    item: Value,
    frozen: Value,
    place: Option<usize>,
    kind: Seq<char>,
    r: (SignalBits, Value),
)
    requires
        before.valid(),
        home.0 < before.counts.len(),
        before.room(1),
        conjoined(before, after, home, coll, item, frozen, place, kind, r),
        coll.tag == TAG_ARRAY,
        before.target(coll) is Some,
        before.object(coll) is LArray,
    ensures
        ({
            let a = before.object(coll)->LArray_elements@;
            let b = after.object(r.1)->LArray_elements@;
            &&& r.0 == SignalBits::new(SIG_OK)
            &&& r.1.tag == TAG_ARRAY
            &&& after.target(r.1) is Some && after.object(r.1) is LArray
            &&& b.len() == a.len() + 1
            &&& forall|i: int| 0 <= i < a.len() ==> #[trigger] b[i] == a[i]
            &&& b[a.len() as int] == item
            &&& r.1 != coll && after.object(coll) == before.object(coll)
        }),
{
    lemma_newborn_reads_back(before, after, home, r.1);
    assert(before.target(coll) is Some);
}

/// `conj` on a mutable array is the array itself, with the item behind its elements;
/// no other object changes.
pub proof fn lemma_conj_pushes_onto_mutable_array(
    before: HeapState,
    after: HeapState,
    home: RuntimeRegion,
    coll: Value,
    item: Value,
    frozen: Value,
    place: Option<usize>,
    kind: Seq<char>,
    r: (SignalBits, Value),
)
    requires
        before.valid(),
        conjoined(before, after, home, coll, item, frozen, place, kind, r),
        coll.tag == TAG_ARRAY_MUT,
        before.target(coll) is Some,
        before.object(coll) is LArrayMut,
    ensures
        ({
            let a = before.object(coll)->LArrayMut_data@;
            let b = after.object(coll)->LArrayMut_data@;
            &&& r == (SignalBits::new(SIG_OK), coll)
            &&& after.object(coll) is LArrayMut
            &&& b.len() == a.len() + 1
            &&& forall|i: int| 0 <= i < a.len() ==> #[trigger] b[i] == a[i]
            &&& b[a.len() as int] == item
            &&& forall|u: Value|
                before.target(u) is Some && before.target(u) != before.target(coll) ==> #[trigger] after.object(u)
                    == before.object(u)
        }),
{
    let i = before.target(coll)->0;
    let mid = HeapState { objects: after.objects, ..before };
    assert(before.owners[i] < before.counts.len());
    lemma_adopted(mid, before.owners[i], seq![item]);
    assert forall|u: Value|
        before.target(u) is Some && before.target(u) != before.target(coll) implies #[trigger] after.object(u)
        == before.object(u) by {
        assert(after.target(u) == before.target(u));
    }
}

/// `conj` on a list, the empty one too, is a pair of the item and that list.
pub proof fn lemma_conj_goes_before_a_list(
    before: HeapState,
    after: HeapState,
    home: RuntimeRegion,
    coll: Value,
    item: Value,
    frozen: Value,
    place: Option<usize>,
    kind: Seq<char>,
    r: (SignalBits, Value),
)
    requires
        before.valid(),
        home.0 < before.counts.len(),
        before.room(1),
        conjoined(before, after, home, coll, item, frozen, place, kind, r),
        coll.tag == TAG_CONS || coll.tag == TAG_EMPTY_LIST,
    ensures
        r.0 == SignalBits::new(SIG_OK),
        r.1.tag == TAG_CONS,
        after.target(r.1) is Some,
        after.object(r.1) matches HeapObject::Pair(p) && p.first == item && p.rest == coll,
{
    lemma_newborn_reads_back(before, after, home, r.1);
}

/// `conj` on a string gives the string followed by the text of the item; one that is no
/// string adds nothing.
pub proof fn lemma_conj_appends_to_string(
    before: HeapState,
    after: HeapState,
    home: RuntimeRegion,
    coll: Value,
    item: Value,
    frozen: Value,
    place: Option<usize>,
    kind: Seq<char>,
    r: (SignalBits, Value),
)
    requires
        before.valid(),
        home.0 < before.counts.len(),
        before.room(1),
        conjoined(before, after, home, coll, item, frozen, place, kind, r),
        string_at(before, coll) is Some,
    ensures
        r.0 == SignalBits::new(SIG_OK),
        string_at(after, r.1) == Some(
            match string_at(before, item) {
                Some(more) => string_at(before, coll)->0 + more,
                None => string_at(before, coll)->0,
            },
        ),
{
    lemma_newborn_reads_back(before, after, home, r.1);
    assert(string_at(before, coll)->0 + Seq::<char>::empty() =~= string_at(before, coll)->0);
}

/// `conj` on bytes adds one byte at the end, the item's number; anything that is no
/// number of a byte is refused.
pub proof fn lemma_conj_appends_a_byte(
    before: HeapState,
    after: HeapState,
    home: RuntimeRegion,
    coll: Value,
    item: Value,
    frozen: Value,
    place: Option<usize>,
    kind: Seq<char>,
    r: (SignalBits, Value),
)
    requires
        before.valid(),
        home.0 < before.counts.len(),
        before.room(1),
        conjoined(before, after, home, coll, item, frozen, place, kind, r),
        coll.tag == TAG_BYTES,
        before.target(coll) is Some,
        before.object(coll) is LBytes,
    ensures
        ({
            let a = before.object(coll)->LBytes_data@;
            let b = after.object(r.1)->LBytes_data@;
            if item.tag == TAG_INT && item.payload <= 255 {
                &&& r.0 == SignalBits::new(SIG_OK)
                &&& after.target(r.1) is Some && after.object(r.1) is LBytes
                &&& b.len() == a.len() + 1
                &&& forall|i: int| 0 <= i < a.len() ==> #[trigger] b[i] == a[i]
                &&& b[a.len() as int] == item.payload
            } else {
                r.0 == SignalBits::new(SIG_ERROR)
            }
        }),
{
    let n = item.payload;
    assert(n <= 255 <==> 0 <= n as i64 <= 255) by (bit_vector);
    if item.tag == TAG_INT && n <= 255 {
        lemma_newborn_reads_back(before, after, home, r.1);
        assert(n <= 255 ==> n as u8 == n) by (bit_vector);
    }
}

/// `conj` on a set keeps every element in its order. Where the item has a place it is
/// there, in its frozen form, and the set has one element more; otherwise nothing is
/// added.
pub proof fn lemma_conj_keeps_the_set(
    before: HeapState,
    after: HeapState,
    home: RuntimeRegion,
    coll: Value,
    item: Value,
    frozen: Value,
    place: Option<usize>,
    kind: Seq<char>,
    r: (SignalBits, Value),
)
    requires
        before.valid(),
        home.0 < before.counts.len(),
        before.room(1),
        conjoined(before, after, home, coll, item, frozen, place, kind, r),
        coll.tag == TAG_SET,
        before.target(coll) is Some,
        before.object(coll) is LSet,
        place matches Some(at) ==> at <= before.object(coll)->LSet_data@.len(),
    ensures
        ({
            let a = before.object(coll)->LSet_data@;
            let b = after.object(r.1)->LSet_data@;
            &&& r.0 == SignalBits::new(SIG_OK)
            &&& r.1.tag == TAG_SET
            &&& after.target(r.1) is Some && after.object(r.1) is LSet
            &&& match place {
                None => b.len() == a.len() && forall|i: int| 0 <= i < a.len() ==> #[trigger] b[i] == a[i],
                Some(at) => {
                    &&& b.len() == a.len() + 1
                    &&& b[at as int] == frozen
                    &&& forall|i: int| 0 <= i < at ==> #[trigger] b[i] == a[i]
                    &&& forall|i: int| at <= i < a.len() ==> b[i + 1] == #[trigger] a[i]
                },
            }
            &&& r.1 != coll && after.object(coll) == before.object(coll)
        }),
{
    lemma_newborn_reads_back(before, after, home, r.1);
    assert(before.target(coll) is Some);
}

/// `conj` on a mutable set is the set itself, which has the frozen item afterwards where
/// that has a place, and every element that it had.
pub proof fn lemma_conj_keeps_the_mutable_set(
    before: HeapState,
    after: HeapState,
    home: RuntimeRegion,
    coll: Value,
    item: Value,
    frozen: Value,
    place: Option<usize>,
    kind: Seq<char>,
    r: (SignalBits, Value),
)
    requires
        before.valid(),
        conjoined(before, after, home, coll, item, frozen, place, kind, r),
        coll.tag == TAG_SET_MUT,
        before.target(coll) is Some,
        before.object(coll) is LSetMut,
        place matches Some(at) ==> at <= before.object(coll)->LSetMut_data@.len(),
    ensures
        ({
            let a = before.object(coll)->LSetMut_data@;
            let b = after.object(coll)->LSetMut_data@;
            &&& r == (SignalBits::new(SIG_OK), coll)
            &&& after.object(coll) is LSetMut
            &&& match place {
                None => after == before,
                Some(at) => {
                    &&& b.len() == a.len() + 1
                    &&& b[at as int] == frozen
                    &&& forall|i: int| 0 <= i < at ==> #[trigger] b[i] == a[i]
                    &&& forall|i: int| at <= i < a.len() ==> b[i + 1] == #[trigger] a[i]
                },
            }
        }),
{
    if place is Some {
        let i = before.target(coll)->0;
        let mid = HeapState { objects: after.objects, ..before };
        assert(before.owners[i] < before.counts.len());
        lemma_adopted(mid, before.owners[i], seq![frozen]);
    }
}

/// `conj` on anything that is no list, array, set, string or bytes is refused.
pub proof fn lemma_conj_refuses_the_rest(
    before: HeapState,
    after: HeapState,
    home: RuntimeRegion,
    coll: Value,
    item: Value,
    frozen: Value,
    place: Option<usize>,
    kind: Seq<char>,
    r: (SignalBits, Value),
)
    requires
        conjoined(before, after, home, coll, item, frozen, place, kind, r),
        coll.tag != TAG_CONS,
        coll.tag != TAG_EMPTY_LIST,
        coll.tag != TAG_ARRAY,
        coll.tag != TAG_ARRAY_MUT,
        coll.tag != TAG_SET,
        coll.tag != TAG_SET_MUT,
        coll.tag != TAG_STRING,
        coll.tag != TAG_BYTES,
    ensures
        r.0 == SignalBits::new(SIG_ERROR),
{
}

/// The object holds no element, character or byte.
pub open spec fn holds_nothing(obj: HeapObject) -> bool {
    match obj {
        HeapObject::LArray { elements, .. } => elements@.len() == 0,
        HeapObject::LArrayMut { data, .. } => data@.len() == 0,
        HeapObject::LSet { data, .. } => data@.len() == 0,
        HeapObject::LSetMut { data, .. } => data@.len() == 0,
        HeapObject::LStruct { data, .. } => data@.len() == 0,
        HeapObject::LStructMut { data, .. } => data@.len() == 0,
        HeapObject::LString { s, .. } => s@.len() == 0,
        HeapObject::LStringMut { data, .. } => data@.len() == 0,
        HeapObject::LBytes { data, .. } => data@.len() == 0,
        HeapObject::LBytesMut { data, .. } => data@.len() == 0,
        _ => false,
    }
}

/// `empty` gives a fresh collection of the same type that holds nothing; of a list it is
/// the empty list, and what is no collection is refused.
pub proof fn lemma_empty_is_the_same_type_without_elements(
    before: HeapState,
    after: HeapState,
    home: RuntimeRegion,
    coll: Value,
    kind: Seq<char>,
    r: (SignalBits, Value),
)
    requires
        before.valid(),
        home.0 < before.counts.len(),
        before.room(1),
        emptied(before, after, home, coll, kind, r),
    ensures
        coll.tag == TAG_CONS || coll.tag == TAG_EMPTY_LIST ==> r == (SignalBits::new(SIG_OK), Value::empty_list())
            && after == before,
        coll.tag == TAG_ARRAY || coll.tag == TAG_ARRAY_MUT || coll.tag == TAG_SET || coll.tag == TAG_SET_MUT
            || coll.tag == TAG_STRUCT || coll.tag == TAG_STRUCT_MUT || coll.tag == TAG_STRING || coll.tag
            == TAG_STRING_MUT || coll.tag == TAG_BYTES || coll.tag == TAG_BYTES_MUT ==> {
            &&& r.0 == SignalBits::new(SIG_OK)
            &&& r.1.tag == coll.tag
            &&& after.target(r.1) == Some(before.objects.len() as int)
            &&& after.object(r.1).value_tag() == coll.tag
            &&& holds_nothing(after.object(r.1))
        },
        coll.tag == TAG_INT ==> r.0 == SignalBits::new(SIG_ERROR),
{
    if coll.tag >= TAG_HEAP_START && r.0 == SignalBits::new(SIG_OK) && coll.tag != TAG_CONS {
        lemma_allocated(before, birth(after), home.0);
        if birth(after).value_tag() >= TAG_HEAP_START {
            lemma_newborn_reads_back(before, after, home, r.1);
        }
    }
}

/// Adding an item to what `empty` gave of an array makes the array of that one item.
pub proof fn lemma_conj_onto_empty_is_a_singleton(
    s0: HeapState,
    s1: HeapState,
    s2: HeapState,
    home: RuntimeRegion,
    coll: Value,
    item: Value,
    frozen: Value,
    place: Option<usize>,
    kind: Seq<char>,
    e: (SignalBits, Value),
    r: (SignalBits, Value),
)
    requires
        s0.valid(),
        home.0 < s0.counts.len(),
        s0.room(1),
        s1.room(1),
        coll.tag == TAG_ARRAY,
        emptied(s0, s1, home, coll, kind, e),
        conjoined(s1, s2, home, e.1, item, frozen, place, kind, r),
    ensures
        s2.object(r.1) matches HeapObject::LArray { elements, .. } && elements@ == seq![item],
{
    lemma_empty_is_the_same_type_without_elements(s0, s1, home, coll, kind, e);
    lemma_allocated(s0, birth(s1), home.0);
    lemma_conj_appends_to_array(s1, s2, home, e.1, item, frozen, place, kind, r);
    assert(s2.object(r.1)->LArray_elements@ =~= seq![item]);
}

/// An iterator after so many turns.
pub open spec fn after_turns(f: Fiber, n: nat) -> Fiber
    decreases n,
{
    if n == 0 {
        f
    } else {
        iterated(after_turns(f, (n - 1) as nat))
    }
}

/// Going through a collection: the turns of its iterator yield the elements one by one,
/// in order, each once, and the turn after the last ends it.
pub proof fn lemma_iterator_yields_each_element_in_order(f: Fiber, elements: Vec<Value>, n: nat)
    requires
        f.native_iter == Some(NativeIter { elements, cursor: 0 }),
        n <= elements@.len() <= usize::MAX,
    ensures
        after_turns(f, n).native_iter == Some(NativeIter { elements, cursor: n as usize }),
        n > 0 ==> after_turns(f, n).signal == Some((SignalBits::new(SIG_YIELD), elements@[n - 1])),
        n > 0 ==> after_turns(f, n).status == FiberStatus::Paused,
        n == elements@.len() ==> {
            let end = iterated(after_turns(f, n));
            end.status == FiberStatus::Dead && end.signal == Some((SignalBits::new(SIG_OK), Value::nil()))
        },
    decreases n,
{
    if n > 0 {
        lemma_iterator_yields_each_element_in_order(f, elements, (n - 1) as nat);
    }
}

/// An iterator over a collection is a fiber of the next number that yields the elements:
/// its first resume gives the first one, or ends where there is none. An error is passed
/// on, and makes none.
pub proof fn lemma_iterator_begins_with_the_first(
    ctx: Alloc,
    heap: FiberHeap,
    after: FiberHeap,
    fibers: FiberTable,
    made: FiberTable,
    items: Vec<Value>,
    r: (SignalBits, Value),
    vm: VM,
    vm_after: VM,
    h: u32,
    step: ResumeStep,
)
    requires
        ctx.ready(heap@, 8),
        fibers.slots@.len() < u32::MAX,
        h == fibers.slots@.len(),
        items@.len() <= usize::MAX,
        iterator_made(ctx, heap, after, fibers, made, Ok(items), r),
        vm.fibers.slots@ == made.slots@,
        resumed(vm, vm_after, h, r.1, step),
    ensures
        r.0 == SignalBits::new(SIG_OK),
        fiber_handle(after@, r.1) == Some(h),
        forall|i: int| 0 <= i < fibers.slots@.len() ==> #[trigger] made.slots@[i] == fibers.slots@[i],
        items@.len() > 0 ==> step == ResumeStep::Settled(SignalBits::new(SIG_YIELD), items@[0])
            && vm_after.fibers.fiber(h).status == FiberStatus::Paused,
        items@.len() == 0 ==> step == ResumeStep::Settled(SignalBits::new(SIG_OK), Value::nil())
            && vm_after.fibers.fiber(h).status == FiberStatus::Dead,
{
    let f = made.slots@.last()->Present_0;
    assert(made.fiber(h) == f);
    assert forall|i: int| 0 <= i < fibers.slots@.len() implies #[trigger] made.slots@[i] == fibers.slots@[i] by {
        assert(made.slots@.drop_last()[i] == made.slots@[i]);
    }
    let obj = HeapObject::Fiber { handle: h, traits: Value::nil() };
    lemma_allocated(heap@, obj, ctx.home().0);
    let mid = heap@.allocated(obj, ctx.home().0);
    lemma_adopted(mid, ctx.home().0, crate::fibertable::fiber_content(f));
    assert(after@.objects == mid.objects);
    assert(after@.target(r.1) == mid.target(mid.newest()));
}

/// What the collection operations found is the answer: the element, the count, yes or no;
/// an error they met is the answer's error.
pub proof fn lemma_answers_are_what_was_found(
    v: Value,
    e: Value,
    n: usize,
    b: bool,
    first: (SignalBits, Value),
    last: (SignalBits, Value),
    rest: (SignalBits, Value),
    wrong: (SignalBits, Value),
    len: (SignalBits, Value),
    empty: (SignalBits, Value),
    has: (SignalBits, Value),
)
    requires
        call_ensures(trait_seq_first, (Ok::<Value, Value>(v),), first),
        call_ensures(trait_seq_last, (Ok::<Value, Value>(v),), last),
        call_ensures(trait_seq_rest, (Ok::<Value, Value>(v),), rest),
        call_ensures(trait_seq_first, (Err::<Value, Value>(e),), wrong),
        n <= i64::MAX,
        call_ensures(trait_coll_length, (Ok::<usize, Value>(n),), len),
        call_ensures(trait_coll_empty, (Ok::<bool, Value>(b),), empty),
        call_ensures(trait_coll_has, (Ok::<bool, Value>(b),), has),
    ensures
        first == (SignalBits::new(SIG_OK), v),
        last == first,
        rest == first,
        wrong == (SignalBits::new(SIG_ERROR), e),
        len.0 == SignalBits::new(SIG_OK) && len.1.tag == TAG_INT && len.1.payload == n,
        empty.1.tag == TAG_TRUE <==> b,
        empty.1.tag == TAG_FALSE <==> !b,
        has == empty,
        empty.0 == SignalBits::new(SIG_OK),
{
    lemma_signed_and_back(0, n as i64);
}

/// A lookup by index looks at the index that was passed.
pub proof fn lemma_nth_looks_at_its_index(
    ctx: Alloc,
    heap: FiberHeap,
    after: FiberHeap,
    args: Vec<Value>,
    kinds: Vec<String>,
    r: NthStep,
    i: i64,
)
    requires
        nth_asked(ctx, heap, after, args, kinds, r),
        args@.len() == 2,
    ensures
        args@[1] == Value::integer(i) ==> r == NthStep::Look(i) && after@ == heap@,
        args@[1].tag != TAG_INT ==> r is Done && (r->Done_0).0 == SignalBits::new(SIG_ERROR),
{
    lemma_signed_and_back(0, i);
}

/// The traits of a type have each method table under its own name, and no other.
pub proof fn lemma_traitset_holds_its_tables(
    heap: FiberHeap,
    after: FiberHeap,
    sequence: Option<Value>,
    collection: Option<Value>,
    r: Value,
    name: Seq<char>,
    v: Value,
)
    requires
        traitset_made(heap, after, sequence, collection, r),
    ensures
        after@.objects.last() is LStructMut,
        sequence == Some(v) ==> field_is(after@.objects.last()->LStructMut_data@, "Sequence"@, v),
        collection == Some(v) ==> field_is(after@.objects.last()->LStructMut_data@, "Collection"@, v),
        name != "Sequence"@ && name != "Collection"@ ==> !field_is(
            after@.objects.last()->LStructMut_data@,
            name,
            v,
        ),
        r == after@.newest(),
{
}

} // verus!
