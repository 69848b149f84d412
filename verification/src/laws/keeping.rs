//! Objects and the references that keep them: what a heap reads back, counts and gives
//! up.

use vstd::prelude::*;

use crate::ctx::{list_made, listed, parameter_made, Alloc};
use crate::ffiprims::{list_items, list_to_vec};
use crate::fiber::Fiber;
use crate::fibertable::{fiber_entered, FiberTable};
use crate::heap::{
    cell_set, edge_added, edge_dropped, item_inserted, item_pushed, keyword_interned, lemma_allocated, object_placed,
    object_placed_apart, parameter_numbered, reference_added, reference_dropped, region_opened, set_ordered,
    traits_set, values_adopted, FiberHeap, HeapState, RuntimeRegion,
};
use crate::object::{HeapObject, HeapTag, Pair};
use crate::refcount::{
    denial_displaced, park_released, signal_discarded, signal_retained, terminal_displaced, terminal_parked,
};
use crate::signalbits::SignalBits;
use crate::signals::SIG_IO;
use crate::tailcall::parameter_at;
use crate::value::{Value, TAG_EMPTY_LIST, TAG_HEAP_START};

verus! {

/// One more reference to a region is one more in its count, and changes nothing else;
/// giving it up again undoes it.
pub proof fn lemma_reference_is_counted_and_given_up(
    heap: FiberHeap,
    more: FiberHeap,
    back: FiberHeap,
    r: RuntimeRegion,
    other: RuntimeRegion,
    n0: u32,
    n1: u32,
    n2: u32,
    m0: u32,
    m1: u32,
)
    requires
        heap@.valid(),
        r.0 < heap@.counts.len(),
        reference_added(heap, more, r),
        reference_dropped(more, back, r),
        call_ensures(FiberHeap::region_rc, (&heap, r), n0),
        call_ensures(FiberHeap::region_rc, (&more, r), n1),
        call_ensures(FiberHeap::region_rc, (&back, r), n2),
        n0 > 0,
        other.0 != r.0,
        other.0 < heap@.counts.len(),
        call_ensures(FiberHeap::region_rc, (&heap, other), m0),
        call_ensures(FiberHeap::region_rc, (&more, other), m1),
    ensures
        n1 == n0 + 1,
        n2 == n0,
        m1 == m0,
        back@.counts =~= heap@.counts,
        back@.edges =~= heap@.edges,
        more@.objects == heap@.objects,
        back@.objects == heap@.objects,
{
    reveal_with_fuel(HeapState::released, 3);
    let work = seq![r.0];
    assert(work.subrange(1, 1) =~= Seq::empty());
}

/// The last reference that is given up leaves the region without any, and takes with it
/// what the region held: it holds nothing from then on.
pub proof fn lemma_last_reference_frees_the_region(heap: FiberHeap, after: FiberHeap, r: RuntimeRegion)
    requires
        heap@.valid(),
        r.0 < heap@.counts.len(),
        heap@.counts[r.0 as int] == 1,
        heap@.edges[r.0 as int].len() == 0,
        reference_dropped(heap, after, r),
    ensures
        after@.counts[r.0 as int] == 0,
        forall|i: int| 0 <= i < heap@.counts.len() && i != r.0 ==> #[trigger] after@.counts[i] == heap@.counts[i],
        after@.objects == heap@.objects,
{
    reveal_with_fuel(HeapState::released, 3);
    let work = seq![r.0];
    assert(work.subrange(1, 1) =~= Seq::empty());
    assert(Seq::<u32>::empty() + heap@.edges[r.0 as int] =~= Seq::empty());
}

/// A region that held another gives it up with its own last reference.
pub proof fn lemma_held_region_is_given_up_too(
    heap: FiberHeap,
    after: FiberHeap,
    r: RuntimeRegion,
    held: RuntimeRegion,
)
    requires
        heap@.valid(),
        r.0 < heap@.counts.len(),
        held.0 < heap@.counts.len(),
        held.0 != r.0,
        heap@.counts[r.0 as int] == 1,
        heap@.counts[held.0 as int] > 1,
        heap@.edges[r.0 as int] == seq![held.0],
        reference_dropped(heap, after, r),
    ensures
        after@.counts[r.0 as int] == 0,
        after@.counts[held.0 as int] == heap@.counts[held.0 as int] - 1,
        after@.edges[r.0 as int].len() == 0,
{
    reveal_with_fuel(HeapState::released, 4);
    let work = seq![r.0];
    assert(work.subrange(1, 1) =~= Seq::empty());
    assert(Seq::<u32>::empty() + heap@.edges[r.0 as int] =~= seq![held.0]);
    assert(seq![held.0].subrange(1, 1) =~= Seq::empty());
}

/// A region that is dead already cannot be given up again.
pub proof fn lemma_dead_region_stays_dead(heap: FiberHeap, after: FiberHeap, r: RuntimeRegion)
    requires
        r.0 < heap@.counts.len(),
        heap@.counts[r.0 as int] == 0,
        reference_dropped(heap, after, r),
    ensures
        after@ == heap@,
{
    reveal_with_fuel(HeapState::released, 2);
    let work = seq![r.0];
    assert(work.subrange(1, 1) =~= Seq::empty());
}

/// A region that is opened is new, is referred to once, and leaves the others alone.
pub proof fn lemma_opened_region_is_new(heap: FiberHeap, after: FiberHeap, r: RuntimeRegion, n: u32, v: Value)
    requires
        heap@.valid(),
        region_opened(heap, after, r),
        call_ensures(FiberHeap::region_rc, (&after, r), n),
    ensures
        n == 1,
        r.0 >= heap@.counts.len(),
        heap@.region_of(v) != Some(r),
        forall|i: int| 0 <= i < heap@.counts.len() ==> #[trigger] after@.counts[i] == heap@.counts[i],
        after@.objects == heap@.objects,
{
    if let Some(i) = heap@.target(v) {
        assert(heap@.owners[i] < heap@.counts.len());
    }
}

/// What is allocated reads back as the object it was, in the region that was named; in a
/// region of its own it is the only thing there.
pub proof fn lemma_allocated_object_reads_back(
    heap: FiberHeap,
    after: FiberHeap,
    obj: HeapObject,
    region: RuntimeRegion,
    v: Value,
    got: Option<&HeapObject>,
    at: Option<RuntimeRegion>,
    apart: FiberHeap,
    w: (Value, RuntimeRegion),
    alone: Option<RuntimeRegion>,
)
    requires
        heap@.valid(),
        region.0 < heap@.counts.len(),
        heap@.objects.len() < crate::heap::MAX_OBJECTS,
        heap@.counts.len() < u32::MAX,
        obj.value_tag() >= TAG_HEAP_START,
        object_placed(heap, after, obj, region, v),
        call_ensures(FiberHeap::deref, (&after, v), got),
        call_ensures(FiberHeap::region_of, (&after, v), at),
        object_placed_apart(heap, apart, obj, w),
        call_ensures(FiberHeap::region_of, (&apart, w.0), alone),
    ensures
        got is Some && *(got->0) == obj,
        v.tag == obj.value_tag(),
        at == Some(region),
        alone == Some(w.1),
        (w.1).0 >= heap@.counts.len(),
        forall|u: Value| heap@.target(u) is Some ==> #[trigger] apart@.region_of(u) != Some(w.1),
{
    lemma_allocated(heap@, obj, region.0);
    let wide = heap@.with_region();
    assert(wide.valid()) by {
        assert forall|i: int, k: int| 0 <= i < wide.edges.len() && 0 <= k < wide.edges[i].len() implies (
        #[trigger] wide.edges[i][k]) < wide.counts.len() && wide.edges[i][k] != i by {
            assert(heap@.edges[i][k] < heap@.counts.len());
        }
    }
    lemma_allocated(wide, obj, (w.1).0);
    assert forall|u: Value| heap@.target(u) is Some implies #[trigger] apart@.region_of(u) != Some(w.1) by {
        assert(wide.target(u) == heap@.target(u));
        assert(heap@.owners[heap@.target(u)->0] < heap@.counts.len());
    }
}

/// A value of another region that is adopted is held: its region is referred to once
/// more. One of the same region, or one that lives in none, is not counted.
pub proof fn lemma_adopted_value_is_held(
    heap: FiberHeap,
    after: FiberHeap,
    region: RuntimeRegion,
    values: Vec<Value>,
    v: Value,
)
    requires
        heap@.valid(),
        region.0 < heap@.counts.len(),
        values@ == seq![v],
        values_adopted(heap, after, region, values),
    ensures
        heap@.region_of(v) matches Some(r) ==> (r.0 != region.0 ==> after@.counts[r.0 as int]
            == heap@.counts[r.0 as int] + 1 && after@.edges[region.0 as int] == heap@.edges[region.0 as int].push(r.0)),
        heap@.region_of(v) is None || heap@.region_of(v) == Some(region) ==> after@ == heap@,
        after@.objects == heap@.objects,
{
    reveal_with_fuel(HeapState::adopted, 3);
    assert(values@.drop_last() =~= Seq::empty());
    if let Some(i) = heap@.target(v) {
        assert(heap@.owners[i] < heap@.counts.len());
    }
}

/// An edge that is recorded and forgotten again leaves the edges as they were.
pub proof fn lemma_edge_comes_and_goes(
    heap: FiberHeap,
    with: FiberHeap,
    back: FiberHeap,
    from: RuntimeRegion,
    to: RuntimeRegion,
)
    requires
        heap@.valid(),
        from.0 < heap@.counts.len(),
        to.0 < heap@.counts.len(),
        from.0 != to.0,
        edge_added(heap, with, Some(from), Some(to)),
        edge_dropped(with, back, Some(from), Some(to)),
    ensures
        with@.edges[from.0 as int] == heap@.edges[from.0 as int].push(to.0),
        back@.edges[from.0 as int].to_multiset() == heap@.edges[from.0 as int].to_multiset(),
        forall|i: int| 0 <= i < heap@.edges.len() && i != from.0 ==> #[trigger] back@.edges[i] == heap@.edges[i],
        back@.counts == heap@.counts,
{
    let e = heap@.edges[from.0 as int];
    lemma_without_first_of_push(e, to.0);
}

proof fn lemma_without_first_of_push(e: Seq<u32>, x: u32)
    ensures
        crate::heap::without_first(e.push(x), x).to_multiset() == e.to_multiset(),
{
    broadcast use vstd::seq_lib::group_to_multiset_ensures;

    let f = e.push(x);
    crate::heap::lemma_without_first_counts(f, x);
    assert(f[f.len() - 1] == x);
    assert(f.contains(x));
    let w = crate::heap::without_first(f, x).to_multiset();
    assert(f.to_multiset() == e.to_multiset().insert(x));
    assert(w.insert(x).remove(x) =~= w);
    assert(e.to_multiset().insert(x).remove(x) =~= e.to_multiset());
}

/// A keyword that was interned is spelled as it was, and interning it again gives the
/// same one.
pub proof fn lemma_keyword_is_spelled_as_interned(
    heap: FiberHeap,
    after: FiberHeap,
    again: FiberHeap,
    name: String,
    v: Value,
    w: Value,
    spelled: Option<String>,
)
    requires
        heap@.keywords.len() < u32::MAX,
        keyword_interned(heap, after, name, v),
        keyword_interned(after, again, name, w),
        call_ensures(FiberHeap::keyword_spelling, (&after, v), spelled),
    ensures
        spelled is Some && spelled->0@ == name@,
        w == v,
        again@ == after@,
        forall|i: int| 0 <= i < heap@.keywords.len() ==> i < after@.keywords.len() && #[trigger] after@.keywords[i]
            == heap@.keywords[i],
{
    assert(after@.keywords[after@.keywords.index_of(name@)] == name@);
}

/// The default traits of a type are what they were last set to; no other type's change.
pub proof fn lemma_default_traits_are_what_was_set(
    heap: FiberHeap,
    after: FiberHeap,
    tag: HeapTag,
    other: HeapTag,
    traits: Value,
    got: Value,
    had: Value,
    has: Value,
)
    requires
        heap@.valid(),
        traits_set(heap, after, tag, traits),
        call_ensures(FiberHeap::default_traits_for, (&after, tag), got),
        call_ensures(FiberHeap::default_traits_for, (&heap, other), had),
        call_ensures(FiberHeap::default_traits_for, (&after, other), has),
        other != tag,
    ensures
        got == traits,
        has == had,
        after@.objects == heap@.objects,
{
}

/// A cell that is set holds what it was set to; no other object changes.
pub proof fn lemma_cell_holds_what_was_set(
    heap: FiberHeap,
    after: FiberHeap,
    cell: Value,
    value: Value,
    other: Value,
)
    requires
        heap@.target(cell) is Some,
        heap@.object(cell) is LBox || heap@.object(cell) is CaptureCell,
        cell_set(heap, after, cell, value),
        heap@.target(other) is Some,
        heap@.target(other) != heap@.target(cell),
    ensures
        heap@.object(cell) is LBox ==> (after@.object(cell) matches HeapObject::LBox { cell: c, .. } && c == value),
        heap@.object(cell) is CaptureCell ==> (after@.object(cell) matches HeapObject::CaptureCell { cell: c, .. } && c
            == value),
        after@.object(other) == heap@.object(other),
        after@.counts == heap@.counts,
{
}

/// An item that is pushed stands at the end of the array, and one that is inserted stands
/// where it was put; all other elements keep their order.
pub proof fn lemma_stored_items_stand_in_place(
    heap: FiberHeap,
    ha: FiberHeap,
    hb: FiberHeap,
    arr: Value,
    set: Value,
    at: usize,
    item: Value,
    r: Value,
)
    requires
        heap@.target(arr) is Some,
        heap@.object(arr) is LArrayMut,
        item_pushed(heap, ha, arr, item, r),
        heap@.target(set) is Some,
        heap@.object(set) is LSetMut,
        at <= heap@.object(set)->LSetMut_data@.len(),
        item_inserted(heap, hb, set, at, item),
    ensures
        r == arr,
        ha@.object(arr)->LArrayMut_data@.len() == heap@.object(arr)->LArrayMut_data@.len() + 1,
        ha@.object(arr)->LArrayMut_data@.last() == item,
        forall|i: int|
            0 <= i < heap@.object(arr)->LArrayMut_data@.len() ==> #[trigger] ha@.object(arr)->LArrayMut_data@[i]
                == heap@.object(arr)->LArrayMut_data@[i],
        hb@.object(set)->LSetMut_data@.len() == heap@.object(set)->LSetMut_data@.len() + 1,
        hb@.object(set)->LSetMut_data@[at as int] == item,
        forall|i: int| 0 <= i < at ==> #[trigger] hb@.object(set)->LSetMut_data@[i]
            == heap@.object(set)->LSetMut_data@[i],
        forall|i: int|
            at <= i < heap@.object(set)->LSetMut_data@.len() ==> hb@.object(set)->LSetMut_data@[i + 1]
                == #[trigger] heap@.object(set)->LSetMut_data@[i],
{
}

/// A set that is put in order has at each place the element that the order names.
pub proof fn lemma_ordered_set_follows_the_order(
    heap: FiberHeap,
    after: FiberHeap,
    set: Value,
    order: Vec<usize>,
    k: int,
)
    requires
        heap@.target(set) is Some,
        heap@.object(set) is LSet,
        set_ordered(heap, after, set, order),
        order@.len() == heap@.object(set)->LSet_data@.len(),
        0 <= k < order@.len(),
        order@[k] < order@.len(),
    ensures
        after@.object(set) is LSet,
        after@.object(set)->LSet_data@.len() == order@.len(),
        after@.object(set)->LSet_data@[k] == heap@.object(set)->LSet_data@[order@[k] as int],
{
}

/// Parameters are numbered one after another, and one that was made has its number and
/// its default.
pub proof fn lemma_parameter_has_its_number_and_default(
    ctx: Alloc,
    heap: FiberHeap,
    after: FiberHeap,
    default: Value,
    v: Value,
    numbered: FiberHeap,
    n: u32,
    m: u32,
    again: FiberHeap,
)
    requires
        ctx.ready(heap@, 4),
        parameter_made(ctx, heap, after, default, v),
        parameter_numbered(heap, numbered, n),
        parameter_numbered(numbered, again, m),
        n < u32::MAX,
    ensures
        parameter_at(after@, v) == Some((n, default)),
        m == n + 1,
{
    let start = HeapState {
        next_param: vstd::wrapping::u32_specs::wrapping_add(heap@.next_param, 1),
        ..heap@
    };
    assert(start.valid());
    assert(start.room(1)) by {
        assert forall|i: int| 0 <= i < start.counts.len() implies #[trigger] start.counts[i] + 1 <= u32::MAX by {
            assert(heap@.counts[i] + 4 <= u32::MAX);
        }
    }
    crate::laws::collections::lemma_newborn_reads_back(start, after@, ctx.home(), v);
}

proof fn lemma_listed(s: HeapState, region: u32, values: Seq<Value>, fuel: nat)
    requires
        s.valid(),
        region < s.counts.len(),
        s.objects.len() + values.len() <= crate::heap::MAX_OBJECTS,
        fuel >= values.len(),
    ensures
        listed(s, region, values).0.valid(),
        listed(s, region, values).0.objects.len() == s.objects.len() + values.len(),
        listed(s, region, values).0.counts.len() == s.counts.len(),
        list_items(listed(s, region, values).0, listed(s, region, values).1, fuel) == Some(values),
    decreases values.len(),
{
    if values.len() > 0 {
        let rest_values = values.skip(1);
        lemma_listed(s, region, rest_values, (fuel - 1) as nat);
        let (rs, rest) = listed(s, region, rest_values);
        let pair = HeapObject::Pair(Pair { first: values[0], rest, traits: rs.traits[HeapTag::Pair.slot()] });
        lemma_allocated(rs, pair, region);
        let after = rs.allocated(pair, region);
        let v = after.newest();
        assert(after.resolves(v));
        assert(after.object(v) == pair);
        lemma_items_kept(rs, after, rest, (fuel - 1) as nat);
        assert(seq![values[0]] + rest_values =~= values);
    } else {
        assert(values =~= Seq::empty());
    }
}

proof fn lemma_items_kept(a: HeapState, b: HeapState, v: Value, fuel: nat)
    requires
        list_items(a, v, fuel) is Some,
        a.objects.len() <= b.objects.len(),
        forall|i: int| 0 <= i < a.objects.len() ==> #[trigger] b.objects[i] == a.objects[i],
    ensures
        list_items(b, v, fuel) == list_items(a, v, fuel),
    decreases fuel,
{
    if v.tag != TAG_EMPTY_LIST {
        assert(b.target(v) == a.target(v));
        assert(b.object(v) == a.object(v));
        match a.object(v) {
            HeapObject::Pair(p) => {
                lemma_items_kept(a, b, p.rest, (fuel - 1) as nat);
            },
            _ => {},
        }
    }
}

/// A list that is made of values gives those values back, in order.
pub proof fn lemma_list_gives_its_values_back(
    ctx: Alloc,
    heap: FiberHeap,
    after: FiberHeap,
    values: Vec<Value>,
    v: Value,
    got: Option<Vec<Value>>,
)
    requires
        heap@.valid(),
        ctx.home().0 < heap@.counts.len(),
        heap@.objects.len() + values@.len() <= crate::heap::MAX_OBJECTS,
        list_made(ctx, heap, after, values, v),
        call_ensures(list_to_vec, (&after, v), got),
    ensures
        got is Some,
        got->0@ == values@,
{
    lemma_listed(heap@, ctx.home().0, values@, heap@.objects.len() + values@.len());
}

/// A fiber that is entered in the table has the next number, and no other fiber changes;
/// a fiber that is there is held.
pub proof fn lemma_entered_fiber_is_found(
    table: FiberTable,
    after: FiberTable,
    ctx: Alloc,
    heap: FiberHeap,
    heap_after: FiberHeap,
    f: Fiber,
    v: Value,
    h: u32,
    there: bool,
    held: bool,
    got: &Fiber,
)
    requires
        fiber_entered(table, after, ctx, heap, heap_after, f, v),
        h == table.slots@.len(),
        call_ensures(FiberTable::is_present, (&after, h), there),
        call_ensures(FiberTable::is_held, (&after, h), held),
        call_ensures(FiberTable::get, (&after, h), got),
    ensures
        there,
        held,
        *got == f,
        forall|i: int| 0 <= i < table.slots@.len() ==> #[trigger] after.slots@[i] == table.slots@[i],
{
}

/// The value of a signal that is retained keeps its region: one reference more, whatever
/// the bits. Discarding that signal gives it up again.
pub proof fn lemma_signal_value_is_kept_alive(s: HeapState, bits: SignalBits, v: Value, r: RuntimeRegion)
    requires
        s.valid(),
        s.region_of(v) == Some(r),
        s.counts[r.0 as int] > 0,
    ensures
        signal_retained(s, Some((bits, v))).counts[r.0 as int] == s.counts[r.0 as int] + 1,
        signal_retained(s, Some((bits, v))).objects == s.objects,
        signal_retained(s, None) == s,
        signal_discarded(signal_retained(s, Some((bits, v))), Some((bits, v))).counts =~= s.counts,
        signal_discarded(s, None) == s,
{
    assert(s.owners[s.target(v)->0] < s.counts.len());
    reveal_with_fuel(HeapState::released, 3);
    let work = seq![r.0];
    assert(work.subrange(1, 1) =~= Seq::empty());
    let t = signal_retained(s, Some((bits, v)));
    assert(t.region_of(v) == Some(r));
}

/// A result that a fiber ended with is parked with it: its region is referred to once
/// more, and the fiber's region holds it. One that it may go on from is not.
pub proof fn lemma_terminal_result_is_parked(
    s: HeapState,
    fiber_value: Value,
    bits: SignalBits,
    v: Value,
    home: RuntimeRegion,
    r: RuntimeRegion,
)
    requires
        s.valid(),
        s.region_of(v) == Some(r),
        s.region_of(fiber_value) == Some(home),
        home != r,
    ensures
        bits.has(0) || bits.has(8) || (forall|i: int| !#[trigger] bits.has(i)) ==> {
            let t = terminal_parked(s, fiber_value, Some((bits, v)));
            &&& t.counts[r.0 as int] == s.counts[r.0 as int] + 1
            &&& t.edges[home.0 as int] == s.edges[home.0 as int].push(r.0)
        },
        !bits.has(0) && !bits.has(8) && bits != SignalBits::empty() ==> terminal_parked(
            s,
            fiber_value,
            Some((bits, v)),
        ) == s && terminal_displaced(s, fiber_value, Some((bits, v))) == s,
{
    assert(s.owners[s.target(v)->0] < s.counts.len());
    assert(s.owners[s.target(fiber_value)->0] < s.counts.len());
    crate::laws::words::lemma_masked_bits(bits.bits);
    if forall|i: int| !#[trigger] bits.has(i) {
        if bits.bits != 0 {
            let i = crate::bits::lemma_nonzero_has_bit(bits.bits);
            assert(bits.has(i));
        }
    }
}

/// Of a parked signal the reference is given up where it waits for nothing more: an I/O
/// signal whose answer lives elsewhere, or the payload of a denial. Any other is kept.
pub proof fn lemma_parked_signal_is_given_up_when_answered(
    s: HeapState,
    bits: SignalBits,
    v: Value,
    denial: Option<Value>,
    answer: Value,
    r: RuntimeRegion,
)
    requires
        s.valid(),
        s.region_of(v) == Some(r),
    ensures
        bits.meets(SignalBits::new(SIG_IO)) && s.region_of(answer) != Some(r) ==> park_released(
            s,
            Some((bits, v)),
            denial,
            answer,
        ) == s.decref(r.0),
        bits.meets(SignalBits::new(SIG_IO)) && s.region_of(answer) == Some(r) ==> park_released(
            s,
            Some((bits, v)),
            denial,
            answer,
        ) == s,
        !bits.meets(SignalBits::new(SIG_IO)) && denial != Some(v) ==> park_released(
            s,
            Some((bits, v)),
            denial,
            answer,
        ) == s,
        !bits.meets(SignalBits::new(SIG_IO)) && denial == Some(v) ==> park_released(
            s,
            Some((bits, v)),
            denial,
            answer,
        ) == s.decref(r.0),
        denial == Some(v) ==> denial_displaced(s, Some((bits, v)), denial) == s.decref(r.0),
        denial != Some(v) ==> denial_displaced(s, Some((bits, v)), denial) == s,
        park_released(s, None, denial, answer) == s,
{
}

} // verus!
