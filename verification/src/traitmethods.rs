//! The methods that built-in collections have by default.

use vstd::prelude::*;

use crate::ctx::{birth, born, is_text, Alloc};
use crate::def::{literals, PrimitiveDef, RegionEffect, RetType};
use crate::fiber::{does_nothing, Fiber, FiberStatus, NativeIter};
use crate::fibertable::{fiber_born, fiber_content, FiberTable, Slot};
use crate::fields::{field_is, keys_sorted, lemma_field_unique, put_field};
use crate::heap::{lemma_allocated, rooted, stored, FiberHeap, HeapState, RuntimeRegion};
use crate::materialize::lemma_room_less;
use crate::object::{push_values, Arity, HeapObject, HeapTag, TableKey};
use crate::prim::{as_string, fail, failed, returned, string_at, type_error, type_error_text};
use crate::registration::{prim_id_of, PrimRegistry};
use crate::sendmirror::points_right;
use crate::signalbits::SignalBits;
use crate::signals::{plain, Signal, SIG_ERROR, SIG_OK, SIG_YIELD};
use crate::value::{
    Value, TAG_ARRAY, TAG_ARRAY_MUT, TAG_BYTES, TAG_BYTES_MUT, TAG_CONS, TAG_EMPTY_LIST, TAG_INT,
    TAG_SET, TAG_SET_MUT, TAG_STRING, TAG_STRING_MUT, TAG_STRUCT, TAG_STRUCT_MUT,
};

verus! {

/// What an operation on a sequence gave: a value, or an error value.
pub open spec fn answered(result: Result<Value, Value>) -> (SignalBits, Value) {
    match result {
        Ok(v) => returned(v),
        Err(e) => (SignalBits::new(SIG_ERROR), e),
    }
}

fn answer(result: Result<Value, Value>) -> (r: (SignalBits, Value))
    ensures
        r == answered(result),
{
    match result {
        Ok(v) => (SignalBits::new(SIG_OK), v),
        Err(e) => (SignalBits::new(SIG_ERROR), e),
    }
}

/// The first element, as the sequence operation gave it.
pub fn trait_seq_first(first: Result<Value, Value>) -> (r: (SignalBits, Value))
    ensures
        r == answered(first),
{
    answer(first)
}

/// The rest of a sequence, as the sequence operation gave it.
pub fn trait_seq_rest(rest: Result<Value, Value>) -> (r: (SignalBits, Value))
    ensures
        r == answered(rest),
{
    answer(rest)
}

/// The last element, as the sequence operation gave it.
pub fn trait_seq_last(last: Result<Value, Value>) -> (r: (SignalBits, Value))
    ensures
        r == answered(last),
{
    answer(last)
}

/// What a lookup by index does next.
pub enum NthStep {
    /// The call is over.
    Done((SignalBits, Value)),
    /// Look up this index.
    Look(i64),
}

/// How a lookup by index begins.
pub open spec fn nth_asked(
    ctx: Alloc,
    heap: FiberHeap,
    heap_after: FiberHeap,
    args: Vec<Value>,
    kinds: Vec<String>,
    r: NthStep,
) -> bool {
    &&& args@[1].tag == TAG_INT ==> r == NthStep::Look(args@[1].payload as i64) && heap_after@ == heap@
    &&& args@[1].tag != TAG_INT ==> match r {
            NthStep::Done(e) => failed(
                heap@,
                heap_after@,
                ctx.home(),
                "type-error"@,
                type_error_text("nth"@, "integer index"@, kinds@[1]@),
                e,
            ),
            _ => false,
        }
}

/// Begin a lookup by index: the index must be an integer.
pub fn trait_seq_nth(
    ctx: &Alloc,
    heap: &mut FiberHeap,
    args: &Vec<Value>,
    kinds: &Vec<String>,
) -> (r: NthStep)
    requires
        kinds@.len() == args@.len(),
        args@.len() == 2,
        ctx.ready(old(heap)@, 8),
    ensures
        nth_asked(
            *ctx,
            *old(heap),
            *final(heap),
            *args,
            *kinds,
            r,
        ),
{
    match args[1].as_int() {
        Some(n) => NthStep::Look(n),
        None => NthStep::Done(type_error(ctx, heap, &kinds[1], "nth", "integer index")),
    }
}

/// What iterating over a collection gives.
pub open spec fn iterator_made(
    ctx: Alloc,
    heap: FiberHeap,
    heap_after: FiberHeap,
    fibers: FiberTable,
    fibers_after: FiberTable,
    elements: Result<Vec<Value>, Value>,
    r: (SignalBits, Value),
) -> bool {
    &&& match elements {
            Err(e) => r == answered(Err(e)) && fibers_after == fibers && heap_after@ == heap@,
            Ok(items) => {
                &&& fibers_after.slots@.len() == fibers.slots@.len() + 1
                &&& fibers_after.slots@.drop_last() == fibers.slots@
                &&& fibers_after.slots@.last() matches Slot::Present(f)
                &&& f.status == FiberStatus::Paused
                &&& f.fresh(f.closure, SignalBits::new(SIG_YIELD))
                &&& does_nothing(*f.closure)
                &&& f.native_iter == Some(NativeIter { elements: items, cursor: 0 })
                &&& heap_after@ == fiber_born(
                    heap@,
                    ctx.home(),
                    fibers.slots@.len() as u32,
                    f,
                )
                &&& r == returned(heap_after@.newest())
            },
        }
}

/// An iterator over a collection's elements: a fiber that yields them one by one.
pub fn trait_seq_iter(
    ctx: &Alloc,
    heap: &mut FiberHeap,
    fibers: &mut FiberTable,
    elements: Result<Vec<Value>, Value>,
) -> (r: (SignalBits, Value))
    requires
        old(fibers).slots@.len() < u32::MAX,
        ctx.ready(old(heap)@, 3),
    ensures
        iterator_made(
            *ctx,
            *old(heap),
            *final(heap),
            *old(fibers),
            *final(fibers),
            elements,
            r,
        ),
{
    let items = match elements {
        Ok(items) => items,
        Err(e) => {
            return (SignalBits::new(SIG_ERROR), e);
        },
    };
    let f = Fiber::native_iter(items, SignalBits::new(SIG_YIELD));
    let ghost made = f;
    proof {
        assert(fiber_content(f).len() <= 1);
        lemma_room_less(heap@, 3, fiber_content(f).len() + 2);
    }
    let v = fibers.allocate(ctx, heap, f);
    proof {
        assert(fibers.slots@.drop_last() =~= old(fibers).slots@);
    }
    (SignalBits::new(SIG_OK), v)
}

/// The number of elements, as the collection operation gave it.
pub fn trait_coll_length(length: Result<usize, Value>) -> (r: (SignalBits, Value))
    requires
        length matches Ok(n) ==> n <= i64::MAX,
    ensures
        r == answered(
            match length {
                Ok(n) => Ok(Value::integer(n as i64)),
                Err(e) => Err(e),
            },
        ),
{
    match length {
        Ok(n) => (SignalBits::new(SIG_OK), Value::integer(n as i64)),
        Err(e) => (SignalBits::new(SIG_ERROR), e),
    }
}

/// A yes or no, as the collection operation gave it.
pub open spec fn answered_bool(result: Result<bool, Value>) -> (SignalBits, Value) {
    match result {
        Ok(b) => returned(Value::bool(b)),
        Err(e) => (SignalBits::new(SIG_ERROR), e),
    }
}

/// Whether there is no element, as the collection operation gave it.
pub fn trait_coll_empty(empty: Result<bool, Value>) -> (r: (SignalBits, Value))
    ensures
        r == answered_bool(empty),
{
    match empty {
        Ok(b) => (SignalBits::new(SIG_OK), Value::bool(b)),
        Err(e) => (SignalBits::new(SIG_ERROR), e),
    }
}

/// Whether an element is there, as the collection operation gave it.
pub fn trait_coll_has(found: Result<bool, Value>) -> (r: (SignalBits, Value))
    ensures
        r == answered_bool(found),
{
    match found {
        Ok(b) => (SignalBits::new(SIG_OK), Value::bool(b)),
        Err(e) => (SignalBits::new(SIG_ERROR), e),
    }
}

/// Room for a copy of a collection with one more element, or for an error.
pub open spec fn copy_room(s: HeapState, coll: Value) -> nat {
    if s.target(coll) is Some {
        s.object(coll).children().len() + 8
    } else {
        8
    }
}

/// An array of these elements was born.
pub open spec fn array_born(
    before: HeapState,
    after: HeapState,
    home: RuntimeRegion,
    items: Seq<Value>,
    r: (SignalBits, Value),
) -> bool {
    &&& r.0 == SignalBits::new(SIG_OK)
    &&& born(before, after, home, r.1)
    &&& birth(after) matches HeapObject::LArray { elements, traits }
    &&& elements@ == items
    &&& traits == before.traits[HeapTag::LArray.slot()]
}

/// A set of these elements was born.
pub open spec fn set_born(
    before: HeapState,
    after: HeapState,
    home: RuntimeRegion,
    items: Seq<Value>,
    r: (SignalBits, Value),
) -> bool {
    &&& r.0 == SignalBits::new(SIG_OK)
    &&& born(before, after, home, r.1)
    &&& birth(after) matches HeapObject::LSet { data, traits }
    &&& data@ == items
    &&& traits == before.traits[HeapTag::LSet.slot()]
}

/// A string of this text was born.
pub open spec fn string_born(
    before: HeapState,
    after: HeapState,
    home: RuntimeRegion,
    text: Seq<char>,
    r: (SignalBits, Value),
) -> bool {
    &&& r.0 == SignalBits::new(SIG_OK)
    &&& born(before, after, home, r.1)
    &&& is_text(birth(after), text)
    &&& birth(after)->LString_traits == before.traits[HeapTag::LString.slot()]
}

/// Bytes were born.
pub open spec fn bytes_born(
    before: HeapState,
    after: HeapState,
    home: RuntimeRegion,
    bytes: Seq<u8>,
    r: (SignalBits, Value),
) -> bool {
    &&& r.0 == SignalBits::new(SIG_OK)
    &&& born(before, after, home, r.1)
    &&& birth(after) matches HeapObject::LBytes { data, traits }
    &&& data@ == bytes
    &&& traits == before.traits[HeapTag::LBytes.slot()]
}

/// The text of a string, nothing for any other value.
pub open spec fn text_or_none(s: HeapState, v: Value) -> Seq<char> {
    match string_at(s, v) {
        Some(text) => text,
        None => Seq::empty(),
    }
}

/// A value is an integer that fits a byte.
pub open spec fn is_byte(v: Value) -> bool {
    v.tag == TAG_INT && 0 <= (v.payload as i64) <= 255
}

/// What adding an item to a collection gives.
pub open spec fn conjoined(
    before: HeapState,
    after: HeapState,
    home: RuntimeRegion,
    coll: Value,
    item: Value,
    frozen: Value,
    place: Option<usize>,
    kind: Seq<char>,
    r: (SignalBits, Value),
) -> bool {
    if coll.tag == TAG_EMPTY_LIST || coll.tag == TAG_CONS {
        &&& r.0 == SignalBits::new(SIG_OK)
        &&& born(before, after, home, r.1)
        &&& birth(after) matches HeapObject::Pair(p)
        &&& p.first == item && p.rest == coll && p.traits == before.traits[HeapTag::Pair.slot()]
    } else {
        match before.object(coll) {
            HeapObject::LArray { elements, .. } if coll.tag == TAG_ARRAY => array_born(
                before,
                after,
                home,
                elements@.push(item),
                r,
            ),
            HeapObject::LArrayMut { data, traits } if coll.tag == TAG_ARRAY_MUT => {
                &&& r == returned(coll)
                &&& stored(before, after, coll, item)
                &&& after.object(coll) matches HeapObject::LArrayMut { data: d, traits: t }
                &&& d@ == data@.push(item) && t == traits
            },
            HeapObject::LSet { data, .. } if coll.tag == TAG_SET => set_born(
                before,
                after,
                home,
                match place {
                    Some(at) => data@.insert(at as int, frozen),
                    None => data@,
                },
                r,
            ),
            HeapObject::LSetMut { data, traits } if coll.tag == TAG_SET_MUT => r == returned(coll)
                && match place {
                Some(at) => {
                    &&& stored(before, after, coll, frozen)
                    &&& after.object(coll) matches HeapObject::LSetMut { data: d, traits: t }
                    &&& d@ == data@.insert(at as int, frozen) && t == traits
                },
                None => after == before,
            },
            HeapObject::LString { s, .. } if coll.tag == TAG_STRING => string_born(
                before,
                after,
                home,
                s@ + text_or_none(before, item),
                r,
            ),
            HeapObject::LBytes { data, .. } if coll.tag == TAG_BYTES && is_byte(item) => bytes_born(
                before,
                after,
                home,
                data@.push(item.payload as u8),
                r,
            ),
            _ => failed(
                before,
                after,
                home,
                "type-error"@,
                "conj: unsupported collection type "@ + kind,
                r,
            ),
        }
    }
}

/// Add an item to a collection. A list gets it at its front, an array, a string or
/// bytes at the end. A set gets its frozen form, at the place that the order of
/// values gives it, unless it is there already. Mutable collections change in
/// place; of any other a new one is made.
pub fn trait_coll_conj(
    ctx: &Alloc,
    heap: &mut FiberHeap,
    args: &Vec<Value>,
    kinds: &Vec<String>,
    frozen: Value,
    place: Option<usize>,
) -> (r: (SignalBits, Value))
    requires
        kinds@.len() == args@.len(),
        args@.len() == 2,
        points_right(old(heap)@, args@[0]),
        ctx.ready(old(heap)@, copy_room(old(heap)@, args@[0])),
        place matches Some(at) ==> match old(heap)@.object(args@[0]) {
            HeapObject::LSet { data, .. } => at <= data@.len(),
            HeapObject::LSetMut { data, .. } => at <= data@.len(),
            _ => true,
        },
    ensures
        conjoined(
            old(heap)@,
            final(heap)@,
            ctx.home(),
            args@[0],
            args@[1],
            frozen,
            place,
            kinds@[0]@,
            r,
        ),
{
    let coll = args[0];
    let item = args[1];
    let ghost start = heap@;
    let ghost room = copy_room(start, coll);
    if coll.tag == TAG_CONS || coll.tag == TAG_EMPTY_LIST {
        proof {
            lemma_room_less(start, room, 4);
        }
        let v = ctx.pair(heap, item, coll);
        return (SignalBits::new(SIG_OK), v);
    }
    let tag = coll.tag;
    if let Some(obj) = heap.deref(coll) {
        match obj {
            HeapObject::LArray { elements, .. } => {
                if tag == TAG_ARRAY {
                    let mut new: Vec<Value> = Vec::new();
                    push_values(&mut new, elements);
                    new.push(item);
                    assert(new@ =~= elements@.push(item));
                    proof {
                        assert(start.object(coll).children().len() == elements@.len() + 1);
                        lemma_room_less(start, room, new@.len() + 2);
                    }
                    let v = ctx.array(heap, new);
                    return (SignalBits::new(SIG_OK), v);
                }
            },
            HeapObject::LArrayMut { .. } => {
                if tag == TAG_ARRAY_MUT {
                    proof {
                        lemma_room_less(start, room, 1);
                    }
                    let v = heap.push_with_incref(coll, item);
                    return (SignalBits::new(SIG_OK), v);
                }
            },
            HeapObject::LSet { data, .. } => {
                if tag == TAG_SET {
                    let mut new: Vec<Value> = Vec::new();
                    push_values(&mut new, data);
                    assert(new@ =~= data@);
                    if let Some(at) = place {
                        new.insert(at, frozen);
                    }
                    proof {
                        assert(start.object(coll).children().len() == data@.len() + 1);
                        lemma_room_less(start, room, new@.len() + 2);
                    }
                    let v = ctx.set(heap, new);
                    return (SignalBits::new(SIG_OK), v);
                }
            },
            HeapObject::LSetMut { .. } => {
                if tag == TAG_SET_MUT {
                    if let Some(at) = place {
                        proof {
                            lemma_room_less(start, room, 1);
                        }
                        heap.insert_with_incref(coll, at, frozen);
                    }
                    return (SignalBits::new(SIG_OK), coll);
                }
            },
            HeapObject::LString { s, .. } => {
                if tag == TAG_STRING {
                    let mut new = s.clone();
                    if let Some(more) = as_string(heap, item) {
                        new.append(more.as_str());
                    }
                    assert(new@ =~= s@ + text_or_none(start, item));
                    proof {
                        lemma_room_less(start, room, 2);
                    }
                    let v = ctx.string(heap, &new);
                    return (SignalBits::new(SIG_OK), v);
                }
            },
            HeapObject::LBytes { data, .. } => {
                if tag == TAG_BYTES {
                    if let Some(n) = item.as_int() {
                        if n >= 0 && n <= 255 {
                            let mut new = data.clone();
                            assert(item.payload as i64 == n);
                            proof {
                                lemma_byte(item.payload, n);
                            }
                            new.push(n as u8);
                            proof {
                                lemma_room_less(start, room, 2);
                            }
                            let v = ctx.bytes(heap, new);
                            return (SignalBits::new(SIG_OK), v);
                        }
                    }
                }
            },
            _ => {},
        }
    }
    let mut msg = "conj: unsupported collection type ".to_string();
    msg.append(kinds[0].as_str());
    proof {
        lemma_room_less(start, room, 8);
    }
    fail(ctx, heap, "type-error", &msg)
}

/// An integer that fits a byte has that byte as its lowest.
proof fn lemma_byte(payload: u64, n: i64)
    requires
        payload as i64 == n,
        0 <= n <= 255,
    ensures
        payload as u8 == n as u8,
{
    assert(payload as i64 == n && 0 <= n && n <= 255 ==> payload as u8 == n as u8) by (bit_vector);
}

/// An empty collection of the same type.
pub open spec fn emptied(
    before: HeapState,
    after: HeapState,
    home: RuntimeRegion,
    coll: Value,
    kind: Seq<char>,
    r: (SignalBits, Value),
) -> bool {
    if coll.tag == TAG_CONS || coll.tag == TAG_EMPTY_LIST {
        r == returned(Value::empty_list()) && after == before
    } else if is_collection(coll.tag) {
        &&& r.0 == SignalBits::new(SIG_OK)
        &&& born(before, after, home, r.1)
        &&& r.1.tag == coll.tag
        &&& is_empty_of(before, birth(after))
    } else {
        failed(
            before,
            after,
            home,
            "type-error"@,
            "empty: unsupported collection type "@ + kind,
            r,
        )
    }
}

/// A collection type other than the list.
pub open spec fn is_collection(tag: u64) -> bool {
    ||| tag == TAG_ARRAY
    ||| tag == TAG_ARRAY_MUT
    ||| tag == TAG_SET
    ||| tag == TAG_SET_MUT
    ||| tag == TAG_STRUCT
    ||| tag == TAG_STRUCT_MUT
    ||| tag == TAG_STRING
    ||| tag == TAG_STRING_MUT
    ||| tag == TAG_BYTES
    ||| tag == TAG_BYTES_MUT
}

/// The object is an empty collection with the default traits of its type.
pub open spec fn is_empty_of(s: HeapState, obj: HeapObject) -> bool {
    match obj {
        HeapObject::LArray { elements, traits } => elements@.len() == 0 && traits
            == s.traits[HeapTag::LArray.slot()],
        HeapObject::LArrayMut { data, traits } => data@.len() == 0 && traits
            == s.traits[HeapTag::LArrayMut.slot()],
        HeapObject::LSet { data, traits } => data@.len() == 0 && traits == s.traits[HeapTag::LSet.slot()],
        HeapObject::LSetMut { data, traits } => data@.len() == 0 && traits
            == s.traits[HeapTag::LSetMut.slot()],
        HeapObject::LStruct { data, traits } => data@.len() == 0 && traits
            == s.traits[HeapTag::LStruct.slot()],
        HeapObject::LStructMut { data, traits } => data@.len() == 0 && traits
            == s.traits[HeapTag::LStructMut.slot()],
        HeapObject::LString { s: text, traits } => text@.len() == 0 && traits
            == s.traits[HeapTag::LString.slot()],
        HeapObject::LStringMut { data, traits } => data@.len() == 0 && traits
            == s.traits[HeapTag::LStringMut.slot()],
        HeapObject::LBytes { data, traits } => data@.len() == 0 && traits
            == s.traits[HeapTag::LBytes.slot()],
        HeapObject::LBytesMut { data, traits } => data@.len() == 0 && traits
            == s.traits[HeapTag::LBytesMut.slot()],
        _ => false,
    }
}

/// Make an empty collection of the same type.
pub fn trait_coll_empty_new(
    ctx: &Alloc,
    heap: &mut FiberHeap,
    args: &Vec<Value>,
    kinds: &Vec<String>,
) -> (r: (SignalBits, Value))
    requires
        kinds@.len() == args@.len(),
        args@.len() == 1,
        ctx.ready(old(heap)@, 8),
    ensures
        emptied(old(heap)@, final(heap)@, ctx.home(), args@[0], kinds@[0]@, r),
{
    let coll = args[0];
    let tag = coll.tag;
    let ghost start = heap@;
    proof {
        lemma_room_less(start, 8, 2);
    }
    let v = if tag == TAG_ARRAY {
        ctx.array(heap, Vec::new())
    } else if tag == TAG_ARRAY_MUT {
        ctx.array_mut(heap, Vec::new())
    } else if tag == TAG_CONS || tag == TAG_EMPTY_LIST {
        Value::empty_list()
    } else if tag == TAG_SET {
        ctx.set(heap, Vec::new())
    } else if tag == TAG_SET_MUT {
        ctx.set_mut(heap, Vec::new())
    } else if tag == TAG_STRUCT {
        ctx.struct_from_sorted(heap, Vec::new())
    } else if tag == TAG_STRUCT_MUT {
        ctx.struct_mut(heap)
    } else if tag == TAG_STRING {
        ctx.string(heap, &String::new())
    } else if tag == TAG_STRING_MUT {
        ctx.string_mut(heap, Vec::new())
    } else if tag == TAG_BYTES {
        ctx.bytes(heap, Vec::new())
    } else if tag == TAG_BYTES_MUT {
        ctx.bytes_mut(heap, Vec::new())
    } else {
        let mut msg = "empty: unsupported collection type ".to_string();
        msg.append(kinds[0].as_str());
        return fail(ctx, heap, "type-error", &msg);
    };
    (SignalBits::new(SIG_OK), v)
}

/// A struct of these entries, without traits, was born in the root region.
pub open spec fn table_born(
    before: HeapState,
    after: HeapState,
    entries: Seq<(TableKey, Value)>,
    v: Value,
) -> bool {
    &&& after == rooted(before).0.allocated(after.objects.last(), rooted(before).1)
    &&& after.valid()
    &&& v == after.newest()
    &&& after.objects.last() matches HeapObject::LStruct { data, traits }
    &&& data@ == entries && traits == Value::nil()
}

/// Allocate a method table, for as long as the heap lives.
pub fn alloc_trait_table(heap: &mut FiberHeap, entries: Vec<(TableKey, Value)>) -> (r: Value)
    requires
        old(heap)@.valid(),
        old(heap)@.room(entries@.len() + 3),
    ensures
        table_born(old(heap)@, final(heap)@, entries@, r),
{
    let ghost start = heap@;
    let obj = HeapObject::LStruct { data: entries, traits: Value::nil() };
    proof {
        lemma_rooted(start, obj);
    }
    heap.alloc_root(obj)
}

/// An object in the root region is the newest one.
proof fn lemma_rooted(s: HeapState, obj: HeapObject)
    requires
        s.valid(),
        s.room(obj.children().len() + 2),
    ensures
        rooted(s).0.allocated(obj, rooted(s).1).objects.last() == obj,
{
    let (m, region) = rooted(s);
    if s.roots.len() == 0 {
        assert(m.valid()) by {
            assert forall|i: int, k: int|
                0 <= i < m.edges.len() && 0 <= k < m.edges[i].len() implies #[trigger] m.edges[i][k]
                < m.counts.len() by {
                assert(s.edges[i][k] < s.counts.len());
            }
            assert forall|i: int| 0 <= i < m.roots.len() implies m.roots[i] < m.counts.len() by {}
        }
    } else {
        assert(s.roots[0] < s.counts.len());
    }
    lemma_allocated(m, obj, region);
}

/// A mutable struct of these entries, without traits, was born in the root region.
pub open spec fn table_mut_born(
    before: HeapState,
    after: HeapState,
    entries: Seq<(TableKey, Value)>,
    v: Value,
) -> bool {
    &&& after == rooted(before).0.allocated(after.objects.last(), rooted(before).1)
    &&& after.valid()
    &&& v == after.newest()
    &&& after.objects.last() matches HeapObject::LStructMut { data, traits }
    &&& data@ == entries && traits == Value::nil()
}

/// Allocate a mutable method table, for as long as the heap lives.
pub fn alloc_trait_table_mut(heap: &mut FiberHeap, entries: Vec<(TableKey, Value)>) -> (r: Value)
    requires
        old(heap)@.valid(),
        old(heap)@.room(entries@.len() + 3),
    ensures
        table_mut_born(old(heap)@, final(heap)@, entries@, r),
{
    let ghost start = heap@;
    let obj = HeapObject::LStructMut { data: entries, traits: Value::nil() };
    proof {
        lemma_rooted(start, obj);
    }
    heap.alloc_root(obj)
}

/// What the traits of a type are made of.
pub open spec fn traitset_made(
    heap: FiberHeap,
    heap_after: FiberHeap,
    sequence: Option<Value>,
    collection: Option<Value>,
    r: Value,
) -> bool {
    &&& (exists|entries: Seq<(TableKey, Value)>| #[trigger]
            table_mut_born(heap@, heap_after@, entries, r) && keys_sorted(entries) && (forall|
                name: Seq<char>,
                v: Value,
            | #[trigger]
                field_is(entries, name, v) <==> (name == "Sequence"@ && sequence == Some(v)) || (name
                    == "Collection"@ && collection == Some(v))))
}

/// Build the traits of a type out of the method tables it has.
pub fn make_traitset(heap: &mut FiberHeap, sequence: Option<Value>, collection: Option<Value>) -> (r: Value)
    requires
        old(heap)@.valid(),
        old(heap)@.room(5),
    ensures
        traitset_made(
            *old(heap),
            *final(heap),
            sequence,
            collection,
            r,
        ),
{
    let ghost start = heap@;
    let mut entries: Vec<(TableKey, Value)> = Vec::new();
    proof {
        reveal_strlit("Sequence");
        reveal_strlit("Collection");
        assert("Sequence"@.len() == 8);
        assert("Collection"@.len() == 10);
    }
    if let Some(v) = sequence {
        put_field(&mut entries, "Sequence".to_string(), v);
        proof {
            assert forall|name: Seq<char>, w: Value| #[trigger] field_is(entries@, name, w) <==> name
                == "Sequence"@ && v == w by {
                if name == "Sequence"@ && field_is(entries@, name, w) {
                    lemma_field_unique(entries@, name, v, w);
                }
            }
        }
    }
    let ghost first = entries@;
    if let Some(v) = collection {
        put_field(&mut entries, "Collection".to_string(), v);
        proof {
            assert forall|name: Seq<char>, w: Value| #[trigger] field_is(entries@, name, w) <==> (name
                == "Sequence"@ && sequence == Some(w)) || (name == "Collection"@ && collection == Some(w)) by {
                if name == "Collection"@ {
                    if field_is(entries@, name, w) {
                        lemma_field_unique(entries@, name, v, w);
                    }
                } else {
                    assert(field_is(entries@, name, w) == field_is(first, name, w));
                }
            }
        }
    }
    let ghost made = entries@;
    proof {
        lemma_room_less(start, 5, made.len() + 3);
    }
    let v = alloc_trait_table_mut(heap, entries);
    assert(table_mut_born(start, heap@, made, v));
    v
}

/// A method's definition.
fn method(
    name: &'static str,
    doc: &'static str,
    second: Option<&'static str>,
    effect: RegionEffect,
    ret: RetType,
) -> (r: PrimitiveDef)
    ensures
        method_is(r, name@, doc@, second, effect, ret),
{
    let mut d = PrimitiveDef::blank();
    d.name = name;
    d.signal = Signal::errors();
    d.doc = doc;
    d.category = "trait";
    d.effect = effect;
    d.ret = ret;
    let mut params: Vec<&'static str> = Vec::new();
    params.push("self");
    d.arity = Arity::Exact(1);
    if let Some(p) = second {
        params.push(p);
        d.arity = Arity::Exact(2);
    }
    d.params = params;
    d
}

/// The definition of a method: it may fail, and takes its collection and at most
/// one more argument.
pub open spec fn method_is(
    d: PrimitiveDef,
    name: Seq<char>,
    doc: Seq<char>,
    second: Option<&'static str>,
    effect: RegionEffect,
    ret: RetType,
) -> bool {
    &&& d.name@ == name
    &&& d.signal == plain(SIG_ERROR)
    &&& d.doc@ == doc
    &&& d.category@ == "trait"@
    &&& d.effect == effect
    &&& d.ret == ret
    &&& d.example@ == ""@
    &&& d.aliases@.len() == 0
    &&& d.embeds@.len() == 0
    &&& !d.moves_out
    &&& !d.result_minted
    &&& d.params@.len() == match second {
        Some(_) => 2int,
        None => 1int,
    }
    &&& d.params@[0]@ == "self"@
    &&& second matches Some(p) ==> d.params@[1] == p
    &&& d.arity == match second {
        Some(_) => Arity::Exact(2),
        None => Arity::Exact(1),
    }
}

/// These are the definitions of the sequence methods.
pub open spec fn are_sequence_defs(s: Seq<PrimitiveDef>) -> bool {
    &&& s.len() == 5
    &&& method_is(
        s[0],
        "trait:Sequence:first"@,
        "Sequence trait: first element"@,
        None,
        RegionEffect::Funnel,
        RetType::Unknown,
    )
    &&& method_is(
        s[1],
        "trait:Sequence:rest"@,
        "Sequence trait: rest of sequence"@,
        None,
        RegionEffect::Funnel,
        RetType::Unknown,
    )
    &&& method_is(
        s[2],
        "trait:Sequence:last"@,
        "Sequence trait: last element"@,
        None,
        RegionEffect::Funnel,
        RetType::Unknown,
    )
    &&& method_is(
        s[3],
        "trait:Sequence:nth"@,
        "Sequence trait: nth element"@,
        Some("n"),
        RegionEffect::Funnel,
        RetType::Unknown,
    )
    &&& method_is(
        s[4],
        "trait:Sequence:iter"@,
        "Sequence trait: fiber iterator"@,
        None,
        RegionEffect::Fresh,
        RetType::Fiber,
    )
}

/// The sequence methods, in the order of `sequence_names`.
pub fn sequence_defs() -> (r: Vec<PrimitiveDef>)
    ensures
        are_sequence_defs(r@),
{
    let mut out: Vec<PrimitiveDef> = Vec::new();
    out.push(
        method(
            "trait:Sequence:first",
            "Sequence trait: first element",
            None,
            RegionEffect::Funnel,
            RetType::Unknown,
        ),
    );
    out.push(
        method(
            "trait:Sequence:rest",
            "Sequence trait: rest of sequence",
            None,
            RegionEffect::Funnel,
            RetType::Unknown,
        ),
    );
    out.push(
        method(
            "trait:Sequence:last",
            "Sequence trait: last element",
            None,
            RegionEffect::Funnel,
            RetType::Unknown,
        ),
    );
    out.push(
        method(
            "trait:Sequence:nth",
            "Sequence trait: nth element",
            Some("n"),
            RegionEffect::Funnel,
            RetType::Unknown,
        ),
    );
    out.push(
        method(
            "trait:Sequence:iter",
            "Sequence trait: fiber iterator",
            None,
            RegionEffect::Fresh,
            RetType::Fiber,
        ),
    );
    out
}

/// These are the definitions of the collection methods.
pub open spec fn are_collection_defs(s: Seq<PrimitiveDef>) -> bool {
    &&& s.len() == 5
    &&& method_is(
        s[0],
        "trait:Collection:length"@,
        "Collection trait: element count"@,
        None,
        RegionEffect::Immediate,
        RetType::Unknown,
    )
    &&& method_is(
        s[1],
        "trait:Collection:empty?"@,
        "Collection trait: is empty?"@,
        None,
        RegionEffect::Immediate,
        RetType::Unknown,
    )
    &&& method_is(
        s[2],
        "trait:Collection:has?"@,
        "Collection trait: membership test"@,
        Some("needle"),
        RegionEffect::Immediate,
        RetType::Unknown,
    )
    &&& method_is(
        s[3],
        "trait:Collection:conj"@,
        "Collection trait: add element"@,
        Some("item"),
        RegionEffect::Funnel,
        RetType::Unknown,
    )
    &&& method_is(
        s[4],
        "trait:Collection:empty"@,
        "Collection trait: empty container of same type"@,
        None,
        RegionEffect::Fresh,
        RetType::Unknown,
    )
}

/// The collection methods, in the order of `collection_names`.
pub fn collection_defs() -> (r: Vec<PrimitiveDef>)
    ensures
        are_collection_defs(r@),
{
    let mut out: Vec<PrimitiveDef> = Vec::new();
    out.push(
        method(
            "trait:Collection:length",
            "Collection trait: element count",
            None,
            RegionEffect::Immediate,
            RetType::Unknown,
        ),
    );
    out.push(
        method(
            "trait:Collection:empty?",
            "Collection trait: is empty?",
            None,
            RegionEffect::Immediate,
            RetType::Unknown,
        ),
    );
    out.push(
        method(
            "trait:Collection:has?",
            "Collection trait: membership test",
            Some("needle"),
            RegionEffect::Immediate,
            RetType::Unknown,
        ),
    );
    out.push(
        method(
            "trait:Collection:conj",
            "Collection trait: add element",
            Some("item"),
            RegionEffect::Funnel,
            RetType::Unknown,
        ),
    );
    out.push(
        method(
            "trait:Collection:empty",
            "Collection trait: empty container of same type",
            None,
            RegionEffect::Fresh,
            RetType::Unknown,
        ),
    );
    out
}

/// The entries name the methods, each by the number its definition has under its
/// key.
pub open spec fn methods_entered(
    reg: PrimRegistry,
    base: u64,
    names: Seq<&'static str>,
    entries: Seq<(TableKey, Value)>,
    ids: Seq<u32>,
) -> bool {
    &&& ids.len() == names.len()
    &&& keys_sorted(entries)
    &&& forall|i: int|
        0 <= i < ids.len() ==> (#[trigger] ids[i]) < reg.keys().len() && reg.keys()[ids[i] as int] == base
            + i
    &&& forall|name: Seq<char>, v: Value| #[trigger]
        field_is(entries, name, v) <==> names_method(names, ids, name, v)
}

/// A method of this name has this number.
pub open spec fn names_method(names: Seq<&'static str>, ids: Seq<u32>, name: Seq<char>, v: Value) -> bool {
    exists|i: int|
        0 <= i < names.len() && i < ids.len() && (#[trigger] names[i])@ == name && v == Value::native_fn(
            ids[i],
        )
}

/// No name twice.
pub open spec fn names_differ(names: Seq<&'static str>) -> bool {
    forall|i: int, j: int| 0 <= i < j < names.len() ==> (#[trigger] names[i])@ != (#[trigger] names[j])@
}

/// The keys after `n` definitions were entered under the keys from `base` on: one
/// that is there keeps its place, any other is appended.
pub open spec fn keys_after(keys: Seq<u64>, base: u64, n: nat) -> Seq<u64>
    decreases n,
{
    if n == 0 {
        keys
    } else {
        let before = keys_after(keys, base, (n - 1) as nat);
        let key = (base + n - 1) as u64;
        if before.contains(key) {
            before
        } else {
            before.push(key)
        }
    }
}

/// The definitions were entered under the keys from `base` on: what was numbered
/// keeps its number and its definition, and a key that was not there has the
/// definition that came for it.
pub open spec fn defs_entered(
    before: PrimRegistry,
    after: PrimRegistry,
    base: u64,
    defs: Seq<PrimitiveDef>,
) -> bool {
    &&& after.keys() == keys_after(before.keys(), base, defs.len())
    &&& after.keys().no_duplicates()
    &&& after.defs().len() == after.keys().len()
    &&& before.defs().is_prefix_of(after.defs())
    &&& forall|i: int, k: int|
        0 <= i < defs.len() && 0 <= k < after.keys().len() && #[trigger] after.keys()[k] == base + i
            && !before.keys().contains(after.keys()[k]) ==> after.defs()[k].same(#[trigger] defs[i])
}

/// One more definition was entered.
proof fn lemma_def_entered(
    first: PrimRegistry,
    before: PrimRegistry,
    after: PrimRegistry,
    base: u64,
    defs: Seq<PrimitiveDef>,
    n: int,
)
    requires
        0 <= n < defs.len(),
        base + defs.len() <= u64::MAX,
        n == 0 ==> before == first,
        n > 0 ==> defs_entered(first, before, base, defs.take(n)),
        after.defs().len() == after.keys().len(),
        after.keys().no_duplicates(),
        before.keys().contains((base + n) as u64) ==> after == before,
        !before.keys().contains((base + n) as u64) ==> {
            &&& after.keys() == before.keys().push((base + n) as u64)
            &&& after.defs().len() == before.defs().len() + 1
            &&& after.defs().drop_last() == before.defs()
            &&& after.defs().last().same(defs[n])
        },
    ensures
        defs_entered(first, after, base, defs.take(n + 1)),
{
    let key = (base + n) as u64;
    let (some, more) = (defs.take(n), defs.take(n + 1));
    assert(keys_after(first.keys(), base, 0) == first.keys());
    assert(after.keys() == keys_after(first.keys(), base, (n + 1) as nat));
    lemma_keys_after_extends(first.keys(), base, n as nat);
    if !before.keys().contains(key) {
        assert forall|k: int| 0 <= k < before.defs().len() implies after.defs()[k] == #[trigger] before.defs()[k] by {
            assert(after.defs().drop_last()[k] == before.defs()[k]);
        }
    }
    assert(first.defs().is_prefix_of(after.defs()));
    assert forall|i: int, k: int|
        0 <= i < more.len() && 0 <= k < after.keys().len() && #[trigger] after.keys()[k] == base + i
            && !first.keys().contains(after.keys()[k]) implies after.defs()[k].same(#[trigger] more[i]) by {
        if i < n {
            assert(more[i] == some[i]);
            if k == before.keys().len() {
                assert(after.keys()[k] == key);
            } else {
                assert(before.keys()[k] == base + i);
            }
        } else if before.keys().contains(key) {
            lemma_keys_after_source(first.keys(), base, n as nat, key);
        } else {
            assert(after.keys()[before.keys().len() as int] == key);
            assert(k == before.keys().len());
        }
    }
}

/// Entering definitions moves no key.
proof fn lemma_keys_after_extends(keys: Seq<u64>, base: u64, n: nat)
    ensures
        keys.is_prefix_of(keys_after(keys, base, n)),
    decreases n,
{
    if n > 0 {
        lemma_keys_after_extends(keys, base, (n - 1) as nat);
    }
}

/// A key was there, or is one of those that were entered.
proof fn lemma_keys_after_source(keys: Seq<u64>, base: u64, n: nat, key: u64)
    requires
        keys_after(keys, base, n).contains(key),
        base + n <= u64::MAX,
    ensures
        keys.contains(key) || base <= key < base + n,
    decreases n,
{
    if n > 0 {
        let before = keys_after(keys, base, (n - 1) as nat);
        if before.contains(key) {
            lemma_keys_after_source(keys, base, (n - 1) as nat, key);
        }
    }
}

/// Enter some methods.
fn enter_methods(
    reg: &mut PrimRegistry,
    base: u64,
    names: &Vec<&'static str>,
    defs: &Vec<PrimitiveDef>,
) -> (r: Vec<(TableKey, Value)>)
    requires
        names@.len() == defs@.len(),
        names@.len() > 0,
        names_differ(names@),
        old(reg).keys().len() + names@.len() < u32::MAX,
        base + names@.len() <= u64::MAX,
    ensures
        exists|ids: Seq<u32>| #[trigger] methods_entered(*final(reg), base, names@, r@, ids),
        defs_entered(*old(reg), *final(reg), base, defs@),
        r@.len() <= names@.len(),
{
    let mut entries: Vec<(TableKey, Value)> = Vec::new();
    let ghost mut ids: Seq<u32> = Seq::empty();
    let mut i: usize = 0;
    while i < names.len()
        invariant
            i <= names@.len(),
            names@.len() == defs@.len(),
            names_differ(names@),
            base + names@.len() <= u64::MAX,
            reg.keys().len() <= old(reg).keys().len() + i,
            old(reg).keys().len() + names@.len() < u32::MAX,
            ids.len() == i,
            entries@.len() <= i,
            methods_entered(*reg, base, names@.take(i as int), entries@, ids),
            i == 0 ==> *reg == *old(reg),
            i > 0 ==> defs_entered(*old(reg), *reg, base, defs@.take(i as int)),
        decreases names.len() - i,
    {
        let ghost prior = *reg;
        let ghost had = entries@;
        let ghost known = reg.keys();
        let ghost sofar = names@.take(i as int);
        let ghost before = ids;
        let id = prim_id_of(reg, base + i as u64, &defs[i]);
        proof {
            lemma_def_entered(*old(reg), prior, *reg, base, defs@, i as int);
        }
        let v = Value::native_fn(id);
        put_field(&mut entries, names[i].to_string(), v);
        proof {
            ids = ids.push(id);
            let now = names@.take(i + 1);
            assert forall|k: int| 0 <= k < ids.len() implies (#[trigger] ids[k]) < reg.keys().len()
                && reg.keys()[ids[k] as int] == base + k by {
                if k < i {
                    assert(ids[k] == before[k]);
                    assert(known[before[k] as int] == base + k);
                }
            }
            assert forall|name: Seq<char>, w: Value| #[trigger] field_is(entries@, name, w)
                <==> names_method(now, ids, name, w) by {
                if name == names@[i as int]@ {
                    if field_is(entries@, name, w) {
                        lemma_field_unique(entries@, name, v, w);
                        assert(now[i as int]@ == name);
                    }
                    if names_method(now, ids, name, w) {
                        let k = choose|k: int|
                            0 <= k < now.len() && k < ids.len() && (#[trigger] now[k])@ == name && w
                                == Value::native_fn(ids[k]);
                        assert(names@[k]@ == name);
                        if k < i {
                            assert(names@[k]@ != names@[i as int]@);
                        }
                    }
                } else {
                    assert(field_is(entries@, name, w) == field_is(had, name, w));
                    if names_method(sofar, before, name, w) {
                        let k = choose|k: int|
                            0 <= k < sofar.len() && k < before.len() && (#[trigger] sofar[k])@ == name && w
                                == Value::native_fn(before[k]);
                        assert(now[k]@ == name && ids[k] == before[k]);
                    }
                    if names_method(now, ids, name, w) {
                        let k = choose|k: int|
                            0 <= k < now.len() && k < ids.len() && (#[trigger] now[k])@ == name && w
                                == Value::native_fn(ids[k]);
                        assert(k < i);
                        assert(sofar[k]@ == name && before[k] == ids[k]);
                    }
                }
            }
        }
        i = i + 1;
    }
    assert(names@.take(i as int) =~= names@);
    assert(defs@.take(i as int) =~= defs@);
    entries
}

/// The names of the sequence methods.
fn sequence_names() -> (r: Vec<&'static str>)
    ensures
        literals(r@) == seq!["first"@, "rest"@, "last"@, "nth"@, "iter"@],
        names_differ(r@),
{
    let mut out: Vec<&'static str> = Vec::new();
    out.push("first");
    out.push("rest");
    out.push("last");
    out.push("nth");
    out.push("iter");
    proof {
        reveal_strlit("first");
        reveal_strlit("rest");
        reveal_strlit("last");
        reveal_strlit("nth");
        reveal_strlit("iter");
        assert("first"@.len() == 5 && "nth"@.len() == 3);
        assert("rest"@[0] == 'r' && "last"@[0] == 'l' && "iter"@[0] == 'i');
        assert("first"@ != "rest"@);
        assert("first"@ != "last"@);
        assert("first"@ != "nth"@);
        assert("first"@ != "iter"@);
        assert("rest"@ != "last"@);
        assert("rest"@ != "nth"@);
        assert("rest"@ != "iter"@);
        assert("last"@ != "nth"@);
        assert("last"@ != "iter"@);
        assert("nth"@ != "iter"@);
        assert(out@[0]@ == "first"@);
        assert(out@[1]@ == "rest"@);
        assert(out@[2]@ == "last"@);
        assert(out@[3]@ == "nth"@);
        assert(out@[4]@ == "iter"@);
        assert(literals(out@) =~= seq!["first"@, "rest"@, "last"@, "nth"@, "iter"@]);
    }
    out
}

/// The names of the collection methods.
fn collection_names() -> (r: Vec<&'static str>)
    ensures
        literals(r@) == seq!["length"@, "empty?"@, "has?"@, "conj"@, "empty"@],
        names_differ(r@),
{
    let mut out: Vec<&'static str> = Vec::new();
    out.push("length");
    out.push("empty?");
    out.push("has?");
    out.push("conj");
    out.push("empty");
    proof {
        reveal_strlit("length");
        reveal_strlit("empty?");
        reveal_strlit("has?");
        reveal_strlit("conj");
        reveal_strlit("empty");
        assert("empty?"@.len() == 6 && "empty"@.len() == 5);
        assert("length"@[0] == 'l' && "empty?"@[0] == 'e' && "has?"@[0] == 'h' && "conj"@[0] == 'c');
        assert("length"@ != "empty?"@);
        assert("length"@ != "has?"@);
        assert("length"@ != "conj"@);
        assert("length"@ != "empty"@);
        assert("empty?"@ != "has?"@);
        assert("empty?"@ != "conj"@);
        assert("empty?"@ != "empty"@);
        assert("has?"@ != "conj"@);
        assert("has?"@ != "empty"@);
        assert("conj"@ != "empty"@);
        assert(out@[0]@ == "length"@);
        assert(out@[1]@ == "empty?"@);
        assert(out@[2]@ == "has?"@);
        assert(out@[3]@ == "conj"@);
        assert(out@[4]@ == "empty"@);
        assert(literals(out@) =~= seq!["length"@, "empty?"@, "has?"@, "conj"@, "empty"@]);
    }
    out
}

/// A table of methods of these names was built.
pub open spec fn methods_built(
    before: HeapState,
    after: HeapState,
    reg: PrimRegistry,
    base: u64,
    names: Seq<Seq<char>>,
    v: Value,
) -> bool {
    exists|entries: Seq<(TableKey, Value)>, spelled: Seq<&'static str>, ids: Seq<u32>|
        #![trigger methods_entered(reg, base, spelled, entries, ids)]
        table_born(before, after, entries, v) && literals(spelled) == names && methods_entered(
            reg,
            base,
            spelled,
            entries,
            ids,
        )
}

/// Build the table of sequence methods; their definitions are entered under the
/// keys from `base` on.
pub fn build_sequence_methods(heap: &mut FiberHeap, reg: &mut PrimRegistry, base: u64) -> (r: Value)
    requires
        old(heap)@.valid(),
        old(heap)@.room(8),
        old(reg).keys().len() + 5 < u32::MAX,
        base + 5 <= u64::MAX,
    ensures
        methods_built(
            old(heap)@,
            final(heap)@,
            *final(reg),
            base,
            seq!["first"@, "rest"@, "last"@, "nth"@, "iter"@],
            r,
        ),
        exists|defs: Seq<PrimitiveDef>|
            are_sequence_defs(defs) && #[trigger] defs_entered(*old(reg), *final(reg), base, defs),
{
    let names = sequence_names();
    let defs = sequence_defs();
    proof {
        assert(literals(names@).len() == 5);
    }
    build_methods(heap, reg, base, &names, &defs)
}

/// Build the table of collection methods; their definitions are entered under the
/// keys from `base` on.
pub fn build_collection_methods(heap: &mut FiberHeap, reg: &mut PrimRegistry, base: u64) -> (r: Value)
    requires
        old(heap)@.valid(),
        old(heap)@.room(8),
        old(reg).keys().len() + 5 < u32::MAX,
        base + 5 <= u64::MAX,
    ensures
        methods_built(
            old(heap)@,
            final(heap)@,
            *final(reg),
            base,
            seq!["length"@, "empty?"@, "has?"@, "conj"@, "empty"@],
            r,
        ),
        exists|defs: Seq<PrimitiveDef>|
            are_collection_defs(defs) && #[trigger] defs_entered(*old(reg), *final(reg), base, defs),
{
    let names = collection_names();
    let defs = collection_defs();
    proof {
        assert(literals(names@).len() == 5);
    }
    build_methods(heap, reg, base, &names, &defs)
}

fn build_methods(
    heap: &mut FiberHeap,
    reg: &mut PrimRegistry,
    base: u64,
    names: &Vec<&'static str>,
    defs: &Vec<PrimitiveDef>,
) -> (r: Value)
    requires
        old(heap)@.valid(),
        old(heap)@.room(8),
        names@.len() == 5,
        defs@.len() == 5,
        names_differ(names@),
        old(reg).keys().len() + 5 < u32::MAX,
        base + 5 <= u64::MAX,
    ensures
        methods_built(old(heap)@, final(heap)@, *final(reg), base, literals(names@), r),
        defs_entered(*old(reg), *final(reg), base, defs@),
{
    let ghost start = heap@;
    let entries = enter_methods(reg, base, names, defs);
    let ghost made = entries@;
    proof {
        lemma_room_less(start, 8, made.len() + 3);
    }
    let v = alloc_trait_table(heap, entries);
    proof {
        let ids = choose|ids: Seq<u32>| #[trigger] methods_entered(*reg, base, names@, made, ids);
        assert(methods_entered(*reg, base, names@, made, ids));
    }
    v
}

} // verus!
