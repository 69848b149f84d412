//! Allocation capabilities for native code.
//!
//! An `Alloc` carries a call's region. A native cannot allocate without being
//! handed one, so every value names the region it is born in.

use vstd::prelude::*;

use crate::ffi::{Signature, TypeDesc};
use crate::fields::{field_is, keys_sorted, put_field};
use crate::heap::{keyword_value, lemma_allocated, FiberHeap, HeapState, RuntimeRegion};
use crate::object::{Closure, ExternalData, ExternalObject, HeapObject, HeapTag, Pair, Syntax, TableKey};
use crate::signalbits::SignalBits;
use crate::signals::SIG_ERROR;
use crate::symbol::interned;
use crate::value::Value;

verus! {

/// The pure allocation capability: the call's result region. It has no VM, so
/// it cannot re-enter the interpreter.
#[derive(Clone, Copy)]
pub struct Alloc {
    region: RuntimeRegion,
}

/// `v` is the one object that came between the two heaps, born in `region`.
pub open spec fn born(before: HeapState, after: HeapState, region: RuntimeRegion, v: Value) -> bool {
    &&& after.valid()
    &&& after.objects.len() == before.objects.len() + 1
    &&& after == before.allocated(after.objects.last(), region.0)
    &&& v == after.newest()
}

/// The object a value was born as.
pub open spec fn birth(after: HeapState) -> HeapObject {
    after.objects.last()
}

/// The heap once `name` is an interned keyword.
pub open spec fn with_keyword(s: HeapState, name: Seq<char>) -> HeapState {
    HeapState { keywords: interned(s.keywords, name), ..s }
}

/// What a proper list costs the heap, and its head: one pair a value, the last
/// one ending in the empty list.
pub open spec fn listed(s: HeapState, region: u32, values: Seq<Value>) -> (HeapState, Value)
    decreases values.len(),
{
    if values.len() == 0 {
        (s, Value::empty_list())
    } else {
        let (rest_state, rest) = listed(s, region, values.skip(1));
        let after = rest_state.allocated(
            HeapObject::Pair(
                Pair { first: values[0], rest, traits: rest_state.traits[HeapTag::Pair.slot()] },
            ),
            region,
        );
        (after, after.newest())
    }
}

/// A struct's fields.
pub open spec fn struct_fields(obj: HeapObject) -> Seq<(TableKey, Value)> {
    match obj {
        HeapObject::LStruct { data, .. } => data@,
        HeapObject::LStructMut { data, .. } => data@,
        _ => Seq::empty(),
    }
}

/// `obj` is a string of this text.
pub open spec fn is_text(obj: HeapObject, text: Seq<char>) -> bool {
    match obj {
        HeapObject::LString { s, .. } => s@ == text,
        _ => false,
    }
}

/// What making a list does.
pub open spec fn list_made(
    ctx: Alloc,
    heap: FiberHeap,
    heap_after: FiberHeap,
    values: Vec<Value>,
    r: Value,
) -> bool {
    &&& (heap_after@, r) == listed(heap@, ctx.home().0, values@)
    &&& heap_after@.valid()
}

/// What making a parameter does.
pub open spec fn parameter_made(
    ctx: Alloc,
    heap: FiberHeap,
    heap_after: FiberHeap,
    default: Value,
    r: Value,
) -> bool {
    &&& born(
            (HeapState {
                next_param: vstd::wrapping::u32_specs::wrapping_add(heap@.next_param, 1),
                ..heap@
            }),
            heap_after@,
            ctx.home(),
            r,
        )
    &&& birth(heap_after@) == (HeapObject::Parameter {
            id: heap@.next_param,
            default,
            traits: Value::nil(),
        })
}

/// What making an error with extra fields does.
pub open spec fn error_extra_made(
    ctx: Alloc,
    heap: FiberHeap,
    heap_after: FiberHeap,
    kind: String,
    msg: String,
    extra: Vec<(String, Value)>,
    r: Value,
) -> bool {
    &&& error_made_extra(
            heap@,
            heap_after@,
            ctx.home(),
            kind@,
            msg@,
            extra@,
            r,
        )
    &&& error_fields(heap_after@).len() <= extra@.len() + 2
    &&& extra@.len() == 0 ==> error_made(
            heap@,
            heap_after@,
            ctx.home(),
            kind@,
            msg@,
            r,
        ) && error_fields(heap_after@).len() == 2
}

impl Alloc {
    /// The call's region.
    pub closed spec fn home(self) -> RuntimeRegion {
        self.region
    }

    /// The region is one of this heap's, and `n` more objects and references
    /// fit.
    pub open spec fn ready(self, s: HeapState, n: nat) -> bool {
        s.valid() && self.home().0 < s.counts.len() && s.room(n)
    }

    /// Mint the call's fresh result region and own it.
    pub fn new(heap: &mut FiberHeap) -> (r: Alloc)
        requires
            old(heap)@.valid(),
            old(heap)@.room(1),
        ensures
            final(heap)@ == old(heap)@.with_region(),
            final(heap)@.valid(),
            r.home().0 == old(heap)@.counts.len(),
    {
        let region = heap.new_runtime_region();
        Alloc::with_region(region)
    }

    /// A capability over an explicit, caller-resolved region.
    pub fn with_region(region: RuntimeRegion) -> (r: Alloc)
        ensures
            r.home() == region,
    {
        Alloc { region }
    }

    /// A capability for a native-call boundary without a result slot of its
    /// own: it mints a fresh region.
    pub fn boundary(heap: &mut FiberHeap) -> (r: Alloc)
        requires
            old(heap)@.valid(),
            old(heap)@.room(1),
        ensures
            final(heap)@ == old(heap)@.with_region(),
            final(heap)@.valid(),
            r.home().0 == old(heap)@.counts.len(),
    {
        Alloc::new(heap)
    }

    /// The region this capability allocates in.
    pub fn test_region(&self) -> (r: RuntimeRegion)
        ensures
            r == self.home(),
    {
        self.region
    }

    /// Allocate a heap object into the call's region.
    pub fn allocate(&self, heap: &mut FiberHeap, obj: HeapObject) -> (r: Value)
        requires
            self.ready(old(heap)@, obj.children().len() + 1),
        ensures
            born(old(heap)@, final(heap)@, self.home(), r),
            birth(final(heap)@) == obj,
    {
        proof {
            lemma_allocated(heap@, obj, self.region.0);
        }
        heap.alloc_in_region(obj, self.region)
    }

    /// A slice payload for an object of the call's region: the items, in order.
    pub fn alloc_slice<T: Copy>(&self, items: &[T]) -> (r: Vec<T>)
        ensures
            r@ == items@,
    {
        let mut out: Vec<T> = Vec::new();
        let mut i: usize = 0;
        while i < items.len()
            invariant
                i <= items@.len(),
                out@ == items@.take(i as int),
            decreases items.len() - i,
        {
            out.push(items[i]);
            i = i + 1;
            assert(out@ =~= items@.take(i as int));
        }
        assert(items@.take(i as int) =~= items@);
        out
    }

    /// Allocate a string into the call's region.
    pub fn string(&self, heap: &mut FiberHeap, s: &String) -> (r: Value)
        requires
            self.ready(old(heap)@, 2),
        ensures
            born(old(heap)@, final(heap)@, self.home(), r),
            is_text(birth(final(heap)@), s@),
            birth(final(heap)@)->LString_traits == old(heap)@.traits[HeapTag::LString.slot()],
    {
        let traits = heap.default_traits_for(HeapTag::LString);
        self.allocate(heap, HeapObject::LString { s: s.clone(), traits })
    }

    /// Allocate a cons cell into the call's region.
    pub fn pair(&self, heap: &mut FiberHeap, head: Value, tail: Value) -> (r: Value)
        requires
            self.ready(old(heap)@, 4),
        ensures
            born(old(heap)@, final(heap)@, self.home(), r),
            birth(final(heap)@) == HeapObject::Pair(
                Pair {
                    first: head,
                    rest: tail,
                    traits: old(heap)@.traits[HeapTag::Pair.slot()],
                },
            ),
    {
        let traits = heap.default_traits_for(HeapTag::Pair);
        self.allocate(heap, HeapObject::Pair(Pair { first: head, rest: tail, traits }))
    }

    /// Allocate an immutable array into the call's region.
    pub fn array(&self, heap: &mut FiberHeap, elements: Vec<Value>) -> (r: Value)
        requires
            self.ready(old(heap)@, elements@.len() + 2),
        ensures
            born(old(heap)@, final(heap)@, self.home(), r),
            birth(final(heap)@) == (HeapObject::LArray {
                elements,
                traits: old(heap)@.traits[HeapTag::LArray.slot()],
            }),
    {
        let traits = heap.default_traits_for(HeapTag::LArray);
        self.allocate(heap, HeapObject::LArray { elements, traits })
    }

    /// Allocate a mutable array into the call's region.
    pub fn array_mut(&self, heap: &mut FiberHeap, elements: Vec<Value>) -> (r: Value)
        requires
            self.ready(old(heap)@, elements@.len() + 2),
        ensures
            born(old(heap)@, final(heap)@, self.home(), r),
            birth(final(heap)@) == (HeapObject::LArrayMut {
                data: elements,
                traits: old(heap)@.traits[HeapTag::LArrayMut.slot()],
            }),
    {
        let traits = heap.default_traits_for(HeapTag::LArrayMut);
        self.allocate(heap, HeapObject::LArrayMut { data: elements, traits })
    }

    /// Allocate an empty mutable struct into the call's region.
    pub fn struct_mut(&self, heap: &mut FiberHeap) -> (r: Value)
        requires
            self.ready(old(heap)@, 2),
        ensures
            born(old(heap)@, final(heap)@, self.home(), r),
            birth(final(heap)@) is LStructMut,
            struct_fields(birth(final(heap)@)).len() == 0,
            birth(final(heap)@)->LStructMut_traits == old(heap)@.traits[HeapTag::LStructMut.slot()],
    {
        self.struct_mut_from(heap, Vec::new())
    }

    /// Allocate a mutable struct with entries into the call's region.
    pub fn struct_mut_from(&self, heap: &mut FiberHeap, entries: Vec<(TableKey, Value)>) -> (r: Value)
        requires
            self.ready(old(heap)@, entries@.len() + 2),
        ensures
            born(old(heap)@, final(heap)@, self.home(), r),
            birth(final(heap)@) == (HeapObject::LStructMut {
                data: entries,
                traits: old(heap)@.traits[HeapTag::LStructMut.slot()],
            }),
    {
        let traits = heap.default_traits_for(HeapTag::LStructMut);
        self.allocate(heap, HeapObject::LStructMut { data: entries, traits })
    }

    /// Allocate an immutable struct, its entries in key order, into the call's
    /// region.
    pub fn struct_from_sorted(&self, heap: &mut FiberHeap, entries: Vec<(TableKey, Value)>) -> (r:
        Value)
        requires
            self.ready(old(heap)@, entries@.len() + 2),
        ensures
            born(old(heap)@, final(heap)@, self.home(), r),
            birth(final(heap)@) == (HeapObject::LStruct {
                data: entries,
                traits: old(heap)@.traits[HeapTag::LStruct.slot()],
            }),
    {
        let traits = heap.default_traits_for(HeapTag::LStruct);
        self.allocate(heap, HeapObject::LStruct { data: entries, traits })
    }

    /// Allocate a closure into the call's region.
    pub fn closure(&self, heap: &mut FiberHeap, c: Closure) -> (r: Value)
        requires
            self.ready(old(heap)@, c.env@.len() + c.template.constants@.len() + 2),
        ensures
            born(old(heap)@, final(heap)@, self.home(), r),
            birth(final(heap)@) == (HeapObject::Closure { closure: c, traits: Value::nil() }),
    {
        self.allocate(heap, HeapObject::Closure { closure: c, traits: Value::nil() })
    }

    /// Allocate a user box into the call's region.
    pub fn lbox(&self, heap: &mut FiberHeap, value: Value) -> (r: Value)
        requires
            self.ready(old(heap)@, 3),
        ensures
            born(old(heap)@, final(heap)@, self.home(), r),
            birth(final(heap)@) == (HeapObject::LBox { cell: value, traits: Value::nil() }),
    {
        self.allocate(heap, HeapObject::LBox { cell: value, traits: Value::nil() })
    }

    /// Allocate a compiler capture cell into the call's region.
    pub fn capture_cell(&self, heap: &mut FiberHeap, value: Value) -> (r: Value)
        requires
            self.ready(old(heap)@, 3),
        ensures
            born(old(heap)@, final(heap)@, self.home(), r),
            birth(final(heap)@) == (HeapObject::CaptureCell { cell: value, traits: Value::nil() }),
    {
        self.allocate(heap, HeapObject::CaptureCell { cell: value, traits: Value::nil() })
    }

    /// Allocate a mutable string into the call's region.
    pub fn string_mut(&self, heap: &mut FiberHeap, bytes: Vec<u8>) -> (r: Value)
        requires
            self.ready(old(heap)@, 2),
        ensures
            born(old(heap)@, final(heap)@, self.home(), r),
            birth(final(heap)@) == (HeapObject::LStringMut {
                data: bytes,
                traits: old(heap)@.traits[HeapTag::LStringMut.slot()],
            }),
    {
        let traits = heap.default_traits_for(HeapTag::LStringMut);
        self.allocate(heap, HeapObject::LStringMut { data: bytes, traits })
    }

    /// Allocate immutable bytes into the call's region.
    pub fn bytes(&self, heap: &mut FiberHeap, data: Vec<u8>) -> (r: Value)
        requires
            self.ready(old(heap)@, 2),
        ensures
            born(old(heap)@, final(heap)@, self.home(), r),
            birth(final(heap)@) == (HeapObject::LBytes {
                data,
                traits: old(heap)@.traits[HeapTag::LBytes.slot()],
            }),
    {
        let traits = heap.default_traits_for(HeapTag::LBytes);
        self.allocate(heap, HeapObject::LBytes { data, traits })
    }

    /// Allocate mutable bytes into the call's region.
    pub fn bytes_mut(&self, heap: &mut FiberHeap, data: Vec<u8>) -> (r: Value)
        requires
            self.ready(old(heap)@, 2),
        ensures
            born(old(heap)@, final(heap)@, self.home(), r),
            birth(final(heap)@) == (HeapObject::LBytesMut {
                data,
                traits: old(heap)@.traits[HeapTag::LBytesMut.slot()],
            }),
    {
        let traits = heap.default_traits_for(HeapTag::LBytesMut);
        self.allocate(heap, HeapObject::LBytesMut { data, traits })
    }

    /// Allocate a syntax object into the call's region.
    pub fn syntax(&self, heap: &mut FiberHeap, s: Syntax) -> (r: Value)
        requires
            self.ready(old(heap)@, 2),
        ensures
            born(old(heap)@, final(heap)@, self.home(), r),
            birth(final(heap)@) == (HeapObject::Syntax { syntax: s, traits: Value::nil() }),
    {
        self.allocate(heap, HeapObject::Syntax { syntax: s, traits: Value::nil() })
    }

    /// Allocate an immutable set into the call's region. The elements stand as
    /// given, until `FiberHeap::order_set` puts them in order, each once.
    pub fn set(&self, heap: &mut FiberHeap, items: Vec<Value>) -> (r: Value)
        requires
            self.ready(old(heap)@, items@.len() + 2),
        ensures
            born(old(heap)@, final(heap)@, self.home(), r),
            birth(final(heap)@) == (HeapObject::LSet {
                data: items,
                traits: old(heap)@.traits[HeapTag::LSet.slot()],
            }),
    {
        let traits = heap.default_traits_for(HeapTag::LSet);
        self.allocate(heap, HeapObject::LSet { data: items, traits })
    }

    /// Allocate a mutable set into the call's region. The elements stand as given,
    /// until `FiberHeap::order_set` puts them in order, each once.
    pub fn set_mut(&self, heap: &mut FiberHeap, items: Vec<Value>) -> (r: Value)
        requires
            self.ready(old(heap)@, items@.len() + 2),
        ensures
            born(old(heap)@, final(heap)@, self.home(), r),
            birth(final(heap)@) == (HeapObject::LSetMut {
                data: items,
                traits: old(heap)@.traits[HeapTag::LSetMut.slot()],
            }),
    {
        let traits = heap.default_traits_for(HeapTag::LSetMut);
        self.allocate(heap, HeapObject::LSetMut { data: items, traits })
    }

    /// Allocate a managed foreign pointer into the call's region; the null
    /// address is nil and costs nothing.
    pub fn managed_pointer(&self, heap: &mut FiberHeap, addr: u64) -> (r: Value)
        requires
            self.ready(old(heap)@, 2),
        ensures
            addr == 0 ==> r == Value::nil() && final(heap)@ == old(heap)@,
            addr != 0 ==> born(old(heap)@, final(heap)@, self.home(), r) && birth(final(heap)@)
                == (HeapObject::ManagedPointer { addr: Some(addr), traits: Value::nil() }),
    {
        if addr == 0 {
            return Value::nil();
        }
        self.allocate(heap, HeapObject::ManagedPointer { addr: Some(addr), traits: Value::nil() })
    }

    /// Allocate an external object into the call's region.
    pub fn external(&self, heap: &mut FiberHeap, kind_name: String, data: ExternalData) -> (r: Value)
        requires
            self.ready(old(heap)@, 2),
        ensures
            born(old(heap)@, final(heap)@, self.home(), r),
            birth(final(heap)@) == (HeapObject::External {
                obj: ExternalObject { kind_name, data },
                traits: Value::nil(),
            }),
    {
        self.allocate(
            heap,
            HeapObject::External { obj: ExternalObject { kind_name, data }, traits: Value::nil() },
        )
    }

    /// Build a proper list into the call's region.
    pub fn list(&self, heap: &mut FiberHeap, values: &Vec<Value>) -> (r: Value)
        requires
            self.ready(old(heap)@, 4 * values@.len()),
        ensures
            list_made(
                *self,
                *old(heap),
                *final(heap),
                *values,
                r,
            ),
    {
        let ghost start = heap@;
        let mut at = Value::empty_list();
        let mut i: usize = values.len();
        assert(values@.skip(i as int) =~= Seq::empty());
        while i > 0
            invariant
                i <= values@.len(),
                self.ready(heap@, (4 * i) as nat),
                (heap@, at) == listed(start, self.home().0, values@.skip(i as int)),
            decreases i,
        {
            i = i - 1;
            let ghost before = heap@;
            let ghost made = HeapObject::Pair(
                Pair {
                    first: values@[i as int],
                    rest: at,
                    traits: before.traits[HeapTag::Pair.slot()],
                },
            );
            proof {
                assert(values@.skip(i as int).skip(1) =~= values@.skip(i + 1));
                assert(values@.skip(i as int)[0] == values@[i as int]);
                lemma_allocated(before, made, self.region.0);
                assert(before.room((4 * i + 4) as nat));
                assert(made.children().len() == 3);
                assert(before.allocated(made, self.region.0).room(((4 * i + 4) - 3 - 1) as nat));
            }
            at = self.pair(heap, values[i], at);
        }
        assert(values@.skip(0) =~= values@);
        at
    }

    /// An error value `{:error kind :message msg}`, every part of it born in the
    /// call's region and the kind's spelling on record.
    pub fn error(&self, heap: &mut FiberHeap, kind: &String, msg: &String) -> (r: Value)
        requires
            self.ready(old(heap)@, 8),
        ensures
            error_made(old(heap)@, final(heap)@, self.home(), kind@, msg@, r),
            error_fields(final(heap)@).len() == 2,
    {
        let extra: Vec<(String, Value)> = Vec::new();
        let r = self.error_extra(heap, kind, msg, &extra);
        r
    }

    /// An error value with extra fields, in the order given; a later field
    /// replaces an earlier one of the same name.
    pub fn error_extra(
        &self,
        heap: &mut FiberHeap,
        kind: &String,
        msg: &String,
        extra: &Vec<(String, Value)>,
    ) -> (r: Value)
        requires
            self.ready(old(heap)@, extra@.len() + 8),
        ensures
            error_extra_made(
                *self,
                *old(heap),
                *final(heap),
                *kind,
                *msg,
                *extra,
                r,
            ),
    {
        let ghost start = heap@;
        let kind_value = heap.keyword(kind);
        let ghost named = heap@;
        proof {
            assert(named.valid());
            assert(named.room(extra@.len() + 7));
        }
        let message = self.string(heap, msg);
        let ghost mid = heap@;
        let ghost text = birth(mid);
        proof {
            lemma_allocated(named, text, self.region.0);
            assert(text.children().len() == 1);
            assert(named.allocated(text, self.region.0).room((extra@.len() + 7 - 1 - 1) as nat));
        }
        let mut entries: Vec<(TableKey, Value)> = Vec::new();
        put_field(&mut entries, "error".to_string(), kind_value);
        put_field(&mut entries, "message".to_string(), message);
        proof {
            reveal_strlit("error");
            reveal_strlit("message");
            assert("error"@ != "message"@) by {
                assert("error"@.len() == 5);
                assert("message"@.len() == 7);
            }
            assert(field_is(entries@, "error"@, kind_value));
        }
        let mut i: usize = 0;
        while i < extra.len()
            invariant
                i <= extra@.len(),
                keys_sorted(entries@),
                entries@.len() <= i + 2,
                i == 0 ==> entries@.len() == 2,
                extra_fields(entries@, kind_value, message, extra@.take(i as int)),
            decreases extra.len() - i,
        {
            let ghost had = entries@;
            put_field(&mut entries, extra[i].0.clone(), extra[i].1);
            proof {
                lemma_extra_step(
                    had,
                    entries@,
                    kind_value,
                    message,
                    extra@.take(i as int),
                    extra@[i as int],
                );
                assert(extra@.take(i as int).push(extra@[i as int]) =~= extra@.take(i + 1));
            }
            i = i + 1;
        }
        assert(extra@.take(i as int) =~= extra@);
        let r = self.struct_from_sorted(heap, entries);
        proof {
            lemma_allocated(mid, birth(heap@), self.region.0);
            assert(heap@.objects[heap@.objects.len() - 2] == text);
            assert(extra@.len() == 0 ==> extra@ =~= Seq::empty());
        }
        r
    }

    /// A `rich error`: the error bit and an error value with extra fields.
    pub fn rich_error(
        &self,
        heap: &mut FiberHeap,
        kind: &String,
        msg: &String,
        extra: &Vec<(String, Value)>,
    ) -> (r: (SignalBits, Value))
        requires
            self.ready(old(heap)@, extra@.len() + 8),
        ensures
            r.0 == SignalBits::new(SIG_ERROR),
            error_made_extra(
                old(heap)@,
                final(heap)@,
                self.home(),
                kind@,
                msg@,
                extra@,
                r.1,
            ),
    {
        (SignalBits::new(SIG_ERROR), self.error_extra(heap, kind, msg, extra))
    }

    /// Allocate a dynamic parameter with `default` into the call's region, under
    /// the next number.
    pub fn parameter(&self, heap: &mut FiberHeap, default: Value) -> (r: Value)
        requires
            self.ready(old(heap)@, 3),
        ensures
            parameter_made(
                *self,
                *old(heap),
                *final(heap),
                default,
                r,
            ),
    {
        let id: u32 = heap.next_parameter_id();
        self.allocate(heap, HeapObject::Parameter { id, default, traits: Value::nil() })
    }

    /// Allocate a fiber object into the call's region, from its number in the
    /// fiber table.
    pub fn fiber_from_handle(&self, heap: &mut FiberHeap, handle: u32) -> (r: Value)
        requires
            self.ready(old(heap)@, 2),
        ensures
            born(old(heap)@, final(heap)@, self.home(), r),
            birth(final(heap)@) == (HeapObject::Fiber { handle, traits: Value::nil() }),
    {
        self.allocate(heap, HeapObject::Fiber { handle, traits: Value::nil() })
    }

    /// Allocate a foreign type descriptor into the call's region.
    pub fn ffi_type(&self, heap: &mut FiberHeap, desc: TypeDesc) -> (r: Value)
        requires
            self.ready(old(heap)@, 1),
        ensures
            born(old(heap)@, final(heap)@, self.home(), r),
            birth(final(heap)@) == HeapObject::FFIType(desc),
    {
        self.allocate(heap, HeapObject::FFIType(desc))
    }

    /// Allocate a foreign signature into the call's region.
    pub fn ffi_signature(&self, heap: &mut FiberHeap, sig: Signature) -> (r: Value)
        requires
            self.ready(old(heap)@, 1),
        ensures
            born(old(heap)@, final(heap)@, self.home(), r),
            birth(final(heap)@) == HeapObject::FFISignature(sig),
    {
        self.allocate(heap, HeapObject::FFISignature(sig))
    }

    /// Allocate a library handle into the call's region.
    pub fn lib_handle(&self, heap: &mut FiberHeap, id: u32) -> (r: Value)
        requires
            self.ready(old(heap)@, 1),
        ensures
            born(old(heap)@, final(heap)@, self.home(), r),
            birth(final(heap)@) == HeapObject::LibHandle(id),
    {
        self.allocate(heap, HeapObject::LibHandle(id))
    }
}

/// The object is a string of this text, with the default traits of strings.
pub open spec fn is_string(s: HeapState, obj: HeapObject, text: Seq<char>) -> bool {
    is_text(obj, text) && obj->LString_traits == s.traits[HeapTag::LString.slot()]
}

/// The fields of the newest object, an error.
pub open spec fn error_fields(after: HeapState) -> Seq<(TableKey, Value)> {
    struct_fields(after.objects.last())
}

/// The last extra field of a name, if there is one.
pub open spec fn last_extra(extra: Seq<(String, Value)>, name: Seq<char>) -> Option<Value>
    decreases extra.len(),
{
    if extra.len() == 0 {
        None
    } else if extra.last().0@ == name {
        Some(extra.last().1)
    } else {
        last_extra(extra.drop_last(), name)
    }
}

/// What field `name` of an error holds: the last extra of that name, else its
/// kind or message.
pub open spec fn error_field(
    kind: Value,
    message: Value,
    extra: Seq<(String, Value)>,
    name: Seq<char>,
) -> Option<Value> {
    match last_extra(extra, name) {
        Some(v) => Some(v),
        None => if name == "error"@ {
            Some(kind)
        } else if name == "message"@ {
            Some(message)
        } else {
            None
        },
    }
}

/// The entries are exactly the fields of an error.
pub open spec fn extra_fields(
    entries: Seq<(TableKey, Value)>,
    kind: Value,
    message: Value,
    extra: Seq<(String, Value)>,
) -> bool {
    forall|name: Seq<char>, v: Value| #[trigger]
        field_is(entries, name, v) == (error_field(kind, message, extra, name) == Some(v))
}

proof fn lemma_extra_step(
    had: Seq<(TableKey, Value)>,
    now: Seq<(TableKey, Value)>,
    kind: Value,
    message: Value,
    extra: Seq<(String, Value)>,
    more: (String, Value),
)
    requires
        extra_fields(had, kind, message, extra),
        keys_sorted(now),
        field_is(now, more.0@, more.1),
        forall|other: Seq<char>, w: Value|
            other != more.0@ ==> #[trigger] field_is(now, other, w) == field_is(had, other, w),
    ensures
        extra_fields(now, kind, message, extra.push(more)),
{
    let after = extra.push(more);
    assert(after.drop_last() =~= extra);
    assert forall|name: Seq<char>, v: Value| #[trigger] field_is(now, name, v) == (error_field(
        kind,
        message,
        after,
        name,
    ) == Some(v)) by {
        if name == more.0@ {
            if field_is(now, name, v) {
                crate::fields::lemma_field_unique(now, name, v, more.1);
            }
        } else {
            assert(field_is(had, name, v) == (error_field(kind, message, extra, name) == Some(v)));
        }
    }
}

/// An error with extra fields came between the two heaps: its kind interned,
/// its message string and the error itself born in `region`.
pub open spec fn error_made_extra(
    before: HeapState,
    after: HeapState,
    region: RuntimeRegion,
    kind: Seq<char>,
    msg: Seq<char>,
    extra: Seq<(String, Value)>,
    err: Value,
) -> bool {
    let named = with_keyword(before, kind);
    let text = after.objects[after.objects.len() - 2];
    let mid = named.allocated(text, region.0);
    &&& after.objects.len() == before.objects.len() + 2
    &&& is_string(before, text, msg)
    &&& born(mid, after, region, err)
    &&& after.objects.last() is LStruct
    &&& after.objects.last()->LStruct_traits == before.traits[HeapTag::LStruct.slot()]
    &&& keys_sorted(struct_fields(after.objects.last()))
    &&& extra_fields(
        struct_fields(after.objects.last()),
        keyword_value(named.keywords, kind),
        mid.newest(),
        extra,
    )
}

/// A plain error came between the two heaps.
pub open spec fn error_made(
    before: HeapState,
    after: HeapState,
    region: RuntimeRegion,
    kind: Seq<char>,
    msg: Seq<char>,
    err: Value,
) -> bool {
    error_made_extra(before, after, region, kind, msg, Seq::empty(), err)
}

} // verus!
