//! What primitives share: how they fail, and how they read their arguments.
//!
//! A primitive that reports an argument's type is handed, beside its arguments, how the
//! type of each of them reads (`kinds`).

use vstd::prelude::*;

use crate::ctx::{birth, born, error_made, error_made_extra, is_string, Alloc};
use crate::heap::{lemma_allocated, FiberHeap, HeapState, RuntimeRegion};
use crate::materialize::lemma_room_less;
use crate::object::{Closure, HeapObject};
use crate::signalbits::SignalBits;
use crate::signals::{SIG_ERROR, SIG_OK};
use crate::value::{Value, TAG_CLOSURE, TAG_FIBER, TAG_STRING};

verus! {

/// The primitive failed: an error signal whose value came between the heaps.
pub open spec fn failed(
    before: HeapState,
    after: HeapState,
    home: RuntimeRegion,
    kind: Seq<char>,
    msg: Seq<char>,
    r: (SignalBits, Value),
) -> bool {
    r.0 == SignalBits::new(SIG_ERROR) && error_made(before, after, home, kind, msg, r.1)
}

/// The primitive returned `v`.
pub open spec fn returned(v: Value) -> (SignalBits, Value) {
    (SignalBits::new(SIG_OK), v)
}

/// How an argument of the wrong type is reported; `kind` is how its type reads.
pub open spec fn type_error_text(prim: Seq<char>, expected: Seq<char>, kind: Seq<char>) -> Seq<char> {
    prim + ": expected "@ + expected + ", got "@ + kind
}

/// Fail with a kind and a message.
pub fn fail(ctx: &Alloc, heap: &mut FiberHeap, kind: &str, msg: &String) -> (r: (SignalBits, Value))
    requires
        ctx.ready(old(heap)@, 8),
    ensures
        failed(old(heap)@, final(heap)@, ctx.home(), kind@, msg@, r),
{
    let err = ctx.error(heap, &kind.to_string(), msg);
    (SignalBits::new(SIG_ERROR), err)
}

/// Fail because an argument has the wrong type; `kind` is how its type reads.
pub fn type_error(
    ctx: &Alloc,
    heap: &mut FiberHeap,
    kind: &String,
    prim: &str,
    expected: &str,
) -> (r: (SignalBits, Value))
    requires
        ctx.ready(old(heap)@, 8),
    ensures
        failed(
            old(heap)@,
            final(heap)@,
            ctx.home(),
            "type-error"@,
            type_error_text(prim@, expected@, kind@),
            r,
        ),
{
    let mut msg = prim.to_string();
    msg.append(": expected ");
    msg.append(expected);
    msg.append(", got ");
    msg.append(kind.as_str());
    fail(ctx, heap, "type-error", &msg)
}

/// The fiber that a value stands for, by its number in the fiber table.
pub open spec fn fiber_handle(s: HeapState, v: Value) -> Option<u32> {
    if v.tag == TAG_FIBER && s.target(v) is Some {
        match s.object(v) {
            HeapObject::Fiber { handle, .. } => Some(handle),
            _ => None,
        }
    } else {
        None
    }
}

/// The fiber that a value stands for.
pub fn as_fiber(heap: &FiberHeap, v: Value) -> (r: Option<u32>)
    ensures
        r == fiber_handle(heap@, v),
{
    if v.tag != TAG_FIBER {
        return None;
    }
    match heap.deref(v) {
        Some(HeapObject::Fiber { handle, .. }) => Some(*handle),
        _ => None,
    }
}

/// The closure that a value stands for.
pub open spec fn closure_at(s: HeapState, v: Value) -> Option<Closure> {
    if v.tag == TAG_CLOSURE && s.target(v) is Some {
        match s.object(v) {
            HeapObject::Closure { closure, .. } => Some(closure),
            _ => None,
        }
    } else {
        None
    }
}

/// The closure that a value stands for.
pub fn as_closure(heap: &FiberHeap, v: Value) -> (r: Option<&Closure>)
    ensures
        r is Some == closure_at(heap@, v) is Some,
        r is Some ==> *(r->0) == closure_at(heap@, v)->0,
{
    if v.tag != TAG_CLOSURE {
        return None;
    }
    match heap.deref(v) {
        Some(HeapObject::Closure { closure, .. }) => Some(closure),
        _ => None,
    }
}

/// Argument `i`, nil where the call has none.
pub open spec fn arg_or_nil(args: Seq<Value>, i: int) -> Value {
    if i < args.len() {
        args[i]
    } else {
        Value::nil()
    }
}

/// Argument `i`, nil where the call has none.
pub fn optional_arg(args: &Vec<Value>, i: usize) -> (r: Value)
    ensures
        r == arg_or_nil(args@, i as int),
{
    if i < args.len() {
        args[i]
    } else {
        Value::nil()
    }
}

/// The text of a string value.
pub open spec fn string_at(s: HeapState, v: Value) -> Option<Seq<char>> {
    if v.tag == TAG_STRING && s.target(v) is Some {
        match s.object(v) {
            HeapObject::LString { s: text, .. } => Some(text@),
            _ => None,
        }
    } else {
        None
    }
}

/// The text of a string value.
pub fn as_string(heap: &FiberHeap, v: Value) -> (r: Option<String>)
    ensures
        match r {
            Some(text) => string_at(heap@, v) == Some(text@),
            None => string_at(heap@, v) is None,
        },
{
    if v.tag != TAG_STRING {
        return None;
    }
    match heap.deref(v) {
        Some(HeapObject::LString { s, .. }) => Some(s.clone()),
        _ => None,
    }
}

/// The primitive failed with an error that has one more field, a text: the text
/// was born first.
pub open spec fn failed_with(
    before: HeapState,
    after: HeapState,
    home: RuntimeRegion,
    kind: Seq<char>,
    msg: Seq<char>,
    field: Seq<char>,
    text: Seq<char>,
    r: (SignalBits, Value),
) -> bool {
    exists|mid: HeapState, s: Value, extra: Seq<(String, Value)>|
        #![trigger error_made_extra(mid, after, home, kind, msg, extra, r.1), born(before, mid, home, s)]
        born(before, mid, home, s) && is_string(before, birth(mid), text) && extra.len() == 1 && extra[0].0@ == field
            && extra[0].1 == s && error_made_extra(mid, after, home, kind, msg, extra, r.1) && r.0
            == SignalBits::new(SIG_ERROR)
}

/// Fail with a kind, a message and one field that is a text.
pub fn fail_with(
    ctx: &Alloc,
    heap: &mut FiberHeap,
    kind: &str,
    msg: &String,
    field: &str,
    text: &String,
) -> (r: (SignalBits, Value))
    requires
        ctx.ready(old(heap)@, 11),
    ensures
        failed_with(
            old(heap)@,
            final(heap)@,
            ctx.home(),
            kind@,
            msg@,
            field@,
            text@,
            r,
        ),
        final(heap)@.valid(),
{
    let ghost start = heap@;
    proof {
        lemma_room_less(start, 11, 2);
    }
    let s = ctx.string(heap, text);
    let ghost mid = heap@;
    proof {
        lemma_allocated(start, birth(mid), ctx.home().0);
        assert(birth(mid).children().len() == 1);
        assert(start.allocated(birth(mid), ctx.home().0).room((11 - 1 - 1) as nat));
    }
    let mut extra: Vec<(String, Value)> = Vec::new();
    extra.push((field.to_string(), s));
    let r = ctx.rich_error(heap, &kind.to_string(), msg, &extra);
    assert(born(start, mid, ctx.home(), s));
    r
}

} // verus!
