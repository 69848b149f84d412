//! Foreign memory, types, libraries, calls and callbacks.
//!
//! The foreign work itself is outside. A primitive here checks its arguments and
//! says what to do, and what came of it is turned into the primitive's result.
//! What a type argument stands for, and the address behind a pointer argument, is
//! looked up by the caller and handed in.

use vstd::prelude::*;

use crate::ctx::{birth, born, Alloc};
use crate::ffi::{Signature, TypeDesc};
use crate::heap::{freed, FiberHeap, HeapState, RuntimeRegion};
use crate::materialize::lemma_room_less;
use crate::object::HeapObject;
use crate::prim::{fail, failed, returned, type_error, type_error_text};
use crate::signalbits::SignalBits;
use crate::signals::SIG_OK;
use crate::text::{decimal, push_decimal, push_signed, signed_decimal};
use crate::value::{
    Value, TAG_ARRAY, TAG_ARRAY_MUT, TAG_CONS, TAG_CPOINTER, TAG_EMPTY_LIST, TAG_INT, TAG_MANAGED_PTR,
    TAG_NIL,
};

verus! {

/// A primitive's result.
pub type Outcome = (SignalBits, Value);

/// The items of a list of at most `fuel` cells, `None` where it is none.
pub open spec fn list_items(s: HeapState, v: Value, fuel: nat) -> Option<Seq<Value>>
    decreases fuel,
{
    if v.tag == TAG_EMPTY_LIST {
        Some(Seq::empty())
    } else if fuel > 0 && v.tag == TAG_CONS && s.target(v) is Some {
        match s.object(v) {
            HeapObject::Pair(p) => match list_items(s, p.rest, (fuel - 1) as nat) {
                Some(rest) => Some(seq![p.first] + rest),
                None => None,
            },
            _ => None,
        }
    } else {
        None
    }
}

/// The items of a list; a list has no more cells than the heap has objects.
pub fn list_to_vec(heap: &FiberHeap, v: Value) -> (r: Option<Vec<Value>>)
    ensures
        match r {
            Some(items) => list_items(heap@, v, heap@.objects.len()) == Some(items@),
            None => list_items(heap@, v, heap@.objects.len()) is None,
        },
{
    let mut out: Vec<Value> = Vec::new();
    let mut at: Value = v;
    let mut left: usize = heap.len();
    loop
        invariant
            left <= heap@.objects.len(),
            match list_items(heap@, at, left as nat) {
                Some(rest) => list_items(heap@, v, heap@.objects.len()) == Some(out@ + rest),
                None => list_items(heap@, v, heap@.objects.len()) is None,
            },
        decreases left,
    {
        if at.tag == TAG_EMPTY_LIST {
            assert(out@ + Seq::<Value>::empty() =~= out@);
            return Some(out);
        }
        if left == 0 || at.tag != TAG_CONS {
            return None;
        }
        match heap.deref(at) {
            Some(HeapObject::Pair(p)) => {
                let ghost before = out@;
                out.push(p.first);
                at = p.rest;
                left = left - 1;
                proof {
                    if let Some(rest) = list_items(heap@, at, left as nat) {
                        assert(before + (seq![p.first] + rest) =~= out@ + rest);
                    }
                }
            },
            _ => {
                return None;
            },
        }
    }
}

/// The items of an array, a mutable array or a list.
pub open spec fn items_of(s: HeapState, v: Value) -> Option<Seq<Value>> {
    if v.tag == TAG_ARRAY && s.target(v) is Some && s.object(v) is LArray {
        Some(s.object(v)->LArray_elements@)
    } else if v.tag == TAG_ARRAY_MUT && s.target(v) is Some && s.object(v) is LArrayMut {
        Some(s.object(v)->LArrayMut_data@)
    } else {
        list_items(s, v, s.objects.len())
    }
}

/// The items of an array, a mutable array or a list.
pub fn sequence_items(heap: &FiberHeap, v: Value) -> (r: Option<Vec<Value>>)
    ensures
        match r {
            Some(items) => items_of(heap@, v) == Some(items@),
            None => items_of(heap@, v) is None,
        },
{
    if v.tag == TAG_ARRAY {
        if let Some(HeapObject::LArray { elements, .. }) = heap.deref(v) {
            return Some(elements.clone());
        }
    }
    if v.tag == TAG_ARRAY_MUT {
        if let Some(HeapObject::LArrayMut { data, .. }) = heap.deref(v) {
            return Some(data.clone());
        }
    }
    list_to_vec(heap, v)
}

/// What the type arguments of a call stand for, in order; looking them up stops
/// after the first that stands for none.
pub open spec fn looked_up(types: Seq<Result<TypeDesc, Outcome>>, n: nat) -> bool {
    types.len() <= n && (types.len() < n ==> types.len() > 0 && types.last() is Err)
}

/// The first type from `i` on that is none, or, where `void` is refused, is void.
pub open spec fn first_refused(types: Seq<Result<TypeDesc, Outcome>>, void: bool, i: int) -> int
    decreases types.len() - i,
{
    if i < 0 || i >= types.len() {
        types.len() as int
    } else if types[i] is Err || (void && types[i]->Ok_0 is Void) {
        i
    } else {
        first_refused(types, void, i + 1)
    }
}

/// `desc` is the type that was looked up.
pub open spec fn is_type(desc: TypeDesc, found: Result<TypeDesc, Outcome>) -> bool {
    found is Ok && desc.same(found->Ok_0)
}

/// `fields` are the types that were looked up.
pub open spec fn same_types(fields: Seq<TypeDesc>, types: Seq<Result<TypeDesc, Outcome>>) -> bool {
    fields.len() == types.len() && forall|i: int|
        0 <= i < fields.len() ==> #[trigger] is_type(fields[i], types[i])
}

/// The types up to the first that is refused, and the first that is.
fn take_types(types: &Vec<Result<TypeDesc, Outcome>>, void: bool) -> (r: (Vec<TypeDesc>, usize))
    ensures
        r.1 == first_refused(types@, void, 0),
        r.1 <= types@.len(),
        r.1 == types@.len() ==> same_types(r.0@, types@),
        r.1 < types@.len() ==> types@[r.1 as int] is Err || (void && types@[r.1 as int]->Ok_0 is Void),
{
    let mut fields: Vec<TypeDesc> = Vec::new();
    let mut i: usize = 0;
    while i < types.len()
        invariant
            i <= types@.len(),
            fields@.len() == i,
            first_refused(types@, void, 0) == first_refused(types@, void, i as int),
            forall|k: int| 0 <= k < i ==> #[trigger] is_type(fields@[k], types@[k]),
        decreases types.len() - i,
    {
        match &types[i] {
            Ok(desc) => {
                if let TypeDesc::Void = desc {
                    if void {
                        return (fields, i);
                    }
                }
                let same = desc.copy();
                assert(is_type(same, types@[i as int]));
                let ghost before = fields@;
                fields.push(same);
                proof {
                    assert forall|k: int| 0 <= k < i + 1 implies #[trigger] is_type(fields@[k], types@[k]) by {
                        if k < i {
                            assert(is_type(before[k], types@[k]));
                        }
                    }
                }
            },
            Err(_) => {
                return (fields, i);
            },
        }
        i = i + 1;
    }
    (fields, i)
}

/// `after` is `before` with one more object, which `r` returns.
pub open spec fn gave(before: HeapState, after: HeapState, home: RuntimeRegion, r: Outcome) -> bool {
    r.0 == SignalBits::new(SIG_OK) && born(before, after, home, r.1)
}

/// What `ffi/struct` makes.
pub open spec fn struct_type_made(
    ctx: Alloc,
    heap: FiberHeap,
    heap_after: FiberHeap,
    args: Vec<Value>,
    kinds: Vec<String>,
    types: Vec<Result<TypeDesc, Outcome>>,
    r: Outcome,
) -> bool {
    &&& ({
            let s = heap@;
            let t = heap_after@;
            let h = ctx.home();
            let at = first_refused(types@, true, 0);
            match items_of(s, args@[0]) {
                None => failed(
                    s,
                    t,
                    h,
                    "type-error"@,
                    type_error_text("ffi/struct"@, "array or list of types"@, kinds@[0]@),
                    r,
                ),
                Some(items) => if items.len() == 0 {
                    failed(
                        s,
                        t,
                        h,
                        "argument-error"@,
                        "ffi/struct: struct must have at least one field"@,
                        r,
                    )
                } else if at == types@.len() {
                    &&& gave(s, t, h, r)
                    &&& birth(t) is FFIType
                    &&& birth(t)->FFIType_0 is Struct
                    &&& same_types(birth(t)->FFIType_0->Struct_0@, types@)
                } else if types@[at] is Err {
                    r == types@[at]->Err_0 && t == s
                } else {
                    failed(
                        s,
                        t,
                        h,
                        "argument-error"@,
                        "ffi/struct: void is not valid as a field type"@,
                        r,
                    )
                },
            }
        })
}

/// Build a struct type from the types of its fields.
pub fn prim_ffi_struct(
    ctx: &Alloc,
    heap: &mut FiberHeap,
    args: &Vec<Value>,
    kinds: &Vec<String>,
    types: &Vec<Result<TypeDesc, Outcome>>,
) -> (r: Outcome)
    requires
        kinds@.len() == args@.len(),
        ctx.ready(old(heap)@, 8),
        args@.len() == 1,
        items_of(old(heap)@, args@[0]) is Some ==> looked_up(
            types@,
            items_of(old(heap)@, args@[0])->0.len(),
        ),
    ensures
        struct_type_made(
            *ctx,
            *old(heap),
            *final(heap),
            *args,
            *kinds,
            *types,
            r,
        ),
{
    let items = match sequence_items(heap, args[0]) {
        Some(items) => items,
        None => {
            return type_error(ctx, heap, &kinds[0], "ffi/struct", "array or list of types");
        },
    };
    if items.len() == 0 {
        let msg = "ffi/struct: struct must have at least one field".to_string();
        return fail(ctx, heap, "argument-error", &msg);
    }
    let (fields, at) = take_types(types, true);
    if at < types.len() {
        return match &types[at] {
            Err(e) => *e,
            Ok(_) => {
                let msg = "ffi/struct: void is not valid as a field type".to_string();
                fail(ctx, heap, "argument-error", &msg)
            },
        };
    }
    proof {
        lemma_room_less(heap@, 8, 1);
    }
    let v = ctx.ffi_type(heap, TypeDesc::Struct(fields));
    (SignalBits::new(SIG_OK), v)
}

/// What `ffi/array` makes.
pub open spec fn array_type_made(
    ctx: Alloc,
    heap: FiberHeap,
    heap_after: FiberHeap,
    args: Vec<Value>,
    kinds: Vec<String>,
    elem: Result<TypeDesc, Outcome>,
    r: Outcome,
) -> bool {
    &&& ({
            let s = heap@;
            let t = heap_after@;
            let h = ctx.home();
            let n = args@[1].payload as i64;
            match elem {
                Err(e) => r == e && t == s,
                Ok(desc) => if desc is Void {
                    failed(s, t, h, "argument-error"@, "ffi/array: void is not valid as element type"@, r)
                } else if args@[1].tag != TAG_INT {
                    failed(
                        s,
                        t,
                        h,
                        "type-error"@,
                        type_error_text("ffi/array"@, "integer for count"@, kinds@[1]@),
                        r,
                    )
                } else if n == 0 {
                    failed(s, t, h, "argument-error"@, "ffi/array: count must be positive"@, r)
                } else if n < 0 {
                    failed(
                        s,
                        t,
                        h,
                        "argument-error"@,
                        "ffi/array: count must be positive, got "@ + signed_decimal(n as int),
                        r,
                    )
                } else {
                    &&& gave(s, t, h, r)
                    &&& birth(t) is FFIType
                    &&& birth(t)->FFIType_0 is Array
                    &&& (*birth(t)->FFIType_0->Array_0).same(desc)
                    &&& birth(t)->FFIType_0->Array_1 == n as usize
                },
            }
        })
}

/// Build an array type from the type of its elements and their number.
pub fn prim_ffi_array(
    ctx: &Alloc,
    heap: &mut FiberHeap,
    args: &Vec<Value>,
    kinds: &Vec<String>,
    elem: &Result<TypeDesc, Outcome>,
) -> (r: Outcome)
    requires
        kinds@.len() == args@.len(),
        ctx.ready(old(heap)@, 8),
        args@.len() == 2,
    ensures
        array_type_made(
            *ctx,
            *old(heap),
            *final(heap),
            *args,
            *kinds,
            *elem,
            r,
        ),
{
    let of = match elem {
        Err(e) => {
            return *e;
        },
        Ok(desc) => {
            if let TypeDesc::Void = desc {
                let msg = "ffi/array: void is not valid as element type".to_string();
                return fail(ctx, heap, "argument-error", &msg);
            }
            desc.copy()
        },
    };
    let n = match args[1].as_int() {
        Some(n) => n,
        None => {
            return type_error(ctx, heap, &kinds[1], "ffi/array", "integer for count");
        },
    };
    if n == 0 {
        let msg = "ffi/array: count must be positive".to_string();
        return fail(ctx, heap, "argument-error", &msg);
    }
    if n < 0 {
        let mut msg = "ffi/array: count must be positive, got ".to_string();
        push_signed(&mut msg, n);
        return fail(ctx, heap, "argument-error", &msg);
    }
    proof {
        lemma_room_less(heap@, 8, 1);
    }
    let v = ctx.ffi_type(heap, TypeDesc::Array(Box::new(of), n as usize));
    (SignalBits::new(SIG_OK), v)
}

/// The number of fixed arguments that a call gives, `None` where it gives none:
/// an integer from zero to the number of arguments.
pub open spec fn fixed_in_range(v: Value, n: nat) -> bool {
    v.tag == TAG_INT && 0 <= v.payload as i64 <= n
}

/// `sig` is the signature that was asked for.
pub open spec fn signature_is(
    sig: Signature,
    ret: TypeDesc,
    types: Seq<Result<TypeDesc, Outcome>>,
    args: Seq<Value>,
) -> bool {
    &&& sig.ret.same(ret)
    &&& same_types(sig.args@, types)
    &&& sig.fixed_args == if args.len() == 3 {
        Some((args[2].payload as i64) as usize)
    } else {
        None::<usize>
    }
}

/// What `ffi/signature` makes.
pub open spec fn signature_made(
    ctx: Alloc,
    heap: FiberHeap,
    heap_after: FiberHeap,
    args: Vec<Value>,
    kinds: Vec<String>,
    ret: Result<TypeDesc, Outcome>,
    types: Vec<Result<TypeDesc, Outcome>>,
    r: Outcome,
) -> bool {
    &&& ({
            let s = heap@;
            let t = heap_after@;
            let h = ctx.home();
            let at = first_refused(types@, false, 0);
            match (ret, items_of(s, args@[1])) {
                (Err(e), _) => r == e && t == s,
                (Ok(_), None) => failed(
                    s,
                    t,
                    h,
                    "type-error"@,
                    type_error_text("ffi/signature"@, "array or list for arg types"@, kinds@[1]@),
                    r,
                ),
                (Ok(desc), Some(_)) => if at < types@.len() {
                    types@[at] is Err && r == types@[at]->Err_0 && t == s
                } else if args@.len() == 3 && args@[2].tag != TAG_INT {
                    failed(
                        s,
                        t,
                        h,
                        "type-error"@,
                        type_error_text("ffi/signature"@, "integer for fixed_args"@, kinds@[2]@),
                        r,
                    )
                } else if args@.len() == 3 && !fixed_in_range(args@[2], types@.len()) {
                    failed(
                        s,
                        t,
                        h,
                        "argument-error"@,
                        "ffi/signature: fixed_args "@ + signed_decimal((args@[2].payload as i64) as int)
                            + " out of range [0, "@ + decimal(types@.len()) + "]"@,
                        r,
                    )
                } else {
                    &&& gave(s, t, h, r)
                    &&& birth(t) is FFISignature
                    &&& signature_is(birth(t)->FFISignature_0, desc, types@, args@)
                },
            }
        })
}

/// Build a signature from a return type, argument types and, for a variadic
/// function, the number of its fixed arguments.
pub fn prim_ffi_signature(
    ctx: &Alloc,
    heap: &mut FiberHeap,
    args: &Vec<Value>,
    kinds: &Vec<String>,
    ret: &Result<TypeDesc, Outcome>,
    types: &Vec<Result<TypeDesc, Outcome>>,
) -> (r: Outcome)
    requires
        kinds@.len() == args@.len(),
        ctx.ready(old(heap)@, 8),
        args@.len() == 2 || args@.len() == 3,
        ret is Ok && items_of(old(heap)@, args@[1]) is Some ==> looked_up(
            types@,
            items_of(old(heap)@, args@[1])->0.len(),
        ),
    ensures
        signature_made(
            *ctx,
            *old(heap),
            *final(heap),
            *args,
            *kinds,
            *ret,
            *types,
            r,
        ),
{
    let ret_desc = match ret {
        Ok(desc) => desc.copy(),
        Err(e) => {
            return *e;
        },
    };
    match sequence_items(heap, args[1]) {
        Some(_) => {},
        None => {
            return type_error(ctx, heap, &kinds[1], "ffi/signature", "array or list for arg types");
        },
    }
    let (arg_types, at) = take_types(types, false);
    if at < types.len() {
        if let Err(e) = &types[at] {
            return *e;
        }
    }
    let fixed_args: Option<usize> = if args.len() == 3 {
        match args[2].as_int() {
            Some(n) => {
                if n < 0 || (n as u64) > arg_types.len() as u64 {
                    let mut msg = "ffi/signature: fixed_args ".to_string();
                    push_signed(&mut msg, n);
                    msg.append(" out of range [0, ");
                    push_decimal(&mut msg, arg_types.len() as u64);
                    msg.append("]");
                    return fail(ctx, heap, "argument-error", &msg);
                }
                Some(n as usize)
            },
            None => {
                return type_error(ctx, heap, &kinds[2], "ffi/signature", "integer for fixed_args");
            },
        }
    } else {
        None
    };
    proof {
        lemma_room_less(heap@, 8, 1);
    }
    let v = ctx.ffi_signature(heap, Signature { ret: ret_desc, args: arg_types, fixed_args });
    (SignalBits::new(SIG_OK), v)
}

/// A measure of a type: nil where the type has none.
pub open spec fn measured(size: Result<Option<usize>, Outcome>) -> Outcome {
    match size {
        Err(e) => e,
        Ok(Some(n)) => returned(Value::integer(n as i64)),
        Ok(None) => returned(Value::nil()),
    }
}

/// The size of a foreign type in bytes, nil where it has none.
pub fn prim_ffi_size(size: Result<Option<usize>, Outcome>) -> (r: Outcome)
    ensures
        r == measured(size),
{
    match size {
        Err(e) => e,
        Ok(Some(n)) => (SignalBits::new(SIG_OK), Value::integer(n as i64)),
        Ok(None) => (SignalBits::new(SIG_OK), Value::nil()),
    }
}

/// The alignment of a foreign type in bytes, nil where it has none.
pub fn prim_ffi_align(align: Result<Option<usize>, Outcome>) -> (r: Outcome)
    ensures
        r == measured(align),
{
    prim_ffi_size(align)
}

/// What to do for a primitive that works on foreign memory or libraries.
pub enum FfiStep {
    /// The primitive is done.
    Done(Outcome),
    /// Allocate this many bytes.
    Allocate(usize),
    /// Give the memory at this address back; the primitive then returns nil.
    Free(u64),
    /// Call the function at the address with the signature and these arguments.
    Call { addr: u64, sig: Value, args: Vec<Value> },
    /// Open the running program as a library.
    LoadSelf,
    /// Open the library of this name.
    Load(String),
    /// Look this symbol up in the library.
    Lookup { lib: u32, name: String },
    /// Register this symbol as the library's teardown.
    OnUnload { lib: u32, name: String },
    /// Run every registered teardown, in the reverse of the order in which their
    /// libraries were loaded.
    RunTeardowns,
    /// Make a function pointer for the closure.
    Callback { sig: Value, closure: Value },
    /// Drop the callback at this address.
    DropCallback(u64),
}

/// The step reports a failure.
pub open spec fn step_failed(
    before: HeapState,
    after: HeapState,
    home: RuntimeRegion,
    kind: Seq<char>,
    msg: Seq<char>,
    step: FfiStep,
) -> bool {
    step is Done && failed(before, after, home, kind, msg, step->Done_0)
}

/// How `ffi/malloc` begins.
pub open spec fn malloc_asked(
    ctx: Alloc,
    heap: FiberHeap,
    heap_after: FiberHeap,
    args: Vec<Value>,
    kinds: Vec<String>,
    r: FfiStep,
) -> bool {
    &&& ({
            let s = heap@;
            let t = heap_after@;
            let h = ctx.home();
            let n = args@[0].payload as i64;
            if args@[0].tag != TAG_INT {
                let msg = type_error_text("ffi/malloc"@, "integer"@, kinds@[0]@);
                step_failed(s, t, h, "type-error"@, msg, r)
            } else if n <= 0 {
                step_failed(s, t, h, "argument-error"@, "ffi/malloc: size must be positive"@, r)
            } else {
                r == FfiStep::Allocate(n as usize) && t == s
            }
        })
}

/// Allocate foreign memory.
pub fn prim_ffi_malloc(
    ctx: &Alloc,
    heap: &mut FiberHeap,
    args: &Vec<Value>,
    kinds: &Vec<String>,
) -> (r: FfiStep)
    requires
        kinds@.len() == args@.len(),
        ctx.ready(old(heap)@, 8),
        args@.len() == 1,
    ensures
        malloc_asked(
            *ctx,
            *old(heap),
            *final(heap),
            *args,
            *kinds,
            r,
        ),
{
    match args[0].as_int() {
        Some(n) => {
            if n > 0 {
                FfiStep::Allocate(n as usize)
            } else {
                let msg = "ffi/malloc: size must be positive".to_string();
                FfiStep::Done(fail(ctx, heap, "argument-error", &msg))
            }
        },
        None => FfiStep::Done(type_error(ctx, heap, &kinds[0], "ffi/malloc", "integer")),
    }
}

/// What `ffi/malloc` gives.
pub open spec fn memory_given(
    ctx: Alloc,
    heap: FiberHeap,
    heap_after: FiberHeap,
    addr: u64,
    r: Outcome,
) -> bool {
    &&& if addr == 0 {
            failed(
                heap@,
                heap_after@,
                ctx.home(),
                "ffi-error"@,
                "ffi/malloc: allocation failed"@,
                r,
            )
        } else {
            &&& gave(heap@, heap_after@, ctx.home(), r)
            &&& birth(heap_after@) == (HeapObject::ManagedPointer {
                addr: Some(addr),
                traits: Value::nil(),
            })
        }
}

/// What the allocation gave: its address becomes a managed pointer.
pub fn ffi_allocated(ctx: &Alloc, heap: &mut FiberHeap, addr: u64) -> (r: Outcome)
    requires
        ctx.ready(old(heap)@, 8),
    ensures
        memory_given(
            *ctx,
            *old(heap),
            *final(heap),
            addr,
            r,
        ),
{
    if addr == 0 {
        let msg = "ffi/malloc: allocation failed".to_string();
        fail(ctx, heap, "ffi-error", &msg)
    } else {
        proof {
            lemma_room_less(heap@, 8, 2);
        }
        let v = ctx.managed_pointer(heap, addr);
        (SignalBits::new(SIG_OK), v)
    }
}

/// The managed pointer that a value stands for: its address, none once freed.
pub open spec fn managed_at(s: HeapState, v: Value) -> Option<Option<u64>> {
    if v.tag == TAG_MANAGED_PTR && s.target(v) is Some && s.object(v) is ManagedPointer {
        Some(s.object(v)->ManagedPointer_addr)
    } else {
        None
    }
}

/// The managed pointer that a value stands for.
pub fn as_managed_pointer(heap: &FiberHeap, v: Value) -> (r: Option<Option<u64>>)
    ensures
        r == managed_at(heap@, v),
{
    if v.tag != TAG_MANAGED_PTR {
        return None;
    }
    match heap.deref(v) {
        Some(HeapObject::ManagedPointer { addr, .. }) => Some(*addr),
        _ => None,
    }
}

/// What `ffi/free` does.
pub open spec fn free_asked(
    ctx: Alloc,
    heap: FiberHeap,
    heap_after: FiberHeap,
    args: Vec<Value>,
    kinds: Vec<String>,
    r: FfiStep,
) -> bool {
    &&& ({
            let s = heap@;
            let t = heap_after@;
            let h = ctx.home();
            if args@[0].tag == TAG_NIL {
                r == FfiStep::Done(returned(Value::nil())) && t == s
            } else {
                match managed_at(s, args@[0]) {
                    Some(Some(addr)) => {
                        &&& r == FfiStep::Free(addr)
                        &&& t == (HeapState {
                            objects: s.objects.update(s.target(args@[0])->0, freed(s.object(args@[0]))),
                            ..s
                        })
                        &&& managed_at(t, args@[0]) == Some(None::<u64>)
                    },
                    Some(None) => step_failed(
                        s,
                        t,
                        h,
                        "double-free"@,
                        "ffi/free: pointer has already been freed"@,
                        r,
                    ),
                    None => if args@[0].tag == TAG_CPOINTER {
                        r == FfiStep::Free(args@[0].payload) && t == s
                    } else {
                        let msg = type_error_text("ffi/free"@, "pointer"@, kinds@[0]@);
                        step_failed(s, t, h, "type-error"@, msg, r)
                    },
                }
            }
        })
}

/// Give foreign memory back. A managed pointer is marked freed and cannot be
/// freed again; a raw pointer is not tracked.
pub fn prim_ffi_free(
    ctx: &Alloc,
    heap: &mut FiberHeap,
    args: &Vec<Value>,
    kinds: &Vec<String>,
) -> (r: FfiStep)
    requires
        kinds@.len() == args@.len(),
        ctx.ready(old(heap)@, 8),
        args@.len() == 1,
    ensures
        free_asked(
            *ctx,
            *old(heap),
            *final(heap),
            *args,
            *kinds,
            r,
        ),
{
    if args[0].is_nil() {
        return FfiStep::Done((SignalBits::new(SIG_OK), Value::nil()));
    }
    if let Some(cell) = as_managed_pointer(heap, args[0]) {
        return match cell {
            Some(addr) => {
                heap.mark_freed(args[0]);
                FfiStep::Free(addr)
            },
            None => {
                let msg = "ffi/free: pointer has already been freed".to_string();
                FfiStep::Done(fail(ctx, heap, "double-free", &msg))
            },
        };
    }
    match args[0].as_pointer() {
        Some(addr) => FfiStep::Free(addr),
        None => FfiStep::Done(type_error(ctx, heap, &kinds[0], "ffi/free", "pointer")),
    }
}

/// A managed pointer is freed at most once: after a free that gave its memory
/// back, the next is refused.
pub proof fn lemma_freed_once(s: HeapState, t: HeapState, v: Value)
    requires
        managed_at(s, v) is Some,
        t == (HeapState { objects: s.objects.update(s.target(v)->0, freed(s.object(v))), ..s }),
    ensures
        managed_at(t, v) == Some(None::<u64>),
        forall|w: Value|
            #[trigger] managed_at(t, w) is Some && s.target(w) != s.target(v) ==> managed_at(t, w) == managed_at(
                s,
                w,
            ),
{
}

/// What `ptr/add` gives.
pub open spec fn pointer_moved(
    ctx: Alloc,
    heap: FiberHeap,
    heap_after: FiberHeap,
    args: Vec<Value>,
    kinds: Vec<String>,
    addr: Result<u64, Outcome>,
    r: Outcome,
) -> bool {
    &&& ({
            let s = heap@;
            let t = heap_after@;
            let h = ctx.home();
            match addr {
                Err(e) => r == e && t == s,
                Ok(a) => {
                    let sum = (a as i64) + (args@[1].payload as i64);
                    if args@[1].tag != TAG_INT {
                        let msg = type_error_text("ptr/add"@, "integer for offset"@, kinds@[1]@);
                        failed(s, t, h, "type-error"@, msg, r)
                    } else if !(i64::MIN <= sum <= i64::MAX) {
                        failed(s, t, h, "overflow-error"@, "ptr/add: address arithmetic overflow"@, r)
                    } else if sum < 0 {
                        failed(s, t, h, "argument-error"@, "ptr/add: result address is negative"@, r)
                    } else if sum == 0 {
                        failed(s, t, h, "argument-error"@, "ptr/add: result is null pointer"@, r)
                    } else if sum > usize::MAX {
                        let msg = "ptr/add: result address exceeds pointer range"@;
                        failed(s, t, h, "argument-error"@, msg, r)
                    } else {
                        r == returned(Value::pointer(sum as u64)) && t == s
                    }
                },
            }
        })
}

/// Offset a pointer by a number of bytes, which may be negative. The result is a
/// raw pointer.
pub fn prim_ptr_add(
    ctx: &Alloc,
    heap: &mut FiberHeap,
    args: &Vec<Value>,
    kinds: &Vec<String>,
    addr: Result<u64, Outcome>,
) -> (r: Outcome)
    requires
        kinds@.len() == args@.len(),
        ctx.ready(old(heap)@, 8),
        args@.len() == 2,
    ensures
        pointer_moved(
            *ctx,
            *old(heap),
            *final(heap),
            *args,
            *kinds,
            addr,
            r,
        ),
{
    let a = match addr {
        Ok(a) => a,
        Err(e) => {
            return e;
        },
    };
    let offset = match args[1].as_int() {
        Some(n) => n,
        None => {
            return type_error(ctx, heap, &kinds[1], "ptr/add", "integer for offset");
        },
    };
    let sum = match (a as i64).checked_add(offset) {
        Some(n) => n,
        None => {
            let msg = "ptr/add: address arithmetic overflow".to_string();
            return fail(ctx, heap, "overflow-error", &msg);
        },
    };
    if sum < 0 {
        let msg = "ptr/add: result address is negative".to_string();
        return fail(ctx, heap, "argument-error", &msg);
    }
    let result: u64 = sum as u64;
    if result == 0 {
        let msg = "ptr/add: result is null pointer".to_string();
        return fail(ctx, heap, "argument-error", &msg);
    }
    if result > usize::MAX as u64 {
        let msg = "ptr/add: result address exceeds pointer range".to_string();
        return fail(ctx, heap, "argument-error", &msg);
    }
    (SignalBits::new(SIG_OK), Value::pointer(result))
}

/// `n` brought into the range of a signed machine word.
pub open spec fn wrapped(n: int) -> int {
    if n > i64::MAX {
        n - 0x1_0000_0000_0000_0000
    } else if n < i64::MIN {
        n + 0x1_0000_0000_0000_0000
    } else {
        n
    }
}

/// The signed distance in bytes from the second pointer to the first.
pub fn prim_ptr_diff(a: Result<u64, Outcome>, b: Result<u64, Outcome>) -> (r: Outcome)
    ensures
        match (a, b) {
            (Err(e), _) => r == e,
            (Ok(_), Err(e)) => r == e,
            (Ok(x), Ok(y)) => r == returned(
                Value::integer(wrapped((x as i64) - (y as i64)) as i64),
            ),
        },
{
    let x = match a {
        Ok(x) => x,
        Err(e) => {
            return e;
        },
    };
    let y = match b {
        Ok(y) => y,
        Err(e) => {
            return e;
        },
    };
    let diff: i64 = (x as i64).wrapping_sub(y as i64);
    (SignalBits::new(SIG_OK), Value::integer(diff))
}

/// The address of a pointer as an integer.
pub fn prim_ptr_to_int(addr: Result<u64, Outcome>) -> (r: Outcome)
    ensures
        match addr {
            Err(e) => r == e,
            Ok(a) => r == returned(Value::integer(a as i64)),
        },
{
    match addr {
        Ok(a) => (SignalBits::new(SIG_OK), Value::integer(a as i64)),
        Err(e) => e,
    }
}

/// What `ptr/from-int` gives.
pub open spec fn pointer_made(
    ctx: Alloc,
    heap: FiberHeap,
    heap_after: FiberHeap,
    args: Vec<Value>,
    kinds: Vec<String>,
    r: Outcome,
) -> bool {
    &&& ({
            let s = heap@;
            let t = heap_after@;
            let h = ctx.home();
            let addr = (args@[0].payload as i64) as u64;
            if args@[0].tag != TAG_INT {
                let msg = type_error_text("ptr/from-int"@, "integer"@, kinds@[0]@);
                failed(s, t, h, "type-error"@, msg, r)
            } else if addr > usize::MAX {
                failed(s, t, h, "argument-error"@, "ptr/from-int: address exceeds pointer range"@, r)
            } else {
                r == returned(Value::pointer(addr)) && t == s
            }
        })
}

/// A raw pointer of an address; the address zero gives nil. A negative integer
/// stands for the address of the same bits.
pub fn prim_ptr_from_int(
    ctx: &Alloc,
    heap: &mut FiberHeap,
    args: &Vec<Value>,
    kinds: &Vec<String>,
) -> (r: Outcome)
    requires
        kinds@.len() == args@.len(),
        ctx.ready(old(heap)@, 8),
        args@.len() == 1,
    ensures
        pointer_made(
            *ctx,
            *old(heap),
            *final(heap),
            *args,
            *kinds,
            r,
        ),
{
    let n = match args[0].as_int() {
        Some(n) => n,
        None => {
            return type_error(ctx, heap, &kinds[0], "ptr/from-int", "integer");
        },
    };
    let addr: u64 = n as u64;
    if addr > usize::MAX as u64 {
        let msg = "ptr/from-int: address exceeds pointer range".to_string();
        return fail(ctx, heap, "argument-error", &msg);
    }
    (SignalBits::new(SIG_OK), Value::pointer(addr))
}

/// The distance undoes the offset, both ways: where `ptr/add` moves the address `a` by
/// `n`, the result is `n` behind `a`, and `a` is `-n` behind the result.
pub proof fn lemma_diff_undoes_add(a: u64, n: i64)
    requires
        0 < (a as i64) + n <= i64::MAX,
        (a as i64) + n <= usize::MAX,
    ensures
        ({
            let q = Value::pointer(((a as i64) + n) as u64);
            &&& q.tag == TAG_CPOINTER
            &&& Value::integer(wrapped((q.payload as i64) - (a as i64)) as i64) == Value::integer(n)
            &&& Value::integer(wrapped((a as i64) - (q.payload as i64)) as i64) == Value::integer((-n) as i64)
        }),
{
}

/// An address survives the way through an integer and back.
pub proof fn lemma_address_round_trip(addr: u64)
    requires
        addr != 0,
    ensures
        ((addr as i64) as u64) == addr,
        Value::pointer(((addr as i64) as u64)).payload == addr,
{
    assert(((addr as i64) as u64) == addr) by (bit_vector);
}

} // verus!
