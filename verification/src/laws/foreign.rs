//! Foreign types, memory, libraries and calls.

use vstd::prelude::*;

use crate::ctx::Alloc;
use crate::ffi::TypeDesc;
use crate::ffiprims::{
    array_type_made, as_managed_pointer, free_asked, malloc_asked, memory_given, pointer_made, pointer_moved,
    prim_ffi_align, prim_ffi_size, prim_ptr_diff, prim_ptr_to_int, sequence_items, signature_made, struct_type_made,
    FfiStep, Outcome,
};
use crate::heap::FiberHeap;
use crate::laws::collections::lemma_newborn_reads_back;
use crate::laws::failing::{lemma_failure_reads_back, raises};
use crate::laws::words::lemma_signed_and_back;
use crate::loading::{
    as_lib_handle, call_answered, call_asked, callback_asked, callback_free_asked, callback_freed, callback_given,
    library_asked, library_given, lookup_asked, symbol_given, unload_asked, unload_registered, CallReply,
};
use crate::object::{Arity, HeapObject};
use crate::prim::{closure_at, string_at, type_error_text};
use crate::signalbits::SignalBits;
use crate::signals::{SIG_ERROR, SIG_OK};
use crate::text::{decimal, digits};
use crate::value::{Value, TAG_ARRAY, TAG_ARRAY_MUT, TAG_CPOINTER, TAG_FFI_SIG, TAG_INT, TAG_LIB_HANDLE, TAG_NIL};

verus! {

/// Moving a pointer and measuring the way back gives the offset, and the way there its
/// negative: for every address and offset whose sum is a positive address.
pub proof fn lemma_pointer_difference_undoes_the_move(
    ctx: Alloc,
    heap: FiberHeap,
    after: FiberHeap,
    args: Vec<Value>,
    kinds: Vec<String>,
    a: u64,
    moved: Outcome,
    there: Outcome,
    back: Outcome,
)
    requires
        pointer_moved(ctx, heap, after, args, kinds, Ok(a), moved),
        args@.len() == 2,
        args@[1].tag == TAG_INT,
        0 < (a as i64) + (args@[1].payload as i64) <= i64::MAX,
        (a as i64) + (args@[1].payload as i64) <= usize::MAX,
        call_ensures(prim_ptr_diff, (Ok::<u64, Outcome>(moved.1.payload), Ok::<u64, Outcome>(a)), there),
        call_ensures(prim_ptr_diff, (Ok::<u64, Outcome>(a), Ok::<u64, Outcome>(moved.1.payload)), back),
        (args@[1].payload as i64) > i64::MIN,
    ensures
        moved.0 == SignalBits::new(SIG_OK),
        moved.1.tag == TAG_CPOINTER,
        moved.1.payload == (a as i64) + (args@[1].payload as i64),
        there.0 == SignalBits::new(SIG_OK),
        there.1 == args@[1],
        back.1.tag == TAG_INT,
        back.1.payload as i64 == -(args@[1].payload as i64),
        after@ == heap@,
{
    let p = args@[1].payload;
    lemma_signed_and_back(p, (-(p as i64)) as i64);
}

/// A pointer cannot be moved to nowhere, below it, or past what an address can be.
pub proof fn lemma_pointer_stays_an_address(
    ctx: Alloc,
    heap: FiberHeap,
    after: FiberHeap,
    args: Vec<Value>,
    kinds: Vec<String>,
    a: u64,
    r: Outcome,
)
    requires
        pointer_moved(ctx, heap, after, args, kinds, Ok(a), r),
        ctx.ready(heap@, 8),
        args@.len() == 2,
        args@[1].tag == TAG_INT,
    ensures
        ({
            let sum = (a as i64) + (args@[1].payload as i64);
            &&& sum == 0 ==> raises(after@, r, "argument-error"@, "ptr/add: result is null pointer"@)
            &&& i64::MIN <= sum < 0 ==> raises(
                after@,
                r,
                "argument-error"@,
                "ptr/add: result address is negative"@,
            )
            &&& (sum < i64::MIN || sum > i64::MAX) ==> raises(
                after@,
                r,
                "overflow-error"@,
                "ptr/add: address arithmetic overflow"@,
            )
        }),
{
    let sum = (a as i64) + (args@[1].payload as i64);
    if sum < i64::MIN || sum > i64::MAX {
        lemma_failure_reads_back(heap@, after@, ctx.home(), "overflow-error"@, "ptr/add: address arithmetic overflow"@, r);
    } else if sum < 0 {
        lemma_failure_reads_back(heap@, after@, ctx.home(), "argument-error"@, "ptr/add: result address is negative"@, r);
    } else if sum == 0 {
        lemma_failure_reads_back(heap@, after@, ctx.home(), "argument-error"@, "ptr/add: result is null pointer"@, r);
    }
}

/// An address goes to an integer and back unchanged.
pub proof fn lemma_address_survives_an_integer(
    ctx: Alloc,
    heap: FiberHeap,
    after: FiberHeap,
    args: Vec<Value>,
    kinds: Vec<String>,
    a: u64,
    n: Outcome,
    r: Outcome,
)
    requires
        a != 0,
        a <= usize::MAX,
        call_ensures(prim_ptr_to_int, (Ok::<u64, Outcome>(a),), n),
        args@.len() == 1,
        args@[0] == n.1,
        pointer_made(ctx, heap, after, args, kinds, r),
    ensures
        n.0 == SignalBits::new(SIG_OK),
        n.1.tag == TAG_INT,
        r.0 == SignalBits::new(SIG_OK),
        r.1 == (Value { tag: TAG_CPOINTER, payload: a }),
        after@ == heap@,
{
    lemma_signed_and_back(a, 0);
}

/// What was allocated is a managed pointer to that address; freeing it gives the very
/// address back to be freed, once: a second free is refused.
pub proof fn lemma_memory_is_freed_once(
    ctx: Alloc,
    h0: FiberHeap,
    h1: FiberHeap,
    h2: FiberHeap,
    h3: FiberHeap,
    addr: u64,
    given: Outcome,
    args: Vec<Value>,
    kinds: Vec<String>,
    first: FfiStep,
    second: FfiStep,
    seen: Option<Option<u64>>,
)
    requires
        memory_given(ctx, h0, h1, addr, given),
        addr != 0,
        ctx.ready(h0@, 8),
        ctx.ready(h2@, 8),
        args@.len() == 1,
        args@[0] == given.1,
        call_ensures(as_managed_pointer, (&h1, given.1), seen),
        free_asked(ctx, h1, h2, args, kinds, first),
        free_asked(ctx, h2, h3, args, kinds, second),
    ensures
        given.0 == SignalBits::new(SIG_OK),
        seen == Some(Some(addr)),
        first == FfiStep::Free(addr),
        second is Done,
        raises(h3@, second->Done_0, "double-free"@, "ffi/free: pointer has already been freed"@),
{
    lemma_newborn_reads_back(h0@, h1@, ctx.home(), given.1);
    lemma_failure_reads_back(
        h2@,
        h3@,
        ctx.home(),
        "double-free"@,
        "ffi/free: pointer has already been freed"@,
        second->Done_0,
    );
}

/// Freeing nil does nothing, and freeing a bare pointer gives its address back; either
/// way the heap is as it was.
pub proof fn lemma_free_of_nil_and_bare_pointers(
    ctx: Alloc,
    heap: FiberHeap,
    after: FiberHeap,
    args: Vec<Value>,
    kinds: Vec<String>,
    r: FfiStep,
)
    requires
        free_asked(ctx, heap, after, args, kinds, r),
        args@.len() == 1,
    ensures
        args@[0].tag == TAG_NIL ==> r == FfiStep::Done((SignalBits::new(SIG_OK), Value::nil())) && after@ == heap@,
        args@[0].tag == TAG_CPOINTER ==> r == FfiStep::Free(args@[0].payload) && after@ == heap@,
{
}

/// A request for memory is for the number of bytes that was asked for, which is positive;
/// no memory is an error.
pub proof fn lemma_malloc_asks_for_what_was_asked(
    ctx: Alloc,
    heap: FiberHeap,
    after: FiberHeap,
    args: Vec<Value>,
    kinds: Vec<String>,
    r: FfiStep,
    h2: FiberHeap,
    none: Outcome,
)
    requires
        malloc_asked(ctx, heap, after, args, kinds, r),
        args@.len() == 1,
        ctx.ready(heap@, 8),
        memory_given(ctx, heap, h2, 0, none),
    ensures
        args@[0].tag == TAG_INT && 0 < (args@[0].payload as i64) <= usize::MAX ==> r is Allocate && r->Allocate_0
            == (args@[0].payload as i64) && after@ == heap@,
        args@[0].tag == TAG_INT && (args@[0].payload as i64) <= 0 ==> r is Done && raises(
            after@,
            r->Done_0,
            "argument-error"@,
            "ffi/malloc: size must be positive"@,
        ),
        raises(h2@, none, "ffi-error"@, "ffi/malloc: allocation failed"@),
{
    lemma_failure_reads_back(heap@, h2@, ctx.home(), "ffi-error"@, "ffi/malloc: allocation failed"@, none);
    if args@[0].tag == TAG_INT && (args@[0].payload as i64) <= 0 {
        lemma_failure_reads_back(
            heap@,
            after@,
            ctx.home(),
            "argument-error"@,
            "ffi/malloc: size must be positive"@,
            r->Done_0,
        );
    }
}

/// A size and an alignment are told as they were measured; a type that has none gives
/// nil.
pub proof fn lemma_measures_are_told(n: Option<usize>, size: Outcome, align: Outcome)
    requires
        n matches Some(k) ==> k <= i64::MAX,
        call_ensures(prim_ffi_size, (Ok::<Option<usize>, Outcome>(n),), size),
        call_ensures(prim_ffi_align, (Ok::<Option<usize>, Outcome>(n),), align),
    ensures
        size == align,
        size.0 == SignalBits::new(SIG_OK),
        n matches Some(k) ==> size.1.tag == TAG_INT && size.1.payload == k,
        n is None ==> size.1.tag == TAG_NIL,
{
    if let Some(k) = n {
        lemma_signed_and_back(0, k as i64);
    }
}

/// The elements of an array, in order; those of a mutable array too.
pub proof fn lemma_items_of_an_array(heap: FiberHeap, v: Value, r: Option<Vec<Value>>)
    requires
        call_ensures(sequence_items, (&heap, v), r),
        heap@.target(v) is Some,
    ensures
        v.tag == TAG_ARRAY ==> (heap@.object(v) matches HeapObject::LArray { elements, .. } ==> r is Some && r->0@
            == elements@),
        v.tag == TAG_ARRAY_MUT ==> (heap@.object(v) matches HeapObject::LArrayMut { data, .. } ==> r is Some && r->0@
            == data@),
{
}

/// A struct type has the types that were named as its fields, each at its place; an array
/// type its element type, and the count.
pub proof fn lemma_compound_types_hold_their_parts(
    ctx: Alloc,
    heap: FiberHeap,
    ha: FiberHeap,
    hb: FiberHeap,
    args: Vec<Value>,
    more: Vec<Value>,
    kinds: Vec<String>,
    types: Vec<Result<TypeDesc, Outcome>>,
    elem: TypeDesc,
    made: Outcome,
    arr: Outcome,
)
    requires
        ctx.ready(heap@, 8),
        struct_type_made(ctx, heap, ha, args, kinds, types, made),
        crate::ffiprims::items_of(heap@, args@[0]) matches Some(items) && items.len() == types@.len() && items.len() > 0,
        forall|i: int| 0 <= i < types@.len() ==> #[trigger] types@[i] is Ok && !(types@[i]->Ok_0 is Void),
        array_type_made(ctx, heap, hb, more, kinds, Ok(elem), arr),
        more@.len() == 2,
        !(elem is Void),
        more@[1].tag == TAG_INT,
        0 < (more@[1].payload as i64) <= usize::MAX,
    ensures
        made.0 == SignalBits::new(SIG_OK),
        ha@.object(made.1) is FFIType,
        ha@.object(made.1)->FFIType_0 is Struct,
        ha@.object(made.1)->FFIType_0->Struct_0@.len() == types@.len(),
        forall|i: int|
            0 <= i < types@.len() ==> (#[trigger] ha@.object(made.1)->FFIType_0->Struct_0@[i]).same(types@[i]->Ok_0),
        arr.0 == SignalBits::new(SIG_OK),
        hb@.object(arr.1) is FFIType,
        hb@.object(arr.1)->FFIType_0 is Array,
        (*hb@.object(arr.1)->FFIType_0->Array_0).same(elem),
        hb@.object(arr.1)->FFIType_0->Array_1 == more@[1].payload as i64,
{
    lemma_none_refused(types@, true, 0);
    lemma_newborn_reads_back(heap@, ha@, ctx.home(), made.1);
    lemma_newborn_reads_back(heap@, hb@, ctx.home(), arr.1);
    let fields = ha@.object(made.1)->FFIType_0->Struct_0@;
    assert forall|i: int| 0 <= i < types@.len() implies (#[trigger] fields[i]).same(types@[i]->Ok_0) by {
        assert(crate::ffiprims::is_type(fields[i], types@[i]));
    }
}

proof fn lemma_none_refused(types: Seq<Result<TypeDesc, Outcome>>, void: bool, i: int)
    requires
        0 <= i <= types.len(),
        forall|j: int| 0 <= j < types.len() ==> #[trigger] types[j] is Ok && !(void && types[j]->Ok_0 is Void),
    ensures
        crate::ffiprims::first_refused(types, void, i) == types.len(),
    decreases types.len() - i,
{
    if i < types.len() {
        assert(types[i] is Ok);
        lemma_none_refused(types, void, i + 1);
    }
}

/// A signature has the return type and the argument types that were named, and as many
/// fixed arguments as were asked for, or none.
pub proof fn lemma_signature_holds_its_types(
    ctx: Alloc,
    heap: FiberHeap,
    after: FiberHeap,
    args: Vec<Value>,
    kinds: Vec<String>,
    ret: TypeDesc,
    types: Vec<Result<TypeDesc, Outcome>>,
    r: Outcome,
)
    requires
        ctx.ready(heap@, 8),
        signature_made(ctx, heap, after, args, kinds, Ok(ret), types, r),
        crate::ffiprims::items_of(heap@, args@[1]) is Some,
        forall|i: int| 0 <= i < types@.len() ==> #[trigger] types@[i] is Ok,
        args@.len() == 2 || args@.len() == 3,
        args@.len() == 3 ==> args@[2].tag == TAG_INT && 0 <= (args@[2].payload as i64) <= types@.len()
            && (args@[2].payload as i64) <= usize::MAX,
    ensures
        r.0 == SignalBits::new(SIG_OK),
        after@.object(r.1) is FFISignature,
        ({
            let sig = after@.object(r.1)->FFISignature_0;
            &&& sig.ret.same(ret)
            &&& sig.args@.len() == types@.len()
            &&& forall|i: int| 0 <= i < types@.len() ==> (#[trigger] sig.args@[i]).same(types@[i]->Ok_0)
            &&& args@.len() == 2 ==> sig.fixed_args is None
            &&& args@.len() == 3 ==> sig.fixed_args is Some && sig.fixed_args->0 == (args@[2].payload as i64)
        }),
{
    lemma_none_refused(types@, false, 0);
    lemma_newborn_reads_back(heap@, after@, ctx.home(), r.1);
    let sig = after@.object(r.1)->FFISignature_0;
    assert forall|i: int| 0 <= i < types@.len() implies (#[trigger] sig.args@[i]).same(types@[i]->Ok_0) by {
        assert(crate::ffiprims::is_type(sig.args@[i], types@[i]));
    }
}

/// A foreign call goes to the address of the pointer, by the signature, with the
/// arguments behind these two, in order; and gives what came back.
pub proof fn lemma_call_passes_its_arguments(
    ctx: Alloc,
    heap: FiberHeap,
    after: FiberHeap,
    args: Vec<Value>,
    kinds: Vec<String>,
    r: FfiStep,
    h1: FiberHeap,
    v: Value,
    given: Outcome,
)
    requires
        call_asked(ctx, heap, after, args, kinds, r),
        args@.len() >= 2,
        args@[0].tag == TAG_CPOINTER,
        args@[1].tag == TAG_FFI_SIG,
        heap@.target(args@[1]) is Some,
        heap@.object(args@[1]) is FFISignature,
        call_answered(ctx, after, h1, CallReply::Value(v), None, given),
    ensures
        after@ == heap@,
        r matches FfiStep::Call { addr, sig, args: passed } && addr == args@[0].payload && sig == args@[1]
            && passed@.len() == args@.len() - 2 && forall|i: int|
            0 <= i < passed@.len() ==> #[trigger] passed@[i] == args@[i + 2],
        given == (SignalBits::new(SIG_OK), v),
        h1@ == after@,
{
}

/// An error that a callback raised is the outcome of the call, whatever the call gave.
pub proof fn lemma_callback_error_wins(
    ctx: Alloc,
    heap: FiberHeap,
    after: FiberHeap,
    reply: CallReply,
    err: Value,
    r: Outcome,
)
    requires
        call_answered(ctx, heap, after, reply, Some(err), r),
        !(reply is NoInterface),
    ensures
        r == (SignalBits::new(SIG_ERROR), err),
{
}

/// A library that was loaded is known by the number it was given, and a symbol is looked
/// up in that very library, by the name that was passed; the pointer that comes back is
/// the symbol's address.
pub proof fn lemma_symbol_is_looked_up_in_its_library(
    ctx: Alloc,
    h0: FiberHeap,
    h1: FiberHeap,
    id: u32,
    lib: Outcome,
    seen: Option<u32>,
    h2: FiberHeap,
    h3: FiberHeap,
    args: Vec<Value>,
    kinds: Vec<String>,
    name: Seq<char>,
    asked: FfiStep,
    noted: FfiStep,
    addr: u64,
    h4: FiberHeap,
    found: Outcome,
)
    requires
        ctx.ready(h0@, 8),
        library_given(ctx, h0, h1, Ok(id), lib),
        call_ensures(as_lib_handle, (&h1, lib.1), seen),
        args@.len() == 2,
        args@[0] == lib.1,
        string_at(h1@, args@[1]) == Some(name),
        lookup_asked(ctx, h1, h2, args, kinds, asked),
        unload_asked(ctx, h1, h3, args, kinds, noted),
        symbol_given(ctx, h2, h4, Ok(addr), found),
        addr != 0,
    ensures
        lib.0 == SignalBits::new(SIG_OK),
        lib.1.tag == TAG_LIB_HANDLE,
        seen == Some(id),
        asked matches FfiStep::Lookup { lib: l, name: n } && l == id && n@ == name,
        noted matches FfiStep::OnUnload { lib: l, name: n } && l == id && n@ == name,
        found == (SignalBits::new(SIG_OK), Value { tag: TAG_CPOINTER, payload: addr }),
        h2@ == h1@,
        h3@ == h1@,
        h4@ == h2@,
{
    lemma_newborn_reads_back(h0@, h1@, ctx.home(), lib.1);
}

/// A library is asked for by the name that was passed, and nil asks for the program
/// itself. A load that failed is an error with its reason.
pub proof fn lemma_library_is_asked_by_name(
    ctx: Alloc,
    heap: FiberHeap,
    after: FiberHeap,
    args: Vec<Value>,
    kinds: Vec<String>,
    r: FfiStep,
    h1: FiberHeap,
    why: String,
    none: Outcome,
)
    requires
        ctx.ready(heap@, 8),
        args@.len() == 1,
        library_asked(ctx, heap, after, args, kinds, r),
        library_given(ctx, heap, h1, Err(why), none),
    ensures
        args@[0].tag == TAG_NIL ==> r == FfiStep::LoadSelf && after@ == heap@,
        string_at(heap@, args@[0]) matches Some(path) ==> r is Load && r->Load_0@ == path && after@ == heap@,
        raises(h1@, none, "ffi-error"@, "ffi/native: "@ + why@),
{
    lemma_failure_reads_back(heap@, h1@, ctx.home(), "ffi-error"@, "ffi/native: "@ + why@, none);
}

/// A callback is made of the signature and the closure that were passed, where the
/// closure takes as many arguments as the signature has; its pointer is the address that
/// it was given, and dropping that pointer drops the callback at that address.
pub proof fn lemma_callback_is_made_and_dropped(
    ctx: Alloc,
    heap: FiberHeap,
    after: FiberHeap,
    args: Vec<Value>,
    kinds: Vec<String>,
    r: FfiStep,
    addr: u64,
    h1: FiberHeap,
    made: Outcome,
    h2: FiberHeap,
    drop_args: Vec<Value>,
    dropped: FfiStep,
    h3: FiberHeap,
    gone: Outcome,
)
    requires
        args@.len() == 2,
        callback_asked(ctx, heap, after, args, kinds, r),
        args@[0].tag == TAG_FFI_SIG,
        heap@.target(args@[0]) is Some,
        heap@.object(args@[0]) is FFISignature,
        closure_at(heap@, args@[1]) is Some,
        (closure_at(heap@, args@[1])->0).template.arity == Arity::Exact(
            heap@.object(args@[0])->FFISignature_0.args@.len() as usize,
        ),
        heap@.object(args@[0])->FFISignature_0.args@.len() <= usize::MAX,
        addr != 0,
        callback_given(ctx, after, h1, Ok(addr), made),
        drop_args@.len() == 1,
        drop_args@[0] == made.1,
        callback_free_asked(ctx, h1, h2, drop_args, kinds, dropped),
        callback_freed(ctx, h2, h3, addr, true, gone),
    ensures
        r == (FfiStep::Callback { sig: args@[0], closure: args@[1] }),
        made == (SignalBits::new(SIG_OK), Value { tag: TAG_CPOINTER, payload: addr }),
        dropped == FfiStep::DropCallback(addr),
        gone == (SignalBits::new(SIG_OK), Value::nil()),
        h3@ == heap@,
{
}

/// A callback is refused where the closure does not take as many arguments as the
/// signature has; dropping a callback that is not there is an error.
pub proof fn lemma_callback_arity_must_match(
    ctx: Alloc,
    heap: FiberHeap,
    after: FiberHeap,
    args: Vec<Value>,
    kinds: Vec<String>,
    r: FfiStep,
    n: usize,
    addr: u64,
    h1: FiberHeap,
    gone: Outcome,
)
    requires
        ctx.ready(heap@, 8),
        args@.len() == 2,
        callback_asked(ctx, heap, after, args, kinds, r),
        args@[0].tag == TAG_FFI_SIG,
        heap@.target(args@[0]) is Some,
        heap@.object(args@[0]) is FFISignature,
        closure_at(heap@, args@[1]) is Some,
        (closure_at(heap@, args@[1])->0).template.arity == Arity::Exact(n),
        heap@.object(args@[0])->FFISignature_0.args@.len() != n,
        callback_freed(ctx, heap, h1, addr, false, gone),
    ensures
        r is Done,
        raises(
            after@,
            r->Done_0,
            "arity-error"@,
            "ffi/callback: signature has "@ + decimal(heap@.object(args@[0])->FFISignature_0.args@.len())
                + " args but closure has arity "@ + decimal(n as nat),
        ),
        raises(
            h1@,
            gone,
            "ffi-error"@,
            "ffi/callback-free: no callback at address 0x"@ + digits(addr as nat, 16),
        ),
{
    lemma_failure_reads_back(
        heap@,
        after@,
        ctx.home(),
        "arity-error"@,
        "ffi/callback: signature has "@ + decimal(heap@.object(args@[0])->FFISignature_0.args@.len())
            + " args but closure has arity "@ + decimal(n as nat),
        r->Done_0,
    );
    lemma_failure_reads_back(
        heap@,
        h1@,
        ctx.home(),
        "ffi-error"@,
        "ffi/callback-free: no callback at address 0x"@ + digits(addr as nat, 16),
        gone,
    );
}

/// Only what has the right type gets past the primitives: a moved pointer takes an
/// integer offset, memory an integer size, a call a pointer and a signature.
pub proof fn lemma_wrong_types_are_refused(
    ctx: Alloc,
    heap: FiberHeap,
    ha: FiberHeap,
    hb: FiberHeap,
    args: Vec<Value>,
    kinds: Vec<String>,
    moved: Outcome,
    a: u64,
    called: FfiStep,
)
    requires
        ctx.ready(heap@, 8),
        args@.len() == 2,
        kinds@.len() == 2,
        pointer_moved(ctx, heap, ha, args, kinds, Ok(a), moved),
        call_asked(ctx, heap, hb, args, kinds, called),
    ensures
        args@[1].tag != TAG_INT ==> raises(
            ha@,
            moved,
            "type-error"@,
            "ptr/add"@ + ": expected "@ + "integer for offset"@ + ", got "@ + kinds@[1]@,
        ),
        args@[0].tag != TAG_NIL && args@[0].tag != TAG_CPOINTER ==> called is Done && raises(
            hb@,
            called->Done_0,
            "type-error"@,
            "ffi/call"@ + ": expected "@ + "pointer"@ + ", got "@ + kinds@[0]@,
        ),
        args@[0].tag == TAG_CPOINTER && args@[1].tag != TAG_FFI_SIG ==> called is Done && raises(
            hb@,
            called->Done_0,
            "type-error"@,
            "ffi/call"@ + ": expected "@ + "signature"@ + ", got "@ + kinds@[1]@,
        ),
{
    if args@[1].tag != TAG_INT {
        let msg = type_error_text("ptr/add"@, "integer for offset"@, kinds@[1]@);
        lemma_failure_reads_back(heap@, ha@, ctx.home(), "type-error"@, msg, moved);
    }
    if args@[0].tag != TAG_NIL && args@[0].tag != TAG_CPOINTER {
        let msg = type_error_text("ffi/call"@, "pointer"@, kinds@[0]@);
        lemma_failure_reads_back(heap@, hb@, ctx.home(), "type-error"@, msg, called->Done_0);
    } else if args@[0].tag == TAG_CPOINTER && args@[1].tag != TAG_FFI_SIG {
        let msg = type_error_text("ffi/call"@, "signature"@, kinds@[1]@);
        lemma_failure_reads_back(heap@, hb@, ctx.home(), "type-error"@, msg, called->Done_0);
    }
}

/// A teardown that was registered gives nil; one that could not be is an error with its
/// reason, and so are a symbol that is not there and a callback that could not be made.
pub proof fn lemma_foreign_failures_give_their_reason(
    ctx: Alloc,
    heap: FiberHeap,
    ha: FiberHeap,
    hb: FiberHeap,
    hc: FiberHeap,
    hd: FiberHeap,
    he: FiberHeap,
    why: String,
    ok: Outcome,
    a: Outcome,
    b: Outcome,
    c: Outcome,
    d: Outcome,
)
    requires
        ctx.ready(heap@, 8),
        unload_registered(ctx, heap, ha, Ok(()), ok),
        unload_registered(ctx, heap, hb, Err(why), a),
        symbol_given(ctx, heap, hc, Err(why), b),
        callback_given(ctx, heap, hd, Err(why), c),
        call_answered(ctx, heap, he, CallReply::Failed(why), None, d),
    ensures
        ok == (SignalBits::new(SIG_OK), Value::nil()),
        ha@ == heap@,
        raises(hb@, a, "ffi-error"@, "ffi/on-unload: "@ + why@),
        raises(hc@, b, "ffi-error"@, "ffi/lookup: "@ + why@),
        raises(hd@, c, "ffi-error"@, "ffi/callback: "@ + why@),
        raises(he@, d, "ffi-error"@, "ffi/call: "@ + why@),
{
    lemma_failure_reads_back(heap@, hb@, ctx.home(), "ffi-error"@, "ffi/on-unload: "@ + why@, a);
    lemma_failure_reads_back(heap@, hc@, ctx.home(), "ffi-error"@, "ffi/lookup: "@ + why@, b);
    lemma_failure_reads_back(heap@, hd@, ctx.home(), "ffi-error"@, "ffi/callback: "@ + why@, c);
    lemma_failure_reads_back(heap@, he@, ctx.home(), "ffi-error"@, "ffi/call: "@ + why@, d);
}

} // verus!
