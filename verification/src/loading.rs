//! Foreign libraries, calls and callbacks: what each primitive asks for, and what
//! is made of the reply.

use vstd::prelude::*;

use crate::ctx::{birth, Alloc};
use crate::ffi::Signature;
use crate::ffiprims::{gave, step_failed, FfiStep, Outcome};
use crate::heap::{FiberHeap, HeapState};
use crate::materialize::lemma_room_less;
use crate::object::HeapObject;
use crate::prim::{
    as_closure, as_string, closure_at, fail, failed, returned, string_at, type_error, type_error_text,
};
use crate::signalbits::SignalBits;
use crate::signals::{SIG_ERROR, SIG_OK};
use crate::text::{decimal, digits, push_decimal, push_hex};
use crate::value::{Value, TAG_CPOINTER, TAG_FFI_SIG, TAG_LIB_HANDLE, TAG_NIL};

verus! {

/// The signature that a value stands for.
pub open spec fn signature_at(s: HeapState, v: Value) -> Option<Signature> {
    if v.tag == TAG_FFI_SIG && s.target(v) is Some && s.object(v) is FFISignature {
        Some(s.object(v)->FFISignature_0)
    } else {
        None
    }
}

/// The signature that a value stands for.
pub fn as_ffi_signature(heap: &FiberHeap, v: Value) -> (r: Option<&Signature>)
    ensures
        r is Some == signature_at(heap@, v) is Some,
        r is Some ==> *(r->0) == signature_at(heap@, v)->0,
{
    if v.tag != TAG_FFI_SIG {
        return None;
    }
    match heap.deref(v) {
        Some(HeapObject::FFISignature(sig)) => Some(sig),
        _ => None,
    }
}

/// The library that a value stands for.
pub open spec fn library_at(s: HeapState, v: Value) -> Option<u32> {
    if v.tag == TAG_LIB_HANDLE && s.target(v) is Some && s.object(v) is LibHandle {
        Some(s.object(v)->LibHandle_0)
    } else {
        None
    }
}

/// The library that a value stands for.
pub fn as_lib_handle(heap: &FiberHeap, v: Value) -> (r: Option<u32>)
    ensures
        r == library_at(heap@, v),
{
    if v.tag != TAG_LIB_HANDLE {
        return None;
    }
    match heap.deref(v) {
        Some(HeapObject::LibHandle(id)) => Some(*id),
        _ => None,
    }
}

/// The values from the third on.
fn from_third(args: &Vec<Value>) -> (r: Vec<Value>)
    requires
        args@.len() >= 2,
    ensures
        r@ == args@.skip(2),
{
    let mut out: Vec<Value> = Vec::new();
    let mut i: usize = 2;
    while i < args.len()
        invariant
            2 <= i <= args@.len(),
            out@ == args@.subrange(2, i as int),
        decreases args.len() - i,
    {
        out.push(args[i]);
        i = i + 1;
        assert(out@ =~= args@.subrange(2, i as int));
    }
    assert(args@.subrange(2, i as int) =~= args@.skip(2));
    out
}

/// How `ffi/call` begins.
pub open spec fn call_asked(
    ctx: Alloc,
    heap: FiberHeap,
    heap_after: FiberHeap,
    args: Vec<Value>,
    kinds: Vec<String>,
    r: FfiStep,
) -> bool {
    &&& ({
            let s = heap@;
            let t = heap_after@;
            let h = ctx.home();
            if args@[0].tag == TAG_NIL {
                step_failed(s, t, h, "type-error"@, "ffi/call: function pointer is nil"@, r)
            } else if args@[0].tag != TAG_CPOINTER {
                let msg = type_error_text("ffi/call"@, "pointer"@, kinds@[0]@);
                step_failed(s, t, h, "type-error"@, msg, r)
            } else if signature_at(s, args@[1]) is None {
                let msg = type_error_text("ffi/call"@, "signature"@, kinds@[1]@);
                step_failed(s, t, h, "type-error"@, msg, r)
            } else {
                &&& r matches FfiStep::Call { addr, sig, args: passed }
                &&& addr == args@[0].payload
                &&& sig == args@[1]
                &&& passed@ == args@.skip(2)
                &&& t == s
            }
        })
}

/// Call a foreign function: a pointer, a signature, and the call's arguments.
pub fn prim_ffi_call(
    ctx: &Alloc,
    heap: &mut FiberHeap,
    args: &Vec<Value>,
    kinds: &Vec<String>,
) -> (r: FfiStep)
    requires
        kinds@.len() == args@.len(),
        ctx.ready(old(heap)@, 8),
        args@.len() >= 2,
    ensures
        call_asked(
            *ctx,
            *old(heap),
            *final(heap),
            *args,
            *kinds,
            r,
        ),
{
    if args[0].is_nil() {
        let msg = "ffi/call: function pointer is nil".to_string();
        return FfiStep::Done(fail(ctx, heap, "type-error", &msg));
    }
    let addr = match args[0].as_pointer() {
        Some(addr) => addr,
        None => {
            return FfiStep::Done(type_error(ctx, heap, &kinds[0], "ffi/call", "pointer"));
        },
    };
    match as_ffi_signature(heap, args[1]) {
        Some(_) => FfiStep::Call { addr, sig: args[1], args: from_third(args) },
        None => FfiStep::Done(type_error(ctx, heap, &kinds[1], "ffi/call", "signature")),
    }
}

/// What came of preparing and making a foreign call.
pub enum CallReply {
    /// No call interface could be prepared from the signature.
    NoInterface,
    /// The call ran.
    Value(Value),
    /// The call failed.
    Failed(String),
}

/// What `ffi/call` gives.
pub open spec fn call_answered(
    ctx: Alloc,
    heap: FiberHeap,
    heap_after: FiberHeap,
    reply: CallReply,
    callback_error: Option<Value>,
    r: Outcome,
) -> bool {
    &&& ({
            let s = heap@;
            let t = heap_after@;
            let h = ctx.home();
            match (reply, callback_error) {
                (CallReply::NoInterface, _) => failed(
                    s,
                    t,
                    h,
                    "ffi-error"@,
                    "ffi/call: failed to get CIF from signature"@,
                    r,
                ),
                (CallReply::Value(v), None) => r == returned(v) && t == s,
                (CallReply::Failed(e), None) => failed(s, t, h, "ffi-error"@, "ffi/call: "@ + e@, r),
                (CallReply::Value(_), Some(err)) => r == (SignalBits::new(SIG_ERROR), err) && t == s,
                (CallReply::Failed(e), Some(err)) => {
                    &&& r == (SignalBits::new(SIG_ERROR), err)
                    &&& exists|lost: Outcome| #[trigger]
                        failed(s, t, h, "ffi-error"@, "ffi/call: "@ + e@, lost)
                },
            }
        })
}

/// The result of a foreign call. An error that a callback left while the call ran
/// comes before the call's own result; without an interface no call ran.
pub fn ffi_called(
    ctx: &Alloc,
    heap: &mut FiberHeap,
    reply: CallReply,
    callback_error: Option<Value>,
) -> (r: Outcome)
    requires
        ctx.ready(old(heap)@, 8),
    ensures
        call_answered(
            *ctx,
            *old(heap),
            *final(heap),
            reply,
            callback_error,
            r,
        ),
{
    let result = match reply {
        CallReply::NoInterface => {
            let msg = "ffi/call: failed to get CIF from signature".to_string();
            return fail(ctx, heap, "ffi-error", &msg);
        },
        CallReply::Value(v) => (SignalBits::new(SIG_OK), v),
        CallReply::Failed(e) => {
            let mut msg = "ffi/call: ".to_string();
            msg.append(e.as_str());
            fail(ctx, heap, "ffi-error", &msg)
        },
    };
    match callback_error {
        Some(err) => (SignalBits::new(SIG_ERROR), err),
        None => result,
    }
}

/// How `ffi/native` begins.
pub open spec fn library_asked(
    ctx: Alloc,
    heap: FiberHeap,
    heap_after: FiberHeap,
    args: Vec<Value>,
    kinds: Vec<String>,
    r: FfiStep,
) -> bool {
    &&& ({
            let s = heap@;
            let t = heap_after@;
            if args@[0].tag == TAG_NIL {
                r == FfiStep::LoadSelf && t == s
            } else {
                match string_at(s, args@[0]) {
                    Some(path) => r is Load && r->Load_0@ == path && t == s,
                    None => {
                        let msg = type_error_text("ffi/native"@, "string or nil"@, kinds@[0]@);
                        step_failed(s, t, ctx.home(), "type-error"@, msg, r)
                    },
                }
            }
        })
}

/// Open a library: nil stands for the running program.
pub fn prim_ffi_native(
    ctx: &Alloc,
    heap: &mut FiberHeap,
    args: &Vec<Value>,
    kinds: &Vec<String>,
) -> (r: FfiStep)
    requires
        kinds@.len() == args@.len(),
        ctx.ready(old(heap)@, 8),
        args@.len() == 1,
    ensures
        library_asked(
            *ctx,
            *old(heap),
            *final(heap),
            *args,
            *kinds,
            r,
        ),
{
    if args[0].is_nil() {
        return FfiStep::LoadSelf;
    }
    match as_string(heap, args[0]) {
        Some(path) => FfiStep::Load(path),
        None => FfiStep::Done(type_error(ctx, heap, &kinds[0], "ffi/native", "string or nil")),
    }
}

/// What `ffi/native` gives.
pub open spec fn library_given(
    ctx: Alloc,
    heap: FiberHeap,
    heap_after: FiberHeap,
    reply: Result<u32, String>,
    r: Outcome,
) -> bool {
    &&& match reply {
            Ok(id) => {
                &&& gave(heap@, heap_after@, ctx.home(), r)
                &&& birth(heap_after@) == HeapObject::LibHandle(id)
            },
            Err(e) => failed(
                heap@,
                heap_after@,
                ctx.home(),
                "ffi-error"@,
                "ffi/native: "@ + e@,
                r,
            ),
        }
}

/// The result of opening a library: a handle for it.
pub fn ffi_loaded(ctx: &Alloc, heap: &mut FiberHeap, reply: Result<u32, String>) -> (r: Outcome)
    requires
        ctx.ready(old(heap)@, 8),
    ensures
        library_given(
            *ctx,
            *old(heap),
            *final(heap),
            reply,
            r,
        ),
{
    match reply {
        Ok(id) => {
            proof {
                lemma_room_less(heap@, 8, 1);
            }
            let v = ctx.lib_handle(heap, id);
            (SignalBits::new(SIG_OK), v)
        },
        Err(e) => {
            let mut msg = "ffi/native: ".to_string();
            msg.append(e.as_str());
            fail(ctx, heap, "ffi-error", &msg)
        },
    }
}

/// The library and the symbol that a primitive's arguments name, or its failure.
pub open spec fn names_symbol(
    s: HeapState,
    t: HeapState,
    ctx: Alloc,
    prim: Seq<char>,
    args: Seq<Value>,
    kinds: Seq<String>,
    r: Result<(u32, String), Outcome>,
) -> bool {
    if library_at(s, args[0]) is None {
        let msg = type_error_text(prim, "library handle"@, kinds[0]@);
        r is Err && failed(s, t, ctx.home(), "type-error"@, msg, r->Err_0)
    } else if string_at(s, args[1]) is None {
        let msg = type_error_text(prim, "string"@, kinds[1]@);
        r is Err && failed(s, t, ctx.home(), "type-error"@, msg, r->Err_0)
    } else {
        &&& r is Ok
        &&& Some((r->Ok_0).0) == library_at(s, args[0])
        &&& Some((r->Ok_0).1@) == string_at(s, args[1])
        &&& t == s
    }
}

/// Read a library handle and a symbol name.
fn library_and_symbol(
    ctx: &Alloc,
    heap: &mut FiberHeap,
    args: &Vec<Value>,
    kinds: &Vec<String>,
    prim: &str,
) -> (r: Result<(u32, String), Outcome>)
    requires
        kinds@.len() == args@.len(),
        ctx.ready(old(heap)@, 8),
        args@.len() == 2,
    ensures
        names_symbol(old(heap)@, final(heap)@, *ctx, prim@, args@, kinds@, r),
{
    let lib = match as_lib_handle(heap, args[0]) {
        Some(lib) => lib,
        None => {
            return Err(type_error(ctx, heap, &kinds[0], prim, "library handle"));
        },
    };
    match as_string(heap, args[1]) {
        Some(name) => Ok((lib, name)),
        None => Err(type_error(ctx, heap, &kinds[1], prim, "string")),
    }
}

/// How `ffi/lookup` begins.
pub open spec fn lookup_asked(
    ctx: Alloc,
    heap: FiberHeap,
    heap_after: FiberHeap,
    args: Vec<Value>,
    kinds: Vec<String>,
    r: FfiStep,
) -> bool {
    &&& match r {
            FfiStep::Done(out) => names_symbol(
                heap@,
                heap_after@,
                ctx,
                "ffi/lookup"@,
                args@,
                kinds@,
                Err(out),
            ),
            FfiStep::Lookup { lib, name } => names_symbol(
                heap@,
                heap_after@,
                ctx,
                "ffi/lookup"@,
                args@,
                kinds@,
                Ok((lib, name)),
            ),
            _ => false,
        }
}

/// Look a symbol up in an open library.
pub fn prim_ffi_lookup(
    ctx: &Alloc,
    heap: &mut FiberHeap,
    args: &Vec<Value>,
    kinds: &Vec<String>,
) -> (r: FfiStep)
    requires
        kinds@.len() == args@.len(),
        ctx.ready(old(heap)@, 8),
        args@.len() == 2,
    ensures
        lookup_asked(
            *ctx,
            *old(heap),
            *final(heap),
            *args,
            *kinds,
            r,
        ),
{
    match library_and_symbol(ctx, heap, args, kinds, "ffi/lookup") {
        Ok((lib, name)) => FfiStep::Lookup { lib, name },
        Err(out) => FfiStep::Done(out),
    }
}

/// What `ffi/lookup` gives.
pub open spec fn symbol_given(
    ctx: Alloc,
    heap: FiberHeap,
    heap_after: FiberHeap,
    reply: Result<u64, String>,
    r: Outcome,
) -> bool {
    &&& match reply {
            Ok(addr) => r == returned(Value::pointer(addr)) && heap_after@ == heap@,
            Err(e) => failed(
                heap@,
                heap_after@,
                ctx.home(),
                "ffi-error"@,
                "ffi/lookup: "@ + e@,
                r,
            ),
        }
}

/// The result of looking a symbol up: its address.
pub fn ffi_looked_up(ctx: &Alloc, heap: &mut FiberHeap, reply: Result<u64, String>) -> (r: Outcome)
    requires
        ctx.ready(old(heap)@, 8),
    ensures
        symbol_given(
            *ctx,
            *old(heap),
            *final(heap),
            reply,
            r,
        ),
{
    match reply {
        Ok(addr) => (SignalBits::new(SIG_OK), Value::pointer(addr)),
        Err(e) => {
            let mut msg = "ffi/lookup: ".to_string();
            msg.append(e.as_str());
            fail(ctx, heap, "ffi-error", &msg)
        },
    }
}

/// How `ffi/on-unload` begins.
pub open spec fn unload_asked(
    ctx: Alloc,
    heap: FiberHeap,
    heap_after: FiberHeap,
    args: Vec<Value>,
    kinds: Vec<String>,
    r: FfiStep,
) -> bool {
    &&& match r {
            FfiStep::Done(out) => names_symbol(
                heap@,
                heap_after@,
                ctx,
                "ffi/on-unload"@,
                args@,
                kinds@,
                Err(out),
            ),
            FfiStep::OnUnload { lib, name } => names_symbol(
                heap@,
                heap_after@,
                ctx,
                "ffi/on-unload"@,
                args@,
                kinds@,
                Ok((lib, name)),
            ),
            _ => false,
        }
}

/// Register a symbol to call when the program asks for teardown. The library is
/// never closed, so the registration is a courtesy.
pub fn prim_ffi_on_unload(
    ctx: &Alloc,
    heap: &mut FiberHeap,
    args: &Vec<Value>,
    kinds: &Vec<String>,
) -> (r: FfiStep)
    requires
        kinds@.len() == args@.len(),
        ctx.ready(old(heap)@, 8),
        args@.len() == 2,
    ensures
        unload_asked(
            *ctx,
            *old(heap),
            *final(heap),
            *args,
            *kinds,
            r,
        ),
{
    match library_and_symbol(ctx, heap, args, kinds, "ffi/on-unload") {
        Ok((lib, name)) => FfiStep::OnUnload { lib, name },
        Err(out) => FfiStep::Done(out),
    }
}

/// What `ffi/on-unload` gives.
pub open spec fn unload_registered(
    ctx: Alloc,
    heap: FiberHeap,
    heap_after: FiberHeap,
    reply: Result<(), String>,
    r: Outcome,
) -> bool {
    &&& match reply {
            Ok(_) => r == returned(Value::nil()) && heap_after@ == heap@,
            Err(e) => failed(
                heap@,
                heap_after@,
                ctx.home(),
                "ffi-error"@,
                "ffi/on-unload: "@ + e@,
                r,
            ),
        }
}

/// The result of registering a teardown.
pub fn ffi_registered(ctx: &Alloc, heap: &mut FiberHeap, reply: Result<(), String>) -> (r: Outcome)
    requires
        ctx.ready(old(heap)@, 8),
    ensures
        unload_registered(
            *ctx,
            *old(heap),
            *final(heap),
            reply,
            r,
        ),
{
    match reply {
        Ok(_) => (SignalBits::new(SIG_OK), Value::nil()),
        Err(e) => {
            let mut msg = "ffi/on-unload: ".to_string();
            msg.append(e.as_str());
            fail(ctx, heap, "ffi-error", &msg)
        },
    }
}

/// Run every registered teardown. The libraries themselves stay loaded.
pub fn prim_ffi_run_teardowns() -> (r: FfiStep)
    ensures
        r == FfiStep::RunTeardowns,
{
    FfiStep::RunTeardowns
}

/// The result of having run every registered teardown.
pub fn ffi_teardowns_ran() -> (r: Outcome)
    ensures
        r == returned(Value::nil()),
{
    (SignalBits::new(SIG_OK), Value::nil())
}

/// How `ffi/callback` begins.
pub open spec fn callback_asked(
    ctx: Alloc,
    heap: FiberHeap,
    heap_after: FiberHeap,
    args: Vec<Value>,
    kinds: Vec<String>,
    r: FfiStep,
) -> bool {
    &&& ({
            let s = heap@;
            let t = heap_after@;
            let h = ctx.home();
            match (signature_at(s, args@[0]), closure_at(s, args@[1])) {
                (None, _) => {
                    let msg = type_error_text("ffi/callback"@, "signature"@, kinds@[0]@);
                    step_failed(s, t, h, "type-error"@, msg, r)
                },
                (Some(_), None) => {
                    let msg = type_error_text("ffi/callback"@, "closure"@, kinds@[1]@);
                    step_failed(s, t, h, "type-error"@, msg, r)
                },
                (Some(sig), Some(closure)) => {
                    let arity = closure.code().arity;
                    if arity.accepts(sig.args@.len()) {
                        r == (FfiStep::Callback { sig: args@[0], closure: args@[1] }) && t == s
                    } else {
                        let msg = "ffi/callback: signature has "@ + decimal(sig.args@.len())
                            + " args but closure has arity "@ + arity.text();
                        step_failed(s, t, h, "arity-error"@, msg, r)
                    }
                },
            }
        })
}

/// Make a function pointer from a signature and a closure that takes as many
/// arguments.
pub fn prim_ffi_callback(
    ctx: &Alloc,
    heap: &mut FiberHeap,
    args: &Vec<Value>,
    kinds: &Vec<String>,
) -> (r: FfiStep)
    requires
        kinds@.len() == args@.len(),
        ctx.ready(old(heap)@, 8),
        args@.len() == 2,
    ensures
        callback_asked(
            *ctx,
            *old(heap),
            *final(heap),
            *args,
            *kinds,
            r,
        ),
{
    let n = match as_ffi_signature(heap, args[0]) {
        Some(sig) => sig.args.len(),
        None => {
            return FfiStep::Done(type_error(ctx, heap, &kinds[0], "ffi/callback", "signature"));
        },
    };
    let arity = match as_closure(heap, args[1]) {
        Some(closure) => closure.template.arity,
        None => {
            return FfiStep::Done(type_error(ctx, heap, &kinds[1], "ffi/callback", "closure"));
        },
    };
    if !arity.matches(n) {
        let mut msg = "ffi/callback: signature has ".to_string();
        push_decimal(&mut msg, n as u64);
        msg.append(" args but closure has arity ");
        arity.push_text(&mut msg);
        return FfiStep::Done(fail(ctx, heap, "arity-error", &msg));
    }
    FfiStep::Callback { sig: args[0], closure: args[1] }
}

/// What `ffi/callback` gives.
pub open spec fn callback_given(
    ctx: Alloc,
    heap: FiberHeap,
    heap_after: FiberHeap,
    reply: Result<u64, String>,
    r: Outcome,
) -> bool {
    &&& match reply {
            Ok(addr) => r == returned(Value::pointer(addr)) && heap_after@ == heap@,
            Err(e) => failed(
                heap@,
                heap_after@,
                ctx.home(),
                "ffi-error"@,
                "ffi/callback: "@ + e@,
                r,
            ),
        }
}

/// The result of making a callback: the address of its code.
pub fn ffi_callback_made(ctx: &Alloc, heap: &mut FiberHeap, reply: Result<u64, String>) -> (r: Outcome)
    requires
        ctx.ready(old(heap)@, 8),
    ensures
        callback_given(
            *ctx,
            *old(heap),
            *final(heap),
            reply,
            r,
        ),
{
    match reply {
        Ok(addr) => (SignalBits::new(SIG_OK), Value::pointer(addr)),
        Err(e) => {
            let mut msg = "ffi/callback: ".to_string();
            msg.append(e.as_str());
            fail(ctx, heap, "ffi-error", &msg)
        },
    }
}

/// How `ffi/callback-free` begins.
pub open spec fn callback_free_asked(
    ctx: Alloc,
    heap: FiberHeap,
    heap_after: FiberHeap,
    args: Vec<Value>,
    kinds: Vec<String>,
    r: FfiStep,
) -> bool {
    &&& ({
            let s = heap@;
            let t = heap_after@;
            if args@[0].tag == TAG_NIL {
                r == FfiStep::Done(returned(Value::nil())) && t == s
            } else if args@[0].tag == TAG_CPOINTER {
                r == FfiStep::DropCallback(args@[0].payload) && t == s
            } else {
                let msg = type_error_text("ffi/callback-free"@, "pointer"@, kinds@[0]@);
                step_failed(s, t, ctx.home(), "type-error"@, msg, r)
            }
        })
}

/// Drop a callback; nil is none.
pub fn prim_ffi_callback_free(
    ctx: &Alloc,
    heap: &mut FiberHeap,
    args: &Vec<Value>,
    kinds: &Vec<String>,
) -> (r: FfiStep)
    requires
        kinds@.len() == args@.len(),
        ctx.ready(old(heap)@, 8),
        args@.len() == 1,
    ensures
        callback_free_asked(
            *ctx,
            *old(heap),
            *final(heap),
            *args,
            *kinds,
            r,
        ),
{
    if args[0].is_nil() {
        return FfiStep::Done((SignalBits::new(SIG_OK), Value::nil()));
    }
    match args[0].as_pointer() {
        Some(addr) => FfiStep::DropCallback(addr),
        None => FfiStep::Done(type_error(ctx, heap, &kinds[0], "ffi/callback-free", "pointer")),
    }
}

/// What `ffi/callback-free` gives.
pub open spec fn callback_freed(
    ctx: Alloc,
    heap: FiberHeap,
    heap_after: FiberHeap,
    addr: u64,
    found: bool,
    r: Outcome,
) -> bool {
    &&& if found {
            r == returned(Value::nil()) && heap_after@ == heap@
        } else {
            failed(
                heap@,
                heap_after@,
                ctx.home(),
                "ffi-error"@,
                "ffi/callback-free: no callback at address 0x"@ + digits(addr as nat, 16),
                r,
            )
        }
}

/// The result of dropping the callback at `addr`: whether there was one.
pub fn ffi_callback_dropped(ctx: &Alloc, heap: &mut FiberHeap, addr: u64, found: bool) -> (r: Outcome)
    requires
        ctx.ready(old(heap)@, 8),
    ensures
        callback_freed(
            *ctx,
            *old(heap),
            *final(heap),
            addr,
            found,
            r,
        ),
{
    if found {
        (SignalBits::new(SIG_OK), Value::nil())
    } else {
        let mut msg = "ffi/callback-free: no callback at address 0x".to_string();
        push_hex(&mut msg, addr);
        fail(ctx, heap, "ffi-error", &msg)
    }
}

} // verus!
