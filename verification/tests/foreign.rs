//! Foreign types, memory, libraries and calls.

use std::rc::Rc;

use elle_core::ctx::Alloc;
use elle_core::ffi::TypeDesc;
use elle_core::ffiprims::{
    as_managed_pointer, ffi_allocated, list_to_vec, prim_ffi_align, prim_ffi_array, prim_ffi_free,
    prim_ffi_malloc, prim_ffi_signature, prim_ffi_size, prim_ffi_struct, prim_ptr_add, prim_ptr_diff,
    prim_ptr_from_int, prim_ptr_to_int, FfiStep, Outcome,
};
use elle_core::fields::get_field;
use elle_core::heap::FiberHeap;
use elle_core::loading::{
    ffi_callback_dropped, ffi_callback_made, ffi_called, ffi_loaded, ffi_looked_up, ffi_registered, ffi_teardowns_ran,
    prim_ffi_call, prim_ffi_callback, prim_ffi_callback_free, prim_ffi_lookup, prim_ffi_native,
    prim_ffi_on_unload, prim_ffi_run_teardowns, CallReply,
};
use elle_core::object::{Arity, Closure, ClosureTemplate, HeapObject};
use elle_core::signalbits::SignalBits;
use elle_core::signals::{SIG_ERROR, SIG_OK};
use elle_core::value::Value;

/// How the types of arguments read.
fn kinds(args: &Vec<Value>) -> Vec<String> {
    args.iter().map(|v| v.tag_name().to_string()).collect()
}

fn setup() -> (FiberHeap, Alloc) {
    let mut heap = FiberHeap::new();
    let ctx = Alloc::new(&mut heap);
    (heap, ctx)
}

fn ok(v: Value) -> Outcome {
    (SignalBits::new(SIG_OK), v)
}

/// The kind and the message of a failure.
fn failure(heap: &FiberHeap, r: Outcome) -> (String, String) {
    assert_eq!(r.0, SignalBits::new(SIG_ERROR));
    let data = match heap.deref(r.1) {
        Some(HeapObject::LStruct { data, .. }) => data,
        _ => panic!("not an error"),
    };
    let kind = get_field(data, &"error".to_string()).expect("kind");
    let msg = get_field(data, &"message".to_string()).expect("message");
    let msg = match heap.deref(msg) {
        Some(HeapObject::LString { s, .. }) => s.clone(),
        _ => panic!("no message"),
    };
    (heap.keyword_spelling(kind).expect("a keyword"), msg)
}

fn fails(heap: &FiberHeap, r: Outcome, kind: &str, msg: &str) {
    assert_eq!(failure(heap, r), (kind.to_string(), msg.to_string()));
}

fn done(step: FfiStep) -> Outcome {
    match step {
        FfiStep::Done(r) => r,
        _ => panic!("not done"),
    }
}

fn desc_of(heap: &FiberHeap, v: Value) -> &TypeDesc {
    match heap.deref(v) {
        Some(HeapObject::FFIType(d)) => d,
        _ => panic!("not a type"),
    }
}

#[test]
fn a_struct_type_has_its_fields() {
    let (mut heap, ctx) = setup();
    let fields = ctx.array(&mut heap, vec![Value::nil(), Value::nil()]);
    let types = vec![Ok(TypeDesc::I32), Ok(TypeDesc::Double)];
    let r = prim_ffi_struct(&ctx, &mut heap, &vec![fields], &kinds(&vec![fields]), &types);
    assert_eq!(r.0, SignalBits::new(SIG_OK));
    match desc_of(&heap, r.1) {
        TypeDesc::Struct(f) => {
            assert_eq!(f.len(), 2);
            assert!(matches!(f[0], TypeDesc::I32));
            assert!(matches!(f[1], TypeDesc::Double));
        }
        _ => panic!("not a struct type"),
    }
}

#[test]
fn a_struct_type_refuses_what_it_cannot_hold() {
    let (mut heap, ctx) = setup();
    let r = prim_ffi_struct(&ctx, &mut heap, &vec![Value::integer(1)], &kinds(&vec![Value::integer(1)]), &vec![]);
    fails(&heap, r, "type-error", "ffi/struct: expected array or list of types, got int");
    let r = prim_ffi_struct(&ctx, &mut heap, &vec![Value::empty_list()], &kinds(&vec![Value::empty_list()]), &vec![]);
    fails(&heap, r, "argument-error", "ffi/struct: struct must have at least one field");
    let list = ctx.list(&mut heap, &vec![Value::nil()]);
    let r = prim_ffi_struct(&ctx, &mut heap, &vec![list], &kinds(&vec![list]), &vec![Ok(TypeDesc::Void)]);
    fails(&heap, r, "argument-error", "ffi/struct: void is not valid as a field type");
    let lost = ok(Value::integer(9));
    let r = prim_ffi_struct(&ctx, &mut heap, &vec![list], &kinds(&vec![list]), &vec![Err(lost)]);
    assert_eq!(r, lost);
}

#[test]
fn a_list_is_read_in_order() {
    let (mut heap, ctx) = setup();
    let items = vec![Value::integer(1), Value::integer(2), Value::integer(3)];
    let list = ctx.list(&mut heap, &items);
    assert_eq!(list_to_vec(&heap, list), Some(items));
    let odd = ctx.pair(&mut heap, Value::integer(1), Value::integer(2));
    assert_eq!(list_to_vec(&heap, odd), None);
}

#[test]
fn an_array_type_counts() {
    let (mut heap, ctx) = setup();
    let r = prim_ffi_array(&ctx, &mut heap, &vec![Value::nil(), Value::integer(10)], &kinds(&vec![Value::nil(), Value::integer(10)]), &Ok(TypeDesc::I32));
    assert!(matches!(desc_of(&heap, r.1), TypeDesc::Array(_, 10)));
    let r = prim_ffi_array(&ctx, &mut heap, &vec![Value::nil(), Value::integer(0)], &kinds(&vec![Value::nil(), Value::integer(0)]), &Ok(TypeDesc::I32));
    fails(&heap, r, "argument-error", "ffi/array: count must be positive");
    let r = prim_ffi_array(&ctx, &mut heap, &vec![Value::nil(), Value::integer(-3)], &kinds(&vec![Value::nil(), Value::integer(-3)]), &Ok(TypeDesc::I32));
    fails(&heap, r, "argument-error", "ffi/array: count must be positive, got -3");
    let r = prim_ffi_array(&ctx, &mut heap, &vec![Value::nil(), Value::nil()], &kinds(&vec![Value::nil(), Value::nil()]), &Ok(TypeDesc::I32));
    fails(&heap, r, "type-error", "ffi/array: expected integer for count, got nil");
    let r = prim_ffi_array(&ctx, &mut heap, &vec![Value::nil(), Value::nil()], &kinds(&vec![Value::nil(), Value::nil()]), &Ok(TypeDesc::Void));
    fails(&heap, r, "argument-error", "ffi/array: void is not valid as element type");
}

#[test]
fn a_signature_keeps_its_fixed_arguments() {
    let (mut heap, ctx) = setup();
    let args = ctx.array(&mut heap, vec![Value::nil(), Value::nil()]);
    let types = vec![Ok(TypeDesc::Ptr), Ok(TypeDesc::I64)];
    let call = vec![Value::nil(), args, Value::integer(1)];
    let r = prim_ffi_signature(&ctx, &mut heap, &call, &kinds(&call), &Ok(TypeDesc::I32), &types);
    match heap.deref(r.1) {
        Some(HeapObject::FFISignature(sig)) => {
            assert!(matches!(sig.ret, TypeDesc::I32));
            assert_eq!(sig.args.len(), 2);
            assert_eq!(sig.fixed_args, Some(1));
        }
        _ => panic!("not a signature"),
    }
    let call = vec![Value::nil(), args, Value::integer(3)];
    let r = prim_ffi_signature(&ctx, &mut heap, &call, &kinds(&call), &Ok(TypeDesc::I32), &types);
    fails(&heap, r, "argument-error", "ffi/signature: fixed_args 3 out of range [0, 2]");
    let call = vec![Value::nil(), args, Value::bool(true)];
    let r = prim_ffi_signature(&ctx, &mut heap, &call, &kinds(&call), &Ok(TypeDesc::I32), &types);
    fails(&heap, r, "type-error", "ffi/signature: expected integer for fixed_args, got bool");
    let call = vec![Value::nil(), Value::nil()];
    let r = prim_ffi_signature(&ctx, &mut heap, &call, &kinds(&call), &Ok(TypeDesc::I32), &vec![]);
    fails(&heap, r, "type-error", "ffi/signature: expected array or list for arg types, got nil");
}

#[test]
fn sizes_are_integers_or_nil() {
    assert_eq!(prim_ffi_size(Ok(Some(4))), ok(Value::integer(4)));
    assert_eq!(prim_ffi_align(Ok(Some(8))), ok(Value::integer(8)));
    assert_eq!(prim_ffi_size(Ok(None)), ok(Value::nil()));
}

#[test]
fn memory_is_freed_at_most_once() {
    let (mut heap, ctx) = setup();
    let size = match prim_ffi_malloc(&ctx, &mut heap, &vec![Value::integer(100)], &kinds(&vec![Value::integer(100)])) {
        FfiStep::Allocate(n) => n,
        _ => panic!("nothing to allocate"),
    };
    assert_eq!(size, 100);
    let r = ffi_allocated(&ctx, &mut heap, 0x1000);
    let p = r.1;
    assert_eq!(as_managed_pointer(&heap, p), Some(Some(0x1000)));
    match prim_ffi_free(&ctx, &mut heap, &vec![p], &kinds(&vec![p])) {
        FfiStep::Free(addr) => assert_eq!(addr, 0x1000),
        _ => panic!("nothing to free"),
    }
    assert_eq!(as_managed_pointer(&heap, p), Some(None));
    let r = done(prim_ffi_free(&ctx, &mut heap, &vec![p], &kinds(&vec![p])));
    fails(&heap, r, "double-free", "ffi/free: pointer has already been freed");
}

#[test]
fn memory_errors_are_named() {
    let (mut heap, ctx) = setup();
    let r = done(prim_ffi_malloc(&ctx, &mut heap, &vec![Value::integer(0)], &kinds(&vec![Value::integer(0)])));
    fails(&heap, r, "argument-error", "ffi/malloc: size must be positive");
    let r = done(prim_ffi_malloc(&ctx, &mut heap, &vec![Value::nil()], &kinds(&vec![Value::nil()])));
    fails(&heap, r, "type-error", "ffi/malloc: expected integer, got nil");
    let r = ffi_allocated(&ctx, &mut heap, 0);
    fails(&heap, r, "ffi-error", "ffi/malloc: allocation failed");
    assert_eq!(done(prim_ffi_free(&ctx, &mut heap, &vec![Value::nil()], &kinds(&vec![Value::nil()]))), ok(Value::nil()));
    assert!(matches!(prim_ffi_free(&ctx, &mut heap, &vec![Value::pointer(64)], &kinds(&vec![Value::pointer(64)])), FfiStep::Free(64)));
    let r = done(prim_ffi_free(&ctx, &mut heap, &vec![Value::integer(1)], &kinds(&vec![Value::integer(1)])));
    fails(&heap, r, "type-error", "ffi/free: expected pointer, got int");
}

#[test]
fn pointers_move_by_bytes() {
    let (mut heap, ctx) = setup();
    let add = |heap: &mut FiberHeap, addr: u64, by: i64| {
        prim_ptr_add(&ctx, heap, &vec![Value::nil(), Value::integer(by)], &kinds(&vec![Value::nil(), Value::integer(by)]), Ok(addr))
    };
    assert_eq!(add(&mut heap, 4096, 16), ok(Value::pointer(4112)));
    assert_eq!(add(&mut heap, 4096, -16), ok(Value::pointer(4080)));
    let r = add(&mut heap, 16, -16);
    fails(&heap, r, "argument-error", "ptr/add: result is null pointer");
    let r = add(&mut heap, 16, -17);
    fails(&heap, r, "argument-error", "ptr/add: result address is negative");
    let r = add(&mut heap, i64::MAX as u64, 1);
    fails(&heap, r, "overflow-error", "ptr/add: address arithmetic overflow");
    let r = prim_ptr_add(&ctx, &mut heap, &vec![Value::nil(), Value::nil()], &kinds(&vec![Value::nil(), Value::nil()]), Ok(8));
    fails(&heap, r, "type-error", "ptr/add: expected integer for offset, got nil");
    assert_eq!(prim_ptr_diff(Ok(100), Ok(164)), ok(Value::integer(-64)));
    assert_eq!(prim_ptr_diff(Err(ok(Value::nil())), Ok(1)), ok(Value::nil()));
}

#[test]
fn an_address_survives_the_way_through_an_integer() {
    let (mut heap, ctx) = setup();
    for addr in [1u64, 4096, u64::MAX] {
        let n = prim_ptr_to_int(Ok(addr)).1;
        assert_eq!(prim_ptr_from_int(&ctx, &mut heap, &vec![n], &kinds(&vec![n])), ok(Value::pointer(addr)));
    }
    assert_eq!(prim_ptr_from_int(&ctx, &mut heap, &vec![Value::integer(0)], &kinds(&vec![Value::integer(0)])), ok(Value::nil()));
    let r = prim_ptr_from_int(&ctx, &mut heap, &vec![Value::nil()], &kinds(&vec![Value::nil()]));
    fails(&heap, r, "type-error", "ptr/from-int: expected integer, got nil");
}

fn signature(heap: &mut FiberHeap, ctx: &Alloc, n: usize) -> Value {
    let args = ctx.array(heap, vec![Value::nil(); n]);
    let types = (0..n).map(|_| Ok(TypeDesc::I64)).collect();
    prim_ffi_signature(ctx, heap, &vec![Value::nil(), args], &kinds(&vec![Value::nil(), args]), &Ok(TypeDesc::Void), &types).1
}

#[test]
fn a_call_needs_a_pointer_and_a_signature() {
    let (mut heap, ctx) = setup();
    let sig = signature(&mut heap, &ctx, 1);
    let r = done(prim_ffi_call(&ctx, &mut heap, &vec![Value::nil(), sig], &kinds(&vec![Value::nil(), sig])));
    fails(&heap, r, "type-error", "ffi/call: function pointer is nil");
    let r = done(prim_ffi_call(&ctx, &mut heap, &vec![Value::integer(1), sig], &kinds(&vec![Value::integer(1), sig])));
    fails(&heap, r, "type-error", "ffi/call: expected pointer, got int");
    let r = done(prim_ffi_call(&ctx, &mut heap, &vec![Value::pointer(8), Value::nil()], &kinds(&vec![Value::pointer(8), Value::nil()])));
    fails(&heap, r, "type-error", "ffi/call: expected signature, got nil");
    match prim_ffi_call(&ctx, &mut heap, &vec![Value::pointer(8), sig, Value::integer(1)], &kinds(&vec![Value::pointer(8), sig, Value::integer(1)])) {
        FfiStep::Call { addr, sig: s, args } => {
            assert_eq!((addr, s, args), (8, sig, vec![Value::integer(1)]))
        }
        _ => panic!("no call"),
    }
}

#[test]
fn a_callback_error_comes_before_the_result() {
    let (mut heap, ctx) = setup();
    let err = Value::integer(13);
    let r = ffi_called(&ctx, &mut heap, CallReply::Value(Value::integer(1)), Some(err));
    assert_eq!(r, (SignalBits::new(SIG_ERROR), err));
    let r = ffi_called(&ctx, &mut heap, CallReply::Value(Value::integer(1)), None);
    assert_eq!(r, ok(Value::integer(1)));
    let r = ffi_called(&ctx, &mut heap, CallReply::Failed("no".to_string()), None);
    fails(&heap, r, "ffi-error", "ffi/call: no");
    let r = ffi_called(&ctx, &mut heap, CallReply::NoInterface, None);
    fails(&heap, r, "ffi-error", "ffi/call: failed to get CIF from signature");
}

#[test]
fn libraries_are_opened_by_name() {
    let (mut heap, ctx) = setup();
    let name = ctx.string(&mut heap, &"libm.so.6".to_string());
    match prim_ffi_native(&ctx, &mut heap, &vec![name], &kinds(&vec![name])) {
        FfiStep::Load(path) => assert_eq!(path, "libm.so.6"),
        _ => panic!("nothing to load"),
    }
    assert!(matches!(prim_ffi_native(&ctx, &mut heap, &vec![Value::nil()], &kinds(&vec![Value::nil()])), FfiStep::LoadSelf));
    let r = done(prim_ffi_native(&ctx, &mut heap, &vec![Value::integer(1)], &kinds(&vec![Value::integer(1)])));
    fails(&heap, r, "type-error", "ffi/native: expected string or nil, got int");
    let lib = ffi_loaded(&ctx, &mut heap, Ok(7)).1;
    let r = ffi_loaded(&ctx, &mut heap, Err("absent".to_string()));
    fails(&heap, r, "ffi-error", "ffi/native: absent");

    match prim_ffi_lookup(&ctx, &mut heap, &vec![lib, name], &kinds(&vec![lib, name])) {
        FfiStep::Lookup { lib, name } => assert_eq!((lib, name.as_str()), (7, "libm.so.6")),
        _ => panic!("nothing to look up"),
    }
    let r = done(prim_ffi_lookup(&ctx, &mut heap, &vec![name, name], &kinds(&vec![name, name])));
    fails(&heap, r, "type-error", "ffi/lookup: expected library handle, got string");
    assert_eq!(ffi_looked_up(&ctx, &mut heap, Ok(64)), ok(Value::pointer(64)));
    let r = ffi_looked_up(&ctx, &mut heap, Err("no sin".to_string()));
    fails(&heap, r, "ffi-error", "ffi/lookup: no sin");

    match prim_ffi_on_unload(&ctx, &mut heap, &vec![lib, name], &kinds(&vec![lib, name])) {
        FfiStep::OnUnload { lib, .. } => assert_eq!(lib, 7),
        _ => panic!("nothing to register"),
    }
    let r = done(prim_ffi_on_unload(&ctx, &mut heap, &vec![lib, lib], &kinds(&vec![lib, lib])));
    fails(&heap, r, "type-error", "ffi/on-unload: expected string, got lib");
    assert_eq!(ffi_registered(&ctx, &mut heap, Ok(())), ok(Value::nil()));
    let r = ffi_registered(&ctx, &mut heap, Err("gone".to_string()));
    fails(&heap, r, "ffi-error", "ffi/on-unload: gone");
    assert!(matches!(prim_ffi_run_teardowns(), FfiStep::RunTeardowns));
    assert_eq!(ffi_teardowns_ran(), ok(Value::nil()));
}

#[test]
fn a_callback_takes_as_many_arguments_as_its_signature() {
    let (mut heap, ctx) = setup();
    let template = ClosureTemplate::new(Vec::new(), Arity::Range(1, 2), Vec::new());
    let closure = Closure { template: Rc::new(template), env: Vec::new(), squelch_mask: SignalBits::empty() };
    let c = ctx.closure(&mut heap, closure);
    let two = signature(&mut heap, &ctx, 2);
    let three = signature(&mut heap, &ctx, 3);
    assert!(matches!(prim_ffi_callback(&ctx, &mut heap, &vec![two, c], &kinds(&vec![two, c])), FfiStep::Callback { .. }));
    let r = done(prim_ffi_callback(&ctx, &mut heap, &vec![three, c], &kinds(&vec![three, c])));
    fails(&heap, r, "arity-error", "ffi/callback: signature has 3 args but closure has arity 1-2");
    let r = done(prim_ffi_callback(&ctx, &mut heap, &vec![c, c], &kinds(&vec![c, c])));
    fails(&heap, r, "type-error", "ffi/callback: expected signature, got closure");
    let r = done(prim_ffi_callback(&ctx, &mut heap, &vec![two, two], &kinds(&vec![two, two])));
    fails(&heap, r, "type-error", "ffi/callback: expected closure, got ffi-sig");
    assert_eq!(ffi_callback_made(&ctx, &mut heap, Ok(256)), ok(Value::pointer(256)));
    let r = ffi_callback_made(&ctx, &mut heap, Err("full".to_string()));
    fails(&heap, r, "ffi-error", "ffi/callback: full");

    assert!(matches!(
        prim_ffi_callback_free(&ctx, &mut heap, &vec![Value::pointer(256)], &kinds(&vec![Value::pointer(256)])),
        FfiStep::DropCallback(256)
    ));
    assert_eq!(ffi_callback_dropped(&ctx, &mut heap, 256, true), ok(Value::nil()));
    let r = ffi_callback_dropped(&ctx, &mut heap, 255, false);
    fails(&heap, r, "ffi-error", "ffi/callback-free: no callback at address 0xff");
    let r = done(prim_ffi_callback_free(&ctx, &mut heap, &vec![Value::integer(1)], &kinds(&vec![Value::integer(1)])));
    fails(&heap, r, "type-error", "ffi/callback-free: expected pointer, got int");
}

#[test]
fn the_distance_undoes_the_offset() {
    let (mut heap, ctx) = setup();
    for (a, n) in [(4096u64, 16i64), (4096, -16), (1, i64::MAX - 1), (u64::MAX, 9)] {
        let args = vec![Value::nil(), Value::integer(n)];
        let r = prim_ptr_add(&ctx, &mut heap, &args, &kinds(&args), Ok(a));
        assert_eq!(r.0, SignalBits::new(SIG_OK));
        let q = r.1.as_pointer().expect("a pointer");
        assert_eq!(prim_ptr_diff(Ok(q), Ok(a)), ok(Value::integer(n)));
        assert_eq!(prim_ptr_diff(Ok(a), Ok(q)), ok(Value::integer(-n)));
    }
}
