//! Every value a capability builds is born in its own region.

use elle_core::ctx::Alloc;
use elle_core::fields::get_field;
use elle_core::heap::{FiberHeap, RuntimeRegion};
use elle_core::object::{HeapObject, HeapTag, Pair, TableKey};
use elle_core::signalbits::SignalBits;
use elle_core::signals::SIG_ERROR;
use elle_core::value::Value;

fn with_ctx<R>(f: impl FnOnce(&Alloc, &mut FiberHeap, RuntimeRegion) -> R) -> R {
    let mut heap = FiberHeap::new();
    let region = heap.new_runtime_region();
    let ctx = Alloc::with_region(region);
    let out = f(&ctx, &mut heap, region);
    heap.decref_region_if_present(region);
    out
}

fn with_ctx_over_distinct_region<R>(f: impl FnOnce(&Alloc, &mut FiberHeap, RuntimeRegion) -> R) -> R {
    let mut heap = FiberHeap::new();
    let other = heap.new_runtime_region();
    let ctx_region = heap.new_runtime_region();
    assert_ne!(other, ctx_region);
    let ctx = Alloc::with_region(ctx_region);
    let out = f(&ctx, &mut heap, ctx_region);
    heap.decref_region_if_present(other);
    heap.decref_region_if_present(ctx_region);
    out
}

fn text_of(heap: &FiberHeap, v: Value) -> Option<String> {
    match heap.deref(v) {
        Some(HeapObject::LString { s, .. }) => Some(s.clone()),
        _ => None,
    }
}

fn fields_of(heap: &FiberHeap, v: Value) -> &Vec<(TableKey, Value)> {
    match heap.deref(v) {
        Some(HeapObject::LStruct { data, .. }) => data,
        _ => panic!("not a struct"),
    }
}

#[test]
fn alloc_routes_into_ctx_region() {
    with_ctx(|ctx, heap, expected| {
        let v = ctx.allocate(
            heap,
            HeapObject::Pair(Pair { first: Value::integer(1), rest: Value::nil(), traits: Value::nil() }),
        );
        assert_eq!(heap.region_of(v), Some(expected));
    });
}

#[test]
fn rich_error_string_field_shares_the_error_region() {
    with_ctx(|ctx, heap, ctx_region| {
        let path = ctx.string(heap, &"/x".to_string());
        let (bits, err) = ctx.rich_error(
            heap,
            &"io-error".to_string(),
            &"boom".to_string(),
            &vec![("path".to_string(), path)],
        );
        assert_eq!(bits, SignalBits::new(SIG_ERROR));
        let err_region = heap.region_of(err);
        assert_eq!(err_region, Some(ctx_region));
        let path_val = get_field(fields_of(heap, err), &"path".to_string()).expect(":path field present");
        assert_eq!(heap.region_of(path_val), err_region);
    });
}

#[test]
fn alloc_slice_payload_shares_ctx_region() {
    with_ctx(|ctx, heap, expected| {
        let bytes = ctx.alloc_slice::<u8>(b"spec-pin");
        let traits = heap.default_traits_for(HeapTag::LString);
        let s = String::from_utf8(bytes).expect("utf-8");
        let v = ctx.allocate(heap, HeapObject::LString { s, traits });
        assert_eq!(heap.region_of(v), Some(expected));
        assert_eq!(text_of(heap, v).as_deref(), Some("spec-pin"));
    });
}

#[test]
fn ctx_string_is_born_in_ctx_region() {
    with_ctx_over_distinct_region(|ctx, heap, ctx_region| {
        let v = ctx.string(heap, &"ctx-seam".to_string());
        assert_eq!(heap.region_of(v), Some(ctx_region));
        assert_eq!(text_of(heap, v).as_deref(), Some("ctx-seam"));
    });
}

#[test]
fn ctx_pair_is_born_in_ctx_region() {
    with_ctx_over_distinct_region(|ctx, heap, ctx_region| {
        let v = ctx.pair(heap, Value::integer(1), Value::nil());
        assert_eq!(heap.region_of(v), Some(ctx_region));
    });
}

#[test]
fn ctx_array_is_born_in_ctx_region() {
    with_ctx_over_distinct_region(|ctx, heap, ctx_region| {
        let v = ctx.array(heap, vec![Value::integer(1), Value::integer(2)]);
        assert_eq!(heap.region_of(v), Some(ctx_region));
    });
}

#[test]
fn boundary_ctx_allocates_into_its_own_minted_region() {
    let mut heap = FiberHeap::new();
    let other = heap.new_runtime_region();
    let ctx = Alloc::boundary(&mut heap);
    let own = ctx.test_region();
    let v = ctx.array(&mut heap, vec![Value::integer(1), Value::integer(2)]);
    assert_ne!(own, other);
    assert_eq!(heap.region_of(v), Some(own));
    heap.decref_region_if_present(other);
    heap.decref_region_if_present(own);
}

#[test]
fn ctx_allocates_on_its_own_heap_not_the_tls_heap() {
    let heap_a = FiberHeap::new();
    let a_before = heap_a.len();
    let mut heap_b = FiberHeap::new();
    let region_b = heap_b.new_runtime_region();
    let b_before = heap_b.len();
    let ctx = Alloc::with_region(region_b);
    let _v = ctx.string(&mut heap_b, &"own-heap".to_string());
    assert!(heap_b.len() > b_before);
    assert_eq!(heap_a.len(), a_before);
    heap_b.decref_region_if_present(region_b);
}

#[test]
fn error_kind_keyword_keeps_its_spelling() {
    with_ctx(|ctx, heap, _| {
        let err = ctx.error(heap, &"host-minted-kind".to_string(), &"the message".to_string());
        let kind = get_field(fields_of(heap, err), &"error".to_string()).expect("error struct carries :error");
        assert_eq!(heap.keyword_spelling(kind).as_deref(), Some("host-minted-kind"));
    });
}

#[test]
fn error_extra_kind_keyword_keeps_its_spelling() {
    with_ctx(|ctx, heap, _| {
        let detail = ctx.string(heap, &"detail".to_string());
        let err = ctx.error_extra(
            heap,
            &"kind-with-extras".to_string(),
            &"the message".to_string(),
            &vec![("where".to_string(), detail)],
        );
        let kind = get_field(fields_of(heap, err), &"error".to_string()).expect("error struct carries :error");
        assert_eq!(heap.keyword_spelling(kind).as_deref(), Some("kind-with-extras"));
    });
}
