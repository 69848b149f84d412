//! Scalars in a store that outlives the process.

use elle_core::def::PrimitiveDef;
use elle_core::heap::FiberHeap;
use elle_core::registration::PrimRegistry;
use elle_core::scalar::{scalar_from_parts, scalar_parts, ScalarKind, ScalarPayload};
use elle_core::value::Value;

/// The plain tuple that a store writes for a payload.
fn bytes_of(kind: u8, payload: &ScalarPayload) -> Vec<u8> {
    match payload {
        ScalarPayload::Nil => bincode::serialize(&(kind, 0u32)).unwrap(),
        ScalarPayload::Bool(b) => bincode::serialize(&(kind, 1u32, *b)).unwrap(),
        ScalarPayload::Int(n) => bincode::serialize(&(kind, 2u32, *n)).unwrap(),
        ScalarPayload::Float(bits) => bincode::serialize(&(kind, 3u32, *bits)).unwrap(),
        ScalarPayload::Symbol(id) => bincode::serialize(&(kind, 4u32, *id)).unwrap(),
        ScalarPayload::Keyword(name) => bincode::serialize(&(kind, 5u32, name.clone())).unwrap(),
        ScalarPayload::NativeFn(id) => bincode::serialize(&(kind, 6u32, *id)).unwrap(),
    }
}

/// The kind and the payload that stored bytes hold.
fn parts_of(bytes: &[u8]) -> Result<(u8, ScalarPayload), String> {
    let (kind, variant): (u8, u32) = bincode::deserialize(bytes).map_err(|e| e.to_string())?;
    let rest = &bytes[5..];
    let payload = match variant {
        0 => ScalarPayload::Nil,
        1 => ScalarPayload::Bool(bincode::deserialize(rest).map_err(|e| e.to_string())?),
        2 => ScalarPayload::Int(bincode::deserialize(rest).map_err(|e| e.to_string())?),
        3 => ScalarPayload::Float(bincode::deserialize(rest).map_err(|e| e.to_string())?),
        4 => ScalarPayload::Symbol(bincode::deserialize(rest).map_err(|e| e.to_string())?),
        5 => ScalarPayload::Keyword(bincode::deserialize(rest).map_err(|e| e.to_string())?),
        6 => ScalarPayload::NativeFn(bincode::deserialize(rest).map_err(|e| e.to_string())?),
        other => return Err(format!("variant {other}")),
    };
    Ok((kind, payload))
}

fn read(heap: &mut FiberHeap, registry: &PrimRegistry, bytes: &[u8]) -> Result<Value, String> {
    let (kind, payload) = parts_of(bytes)?;
    scalar_from_parts(heap, registry, kind, &payload)
}

#[test]
fn invalid_scalar_tag_is_an_error_not_a_panic() {
    let bytes = [200u8, 0, 0, 0, 0, 0, 0, 0];
    let mut heap = FiberHeap::new();
    let got = read(&mut heap, &PrimRegistry::new(), &bytes);
    assert!(got.is_err());
    assert_eq!(got.unwrap_err(), "invalid scalar kind 200");
}

#[test]
fn symbol_value_refuses_scalar_serialization() {
    let sym = Value::symbol(7);
    assert!(scalar_parts(&FiberHeap::new(), sym).is_err());
}

#[test]
fn scalars_come_back_as_themselves() {
    let mut heap = FiberHeap::new();
    let registry = PrimRegistry::seeded(&vec![PrimitiveDef::noop()]);
    let kw = heap.keyword(&"hello".to_string());
    let values = [
        Value::nil(),
        Value::bool(true),
        Value::bool(false),
        Value::integer(-5),
        Value::integer(i64::MAX),
        Value::float_bits(1.5f64.to_bits()),
        kw,
        Value::native_fn(0),
    ];
    for v in values {
        let (kind, payload) = scalar_parts(&heap, v).expect("storable");
        let bytes = bytes_of(kind, &payload);
        assert_eq!(read(&mut heap, &registry, &bytes), Ok(v));
    }
}

#[test]
fn a_keyword_is_interned_where_it_is_read() {
    let mut here = FiberHeap::new();
    let _ = here.keyword(&"other".to_string());
    let kw = here.keyword(&"name".to_string());
    let (kind, payload) = scalar_parts(&here, kw).expect("storable");
    let mut there = FiberHeap::new();
    let v = scalar_from_parts(&mut there, &PrimRegistry::new(), kind, &payload).expect("readable");
    assert_eq!(there.keyword_spelling(v), Some("name".to_string()));
}

#[test]
fn unreadable_scalars_say_why() {
    let mut heap = FiberHeap::new();
    let registry = PrimRegistry::new();
    assert_eq!(
        scalar_from_parts(&mut heap, &registry, 6, &ScalarPayload::NativeFn(9)),
        Err("unknown prim id 9".to_string())
    );
    assert_eq!(
        scalar_from_parts(&mut heap, &registry, 2, &ScalarPayload::Nil),
        Err("scalar kind/payload mismatch".to_string())
    );
    let (s, _) = heap.alloc_in_fresh_region(elle_core::object::HeapObject::Float(0));
    assert!(scalar_parts(&heap, Value::undefined()).is_err());
    let _ = s;
    assert_eq!(ScalarKind::from_byte(7), None);
    assert_eq!(ScalarKind::from_byte(4), Some(ScalarKind::Symbol));
}
