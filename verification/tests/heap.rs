//! Regions, their counts, and what holds them.

use elle_core::ctx::Alloc;
use elle_core::heap::{EscapeSite, FiberHeap};
use elle_core::object::{HeapObject, HeapTag, Pair};
use elle_core::registration::PrimRegistry;
use elle_core::span::Span;
use elle_core::symbol::SymbolTable;
use elle_core::template::ConstTemplate;
use elle_core::traitmethods::{build_sequence_methods, make_traitset};
use elle_core::value::Value;

fn cell(v: Value) -> HeapObject {
    HeapObject::Pair(Pair::new(v, Value::nil()))
}

#[test]
fn a_region_dies_with_its_last_reference() {
    let mut heap = FiberHeap::new();
    let (_, r) = heap.alloc_in_fresh_region(cell(Value::nil()));
    assert_eq!(heap.region_rc(r), 1);
    heap.incref_region(r);
    heap.decref_region(r);
    assert_eq!(heap.region_rc(r), 1);
    heap.decref_region(r);
    assert_eq!(heap.region_rc(r), 0);
    heap.decref_region_if_present(r);
    assert_eq!(heap.region_rc(r), 0);
}

#[test]
fn holding_a_value_holds_its_region() {
    let mut heap = FiberHeap::new();
    let (inner, r_inner) = heap.alloc_in_fresh_region(cell(Value::nil()));
    let (_, r_outer) = heap.alloc_in_fresh_region(cell(inner));
    assert_eq!(heap.region_rc(r_inner), 2);
    heap.decref_region(r_inner);
    assert_eq!(heap.region_rc(r_inner), 1);
    // The cascade gives the inner region up with the outer one.
    heap.decref_region(r_outer);
    assert_eq!(heap.region_rc(r_outer), 0);
    assert_eq!(heap.region_rc(r_inner), 0);
}

#[test]
fn edges_are_counted_and_given_back() {
    let mut heap = FiberHeap::new();
    let a = heap.new_runtime_region();
    let b = heap.new_runtime_region();
    heap.record_outgoing_edge(Some(a), Some(b));
    heap.unrecord_outgoing_edge(Some(a), Some(b));
    heap.incref_for_escape(Some(b), EscapeSite::AbortDelivery);
    assert_eq!(heap.region_rc(b), 2);
    heap.incref_for_escape(None, EscapeSite::AbortDelivery);
    assert_eq!(heap.region_info_vec().len(), 2);
}

#[test]
fn roots_share_one_region_until_teardown() {
    let mut heap = FiberHeap::new();
    let a = heap.alloc_root(cell(Value::nil()));
    let b = heap.alloc_root(cell(Value::nil()));
    assert_eq!(heap.region_of(a), heap.region_of(b));
    assert_eq!(heap.teardown_process_root_regions(), 1);
    assert!(heap.region_info_vec().is_empty());
    assert_eq!(heap.teardown_process_root_regions(), 0);
}

#[test]
fn keywords_and_parameters_are_numbered() {
    let mut heap = FiberHeap::new();
    let a = heap.keyword(&"a".to_string());
    let b = heap.keyword(&"b".to_string());
    assert_ne!(a, b);
    assert_eq!(heap.keyword(&"a".to_string()), a);
    assert_eq!(heap.keyword_spelling(b), Some("b".to_string()));
    assert_eq!(heap.keyword_spelling(Value::integer(0)), None);
    assert_eq!((heap.next_parameter_id(), heap.next_parameter_id()), (0, 1));
}

#[test]
fn default_traits_go_with_new_objects() {
    let mut heap = FiberHeap::new();
    let ctx = Alloc::new(&mut heap);
    let traits = ctx.struct_mut(&mut heap);
    heap.set_default_traits(HeapTag::LArray, traits);
    let v = ctx.array(&mut heap, vec![]);
    match heap.deref(v) {
        Some(HeapObject::LArray { traits: t, .. }) => assert_eq!(*t, traits),
        _ => panic!("not an array"),
    }
    heap.reset_default_traits();
    assert_eq!(heap.default_traits_for(HeapTag::LArray), Value::nil());
}

#[test]
fn a_template_becomes_values_of_one_region() {
    let mut heap = FiberHeap::new();
    let region = heap.new_runtime_region();
    let mut symbols = SymbolTable::new();
    let t = ConstTemplate::Pair(
        Box::new(ConstTemplate::Str("x".to_string())),
        Box::new(ConstTemplate::Array(vec![
            ConstTemplate::Int(3),
            ConstTemplate::Symbol("s".to_string()),
            ConstTemplate::Keyword("k".to_string()),
            ConstTemplate::SyntaxSymbol {
                name: "m".to_string(),
                scopes: vec![4],
                span: Span::synthetic(),
                scope_exempt: false,
            },
        ])),
    );
    let v = t.materialize(&mut heap, region, Some(&mut symbols));
    assert_eq!(heap.region_of(v), Some(region));
    let (first, rest) = match heap.deref(v) {
        Some(HeapObject::Pair(p)) => (p.first, p.rest),
        _ => panic!("not a pair"),
    };
    assert!(matches!(heap.deref(first), Some(HeapObject::LString { s, .. }) if s == "x"));
    match heap.deref(rest) {
        Some(HeapObject::LArray { elements, .. }) => {
            assert_eq!(elements[0], Value::integer(3));
            assert_eq!(elements[1], Value::symbol(0));
            assert_eq!(heap.keyword_spelling(elements[2]), Some("k".to_string()));
            assert_eq!(heap.region_of(elements[3]), Some(region));
        }
        _ => panic!("not an array"),
    }
    assert_eq!(symbols.len(), 1);
}

#[test]
fn a_set_is_put_in_order() {
    let mut heap = FiberHeap::new();
    let data = vec![Value::integer(3), Value::integer(1), Value::integer(3), Value::integer(2)];
    let set = heap.alloc_in_fresh_region(HeapObject::LSet { data, traits: Value::nil() }).0;
    heap.order_set(set, &vec![1, 3, 0]);
    match heap.deref(set) {
        Some(HeapObject::LSet { data, .. }) => {
            assert_eq!(data, &vec![Value::integer(1), Value::integer(2), Value::integer(3)])
        }
        _ => panic!("not a set"),
    }
}

#[test]
fn default_traits_are_held_once_an_object() {
    let mut heap = FiberHeap::new();
    let mut reg = PrimRegistry::new();
    let seq = build_sequence_methods(&mut heap, &mut reg, 0);
    let set = make_traitset(&mut heap, Some(seq), None);
    heap.set_default_traits(HeapTag::LString, set);
    let root = heap.region_of(set).expect("the root region");
    let before = heap.region_rc(root);
    let region = heap.new_runtime_region();
    let t = ConstTemplate::Pair(
        Box::new(ConstTemplate::Str("x".to_string())),
        Box::new(ConstTemplate::Pair(
            Box::new(ConstTemplate::Str("y".to_string())),
            Box::new(ConstTemplate::EmptyList),
        )),
    );
    let placed = heap.len();
    let v = t.materialize(&mut heap, region, None);
    assert_eq!(heap.len(), placed + 4);
    assert_eq!(v.payload, 8 * (placed as u64 + 4));
    assert_eq!(heap.region_rc(root), before + 2);
    heap.decref_region(region);
    assert_eq!(heap.region_rc(root), before);
}

#[test]
fn an_immediate_template_allocates_nothing() {
    let mut heap = FiberHeap::new();
    let mut symbols = SymbolTable::new();
    let k = ConstTemplate::Keyword("k".to_string()).immediate_value(&mut symbols, &mut heap).expect("an immediate");
    assert_eq!(heap.keyword_spelling(k), Some("k".to_string()));
    let s = ConstTemplate::Symbol("s".to_string()).immediate_value(&mut symbols, &mut heap);
    assert_eq!(s, Some(Value::symbol(0)));
    assert_eq!(symbols.len(), 1);
    assert_eq!(ConstTemplate::Str("x".to_string()).immediate_value(&mut symbols, &mut heap), None);
    assert_eq!(heap.len(), 0);
}
