//! Values that cross to another heap.

use std::rc::Rc;

use elle_core::ctx::Alloc;
use elle_core::heap::FiberHeap;
use elle_core::lir::{
    untranslatable_lir_symbols, BasicBlock, LirConst, LirFunction, LirInstr, Reg, Terminator,
};
use elle_core::object::{
    Arity, Closure, ClosureTemplate, ExternalData, HeapObject, HeapTag, Pair, PortKind, TableKey,
};
use elle_core::sendreach::can_be_walked;
use elle_core::sendvalue::{SendBundle, SendValue};
use elle_core::signalbits::SignalBits;
use elle_core::symbol::{SymbolId, SymbolTable};
use elle_core::value::Value;

/// The value of a bundle in a fresh region of a fresh heap.
fn into_value_in_region(bundle: SendBundle) -> (FiberHeap, Value) {
    let mut heap = FiberHeap::new();
    let region = heap.new_runtime_region();
    let alloc = Alloc::with_region(region);
    let mut symbols = SymbolTable::new();
    let v = bundle.into_value(&alloc, &mut heap, &mut symbols);
    (heap, v)
}

fn make_test_closure(heap: &mut FiberHeap, name: &str, lir: Option<LirFunction>) -> Value {
    let mut template = ClosureTemplate::new(Vec::new(), Arity::Exact(1), Vec::new());
    template.num_locals = 1;
    template.num_params = 1;
    template.lir_function = lir;
    template.name = Some(name.to_string());
    let closure = Closure { template: Rc::new(template), env: Vec::new(), squelch_mask: SignalBits::empty() };
    heap.alloc_in_fresh_region(HeapObject::Closure { closure, traits: Value::nil() }).0
}

fn make_lir_with_closure_value_const(closure_val: Value) -> LirFunction {
    LirFunction {
        arity: Arity::Exact(1),
        num_params: 1,
        num_locals: 1,
        rest: 7,
        blocks: vec![BasicBlock {
            label: 0,
            instructions: vec![LirInstr::ValueConst { dst: Reg(0), value: closure_val }],
            terminator: Terminator::Return(Reg(0)),
        }],
        doc: None,
    }
}

fn closure_of(heap: &FiberHeap, v: Value) -> Option<&Closure> {
    match heap.deref(v) {
        Some(HeapObject::Closure { closure, .. }) => Some(closure),
        _ => None,
    }
}

fn parameter_of(heap: &FiberHeap, v: Value) -> Option<(u32, Value)> {
    match heap.deref(v) {
        Some(HeapObject::Parameter { id, default, .. }) => Some((*id, *default)),
        _ => None,
    }
}

fn port_kind(heap: &FiberHeap, v: Value) -> Option<PortKind> {
    match heap.deref(v) {
        Some(HeapObject::External { obj, .. }) => match obj.data {
            ExternalData::Port(kind) => Some(kind),
            _ => None,
        },
        _ => None,
    }
}

#[test]
fn test_send_bundle_patches_closure_value_const_in_lir() {
    let mut heap = FiberHeap::new();
    let inner = make_test_closure(&mut heap, "inner", None);
    let lir = make_lir_with_closure_value_const(inner);
    let mut template = ClosureTemplate::new(Vec::new(), Arity::Exact(0), Vec::new());
    template.num_captures = 1;
    template.lir_function = Some(lir);
    template.name = Some("outer".to_string());
    let closure = Closure { template: Rc::new(template), env: vec![inner], squelch_mask: SignalBits::empty() };
    let outer = heap.alloc_in_fresh_region(HeapObject::Closure { closure, traits: Value::nil() }).0;

    let bundle = SendBundle::from_value(outer, &heap, &SymbolTable::new()).expect("should serialize");
    let (there, restored) = into_value_in_region(bundle);

    let restored_closure = closure_of(&there, restored).expect("restored value should be a closure");
    let restored_lir = restored_closure
        .template
        .lir_function
        .as_ref()
        .expect("LIR must be preserved across SendBundle round-trip");
    let mut found_closure_vc = false;
    for block in &restored_lir.blocks {
        for instr in &block.instructions {
            match instr {
                LirInstr::Const { value: LirConst::ClosureRef(_), .. } => {
                    panic!("ClosureRef should have been patched during reconstruction");
                }
                LirInstr::ValueConst { value, .. } => {
                    assert!(closure_of(&there, *value).is_some(), "patched ValueConst should hold a closure");
                    found_closure_vc = true;
                }
                _ => {}
            }
        }
    }
    assert!(found_closure_vc, "restored LIR must contain the patched closure ValueConst");
}

#[test]
fn parameter_round_trips_preserving_id_and_default() {
    let mut heap = FiberHeap::new();
    let ctx = Alloc::new(&mut heap);
    let p = ctx.parameter(&mut heap, Value::integer(7));
    let (id0, _) = parameter_of(&heap, p).expect("p is a parameter");
    let bundle = SendBundle::from_value(p, &heap, &SymbolTable::new())
        .expect("a parameter with a sendable default must be sendable");
    let (there, p2) = into_value_in_region(bundle);
    let (id1, def1) = parameter_of(&there, p2).expect("reconstructed value is a parameter");
    assert_eq!(id0, id1, "parameter id must be preserved across the boundary");
    assert_eq!(def1.as_int(), Some(7), "default must round-trip");
}

#[test]
fn stdio_port_round_trips_by_kind() {
    let mut heap = FiberHeap::new();
    let ctx = Alloc::new(&mut heap);
    for kind in [PortKind::Stdout, PortKind::Stderr, PortKind::Stdin] {
        let v = ctx.external(&mut heap, "port".to_string(), ExternalData::Port(kind));
        let bundle =
            SendBundle::from_value(v, &heap, &SymbolTable::new()).expect("stdio ports are sendable");
        let (there, v2) = into_value_in_region(bundle);
        assert_eq!(port_kind(&there, v2), Some(kind), "stdio port must reconstruct with its kind");
    }
}

#[test]
fn symbol_round_trips_by_name_not_id() {
    let mut sender = SymbolTable::new();
    let _ = sender.intern(&"aaa".to_string());
    let _ = sender.intern(&"bbb".to_string());
    let begin_sender = sender.intern(&"begin".to_string());

    let sv = SendBundle::from_value(Value::symbol(begin_sender.0), &FiberHeap::new(), &sender)
        .expect("symbol is sendable");

    let mut receiver = SymbolTable::new();
    for n in ["w", "x", "y", "z"] {
        let _ = receiver.intern(&n.to_string());
    }
    let begin_receiver = receiver.intern(&"begin".to_string());
    assert_ne!(
        begin_sender.0, begin_receiver.0,
        "test setup: the two tables must assign 'begin' different ids"
    );

    let mut heap = FiberHeap::new();
    let region = heap.new_runtime_region();
    let got = sv.into_value(&Alloc::with_region(region), &mut heap, &mut receiver);
    let got_id = got.as_symbol().expect("reconstructed value is a symbol");
    assert_eq!(receiver.name(SymbolId(got_id)), Some(&"begin".to_string()));
}

#[test]
fn parameter_holding_stdout_port_is_sendable() {
    let mut heap = FiberHeap::new();
    let ctx = Alloc::new(&mut heap);
    let port = ctx.external(&mut heap, "port".to_string(), ExternalData::Port(PortKind::Stdout));
    let p = ctx.parameter(&mut heap, port);
    let bundle = SendBundle::from_value(p, &heap, &SymbolTable::new())
        .expect("a parameter defaulting to a stdio port must be sendable");
    let (there, p2) = into_value_in_region(bundle);
    let (_, def) = parameter_of(&there, p2).expect("reconstructed is a parameter");
    assert_eq!(
        port_kind(&there, def),
        Some(PortKind::Stdout),
        "the parameter's default stdout port must round-trip"
    );
}

#[test]
fn an_untranslatable_lir_symbol_is_reported() {
    let lir = LirFunction {
        arity: Arity::Exact(0),
        num_params: 0,
        num_locals: 0,
        rest: 0,
        blocks: vec![BasicBlock {
            label: 0,
            instructions: vec![LirInstr::Const { dst: Reg(0), value: LirConst::Symbol(4242) }],
            terminator: Terminator::Return(Reg(0)),
        }],
        doc: None,
    };
    let mut names: Vec<(u32, String)> = Vec::new();
    assert_eq!(
        untranslatable_lir_symbols(&lir, &names),
        vec![4242],
        "an id with no name cannot be remapped, and must be reported"
    );
    names.push((4242u32, "answerish".to_string()));
    assert!(
        untranslatable_lir_symbols(&lir, &names).is_empty(),
        "an id its closure can name is translatable"
    );
}

#[test]
fn nested_values_arrive_in_one_region() {
    let mut heap = FiberHeap::new();
    let ctx = Alloc::new(&mut heap);
    let s = ctx.string(&mut heap, &"hello".to_string());
    let arr = ctx.array(&mut heap, vec![Value::integer(1), s]);
    let key = (TableKey::Keyword("k".to_string()), arr);
    let st = ctx.struct_from_sorted(&mut heap, vec![key]);
    let p = ctx.pair(&mut heap, st, Value::nil());
    let bundle = SendBundle::from_value(p, &heap, &SymbolTable::new()).expect("sendable");
    let (there, v) = into_value_in_region(bundle);
    let home = there.region_of(v);
    let st2 = match there.deref(v) {
        Some(HeapObject::Pair(Pair { first, rest, .. })) => {
            assert_eq!(*rest, Value::nil());
            *first
        }
        _ => panic!("not a pair"),
    };
    assert_eq!(there.region_of(st2), home);
    let arr2 = match there.deref(st2) {
        Some(HeapObject::LStruct { data, .. }) => {
            assert_eq!(data.len(), 1);
            data[0].1
        }
        _ => panic!("not a struct"),
    };
    match there.deref(arr2) {
        Some(HeapObject::LArray { elements, .. }) => {
            assert_eq!(elements[0], Value::integer(1));
            match there.deref(elements[1]) {
                Some(HeapObject::LString { s, .. }) => assert_eq!(s, "hello"),
                _ => panic!("not a string"),
            }
        }
        _ => panic!("not an array"),
    }
}

#[test]
fn a_recursive_closure_arrives_as_itself() {
    // A closure that holds itself through a capture cell.
    let mut heap = FiberHeap::new();
    let region = heap.new_runtime_region();
    let ctx = Alloc::with_region(region);
    let cell = ctx.capture_cell(&mut heap, Value::nil());
    let mut template = ClosureTemplate::new(vec![1, 2, 3], Arity::AtLeast(1), Vec::new());
    template.num_captures = 1;
    let closure = Closure { template: Rc::new(template), env: vec![cell], squelch_mask: SignalBits::empty() };
    let c = ctx.closure(&mut heap, closure);
    heap.set_cell(cell, c);

    let bundle = SendBundle::from_value(c, &heap, &SymbolTable::new()).expect("sendable");
    assert_eq!(bundle.closures.len(), 1);
    let (there, v) = into_value_in_region(bundle);
    let back = closure_of(&there, v).expect("closure");
    assert_eq!(back.template.bytecode, vec![1, 2, 3]);
    assert_eq!(back.template.arity, Arity::AtLeast(1));
    match there.deref(back.env[0]) {
        Some(HeapObject::CaptureCell { cell, .. }) => assert_eq!(*cell, v),
        _ => panic!("not a cell"),
    }
}

#[test]
fn what_cannot_cross_is_refused_by_name() {
    let mut heap = FiberHeap::new();
    let ctx = Alloc::new(&mut heap);
    let lib = ctx.lib_handle(&mut heap, 3);
    let arr = ctx.array(&mut heap, vec![Value::integer(1), lib]);
    let whole = SendBundle::from_value(arr, &heap, &SymbolTable::new()).err();
    let alone = SendBundle::from_value(lib, &heap, &SymbolTable::new()).err();
    assert!(alone.is_some());
    assert_eq!(whole, alone);
}

#[test]
fn the_first_refusal_met_is_the_reason() {
    let mut heap = FiberHeap::new();
    let symbols = SymbolTable::new();
    let lib = heap.alloc_in_fresh_region(HeapObject::LibHandle(0)).0;
    let fiber = heap.alloc_in_fresh_region(HeapObject::Fiber { handle: 0, traits: Value::nil() }).0;
    let pair = heap.alloc_in_fresh_region(HeapObject::Pair(Pair::new(lib, fiber))).0;
    let why = SendBundle::from_value(pair, &heap, &symbols).err();
    assert_eq!(why, Some("Cannot send library handle".to_string()));

    // The traits of an array speak before its elements.
    let array = HeapObject::LArray { elements: vec![Value::integer(1), lib], traits: fiber };
    let array = heap.alloc_in_fresh_region(array).0;
    let why = SendBundle::from_value(array, &heap, &symbols).err();
    assert_eq!(why, Some("Cannot send fiber".to_string()));

    // An entry before the identity key speaks first.
    let keyed = vec![(TableKey::Keyword("a".to_string()), fiber), (TableKey::Identity(lib), Value::nil())];
    let table = heap.alloc_in_fresh_region(HeapObject::LStruct { data: keyed, traits: lib }).0;
    let why = SendBundle::from_value(table, &heap, &symbols).err();
    assert_eq!(why, Some("Cannot send fiber".to_string()));
}

#[test]
fn only_closures_may_close_a_cycle() {
    let mut heap = FiberHeap::new();
    let nil = Value::nil();
    let cell = heap.alloc_in_fresh_region(HeapObject::LBox { cell: nil, traits: nil }).0;
    heap.set_cell(cell, cell);
    assert!(!can_be_walked(&heap, cell));
    let apart = heap.alloc_in_fresh_region(HeapObject::Pair(Pair::new(Value::integer(1), nil))).0;
    assert!(can_be_walked(&heap, apart));
    assert!(SendBundle::from_value(apart, &heap, &SymbolTable::new()).is_ok());
    let holder = heap.alloc_in_fresh_region(HeapObject::Pair(Pair::new(apart, cell))).0;
    assert!(!can_be_walked(&heap, holder));

    let own = heap.alloc_in_fresh_region(HeapObject::LBox { cell: nil, traits: nil }).0;
    let template = ClosureTemplate::new(Vec::new(), Arity::Exact(0), Vec::new());
    let closure = Closure { template: Rc::new(template), env: vec![own], squelch_mask: SignalBits::empty() };
    let f = heap.alloc_in_fresh_region(HeapObject::Closure { closure, traits: nil }).0;
    heap.set_cell(own, f);
    assert!(can_be_walked(&heap, f));
    assert!(!can_be_walked(&heap, Value::from_heap_ptr(1 << 20, 16)));
    assert!(can_be_walked(&heap, Value::integer(3)));
}

#[test]
fn a_bundle_tells_whether_it_can_be_rebuilt() {
    let mut heap = FiberHeap::new();
    let f = make_test_closure(&mut heap, "f", None);
    let good = SendBundle::from_value(f, &heap, &SymbolTable::new()).expect("a bundle");
    assert!(good.is_well_formed());
    let bad = SendBundle { root: SendValue::Ref(1), closures: good.closures };
    assert!(!bad.is_well_formed());
}

#[test]
fn plain_data_arrives_equal() {
    let mut heap = FiberHeap::new();
    let nil = Value::nil();
    let text = heap.alloc_in_fresh_region(HeapObject::LString { s: "hi".to_string(), traits: nil }).0;
    let array = HeapObject::LArray { elements: vec![text, Value::integer(7), Value::bool(true)], traits: nil };
    let array = heap.alloc_in_fresh_region(array).0;
    let (there, v) =
        into_value_in_region(SendBundle::from_value(array, &heap, &SymbolTable::new()).expect("a bundle"));
    match there.deref(v) {
        Some(HeapObject::LArray { elements, .. }) => {
            assert!(matches!(there.deref(elements[0]), Some(HeapObject::LString { s, .. }) if s == "hi"));
            assert_eq!(&elements[1..], &[Value::integer(7), Value::bool(true)]);
            assert_eq!(there.region_of(elements[0]), there.region_of(v));
        }
        _ => panic!("not an array"),
    }
}

#[test]
fn what_arrives_holds_the_default_traits() {
    let mut here = FiberHeap::new();
    let ctx = Alloc::new(&mut here);
    let a = ctx.string(&mut here, &"a".to_string());
    let b = ctx.string(&mut here, &"b".to_string());
    let list = ctx.list(&mut here, &vec![a, b]);
    let bundle = SendBundle::from_value(list, &here, &SymbolTable::new()).expect("plain data");

    let mut there = FiberHeap::new();
    let (traits, root) = there.alloc_in_fresh_region(HeapObject::Pair(Pair::new(Value::nil(), Value::nil())));
    there.set_default_traits(HeapTag::LString, traits);
    let region = there.new_runtime_region();
    let mut symbols = SymbolTable::new();
    bundle.into_value(&Alloc::with_region(region), &mut there, &mut symbols);
    assert_eq!(there.region_rc(root), 3);
    there.decref_region(region);
    assert_eq!(there.region_rc(root), 1);
}

#[test]
fn names_are_interned_in_the_order_of_rebuilding() {
    let mut here = FiberHeap::new();
    let ctx = Alloc::new(&mut here);
    let mut names = SymbolTable::new();
    let (a, b) = (names.intern(&"a".to_string()), names.intern(&"b".to_string()));
    let mut template = ClosureTemplate::new(Vec::new(), Arity::Exact(0), vec![Value::symbol(a.0)]);
    template.num_captures = 1;
    let k = here.keyword(&"k".to_string());
    let closure = Closure { template: Rc::new(template), env: vec![k], squelch_mask: SignalBits::empty() };
    let f = ctx.closure(&mut here, closure);
    let list = ctx.list(&mut here, &vec![Value::symbol(b.0), f, f, Value::symbol(b.0)]);
    let bundle = SendBundle::from_value(list, &here, &names).expect("sendable");

    let mut there = FiberHeap::new();
    let region = there.new_runtime_region();
    let mut symbols = SymbolTable::new();
    bundle.into_value(&Alloc::with_region(region), &mut there, &mut symbols);
    assert_eq!(symbols.len(), 2);
    assert_eq!(symbols.lookup(&"b".to_string()), Some(SymbolId(0)));
    assert_eq!(symbols.lookup(&"a".to_string()), Some(SymbolId(1)));
    assert_eq!(there.keyword(&"k".to_string()).payload, 0);
    assert_eq!(there.len(), 5);
}
