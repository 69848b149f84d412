//! Importing modules, running threads, and the methods of collections.

use std::rc::Rc;

use elle_core::concurrency::{
    as_thread_handle, main_thread_stack_limit, prim_current_thread_id, prim_spawn, prim_spawn_vm, prim_thread_state,
    resolve_worker_stack, spawn_started, worker_outcome, worker_machine, worker_result, worker_start, SpawnStep, Unwound,
    WORKER_STACK_CAP, WORKER_STACK_FALLBACK, WORKER_STACK_FLOOR,
};
use elle_core::ctx::Alloc;
use elle_core::fiber::Code;
use elle_core::fibertable::FiberTable;
use elle_core::fields::get_field;
use elle_core::heap::FiberHeap;
use elle_core::modules::{
    import_compiled, import_plugin_loaded, import_ran, import_read, import_resolved, load_plugin, prim_import_file,
    ImportStep, ReadFailure,
};
use elle_core::object::{Arity, ChanEnd, Closure, ClosureTemplate, HeapObject};
use elle_core::registration::{prim_def, PrimRegistry};
use elle_core::sendvalue::SendBundle;
use elle_core::signalbits::SignalBits;
use elle_core::signals::{SIG_ERROR, SIG_IO, SIG_OK};
use elle_core::symbol::SymbolTable;
use elle_core::traitmethods::{
    build_collection_methods, build_sequence_methods, make_traitset, trait_coll_conj, trait_coll_empty,
    trait_coll_empty_new, trait_coll_has, trait_coll_length, trait_seq_first, trait_seq_iter, trait_seq_last,
    trait_seq_nth, trait_seq_rest, NthStep,
};
use elle_core::value::Value;
use elle_core::vfs::{mount, Mounts};
use elle_core::vm::{StdlibCache, VM};

/// How the types of arguments read.
fn kinds(args: &Vec<Value>) -> Vec<String> {
    args.iter().map(|v| v.tag_name().to_string()).collect()
}

fn vm() -> (VM, Alloc) {
    let mut vm = VM::new(3, 16);
    let ctx = Alloc::new(&mut vm.heap);
    (vm, ctx)
}

fn text(heap: &FiberHeap, v: Value) -> String {
    match heap.deref(v) {
        Some(HeapObject::LString { s, .. }) => s.clone(),
        _ => panic!("not a string"),
    }
}

fn failure(heap: &FiberHeap, r: (SignalBits, Value)) -> (String, String) {
    assert_eq!(r.0, SignalBits::new(SIG_ERROR));
    let data = match heap.deref(r.1) {
        Some(HeapObject::LStruct { data, .. }) => data,
        _ => panic!("not an error"),
    };
    let kind = get_field(data, &"error".to_string()).expect("kind");
    let msg = get_field(data, &"message".to_string()).expect("message");
    (heap.keyword_spelling(kind).expect("a keyword"), text(heap, msg))
}

fn ok(v: Value) -> (SignalBits, Value) {
    (SignalBits::new(SIG_OK), v)
}

fn done(step: ImportStep) -> (SignalBits, Value) {
    match step {
        ImportStep::Done(r) => r,
        _ => panic!("not over"),
    }
}

fn code() -> Code {
    Code { template: Rc::new(ClosureTemplate::new(vec![1], Arity::Exact(0), Vec::new())) }
}

#[test]
fn an_import_runs_through_its_steps() {
    let (mut vm, ctx) = vm();
    let spec = ctx.string(&mut vm.heap, &"m".to_string());
    let name = match prim_import_file(&ctx, &mut vm, &vec![spec], &kinds(&vec![spec])) {
        ImportStep::Resolve(s) => s,
        _ => panic!("nothing to resolve"),
    };
    let mounts = Mounts::new();
    let path = match import_resolved(&ctx, &mut vm, &mounts, &name, Some("lib/m.lisp".to_string()), true) {
        ImportStep::ReadFile(p) => p,
        _ => panic!("nothing to read"),
    };
    assert!(vm.is_module_loading(&path));
    let (path, contents) = match import_read(&ctx, &mut vm, path, Ok("(+ 1 2)".to_string())) {
        ImportStep::Compile { path, contents } => (path, contents),
        _ => panic!("nothing to compile"),
    };
    assert_eq!(contents, "(+ 1 2)");
    let path = match import_compiled(&ctx, &mut vm, path, Ok(code())) {
        ImportStep::Run { path, .. } => path,
        _ => panic!("nothing to run"),
    };
    vm.fiber.signal = Some(ok(Value::integer(3)));
    let r = import_ran(&ctx, &mut vm, &path, SignalBits::new(SIG_OK), &String::new());
    assert_eq!(r, ok(Value::integer(3)));
    assert!(!vm.is_module_loading(&path));
}

#[test]
fn a_mounted_module_needs_no_file() {
    let (mut vm, ctx) = vm();
    let mut mounts = Mounts::new();
    mount(&mut mounts, "m.lisp".to_string(), "1".to_string());
    let step = import_resolved(&ctx, &mut vm, &mounts, &"m.lisp".to_string(), Some("m.lisp".to_string()), true);
    assert!(matches!(step, ImportStep::Compile { contents, .. } if contents == "1"));
}

#[test]
fn a_corrected_module_can_be_imported_again() {
    let (mut vm, ctx) = vm();
    let mut mounts = Mounts::new();
    let m = "m.lisp".to_string();
    mount(&mut mounts, m.clone(), "(".to_string());
    let step = import_resolved(&ctx, &mut vm, &mounts, &m, Some(m.clone()), true);
    assert!(matches!(step, ImportStep::Compile { .. }));
    let r = done(import_compiled(&ctx, &mut vm, m.clone(), Err("unclosed".to_string())));
    assert_eq!(failure(&vm.heap, r).1, "import: compilation error in m.lisp: unclosed");
    assert!(!vm.is_module_loading(&m));
    mount(&mut mounts, m.clone(), "1".to_string());
    let step = import_resolved(&ctx, &mut vm, &mounts, &m, Some(m.clone()), true);
    assert!(matches!(step, ImportStep::Compile { contents, .. } if contents == "1"));
    vm.unmark_module_loading(&m);
    let r = done(import_resolved(&ctx, &mut vm, &mounts, &m, Some(m.clone()), false));
    assert_eq!(failure(&vm.heap, r).0, "internal-error");
    assert!(!vm.is_module_loading(&m));
}

#[test]
fn import_failures_are_named() {
    let (mut vm, ctx) = vm();
    let mounts = Mounts::new();
    let m = "m.lisp".to_string();
    let r = done(prim_import_file(&ctx, &mut vm, &vec![Value::integer(1)], &kinds(&vec![Value::integer(1)])));
    assert_eq!(failure(&vm.heap, r).0, "type-error");
    let r = done(import_resolved(&ctx, &mut vm, &mounts, &m, None, true));
    assert_eq!(failure(&vm.heap, r), ("io-error".to_string(), "import: module 'm.lisp' not found".to_string()));
    vm.mark_module_loading(m.clone());
    let r = done(import_resolved(&ctx, &mut vm, &mounts, &m, Some(m.clone()), true));
    assert_eq!(failure(&vm.heap, r).1, "import: circular dependency detected for 'm.lisp'");
    vm.unmark_module_loading(&m);
    let step = import_resolved(&ctx, &mut vm, &mounts, &m, Some("x.so".to_string()), true);
    assert!(matches!(step, ImportStep::LoadPlugin { reason: None, .. }));
    let why = load_plugin(&"x.so".to_string());
    assert_eq!(why, Err("cannot load x.so: this build has no dynamic plugin support".to_string()));
    let r = import_plugin_loaded(&ctx, &mut vm, &"x.so".to_string(), None, why);
    assert!(failure(&vm.heap, r).1.starts_with("import: cannot load x.so"));
    let bad = ReadFailure { invalid_data: true, text: "not text".to_string() };
    let step = import_read(&ctx, &mut vm, "b".to_string(), Err(bad));
    assert!(matches!(step, ImportStep::LoadPlugin { reason: Some(t), .. } if t == "not text"));
}

#[test]
fn a_plugin_is_loaded_once() {
    let (mut vm, ctx) = vm();
    let mounts = Mounts::new();
    let p = "x.so".to_string();
    let _ = import_resolved(&ctx, &mut vm, &mounts, &p, Some(p.clone()), true);
    let r = import_plugin_loaded(&ctx, &mut vm, &p, None, Ok(Value::integer(4)));
    assert_eq!(r, ok(Value::integer(4)));
    let again = done(import_resolved(&ctx, &mut vm, &mounts, &p, Some(p.clone()), true));
    assert_eq!(again, ok(Value::integer(4)));
    assert!(!vm.is_module_loading(&p));
}

#[test]
fn a_worker_stack_is_kept_in_bounds() {
    assert_eq!(resolve_worker_stack(None, None), WORKER_STACK_FALLBACK);
    assert_eq!(resolve_worker_stack(None, Some(1)), WORKER_STACK_FLOOR);
    assert_eq!(resolve_worker_stack(None, Some(u64::MAX)), WORKER_STACK_CAP);
    assert_eq!(resolve_worker_stack(Some(" 4194304 "), Some(1)), 4194304);
    assert_eq!(resolve_worker_stack(Some("many"), Some(3145728)), 3145728);
    assert_eq!(main_thread_stack_limit(true, 8, 9), Some(8));
    assert_eq!(main_thread_stack_limit(true, 9, 9), None);
    assert_eq!(main_thread_stack_limit(false, 8, 9), None);
    assert_eq!(prim_current_thread_id("ThreadId(12)"), ok(Value::integer(12)));
}

fn worker_closure(heap: &mut FiberHeap, ctx: &Alloc) -> Value {
    let template = ClosureTemplate::new(vec![5], Arity::Exact(0), Vec::new());
    let c = Closure {
        template: Rc::new(template),
        env: vec![Value::integer(42)],
        squelch_mask: SignalBits::empty(),
    };
    ctx.closure(heap, c)
}

#[test]
fn a_closure_reaches_its_worker_and_its_result_comes_back() {
    let (mut here, ctx) = vm();
    let symbols = SymbolTable::new();
    let c = worker_closure(&mut here.heap, &ctx);
    here.fiber.withheld = SignalBits::new(SIG_IO);
    here.set_unicode_generation(15);
    here.set_stdlib_cache(StdlibCache::Dir("/tmp/cache".to_string()));
    let launch = prim_spawn(&ctx, &mut here, Some(&symbols), &vec![c]);
    assert!(matches!(launch, SpawnStep::Start { load_stdlib: true, .. }));
    let mut there = worker_machine(&launch, 3);
    assert_eq!(there.unicode_generation(), 15);
    assert!(matches!(there.stdlib_cache(), StdlibCache::Dir(d) if d == "/tmp/cache"));
    assert_eq!(there.fiber.withheld, SignalBits::empty());
    let mut names = SymbolTable::new();
    let start = worker_start(&mut there, &launch, &mut names);
    assert_eq!(start.env[0], Value::integer(42));
    assert_eq!(there.fiber.withheld, SignalBits::new(SIG_IO));
    let result = worker_result(&mut there, start.region, Ok(start.env[0]), &names);
    let stored = worker_outcome(Some(result), &Unwound::No).expect("a result");
    let back = stored.into_value(&ctx, &mut here.heap, &mut SymbolTable::new());
    assert_eq!(back, Value::integer(42));
    assert!(matches!(worker_outcome(None, &Unwound::Text("boom".to_string())), Err(e) if e == "worker thread panicked: boom"));
}

#[test]
fn a_thread_handle_tells_its_state() {
    let (mut vm, ctx) = vm();
    let t = spawn_started(&ctx, &mut vm.heap, Ok(9)).1;
    assert_eq!(as_thread_handle(&vm.heap, t), Some(9));
    let end = ChanEnd { channel: 1, open: true };
    let mut names = SymbolTable::new();
    let tag = |heap: &FiberHeap, v: Value| match heap.deref(v) {
        Some(HeapObject::LArray { elements, .. }) => {
            (heap.keyword_spelling(elements[0]).expect("a keyword"), elements[1])
        }
        _ => panic!("not an array"),
    };
    let r = prim_thread_state(&ctx, &mut vm.heap, &mut names, true, &vec![t], None, end);
    assert_eq!(tag(&vm.heap, r.1).0, "pending");
    let failed = Err("no".to_string());
    let r = prim_thread_state(&ctx, &mut vm.heap, &mut names, true, &vec![t], Some(&failed), end);
    let (kind, msg) = tag(&vm.heap, r.1);
    assert_eq!((kind.as_str(), text(&vm.heap, msg).as_str()), ("failed", "no"));
    let ready = SendBundle::from_value(Value::integer(6), &vm.heap, &names);
    let r = prim_thread_state(&ctx, &mut vm.heap, &mut names, true, &vec![t], Some(&ready), end);
    assert_eq!(tag(&vm.heap, r.1), ("ready".to_string(), Value::integer(6)));
    let r = spawn_started(&ctx, &mut vm.heap, Err("limit".to_string()));
    assert_eq!(r.0, SignalBits::new(SIG_ERROR));
}

#[test]
fn an_item_joins_its_collection() {
    let (mut vm, ctx) = vm();
    let heap = &mut vm.heap;
    let arr = ctx.array(heap, vec![Value::integer(1)]);
    let r = trait_coll_conj(&ctx, heap, &vec![arr, Value::integer(2)], &kinds(&vec![arr, Value::integer(2)]), Value::nil(), None);
    assert!(matches!(heap.deref(r.1), Some(HeapObject::LArray { elements, .. }) if elements.len() == 2));
    assert_ne!(r.1, arr);
    let marr = ctx.array_mut(heap, vec![]);
    let r = trait_coll_conj(&ctx, heap, &vec![marr, Value::integer(2)], &kinds(&vec![marr, Value::integer(2)]), Value::nil(), None);
    assert_eq!(r.1, marr);
    assert!(matches!(heap.deref(marr), Some(HeapObject::LArrayMut { data, .. }) if data[0] == Value::integer(2)));
    let r = trait_coll_conj(&ctx, heap, &vec![Value::empty_list(), Value::integer(2)], &kinds(&vec![Value::empty_list(), Value::integer(2)]), Value::nil(), None);
    assert!(matches!(heap.deref(r.1), Some(HeapObject::Pair(p)) if p.first == Value::integer(2)));
    let set = ctx.set(heap, vec![Value::integer(1), Value::integer(3)]);
    let r = trait_coll_conj(&ctx, heap, &vec![set, Value::integer(2)], &kinds(&vec![set, Value::integer(2)]), Value::integer(2), Some(1));
    match heap.deref(r.1) {
        Some(HeapObject::LSet { data, .. }) => {
            assert_eq!(*data, vec![Value::integer(1), Value::integer(2), Value::integer(3)]);
        }
        _ => panic!("not a set"),
    }
    let r = trait_coll_conj(&ctx, heap, &vec![Value::integer(1), Value::nil()], &kinds(&vec![Value::integer(1), Value::nil()]), Value::nil(), None);
    assert_eq!(failure(heap, r).1, "conj: unsupported collection type int");
}

#[test]
fn an_empty_collection_is_of_the_same_kind() {
    let (mut vm, ctx) = vm();
    let heap = &mut vm.heap;
    let arr = ctx.array(heap, vec![Value::integer(1)]);
    let r = trait_coll_empty_new(&ctx, heap, &vec![arr], &kinds(&vec![arr]));
    assert!(matches!(heap.deref(r.1), Some(HeapObject::LArray { elements, .. }) if elements.is_empty()));
    let s = ctx.string(heap, &"x".to_string());
    let r = trait_coll_empty_new(&ctx, heap, &vec![s], &kinds(&vec![s]));
    assert_eq!(text(heap, r.1), "");
    let r = trait_coll_empty_new(&ctx, heap, &vec![Value::integer(1)], &kinds(&vec![Value::integer(1)]));
    assert_eq!(r.0, SignalBits::new(SIG_ERROR));
}

#[test]
fn sequence_answers_are_handed_on() {
    let (mut vm, ctx) = vm();
    assert_eq!(trait_seq_first(Ok(Value::integer(1))), ok(Value::integer(1)));
    assert_eq!(trait_seq_first(Err(Value::nil())), (SignalBits::new(SIG_ERROR), Value::nil()));
    assert_eq!(trait_seq_rest(Ok(Value::empty_list())), ok(Value::empty_list()));
    assert_eq!(trait_seq_last(Err(Value::integer(2))), (SignalBits::new(SIG_ERROR), Value::integer(2)));
    assert_eq!(trait_coll_length(Ok(3)), ok(Value::integer(3)));
    assert_eq!(trait_coll_empty(Ok(false)), ok(Value::bool(false)));
    assert_eq!(trait_coll_has(Ok(true)), ok(Value::bool(true)));
    let args = vec![Value::nil(), Value::integer(4)];
    assert!(matches!(trait_seq_nth(&ctx, &mut vm.heap, &args, &kinds(&args)), NthStep::Look(4)));
    let mut fibers = FiberTable::new();
    let r = trait_seq_iter(&ctx, &mut vm.heap, &mut fibers, Ok(vec![Value::integer(7)]));
    assert_eq!(r.0, SignalBits::new(SIG_OK));
    assert_eq!(fibers.get(0).native_iter.as_ref().map(|it| it.elements.len()), Some(1));
}

#[test]
fn method_tables_name_their_primitives() {
    let mut heap = FiberHeap::new();
    let mut reg = PrimRegistry::new();
    let seq = build_sequence_methods(&mut heap, &mut reg, 0);
    let coll = build_collection_methods(&mut heap, &mut reg, 100);
    assert_eq!(reg.len(), 10);
    let again = build_sequence_methods(&mut heap, &mut reg, 0);
    assert_eq!(reg.len(), 10);
    assert_ne!(again, seq);
    for (table, field, name) in
        [(seq, "nth", "trait:Sequence:nth"), (coll, "conj", "trait:Collection:conj"), (coll, "empty?", "trait:Collection:empty?")]
    {
        match heap.deref(table) {
            Some(HeapObject::LStruct { data, .. }) => {
                let v = get_field(data, &field.to_string()).expect("a method");
                assert_eq!(prim_def(&reg, v.payload as u32).map(|d| d.name), Some(name));
            }
            _ => panic!("not a table"),
        }
    }
    let set = make_traitset(&mut heap, Some(seq), Some(coll));
    match heap.deref(set) {
        Some(HeapObject::LStructMut { data, .. }) => {
            assert_eq!(data.len(), 2);
            assert_eq!(get_field(data, &"Sequence".to_string()), Some(seq));
        }
        _ => panic!("not a table"),
    }
}

#[test]
fn a_bare_worker_loads_no_library() {
    let (mut here, ctx) = vm();
    let symbols = SymbolTable::new();
    let c = worker_closure(&mut here.heap, &ctx);
    assert!(here.heap.value_in_region_store(c));
    assert!(!here.heap.value_in_region_store(Value::integer(3)));
    here.fiber.withheld = SignalBits::new(SIG_ERROR);
    let step = prim_spawn_vm(&ctx, &mut here, Some(&symbols), &vec![c]);
    assert!(matches!(step, SpawnStep::Start { load_stdlib: false, withheld, .. }
        if withheld == SignalBits::new(SIG_ERROR)));
    let step = prim_spawn_vm(&ctx, &mut here, Some(&symbols), &vec![Value::integer(3)]);
    assert!(matches!(step, SpawnStep::Done((bits, _)) if bits == SignalBits::new(SIG_ERROR)));
}
