//! Bringing an instance up and down.

use std::rc::Rc;

use elle_core::ctx::Alloc;
use elle_core::heap::FiberHeap;
use elle_core::moduleinit::{
    build_closure_call_env, call_closure, extract_exports, init_stdlib, register_exports, stdlib_compiled,
    stdlib_origin, CompileCtx, StdlibSource, StdlibStep,
};
use elle_core::object::{Arity, Closure, ClosureTemplate, HeapObject, Pair, TableKey};
use elle_core::runtime::{Runtime, RuntimeCore};
use elle_core::signalbits::SignalBits;
use elle_core::signals::Signal;
use elle_core::symbol::SymbolTable;
use elle_core::tables::{introspection_defs, time_defs};
use elle_core::value::Value;
use elle_core::vm::{StdlibCache, VM};

fn closure(locals: usize, params: usize, env: Vec<Value>) -> Closure {
    let mut template = ClosureTemplate::new(Vec::new(), Arity::Exact(params), Vec::new());
    template.num_locals = locals;
    template.num_params = params;
    template.signal = Signal::errors();
    Closure { template: Rc::new(template), env, squelch_mask: SignalBits::empty() }
}

#[test]
fn an_environment_is_captures_parameters_locals() {
    let c = closure(3, 2, vec![Value::integer(9)]);
    let env = build_closure_call_env(&c, &vec![Value::integer(1)]);
    assert_eq!(env, vec![Value::integer(9), Value::integer(1), Value::nil(), Value::nil()]);
    let c = closure(0, 1, vec![]);
    assert_eq!(build_closure_call_env(&c, &vec![]), vec![Value::nil()]);
}

#[test]
fn the_cache_decides_what_comes_next() {
    let hit: Option<Result<(), String>> = Some(Ok(()));
    let stale: Option<Result<(), String>> = Some(Err("version".to_string()));
    assert!(matches!(init_stdlib(&hit), StdlibStep::Execute));
    assert!(matches!(init_stdlib(&stale), StdlibStep::Compile { store: false }));
    assert!(matches!(init_stdlib(&None), StdlibStep::Compile { store: true }));
    assert!(matches!(stdlib_compiled(true), StdlibStep::Store));
    assert!(matches!(stdlib_compiled(false), StdlibStep::Execute));
    assert_eq!(stdlib_origin(&hit), StdlibSource::Cached);
    assert_eq!(stdlib_origin(&None), StdlibSource::Compiled);
}

#[test]
fn exports_are_entered_by_symbol() {
    let mut heap = FiberHeap::new();
    let ctx = Alloc::new(&mut heap);
    let f = ctx.closure(&mut heap, closure(0, 0, vec![]));
    let p = ctx.parameter(&mut heap, Value::nil());
    let entries = vec![
        (TableKey::Keyword("f".to_string()), f),
        (TableKey::Keyword("p".to_string()), p),
    ];
    let exports = ctx.struct_from_sorted(&mut heap, entries);
    let mut symbols = SymbolTable::new();
    let list = extract_exports(&heap, exports, &mut symbols);
    assert_eq!(list.len(), 2);
    assert_eq!((list[0].symbol, list[0].value, list[0].signal), (0, f, Signal::errors()));
    assert_eq!((list[1].symbol, list[1].value, list[1].signal), (1, p, Signal::silent()));

    let mut cctx = CompileCtx::new();
    register_exports(&mut heap, &mut symbols, &mut cctx, f, exports);
    assert_eq!(cctx.exports.get(&0), Some(&(f, Signal::errors())));
    assert_eq!(cctx.exports.get(&1), Some(&(p, Signal::silent())));
    assert_eq!(heap.teardown_process_root_regions(), 2);
}

#[test]
fn calling_a_closure_makes_it_the_next_body() {
    let mut vm = VM::new(10, 15);
    let ctx = Alloc::new(&mut vm.heap);
    let f = ctx.closure(&mut vm.heap, closure(2, 1, vec![Value::integer(5)]));
    let env = call_closure(&mut vm, f);
    assert_eq!(env, vec![Value::integer(5), Value::nil(), Value::nil()]);
    assert_eq!(vm.pending_entry_closure, f);
}

#[test]
fn a_core_knows_its_primitives() {
    let mut core = RuntimeCore::bare_with_unicode(16, 10, &introspection_defs());
    assert_eq!(core.vm().unicode_generation(), 16);
    assert!(core.symbols().lookup(&"mutates-params?".to_string()).is_some());
    assert!(matches!(core.vm().stdlib_cache(), StdlibCache::Process));
    let stale: Option<Result<(), String>> = Some(Err("version".to_string()));
    let dir = StdlibCache::Dir("/tmp/x".to_string());
    assert_eq!(core.load_stdlib(&dir, &stale), (StdlibStep::Compile { store: false }, StdlibSource::Compiled));
    assert!(matches!(core.vm().stdlib_cache(), StdlibCache::Dir(d) if d == "/tmp/x"));
    let (_, heap) = core.compile_and_heap();
    assert_eq!(heap.len(), 0);
}

#[test]
fn teardown_releases_roots_once() {
    let mut rt = Runtime::without_stdlib(16, 10, &time_defs());
    let pair = HeapObject::Pair(Pair::new(Value::nil(), Value::nil()));
    let (_, rooted) = rt.heap().alloc_in_fresh_region(pair);
    rt.heap().register_root(rooted);
    let leaked = rt.heap().new_runtime_region();
    let report = rt.teardown();
    assert_eq!(report.roots_released, 1);
    assert_eq!(report.live_regions, 1);
    assert_eq!(report.regions, vec![(leaked.0, 1, 0)]);
    assert_eq!(rt.heap().region_rc(rooted), 0);
    let again = rt.teardown();
    assert_eq!(again.roots_released, 0);
    assert_eq!(again.regions, report.regions);
    rt.close();
    assert!(rt.torn_down);
}

#[test]
fn a_transformer_gives_its_reference_back() {
    let mut rt = Runtime::with_stdlib_cache(&StdlibCache::Process, &Some(Ok(())), 16, 10, &time_defs());
    let pair = HeapObject::Pair(Pair::new(Value::nil(), Value::nil()));
    let (v, region) = rt.heap().alloc_in_fresh_region(pair);
    rt.compile().transformers.push(v);
    assert_eq!(rt.stdlib_source(), StdlibSource::Cached);
    assert_eq!(rt.stdlib_next, Some(StdlibStep::Execute));
    let report = rt.teardown();
    assert_eq!(report.live_regions, 0);
    assert_eq!(rt.heap().region_rc(region), 0);
}

#[test]
fn a_unicode_generation_is_kept() {
    let mut rt = Runtime::with_unicode(15, &None, 10, &time_defs());
    assert_eq!(rt.vm().unicode_generation(), 15);
    rt.vm().set_unicode_generation(16);
    assert_eq!(rt.vm().unicode_generation(), 16);
}

#[test]
fn the_reply_of_the_cache_decides_how_a_runtime_loads() {
    let mut rt = Runtime::new(&None, 16, 10, &time_defs());
    assert_eq!(rt.stdlib_source(), StdlibSource::Compiled);
    assert_eq!(rt.stdlib_next, Some(StdlibStep::Compile { store: true }));
    rt.stdlib_stored();
    assert_eq!(rt.stdlib_next, Some(StdlibStep::Compile { store: true }));
    rt.stdlib_compiled();
    assert_eq!(rt.stdlib_next, Some(StdlibStep::Store));
    rt.stdlib_stored();
    assert_eq!(rt.stdlib_next, Some(StdlibStep::Execute));

    let ctx = Alloc::new(rt.heap());
    let f = ctx.closure(rt.heap(), closure(0, 0, vec![]));
    let exports = ctx.struct_from_sorted(rt.heap(), vec![(TableKey::Keyword("f".to_string()), f)]);
    rt.stdlib_loaded(f, exports);
    assert_eq!(rt.stdlib_next, None);
    let id = rt.symbols().lookup(&"f".to_string()).expect("an export").0;
    assert_eq!(rt.compile().exports.get(&id), Some(&(f, Signal::errors())));

    let stale: Option<Result<(), String>> = Some(Err("version".to_string()));
    let mut rt = Runtime::new(&stale, 16, 10, &time_defs());
    assert_eq!(rt.stdlib_source(), StdlibSource::Compiled);
    rt.stdlib_compiled();
    assert_eq!(rt.stdlib_next, Some(StdlibStep::Execute));
    let rt = Runtime::without_stdlib(16, 10, &time_defs());
    assert_eq!(rt.stdlib_next, None);
    assert_eq!(rt.stdlib_source(), StdlibSource::Compiled);
}
