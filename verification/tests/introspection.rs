//! Looking into closures, clocks, standard ports and channels.

use std::rc::Rc;

use elle_core::chan::{
    chan_trace, chan_trace_enabled, clone_receiver, clone_sender, make_wake_fd, receiver_value, sender_value,
    ChanSelectGuard, ChanSelectGuardCell, PipeStep, WakeList,
};
use elle_core::clock::{phase, prim_clock_cpu, prim_clock_monotonic, prim_clock_realtime, prim_sleep, slept, SleepStep};
use elle_core::ctx::Alloc;
use elle_core::fields::get_field;
use elle_core::heap::FiberHeap;
use elle_core::introspection::{
    prim_arity, prim_bytecode_size, prim_captures, prim_closure_value_const_count, prim_compile_spirv, prim_doc,
    prim_errors, prim_gpu_eligible, prim_is_fiber, prim_is_jit, prim_is_silent, prim_jit_rejections,
    prim_keyword, prim_mutates_params, prim_signals, prim_vm_query,
};
use elle_core::lir::{BasicBlock, LirFunction};
use elle_core::object::{Arity, ChanEnd, Closure, ClosureTemplate, HeapObject, Pair};
use elle_core::registry::SignalRegistry;
use elle_core::signalbits::SignalBits;
use elle_core::signals::{Signal, SIG_ERROR, SIG_OK, SIG_QUERY};
use elle_core::stdio::{
    prim_port_flush, prim_port_stderr, prim_port_stdin, prim_port_stdout, prim_port_write, prim_unsupported, stream_of,
    Stream,
};
use elle_core::value::Value;

/// How the types of arguments read.
fn kinds(args: &Vec<Value>) -> Vec<String> {
    args.iter().map(|v| v.tag_name().to_string()).collect()
}

fn setup() -> (FiberHeap, Alloc) {
    let mut heap = FiberHeap::new();
    let ctx = Alloc::new(&mut heap);
    (heap, ctx)
}

fn ok(v: Value) -> (SignalBits, Value) {
    (SignalBits::new(SIG_OK), v)
}

fn text(heap: &FiberHeap, v: Value) -> String {
    match heap.deref(v) {
        Some(HeapObject::LString { s, .. }) => s.clone(),
        _ => panic!("not a string"),
    }
}

fn fails(heap: &FiberHeap, r: (SignalBits, Value), kind: &str, msg: &str) {
    assert_eq!(r.0, SignalBits::new(SIG_ERROR));
    let data = match heap.deref(r.1) {
        Some(HeapObject::LStruct { data, .. }) => data,
        _ => panic!("not an error"),
    };
    let k = get_field(data, &"error".to_string()).expect("kind");
    let m = get_field(data, &"message".to_string()).expect("message");
    assert_eq!(heap.keyword_spelling(k), Some(kind.to_string()));
    assert_eq!(text(heap, m), msg);
}

/// A query's operation and argument.
fn query(heap: &FiberHeap, r: (SignalBits, Value)) -> (String, Value) {
    assert_eq!(r.0, SignalBits::new(SIG_QUERY));
    match heap.deref(r.1) {
        Some(HeapObject::Pair(Pair { first, rest, .. })) => {
            (heap.keyword_spelling(*first).expect("a keyword"), *rest)
        }
        _ => panic!("not a pair"),
    }
}

fn lir(blocks: Vec<BasicBlock>) -> LirFunction {
    LirFunction { arity: Arity::Exact(0), num_params: 0, num_locals: 0, blocks, doc: None, rest: 0 }
}

fn closure(heap: &mut FiberHeap, ctx: &Alloc, f: impl FnOnce(&mut ClosureTemplate)) -> Value {
    let mut template = ClosureTemplate::new(vec![1, 2, 3, 4], Arity::Exact(2), Vec::new());
    f(&mut template);
    let c = Closure { template: Rc::new(template), env: vec![Value::nil()], squelch_mask: SignalBits::empty() };
    ctx.closure(heap, c)
}

#[test]
fn closures_answer_about_themselves() {
    let (mut heap, ctx) = setup();
    let c = closure(&mut heap, &ctx, |_| {});
    let loud = closure(&mut heap, &ctx, |t| {
        t.signal = Signal::errors();
        t.capture_params_mask = 4;
    });
    let n = vec![Value::integer(1)];
    assert_eq!(prim_is_silent(&heap, &vec![c]), ok(Value::bool(true)));
    assert_eq!(prim_is_silent(&heap, &vec![loud]), ok(Value::bool(false)));
    assert_eq!(prim_is_silent(&heap, &n), ok(Value::bool(false)));
    assert_eq!(prim_errors(&heap, &vec![c]), ok(Value::bool(false)));
    assert_eq!(prim_errors(&heap, &vec![loud]), ok(Value::bool(true)));
    assert_eq!(prim_mutates_params(&heap, &vec![c]), ok(Value::bool(false)));
    assert_eq!(prim_mutates_params(&heap, &vec![loud]), ok(Value::bool(true)));
    assert_eq!(prim_captures(&heap, &vec![c]), ok(Value::integer(1)));
    assert_eq!(prim_captures(&heap, &n), ok(Value::nil()));
    assert_eq!(prim_bytecode_size(&heap, &vec![c]), ok(Value::integer(4)));
    assert_eq!(prim_gpu_eligible(&heap, &vec![c], false, true), ok(Value::bool(true)));
    assert_eq!(prim_is_fiber(&vec![c]), ok(Value::bool(false)));
    assert_eq!(prim_closure_value_const_count(3), ok(Value::integer(3)));
}

#[test]
fn an_arity_is_an_integer_or_a_pair() {
    let (mut heap, ctx) = setup();
    let exact = closure(&mut heap, &ctx, |_| {});
    let least = closure(&mut heap, &ctx, |t| t.arity = Arity::AtLeast(1));
    let range = closure(&mut heap, &ctx, |t| t.arity = Arity::Range(1, 3));
    assert_eq!(prim_arity(&ctx, &mut heap, &vec![exact]), ok(Value::integer(2)));
    for (c, rest) in [(least, Value::nil()), (range, Value::integer(3))] {
        let r = prim_arity(&ctx, &mut heap, &vec![c]);
        match heap.deref(r.1) {
            Some(HeapObject::Pair(p)) => assert_eq!((p.first, p.rest), (Value::integer(1), rest)),
            _ => panic!("not a pair"),
        }
    }
    assert_eq!(prim_arity(&ctx, &mut heap, &vec![Value::nil()]), ok(Value::nil()));
}

#[test]
fn documentation_comes_from_the_closure_or_the_machine() {
    let (mut heap, ctx) = setup();
    let told = closure(&mut heap, &ctx, |t| t.doc = Some("Adds one.".to_string()));
    let named = closure(&mut heap, &ctx, |t| t.name = Some("inc".to_string()));
    let nameless = closure(&mut heap, &ctx, |_| {});
    let r = prim_doc(&ctx, &mut heap, &vec![told]);
    assert_eq!(text(&heap, r.1), "Adds one.");
    let r = prim_doc(&ctx, &mut heap, &vec![named]);
    assert_eq!(text(&heap, r.1), "No documentation found for 'inc'");
    let r = prim_doc(&ctx, &mut heap, &vec![nameless]);
    assert_eq!(text(&heap, r.1), "No documentation found for '<anonymous>'");
    let kw = heap.keyword(&"map".to_string());
    let r = prim_doc(&ctx, &mut heap, &vec![kw]);
    assert_eq!(query(&heap, r), ("doc".to_string(), kw));
}

#[test]
fn the_machine_is_asked() {
    let (mut heap, ctx) = setup();
    let r = prim_is_jit(&ctx, &mut heap, &vec![Value::integer(1)]);
    assert_eq!(query(&heap, r), ("jit?".to_string(), Value::integer(1)));
    let r = prim_jit_rejections(&ctx, &mut heap);
    assert_eq!(query(&heap, r), ("jit/rejections".to_string(), Value::nil()));
    let kw = heap.keyword(&"global?".to_string());
    let r = prim_vm_query(&ctx, &mut heap, &vec![kw, Value::integer(2)], &kinds(&vec![kw, Value::integer(2)]));
    assert_eq!(query(&heap, r), ("global?".to_string(), Value::integer(2)));
    let r = prim_vm_query(&ctx, &mut heap, &vec![Value::integer(1), Value::nil()], &kinds(&vec![Value::integer(1), Value::nil()]));
    fails(&heap, r, "type-error", "vm/query: operation must be a string or keyword, got int");
}

#[test]
fn compiling_for_a_gpu_is_refused_or_asked_for() {
    let (mut heap, ctx) = setup();
    let plain = closure(&mut heap, &ctx, |_| {});
    let lowered = closure(&mut heap, &ctx, |t| t.lir_function = Some(lir(Vec::new())));
    let r = prim_compile_spirv(&ctx, &mut heap, &vec![], &kinds(&vec![]), true);
    fails(&heap, r, "arity-error", "mlir/compile-spirv: expected 1-2 arguments, got 0");
    let r = prim_compile_spirv(&ctx, &mut heap, &vec![Value::nil()], &kinds(&vec![Value::nil()]), true);
    fails(&heap, r, "type-error", "mlir/compile-spirv: expected closure, got nil");
    let r = prim_compile_spirv(&ctx, &mut heap, &vec![plain], &kinds(&vec![plain]), true);
    fails(&heap, r, "mlir-error", "mlir/compile-spirv: closure has no LIR");
    let r = prim_compile_spirv(&ctx, &mut heap, &vec![lowered], &kinds(&vec![lowered]), false);
    fails(&heap, r, "mlir-error", "mlir/compile-spirv: closure is not GPU-eligible");
    for (args, size) in [(vec![lowered], 256), (vec![lowered, Value::integer(64)], 64)] {
        let r = prim_compile_spirv(&ctx, &mut heap, &args, &kinds(&args), true);
        let (op, payload) = query(&heap, r);
        assert_eq!(op, "mlir/compile-spirv");
        match heap.deref(payload) {
            Some(HeapObject::Pair(p)) => assert_eq!((p.first, p.rest), (lowered, Value::integer(size))),
            _ => panic!("not a pair"),
        }
    }
}

#[test]
fn signals_map_names_to_bits() {
    let (mut heap, ctx) = setup();
    let registry = SignalRegistry {
        entries: vec![(0, "error".to_string()), (9, "io".to_string()), (3, "debug".to_string())],
    };
    let r = prim_signals(&ctx, &mut heap, &registry);
    match heap.deref(r.1) {
        Some(HeapObject::LStruct { data, .. }) => {
            assert_eq!(data.len(), 3);
            assert_eq!(get_field(data, &"io".to_string()), Some(Value::integer(9)));
            assert_eq!(get_field(data, &"error".to_string()), Some(Value::integer(0)));
            assert_eq!(get_field(data, &"none".to_string()), None);
        }
        _ => panic!("not a struct"),
    }
}

#[test]
fn a_keyword_of_a_string() {
    let (mut heap, ctx) = setup();
    let s = ctx.string(&mut heap, &"foo".to_string());
    let r = prim_keyword(&ctx, &mut heap, &vec![s], &kinds(&vec![s]));
    assert_eq!(heap.keyword_spelling(r.1), Some("foo".to_string()));
    let r = prim_keyword(&ctx, &mut heap, &vec![Value::nil()], &kinds(&vec![Value::nil()]));
    fails(&heap, r, "type-error", "keyword: expected string, got nil");
}

#[test]
fn a_sleep_is_a_finite_time() {
    let (mut heap, ctx) = setup();
    let sleep = |heap: &mut FiberHeap, v: Value| prim_sleep(&ctx, heap, &vec![v]);
    assert!(matches!(sleep(&mut heap, Value::integer(2)), SleepStep::Seconds(2)));
    let half = 0.5f64.to_bits();
    assert!(matches!(sleep(&mut heap, Value::float_bits(half)), SleepStep::Fraction(b) if b == half));
    let zero = (-0.0f64).to_bits();
    assert!(matches!(sleep(&mut heap, Value::float_bits(zero)), SleepStep::Fraction(b) if b == zero));
    for f in [-0.5f64, f64::INFINITY, f64::NEG_INFINITY, f64::NAN] {
        match sleep(&mut heap, Value::float_bits(f.to_bits())) {
            SleepStep::Done(r) => {
                fails(&heap, r, "argument-error", "time/sleep: duration must be a finite non-negative number")
            }
            _ => panic!("{f} is no duration"),
        }
    }
    match sleep(&mut heap, Value::integer(-1)) {
        SleepStep::Done(r) => fails(&heap, r, "argument-error", "time/sleep: duration must be non-negative"),
        _ => panic!("no duration"),
    }
    match sleep(&mut heap, Value::nil()) {
        SleepStep::Done(r) => fails(&heap, r, "type-error", "time/sleep: argument must be a number"),
        _ => panic!("no duration"),
    }
    assert_eq!(slept(), ok(Value::nil()));
}

#[test]
fn clocks_give_floats_or_say_why_not() {
    let (mut heap, ctx) = setup();
    let bits = 1.25f64.to_bits();
    assert_eq!(prim_clock_monotonic(bits), ok(Value::float_bits(bits)));
    assert_eq!(prim_clock_cpu(&ctx, &mut heap, Some(bits)), ok(Value::float_bits(bits)));
    assert_eq!(prim_clock_realtime(&ctx, &mut heap, Some(bits)), ok(Value::float_bits(bits)));
    let r = prim_clock_cpu(&ctx, &mut heap, None);
    fails(&heap, r, "io-error", "clock/cpu: clock_gettime failed");
    let r = prim_clock_realtime(&ctx, &mut heap, None);
    fails(&heap, r, "io-error", "clock/realtime: system clock is before Unix epoch");
    assert_eq!(phase(true, "compile", "parse", "12.3ms"), Some("[trace:compile] parse 12.3ms".to_string()));
    assert_eq!(phase(false, "compile", "parse", "12.3ms"), None);
}

#[test]
fn only_standard_output_can_be_written() {
    let (mut heap, ctx) = setup();
    let inp = prim_port_stdin(&ctx, &mut heap).1;
    let out = prim_port_stdout(&ctx, &mut heap).1;
    let err = prim_port_stderr(&ctx, &mut heap).1;
    assert_eq!(stream_of(&heap, inp), None);
    assert_eq!(stream_of(&heap, out), Some(Stream::Output));
    assert_eq!(stream_of(&heap, err), Some(Stream::Error));
    let s = ctx.string(&mut heap, &"h\u{e9}".to_string());
    let (write, r) = prim_port_write(&ctx, &mut heap, &vec![out, s], &kinds(&vec![out, s]));
    assert_eq!(write, Some((Stream::Output, "h\u{e9}".to_string())));
    assert_eq!(r, ok(Value::integer(3)));
    let (write, r) = prim_port_write(&ctx, &mut heap, &vec![inp, s], &kinds(&vec![inp, s]));
    assert!(write.is_none());
    fails(&heap, r, "unsupported", "port/write: wasm32 can only write to stdout or stderr");
    let (_, r) = prim_port_write(&ctx, &mut heap, &vec![err, Value::integer(1)], &kinds(&vec![err, Value::integer(1)]));
    fails(&heap, r, "type-error", "port/write: expected string, got int");
    assert_eq!(prim_port_flush(&ctx, &mut heap, &vec![err]), ok(Value::nil()));
    let r = prim_port_flush(&ctx, &mut heap, &vec![inp]);
    fails(&heap, r, "unsupported", "port/flush: wasm32 can only flush stdout or stderr");
    let r = prim_unsupported(&ctx, &mut heap);
    fails(&heap, r, "unsupported", "this primitive needs OS facilities that wasm32 does not provide");
}

#[test]
fn a_wake_list_wakes_whoever_is_registered() {
    let mut list = WakeList::new();
    assert!(list.wake_all().is_empty());
    list.register(3);
    list.register(5);
    list.register(3);
    assert_eq!(list.wake_all(), vec![3, 5, 3]);
    list.deregister(3);
    assert_eq!(list.wake_all(), vec![5]);
    list.deregister(5);
    assert_eq!(list.len(), 0);
    assert!(list.wake_all().is_empty());
}

#[test]
fn the_end_of_a_wait_cleans_up() {
    let mut lists = vec![WakeList::new(), WakeList::new(), WakeList::new()];
    for list in lists.iter_mut() {
        list.register(8);
        list.register(9);
    }
    let guard = ChanSelectGuard { poll_fd: 7, wake_fd: 8, channels: vec![0, 2] };
    let mut cell = ChanSelectGuardCell::new(guard);
    let guard = cell.take().expect("a guard");
    assert!(cell.take().is_none());
    assert_eq!(guard.poll_fd(), 7);
    let release = guard.release(&mut lists);
    assert_eq!(release.signal, 8);
    assert_eq!(release.close, vec![7, 8]);
    assert_eq!(lists[0].wake_all(), vec![9]);
    assert_eq!(lists[1].wake_all(), vec![8, 9]);
    assert_eq!(lists[2].wake_all(), vec![9]);
    let one = ChanSelectGuard { poll_fd: 4, wake_fd: 4, channels: vec![] };
    assert_eq!(one.release(&mut lists).close, vec![4]);
}

#[test]
fn a_pipe_is_prepared_end_by_end() {
    let mut p = make_wake_fd(3, 4, 0x800, 1);
    assert_eq!(p.asked, PipeStep::GetStatus { fd: 3 });
    assert_eq!(p.replied(2), PipeStep::SetStatus { fd: 3, flags: 0x802 });
    assert_eq!(p.replied(0), PipeStep::GetDescriptor { fd: 3 });
    assert_eq!(p.replied(0), PipeStep::SetDescriptor { fd: 3, flags: 1 });
    assert_eq!(p.replied(0), PipeStep::GetStatus { fd: 4 });
    assert_eq!(p.replied(2), PipeStep::SetStatus { fd: 4, flags: 0x802 });
    assert_eq!(p.replied(0), PipeStep::GetDescriptor { fd: 4 });
    assert_eq!(p.replied(0), PipeStep::SetDescriptor { fd: 4, flags: 1 });
    assert_eq!(p.replied(0), PipeStep::Ready { poll_fd: 3, wake_fd: 4 });
    let mut p = make_wake_fd(3, 4, 0x800, 1);
    assert_eq!(p.replied(-1), PipeStep::Fail { read_fd: 3, write_fd: 4 });
}

#[test]
fn channel_ends_are_told_apart() {
    let (mut heap, ctx) = setup();
    let tx = sender_value(&ctx, &mut heap, 12);
    let rx = receiver_value(&ctx, &mut heap, 12);
    let end = Some(ChanEnd { channel: 12, open: true });
    assert_eq!(clone_sender(&heap, tx), end);
    assert_eq!(clone_receiver(&heap, rx), end);
    assert_eq!(clone_sender(&heap, rx), None);
    assert_eq!(clone_receiver(&heap, Value::integer(1)), None);
    assert!(chan_trace_enabled(6, 2));
    assert!(!chan_trace_enabled(4, 2));
    assert_eq!(chan_trace(true, &"x".to_string()), Some("[trace:chan] x\n".to_string()));
    assert_eq!(chan_trace(false, &"x".to_string()), None);
}
