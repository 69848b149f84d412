//! Fibers, calls, signals and the machine that drives them.

use std::rc::Rc;

use elle_core::ctx::Alloc;
use elle_core::def::PrimitiveDef;
use elle_core::fiber::{kill_fiber, BytecodeFrame, Code, Fiber, FiberStatus, SuspendedFrame};
use elle_core::fiber_introspect::{
    prim_fiber_abort, prim_fiber_bits, prim_fiber_cancel, prim_fiber_caps, prim_fiber_child, prim_fiber_mask,
    prim_fiber_parent, prim_fiber_propagate, prim_fiber_refuse,
};
use elle_core::fibers::{prim_emit, prim_fiber_new, prim_fiber_resume, prim_fiber_status, prim_fiber_value};
use elle_core::fields::get_field;
use elle_core::heap::FiberHeap;
use elle_core::object::{Arity, Closure, ClosureTemplate, HeapObject, Pair};
use elle_core::prim::as_fiber;
use elle_core::regionmap::RegionMap;
use elle_core::registration::PrimRegistry;
use elle_core::registry::SignalRegistry;
use elle_core::resume::{ExecResult, ResumeStep};
use elle_core::signalbits::SignalBits;
use elle_core::signals::{
    Signal, SIG_ABORT, SIG_ERROR, SIG_IO, SIG_OK, SIG_PROPAGATE, SIG_QUERY, SIG_RESUME, SIG_YIELD,
};
use elle_core::tailcall::{TailCall, TailStep};
use elle_core::value::Value;
use elle_core::vm::{DeferredReleases, VM};
use elle_core::vmsignal::{SignalAction, SignalStep};

/// How the types of arguments read.
fn kinds(args: &Vec<Value>) -> Vec<String> {
    args.iter().map(|v| v.tag_name().to_string()).collect()
}

fn closure(arity: Arity) -> Closure {
    let template = ClosureTemplate::new(vec![1], arity, Vec::new());
    Closure { template: Rc::new(template), env: Vec::new(), squelch_mask: SignalBits::empty() }
}

fn vm() -> (VM, Alloc) {
    let mut vm = VM::new(3, 16);
    let ctx = Alloc::new(&mut vm.heap);
    (vm, ctx)
}

fn failure(heap: &FiberHeap, v: Value) -> (String, String) {
    let data = match heap.deref(v) {
        Some(HeapObject::LStruct { data, .. }) => data,
        _ => panic!("not an error"),
    };
    let kind = get_field(data, &"error".to_string()).expect("kind");
    let msg = get_field(data, &"message".to_string()).expect("message");
    let msg = match heap.deref(msg) {
        Some(HeapObject::LString { s, .. }) => s.clone(),
        _ => panic!("no message"),
    };
    (heap.keyword_spelling(kind).expect("a keyword"), msg)
}

fn new_fiber(vm: &mut VM, ctx: &Alloc, arity: Arity, mask: u64) -> Value {
    let c = ctx.closure(&mut vm.heap, closure(arity));
    let args = vec![c, Value::nil()];
    let resolved = vec![Ok(SignalBits::empty()), Ok(SignalBits::new(mask))];
    let r = prim_fiber_new(ctx, &mut vm.heap, &mut vm.fibers, &vm.fiber, &args, &kinds(&args), &resolved);
    assert_eq!(r.0, SignalBits::new(SIG_OK));
    r.1
}

fn handle(vm: &VM, f: Value) -> u32 {
    as_fiber(&vm.heap, f).expect("a fiber")
}

#[test]
fn a_new_fiber_waits_for_its_first_resume() {
    let (mut vm, ctx) = vm();
    let f = new_fiber(&mut vm, &ctx, Arity::Exact(0), SIG_ERROR);
    let h = handle(&vm, f);
    assert_eq!(vm.fibers.get(h).status, FiberStatus::New);
    assert_eq!(vm.fibers.get(h).render(), "<fiber:new frames=0 stack=0>");
    let r = prim_fiber_status(&ctx, &mut vm.heap, &vm.fibers, &vec![f], &kinds(&vec![f]));
    assert_eq!(vm.heap.keyword_spelling(r.1), Some("new".to_string()));
    let r = prim_fiber_mask(&ctx, &mut vm.heap, &vm.fibers, &vec![f], &kinds(&vec![f]));
    assert_eq!(r.1, Value::integer(SIG_ERROR as i64));
    let r = prim_fiber_bits(&ctx, &mut vm.heap, &vm.fibers, &vec![f], &kinds(&vec![f]));
    assert_eq!(r.1, Value::integer(0));
    assert_eq!(prim_fiber_value(&ctx, &mut vm.heap, &vm.fibers, &vec![f], &kinds(&vec![f])).1, Value::nil());
    assert_eq!(prim_fiber_child(&ctx, &mut vm.heap, &vm.fibers, &vec![f], &kinds(&vec![f])).1, Value::nil());
    assert_eq!(prim_fiber_parent(&ctx, &mut vm.heap, &vm.fibers, &vec![f], &kinds(&vec![f])).1, Value::nil());
}

#[test]
fn a_resume_asks_the_machine() {
    let (mut vm, ctx) = vm();
    let f = new_fiber(&mut vm, &ctx, Arity::Exact(0), 0);
    let r = prim_fiber_resume(&ctx, &mut vm.heap, &mut vm.fibers, &vec![f, Value::integer(5)], &kinds(&vec![f, Value::integer(5)]));
    assert_eq!(r, (SignalBits::new(SIG_RESUME), f));
    assert_eq!(vm.fibers.get(handle(&vm, f)).signal.map(|s| s.1), Some(Value::integer(5)));
    let r = prim_fiber_resume(&ctx, &mut vm.heap, &mut vm.fibers, &vec![Value::integer(1)], &kinds(&vec![Value::integer(1)]));
    assert_eq!(r.0, SignalBits::new(SIG_ERROR));
    assert_eq!(failure(&vm.heap, r.1).0, "type-error");
    let r = prim_emit(&vec![Value::nil(), Value::integer(2)], Ok(SignalBits::new(SIG_YIELD)));
    assert_eq!(r, (SignalBits::new(SIG_YIELD), Value::integer(2)));
}

#[test]
fn the_first_resume_starts_the_body() {
    let (mut vm, ctx) = vm();
    let f = new_fiber(&mut vm, &ctx, Arity::Exact(0), 0);
    let h = handle(&vm, f);
    let _ = prim_fiber_resume(&ctx, &mut vm.heap, &mut vm.fibers, &vec![f], &kinds(&vec![f]));
    assert!(matches!(vm.do_fiber_resume_single(h, f), ResumeStep::StartChild(_)));
    let child = vm.fibers.take(h);
    vm.fiber = child;
    assert!(matches!(vm.do_fiber_first_resume(Value::nil()), ResumeStep::RunBody(args) if args.is_empty()));
    vm.enter_fiber_body();
    assert!(vm.pending_error_park);
}

#[test]
fn an_error_leaves_a_frame_to_replay() {
    let (mut vm, _) = vm();
    let code = Code { template: Rc::new(ClosureTemplate::new(vec![9], Arity::Exact(0), Vec::new())) };
    let result = ExecResult {
        bits: SignalBits::new(SIG_ERROR),
        code,
        env: vec![Value::integer(1)],
        ip: 4,
        stack: vec![Value::integer(2)],
        activation_region_map: RegionMap::new(),
        activation_owner_node: None,
        current_closure: Value::nil(),
    };
    assert_eq!(vm.fiber_body_ended(result), SignalBits::new(SIG_ERROR));
    match vm.do_fiber_subsequent_resume(Value::integer(8)) {
        ResumeStep::Replay(frames, v) => {
            assert_eq!(v, Value::integer(8));
            match &frames[0] {
                SuspendedFrame::Bytecode(BytecodeFrame { ip, stack, .. }) => {
                    assert_eq!((*ip, stack.len()), (4, 1));
                }
                _ => panic!("not a frame"),
            }
        }
        _ => panic!("nothing to replay"),
    }
}

#[test]
fn a_killed_fiber_holds_its_error() {
    let (mut vm, ctx) = vm();
    let f = new_fiber(&mut vm, &ctx, Arity::Exact(0), 0);
    let h = handle(&vm, f);
    let (err, region) = vm.heap.alloc_in_fresh_region(HeapObject::Pair(Pair::new(Value::nil(), Value::nil())));
    let before = vm.heap.region_rc(region);
    let mut fiber = vm.fibers.take(h);
    kill_fiber(&mut vm.heap, &mut fiber, f, err);
    assert_eq!(fiber.status, FiberStatus::Error);
    assert_eq!(fiber.signal, Some((SignalBits::new(SIG_ERROR), err)));
    assert_eq!(vm.heap.region_rc(region), before + 1);
}

#[test]
fn fibers_are_cancelled_aborted_and_refused() {
    let (mut vm, ctx) = vm();
    let f = new_fiber(&mut vm, &ctx, Arity::Exact(0), 0);
    let r = prim_fiber_cancel(&ctx, &mut vm.heap, &mut vm.fibers, &vec![f, Value::integer(3)], &kinds(&vec![f, Value::integer(3)]));
    assert_eq!(r.0, SignalBits::new(SIG_OK));
    assert_eq!(vm.fibers.get(handle(&vm, f)).status, FiberStatus::Error);

    let g = new_fiber(&mut vm, &ctx, Arity::Exact(0), 0);
    let r = prim_fiber_refuse(&ctx, &mut vm.heap, &mut vm.fibers, &vec![g, Value::integer(3)], &kinds(&vec![g, Value::integer(3)]));
    assert_eq!(r.0, SignalBits::new(SIG_ERROR));

    let h = handle(&vm, g);
    let mut fiber = vm.fibers.take(h);
    fiber.status = FiberStatus::Paused;
    vm.fibers.put(h, fiber);
    let r = prim_fiber_abort(&ctx, &mut vm.heap, &mut vm.fibers, &vec![g, Value::integer(4)], &kinds(&vec![g, Value::integer(4)]));
    assert_eq!(r, (SignalBits::new(SIG_ABORT), g));
    assert_eq!(vm.fibers.get(h).signal, Some((SignalBits::new(SIG_ERROR), Value::integer(4))));
}

#[test]
fn capabilities_are_what_is_not_withheld() {
    let (mut vm, ctx) = vm();
    let registry = SignalRegistry { entries: vec![(0, "error".to_string()), (9, "io".to_string())] };
    let c = ctx.closure(&mut vm.heap, closure(Arity::Exact(0)));
    let deny = vm.heap.keyword(&"deny".to_string());
    let args = vec![c, Value::nil(), deny, Value::nil()];
    let none = Ok(SignalBits::empty());
    let resolved = vec![none, none, none, Ok(SignalBits::new(SIG_IO))];
    let f = prim_fiber_new(&ctx, &mut vm.heap, &mut vm.fibers, &vm.fiber, &args, &kinds(&args), &resolved).1;
    let r = prim_fiber_caps(&ctx, &mut vm.heap, &vm.fibers, &registry, &vec![f], &kinds(&vec![f]));
    match vm.heap.deref(r.1) {
        Some(HeapObject::LSet { data, .. }) => {
            let names: Vec<_> = data.iter().map(|v| vm.heap.keyword_spelling(*v).unwrap()).collect();
            assert_eq!(names, vec!["error".to_string()]);
        }
        _ => panic!("not a set"),
    }
    let r = prim_fiber_caps(&ctx, &mut vm.heap, &vm.fibers, &registry, &vec![], &kinds(&vec![]));
    assert_eq!(r.0, SignalBits::new(SIG_QUERY));
    let r = prim_fiber_propagate(&ctx, &mut vm.heap, &vm.fibers, &vec![f], &kinds(&vec![f]));
    assert_ne!(r.0, SignalBits::new(SIG_PROPAGATE));
}

#[test]
fn an_iterator_fiber_starts_paused() {
    let f = Fiber::native_iter(vec![Value::integer(1)], SignalBits::new(SIG_YIELD));
    assert_eq!(f.status, FiberStatus::Paused);
    assert_eq!(f.native_iter.map(|it| (it.elements.len(), it.cursor)), Some((1, 0)));
}

#[test]
fn parked_state_is_taken_once() {
    let (mut vm, _) = vm();
    let node = vm.heap.new_runtime_region();
    let code = Code { template: Rc::new(ClosureTemplate::new(vec![9], Arity::Exact(0), Vec::new())) };
    let frame = BytecodeFrame {
        code,
        env: Vec::new(),
        ip: 0,
        stack: Vec::new(),
        push_resume_value: true,
        activation_region_map: RegionMap::new(),
        activation_owner_node: Some(node),
        current_closure: Value::nil(),
    };
    vm.fiber.suspended = Some(vec![SuspendedFrame::Bytecode(frame)]);
    assert_eq!(vm.fiber.take_parked_state().nodes, vec![node]);
    assert!(vm.fiber.take_parked_state().nodes.is_empty());
}

#[test]
fn discarded_frames_give_their_nodes_back() {
    let (mut vm, _) = vm();
    let node = vm.heap.new_runtime_region();
    let code = Code { template: Rc::new(ClosureTemplate::new(vec![9], Arity::Exact(0), Vec::new())) };
    let frame = BytecodeFrame {
        code,
        env: Vec::new(),
        ip: 0,
        stack: Vec::new(),
        push_resume_value: true,
        activation_region_map: RegionMap::new(),
        activation_owner_node: Some(node),
        current_closure: Value::nil(),
    };
    vm.fiber.suspended = Some(vec![SuspendedFrame::Bytecode(frame)]);
    vm.discard_suspended_frames();
    assert!(vm.fiber.suspended.is_none());
    assert_eq!(vm.heap.region_rc(node), 0);
}

fn call(func: Value, args: Vec<Value>) -> TailCall {
    TailCall {
        func,
        args,
        checked: false,
        defer_callee_release: false,
        deferred_release_slot: None,
        borrowed_arg_slots: Vec::new(),
    }
}

#[test]
fn a_tail_call_goes_by_its_callee() {
    let (mut vm, ctx) = vm();
    let mut def = PrimitiveDef::noop();
    def.name = "two";
    def.arity = Arity::Exact(2);
    let prims = PrimRegistry::seeded(&vec![def]);
    let registry = SignalRegistry { entries: Vec::new() };
    let nat = Value::native_fn(0);
    let step = vm.tail_call_inner(&prims, &registry, &call(nat, vec![Value::nil(), Value::nil()]));
    assert!(matches!(step, TailStep::RunNative(0)));
    let step = vm.tail_call_inner(&prims, &registry, &call(nat, vec![Value::nil()]));
    assert!(matches!(step, TailStep::Exit(b) if b == SignalBits::new(SIG_ERROR)));
    let err = vm.fiber.signal.expect("an error").1;
    assert_eq!(
        failure(&vm.heap, err),
        ("arity-error".to_string(), "two: expected 2 argument(s), got 1".to_string())
    );

    let c = ctx.closure(&mut vm.heap, closure(Arity::Exact(1)));
    let step = vm.tail_call_inner(&prims, &registry, &call(c, vec![]));
    assert!(matches!(step, TailStep::ArityMismatch(Arity::Exact(1), 0)));
    let step = vm.tail_call_inner(&prims, &registry, &call(c, vec![Value::nil()]));
    assert!(matches!(step, TailStep::BuildEnv));
    let step = vm.tail_env_built(&call(c, vec![Value::nil()]), Some(vec![Value::integer(4)]), None);
    assert!(matches!(step, TailStep::Exit(b) if b == SignalBits::new(SIG_OK)));
    let info = vm.pending_tail_call.take().expect("a tail call");
    assert_eq!((info.env, info.closure), (vec![Value::integer(4)], c));

    let p = ctx.parameter(&mut vm.heap, Value::integer(6));
    let step = vm.tail_call_inner(&prims, &registry, &call(p, vec![]));
    assert!(matches!(step, TailStep::Exit(b) if b == SignalBits::new(SIG_OK)));
    assert_eq!(vm.fiber.signal, Some((SignalBits::new(SIG_OK), Value::integer(6))));
    let step = vm.tail_call_inner(&prims, &registry, &call(p, vec![Value::nil()]));
    assert!(matches!(step, TailStep::Exit(b) if b == SignalBits::new(SIG_ERROR)));
    let err = vm.fiber.signal.expect("an error").1;
    assert_eq!(failure(&vm.heap, err).1, "parameter call: expected 0 arguments, got 1");
    let step = vm.tail_call_inner(&prims, &registry, &call(Value::integer(1), vec![]));
    assert!(matches!(step, TailStep::CallCollection));
    let step = vm.tail_collection_called(None, &"1".to_string());
    assert!(matches!(step, TailStep::Exit(_)));
    let err = vm.fiber.signal.expect("an error").1;
    assert_eq!(failure(&vm.heap, err), ("type-error".to_string(), "Cannot call 1".to_string()));
}

#[test]
fn a_withheld_capability_is_denied() {
    let (mut vm, _) = vm();
    let mut def = PrimitiveDef::noop();
    def.name = "port/read";
    def.signal = Signal::of(SignalBits::new(SIG_IO));
    let prims = PrimRegistry::seeded(&vec![def]);
    let registry = SignalRegistry { entries: vec![(9, "io".to_string())] };
    vm.fiber.withheld = SignalBits::new(SIG_IO);
    let step = vm.tail_call_inner(&prims, &registry, &call(Value::native_fn(0), vec![Value::integer(1)]));
    assert!(matches!(step, TailStep::Exit(_)));
    let (_, payload) = vm.fiber.signal.expect("a denial");
    let data = match vm.heap.deref(payload) {
        Some(HeapObject::LStruct { data, .. }) => data,
        _ => panic!("not a struct"),
    };
    let kind = get_field(data, &"error".to_string()).expect("kind");
    assert_eq!(vm.heap.keyword_spelling(kind), Some("capability-denied".to_string()));
    assert_eq!(vm.fiber.denial_payload, Some(payload));
}

#[test]
fn a_primitive_signal_is_routed() {
    let (mut vm, _) = vm();
    let code = Code { template: Rc::new(ClosureTemplate::new(vec![9], Arity::Exact(0), Vec::new())) };
    let ok = SignalBits::new(SIG_OK);
    let step = vm.handle_primitive_signal(SignalAction::Done, ok, Value::integer(1), &code, &vec![], 0);
    assert!(matches!(step, SignalStep::Continue));
    let (v, region) = vm.heap.alloc_in_fresh_region(HeapObject::Pair(Pair::new(Value::nil(), Value::nil())));
    let bits = SignalBits::new(SIG_YIELD);
    let step = vm.handle_primitive_signal(SignalAction::Suspend, bits, v, &code, &vec![], 7);
    assert!(matches!(step, SignalStep::Exit(b) if b == bits));
    assert_eq!(vm.heap.region_rc(region), 2);
    match vm.fiber.suspended.as_ref().map(|f| &f[0]) {
        Some(SuspendedFrame::Bytecode(f)) => assert_eq!((f.ip, f.stack.len()), (7, 1)),
        _ => panic!("nothing parked"),
    }
}

#[test]
fn a_squelched_signal_is_an_error() {
    let (mut vm, _) = vm();
    let shown = "|:yield|".to_string();
    assert!(!vm.enforce_squelch(SignalBits::new(SIG_YIELD), SignalBits::new(SIG_IO), &shown));
    assert!(vm.enforce_squelch(SignalBits::new(SIG_YIELD), SignalBits::new(SIG_YIELD), &shown));
    let (bits, v) = vm.fiber.signal.expect("an error");
    assert_eq!(bits, SignalBits::new(SIG_ERROR));
    assert_eq!(
        failure(&vm.heap, v),
        ("signal-violation".to_string(), "squelch: signal |:yield| caught at boundary".to_string())
    );
}

#[test]
fn calls_are_counted_until_hot() {
    let (mut vm, _) = vm();
    assert_eq!(vm.get_closure_call_count(64), 0);
    assert!(!vm.record_closure_call(64));
    assert!(!vm.record_closure_call(64));
    assert!(!vm.record_closure_call(128));
    assert!(vm.record_closure_call(64));
    assert_eq!((vm.get_closure_call_count(64), vm.get_closure_call_count(128)), (3, 1));
    vm.reset_fiber();
    assert_eq!(vm.get_closure_call_count(64), 0);
}

#[test]
fn modules_are_marked_while_they_load() {
    let (mut vm, _) = vm();
    let m = "m.lisp".to_string();
    vm.mark_module_loading(m.clone());
    vm.mark_module_loading(m.clone());
    assert!(vm.is_module_loading(&m));
    vm.unmark_module_loading(&m);
    assert!(!vm.is_module_loading(&m));
    vm.gated_exit_reason = Some("no gpu".to_string());
    assert_eq!(vm.take_gated_exit_reason(), Some("no gpu".to_string()));
    assert_eq!(vm.take_gated_exit_reason(), None);
    assert_eq!(vm.current_frame_base(), 0);
    vm.push_call_frame("f".to_string(), 3);
    assert_eq!(vm.fiber.call_depth, 1);
    let owed = DeferredReleases { arena: None, callee: None };
    assert!(owed.regions().is_empty());
}

fn parked_frame(ip: usize) -> SuspendedFrame {
    let code = Code { template: Rc::new(ClosureTemplate::new(vec![9], Arity::Exact(0), Vec::new())) };
    SuspendedFrame::Bytecode(BytecodeFrame {
        code,
        env: Vec::new(),
        ip,
        stack: Vec::new(),
        push_resume_value: true,
        activation_region_map: RegionMap::new(),
        activation_owner_node: None,
        current_closure: Value::nil(),
    })
}

#[test]
fn an_abort_raises_where_the_fiber_stands() {
    let (mut vm, ctx) = vm();
    let bits = SignalBits::new(SIG_ERROR);
    let error = Value::integer(13);
    assert!(matches!(vm.do_fiber_abort(error), ResumeStep::Settled(b, v) if b == bits && v == error));
    assert_eq!(vm.fiber.signal, Some((bits, error)));

    vm.fiber.suspended = Some(vec![parked_frame(4)]);
    match vm.do_fiber_abort(error) {
        ResumeStep::Replay(frames, v) => assert_eq!((frames.len(), v), (1, Value::nil())),
        _ => panic!("nothing to replay"),
    }
    assert_eq!(vm.fiber.emit_delivery, Some(error));
    assert!(vm.fiber.suspended.is_none());

    let inner = new_fiber(&mut vm, &ctx, Arity::Exact(0), 0);
    let h = handle(&vm, inner);
    vm.fiber.suspended = Some(vec![SuspendedFrame::FiberResume { handle: h, fiber_value: inner }, parked_frame(5)]);
    let frames = match vm.do_fiber_abort(error) {
        ResumeStep::AbortInner { handle, value, frames } => {
            assert_eq!((handle, value), (h, inner));
            frames
        }
        _ => panic!("no inner fiber"),
    };
    assert_eq!(vm.fibers.get(h).signal, Some((bits, error)));
    assert!(vm.fiber.signal.is_none());

    let yielded = SignalBits::new(SIG_YIELD);
    let step = vm.inner_fiber_aborted(frames, yielded, Value::integer(2), false);
    assert!(matches!(step, ResumeStep::Settled(b, _) if b == yielded));
    let frames = vm.fiber.suspended.take().expect("still parked");
    assert_eq!(frames.len(), 2);
    match vm.inner_fiber_aborted(frames, yielded, Value::integer(2), true) {
        ResumeStep::Replay(rest, v) => {
            assert!(matches!(&rest[0], SuspendedFrame::Bytecode(f) if f.ip == 5));
            assert_eq!((rest.len(), v), (1, Value::integer(2)));
        }
        _ => panic!("nothing to replay"),
    }
    let step = vm.inner_fiber_aborted(vec![parked_frame(0)], bits, error, false);
    assert!(matches!(step, ResumeStep::Settled(b, v) if b == bits && v == error));
}

/// What a suspension would park of the stack.
fn stack(vm: &mut VM) -> Vec<Value> {
    let code = Code { template: Rc::new(ClosureTemplate::new(vec![9], Arity::Exact(0), Vec::new())) };
    let bits = SignalBits::new(SIG_YIELD);
    let _ = vm.handle_primitive_signal(SignalAction::Suspend, bits, Value::nil(), &code, &vec![], 0);
    vm.fiber.signal = None;
    match vm.fiber.suspended.take().map(|mut f| f.remove(0)) {
        Some(SuspendedFrame::Bytecode(f)) => f.stack,
        _ => panic!("nothing parked"),
    }
}

#[test]
fn a_query_is_answered_on_the_stack_or_by_signal() {
    let (mut vm, _) = vm();
    vm.answer_query(SignalBits::new(SIG_OK), Value::integer(1));
    assert!(vm.fiber.signal.is_none());
    assert_eq!(stack(&mut vm), vec![Value::integer(1)]);
    vm.answer_query(SignalBits::new(SIG_ERROR), Value::integer(2));
    assert_eq!(vm.fiber.signal, Some((SignalBits::new(SIG_ERROR), Value::integer(2))));
    assert_eq!(stack(&mut vm), vec![Value::nil()]);
    let bits = vm.answer_query_tail(SignalBits::new(SIG_OK), Value::integer(3));
    assert_eq!(vm.fiber.signal, Some((bits, Value::integer(3))));
    assert!(stack(&mut vm).is_empty());
}

#[test]
fn a_native_tail_call_ends_by_its_signal() {
    let (mut vm, _) = vm();
    let done = call(Value::native_fn(0), vec![]);
    let ok = SignalBits::new(SIG_OK);
    let step = vm.tail_native_returned(&done, SignalAction::Done, ok, Value::integer(4));
    assert!(matches!(step, TailStep::FallThrough));
    assert_eq!(stack(&mut vm), vec![Value::integer(4)]);
    vm.fiber.resume_value_unfunded = false;
    let (v, region) = vm.heap.alloc_in_fresh_region(HeapObject::Pair(Pair::new(Value::nil(), Value::nil())));
    let bits = SignalBits::new(SIG_YIELD);
    let step = vm.tail_native_returned(&done, SignalAction::Suspend, bits, v);
    assert!(matches!(step, TailStep::Exit(b) if b == bits));
    assert_eq!((vm.heap.region_rc(region), vm.fiber.signal), (2, Some((bits, v))));
    assert!(vm.fiber.resume_value_unfunded);

    let step = vm.tail_signal_driven(bits, &vec![region]);
    assert!(matches!(step, TailStep::Exit(b) if b == bits));
    assert_eq!(vm.heap.region_rc(region), 1);
    let step = vm.tail_signal_driven(ok, &vec![]);
    assert!(matches!(step, TailStep::FallThrough));
    assert!(vm.fiber.signal.is_none());
    assert_eq!(stack(&mut vm), vec![v]);
}

#[test]
fn a_dropped_parent_is_nil() {
    let (mut vm, ctx) = vm();
    let parent = new_fiber(&mut vm, &ctx, Arity::Exact(0), 0);
    let child = new_fiber(&mut vm, &ctx, Arity::Exact(0), 0);
    let (p, c) = (handle(&vm, parent), handle(&vm, child));
    let mut f = vm.fibers.take(c);
    f.parent = Some(p);
    vm.fibers.put(c, f);
    let r = prim_fiber_parent(&ctx, &mut vm.heap, &vm.fibers, &vec![child], &kinds(&vec![child]));
    assert_eq!(as_fiber(&vm.heap, r.1), Some(p));
    let running = vm.fibers.take(p);
    let r = prim_fiber_parent(&ctx, &mut vm.heap, &vm.fibers, &vec![child], &kinds(&vec![child]));
    assert_eq!(as_fiber(&vm.heap, r.1), Some(p));
    vm.fibers.put(p, running);
    vm.fibers.discard(p);
    assert_eq!(prim_fiber_parent(&ctx, &mut vm.heap, &vm.fibers, &vec![child], &kinds(&vec![child])).1, Value::nil());
}
