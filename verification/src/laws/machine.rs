//! What the machine does with signals, frames, counts and marks.

use vstd::prelude::*;

use crate::bits::{bit, lemma_bit_and, lemma_bit_not, lemma_bit_zero, lemma_nonzero_has_bit};
use crate::ctx::with_keyword;
use crate::fiber::{Code, SuspendedFrame};
use crate::fibers::keyword_text;
use crate::fields::field_is;
use crate::heap::{lemma_allocated, HeapState, RuntimeRegion};
use crate::laws::failing::{lemma_error_reads_back, reads_as_error};
use crate::laws::words::lemma_masked_bits;
use crate::object::HeapObject;
use crate::prim::string_at;
use crate::registry::{names_in, SignalRegistry};
use crate::resume::{resume_continued, ResumeStep};
use crate::signalbits::SignalBits;
use crate::signals::{squelched, SIG_ERROR, SIG_OK, SIG_PAUSE, SIG_SWITCH};
use crate::value::{Value, TAG_STRUCT};
use crate::vm::{
    call_recorded, error_raised, exit_reason_taken, frame_pushed, frames_discarded, module_marked, module_unmarked,
    squelch_enforced, VM,
};
use crate::vmsignal::{
    denial_handled, denial_handled_tail, owner_node_taken, query_answered, query_answered_tail, routed, tail_routed,
    SignalAction, SignalStep,
};

verus! {

/// A value that a primitive returned lands on top of the stack, and all below it stays;
/// in tail position it is the fiber's signal.
pub proof fn lemma_returned_value_lands_on_the_stack(
    vm: VM,
    after: VM,
    bits: SignalBits,
    value: Value,
    code: Code,
    env: Vec<Value>,
    ip: usize,
    r: SignalStep,
    tail: VM,
    t: Option<SignalBits>,
)
    requires
        routed(vm, after, SignalAction::Done, bits, value, code, env, ip, r),
        tail_routed(vm, tail, SignalAction::Done, bits, value, t),
    ensures
        r == SignalStep::Continue,
        after.fiber.stack@.len() == vm.fiber.stack@.len() + 1,
        after.fiber.stack@.last() == value,
        forall|i: int| 0 <= i < vm.fiber.stack@.len() ==> #[trigger] after.fiber.stack@[i] == vm.fiber.stack@[i],
        after.fiber.signal == vm.fiber.signal,
        t == Some(SignalBits::new(SIG_OK)),
        tail.fiber.signal == Some((SignalBits::new(SIG_OK), value)),
        tail.fiber.stack == vm.fiber.stack,
{
}

/// An error that a primitive raised is the fiber's signal with its bits and its value,
/// and a nil holds its place on the stack; a halt leaves at once.
pub proof fn lemma_raised_error_is_the_signal(
    vm: VM,
    err: VM,
    halt: VM,
    bits: SignalBits,
    value: Value,
    code: Code,
    env: Vec<Value>,
    ip: usize,
    re: SignalStep,
    rh: SignalStep,
    te: VM,
    th: VM,
    be: Option<SignalBits>,
    bh: Option<SignalBits>,
)
    requires
        routed(vm, err, SignalAction::Error, bits, value, code, env, ip, re),
        routed(vm, halt, SignalAction::Halt, bits, value, code, env, ip, rh),
        tail_routed(vm, te, SignalAction::Error, bits, value, be),
        tail_routed(vm, th, SignalAction::Halt, bits, value, bh),
    ensures
        re == SignalStep::Continue,
        err.fiber.signal == Some((bits, value)),
        err.fiber.stack@.len() == vm.fiber.stack@.len() + 1,
        err.fiber.stack@.last() == Value::nil(),
        rh == SignalStep::Exit(bits),
        halt.fiber.signal == Some((bits, value)),
        halt.fiber.stack == vm.fiber.stack,
        te.fiber.signal == Some((bits, value)),
        be == Some(bits),
        th.fiber.signal == Some((bits, value)),
        bh == Some(bits),
{
}

/// A primitive that suspends parks the running frame, and the next resume goes on with
/// that very frame: its code, its environment, its place and its stack. What was
/// signalled is the fiber's signal, and the stack is free.
pub proof fn lemma_suspended_frame_comes_back(
    vm: VM,
    parked: VM,
    bits: SignalBits,
    value: Value,
    code: Code,
    env: Vec<Value>,
    ip: usize,
    r: SignalStep,
    after: VM,
    sent: Value,
    step: ResumeStep,
)
    requires
        routed(vm, parked, SignalAction::Suspend, bits, value, code, env, ip, r),
        resume_continued(parked, after, sent, step),
    ensures
        r == SignalStep::Exit(bits),
        parked.fiber.signal == Some((bits, value)),
        parked.fiber.stack@.len() == 0,
        step matches ResumeStep::Replay(frames, v) && v == sent && frames@.len() == 1 && (frames@[0] matches SuspendedFrame::Bytecode(
            f,
        ) && f.code == code && f.env@ == env@ && f.ip == ip && f.stack@ == vm.fiber.stack@ && f.push_resume_value
            && f.current_closure == vm.fiber.current_closure),
{
}

/// Nothing but these four is settled here: a resume, a propagation, an abort and a query
/// are left to be driven, with nothing changed.
pub proof fn lemma_other_signals_are_driven(
    vm: VM,
    after: VM,
    action: SignalAction,
    bits: SignalBits,
    value: Value,
    code: Code,
    env: Vec<Value>,
    ip: usize,
    r: SignalStep,
    tail: VM,
    t: Option<SignalBits>,
)
    requires
        routed(vm, after, action, bits, value, code, env, ip, r),
        tail_routed(vm, tail, action, bits, value, t),
        action == SignalAction::Resume || action == SignalAction::Propagate || action == SignalAction::Abort || action
            == SignalAction::Query,
    ensures
        r == SignalStep::Drive,
        after == vm,
        t is None,
        tail == vm,
{
}

/// The answer to a query is its value on the stack, or the error it failed with.
pub proof fn lemma_query_answer_arrives(
    vm: VM,
    after: VM,
    sig: SignalBits,
    result: Value,
    tail: VM,
    t: SignalBits,
)
    requires
        query_answered(vm, after, sig, result),
        query_answered_tail(vm, tail, sig, result, t),
    ensures
        after.fiber.stack@.len() == vm.fiber.stack@.len() + 1,
        sig == SignalBits::new(SIG_OK) ==> after.fiber.stack@.last() == result && after.fiber.signal
            == vm.fiber.signal,
        sig.has(0) ==> after.fiber.stack@.last() == Value::nil() && after.fiber.signal == Some((sig, result)),
        forall|i: int| 0 <= i < vm.fiber.stack@.len() ==> #[trigger] after.fiber.stack@[i] == vm.fiber.stack@[i],
        t == sig,
        tail.fiber.signal == Some((sig, result)),
{
    let b = sig.bits;
    lemma_masked_bits(b);
}

/// The heap of a denial: its payload and the parts that it names.
pub open spec fn reads_as_denial(
    s: HeapState,
    v: Value,
    primitive: Seq<char>,
    func: Value,
    args: Seq<Value>,
) -> bool {
    &&& v.tag == TAG_STRUCT
    &&& s.target(v) is Some
    &&& s.object(v) is LStruct
    &&& field_is(s.object(v)->LStruct_data@, "func"@, func)
    &&& exists|k: Value|
        #[trigger] keyword_text(s.keywords, k) == Some("capability-denied"@) && field_is(
            s.object(v)->LStruct_data@,
            "error"@,
            k,
        )
    &&& exists|p: Value|
        #[trigger] string_at(s, p) == Some(primitive) && field_is(s.object(v)->LStruct_data@, "primitive"@, p)
    &&& exists|a: Value|
        #[trigger] s.target(a) is Some && (s.object(a) matches HeapObject::LArray { elements, .. } && elements@ == args)
            && field_is(s.object(v)->LStruct_data@, "args"@, a)
}

proof fn lemma_denial_reads_back(
    before: HeapState,
    after: HeapState,
    home: RuntimeRegion,
    names: Seq<Seq<char>>,
    name: Seq<char>,
    func: Value,
    args: Seq<Value>,
    payload: Value,
)
    requires
        before.valid(),
        home.0 < before.counts.len(),
        crate::vmsignal::denial_made(before, after, home, names, name, func, args, payload),
        after.objects.len() <= crate::heap::MAX_OBJECTS,
        after.keywords.len() <= u32::MAX,
    ensures
        reads_as_denial(after, payload, name, func, args),
{
    let n = before.objects.len() as int;
    let (set_obj, name_obj, args_obj, whole) = (
        after.objects[n],
        after.objects[n + 1],
        after.objects[n + 2],
        after.objects[n + 3],
    );
    let s0 = HeapState { keywords: crate::symbol::interned_all(before.keywords, names), ..before };
    assert(s0.valid());
    lemma_allocated(s0, set_obj, home.0);
    let s1 = s0.allocated(set_obj, home.0);
    lemma_allocated(s1, name_obj, home.0);
    let s2 = s1.allocated(name_obj, home.0);
    lemma_allocated(s2, args_obj, home.0);
    let s3 = s2.allocated(args_obj, home.0);
    let kind = "capability-denied"@;
    let s4 = with_keyword(s3, kind);
    assert(s4.valid());
    lemma_allocated(s4, whole, home.0);
    reveal_strlit("error");
    reveal_strlit("denied");
    reveal_strlit("primitive");
    reveal_strlit("func");
    reveal_strlit("args");
    assert("error"@.len() == 5 && "denied"@.len() == 6 && "primitive"@.len() == 9);
    assert("func"@.len() == 4 && "args"@.len() == 4);
    assert("func"@[0] == 'f' && "args"@[0] == 'a');
    let k = crate::heap::keyword_value(s4.keywords, kind);
    assert(s3.keywords.contains(kind) || s4.keywords.last() == kind);
    assert(s4.keywords.contains(kind));
    assert(s4.keywords[s4.keywords.index_of(kind)] == kind);
    assert(after.target(payload) == Some(n + 3));
    let data = after.object(payload)->LStruct_data@;
    assert(keyword_text(after.keywords, k) == Some(kind));
    assert(field_is(data, "error"@, k));
    let p = s2.newest();
    assert(s2.resolves(p));
    assert(s3.target(p) == s2.target(p));
    assert(after.target(p) == Some(n + 1));
    assert(string_at(after, p) == Some(name));
    assert(field_is(data, "primitive"@, p));
    let a = s3.newest();
    assert(s3.resolves(a));
    assert(after.target(a) == Some(n + 2));
    assert(field_is(data, "args"@, a));
    assert(field_is(data, "func"@, func));
}

/// A primitive that the fiber lacks a capability for is denied: the signal holds the
/// missing bits, and its value names the primitive, the function and the arguments of
/// the call. The running frame is parked, to go on where it stopped.
pub proof fn lemma_denial_names_the_call(
    vm: VM,
    after: VM,
    registry: SignalRegistry,
    name: &'static str,
    func: Value,
    blocked: SignalBits,
    args: Vec<Value>,
    code: Code,
    env: Vec<Value>,
    ip: usize,
    r: SignalBits,
    tail: VM,
    t: SignalBits,
)
    requires
        denial_handled(vm, after, registry, name, func, blocked, args, code, env, ip, r),
        denial_handled_tail(vm, tail, registry, name, func, blocked, args, t),
        vm.heap@.valid(),
        vm.heap@.counts.len() < u32::MAX,
        after.heap@.objects.len() <= crate::heap::MAX_OBJECTS,
        after.heap@.keywords.len() <= u32::MAX,
        tail.heap@.objects.len() <= crate::heap::MAX_OBJECTS,
        tail.heap@.keywords.len() <= u32::MAX,
    ensures
        r == blocked,
        after.fiber.signal matches Some((bits, payload)) && bits == blocked && after.fiber.denial_payload == Some(payload)
            && reads_as_denial(after.heap@, payload, name@, func, args@),
        after.fiber.suspended is Some,
        (after.fiber.suspended->0)@.len() == 1,
        (after.fiber.suspended->0)@[0] matches SuspendedFrame::Bytecode(f) && f.code == code && f.env@ == env@ && f.ip
            == ip && f.stack@ == vm.fiber.stack@,
        t == blocked,
        tail.fiber.signal matches Some((bits, payload)) && bits == blocked && tail.fiber.denial_payload == Some(payload)
            && reads_as_denial(tail.heap@, payload, name@, func, args@),
{
    let s = vm.heap@.with_region();
    let home = RuntimeRegion(vm.heap@.counts.len() as u32);
    assert(s.valid()) by {
        assert forall|i: int, k: int| 0 <= i < s.edges.len() && 0 <= k < s.edges[i].len() implies (
        #[trigger] s.edges[i][k]) < s.counts.len() && s.edges[i][k] != i by {
            assert(vm.heap@.edges[i][k] < vm.heap@.counts.len());
        }
    }
    let names = names_in(registry.entries@, blocked);
    let payload = (after.fiber.signal->0).1;
    let built = choose|built: HeapState| #[trigger]
        crate::vmsignal::denial_made(s, built, home, names, name@, func, args@, payload) && after.heap@
            == built.retained_opt(built.region_of(payload));
    lemma_denial_reads_back(s, built, home, names, name@, func, args@, payload);
    lemma_denial_kept(built, after.heap@, payload, name@, func, args@);
    let other = (tail.fiber.signal->0).1;
    let second = choose|built: HeapState| #[trigger]
        crate::vmsignal::denial_made(s, built, home, names, name@, func, args@, other) && tail.heap@
            == built.retained_opt(built.region_of(other));
    lemma_denial_reads_back(s, second, home, names, name@, func, args@, other);
    lemma_denial_kept(second, tail.heap@, other, name@, func, args@);
}

proof fn lemma_denial_kept(a: HeapState, b: HeapState, v: Value, name: Seq<char>, func: Value, args: Seq<Value>)
    requires
        reads_as_denial(a, v, name, func, args),
        b.objects == a.objects,
        b.keywords == a.keywords,
    ensures
        reads_as_denial(b, v, name, func, args),
{
    let data = a.object(v)->LStruct_data@;
    let k = choose|k: Value|
        #[trigger] keyword_text(a.keywords, k) == Some("capability-denied"@) && field_is(data, "error"@, k);
    let p = choose|p: Value| #[trigger] string_at(a, p) == Some(name) && field_is(data, "primitive"@, p);
    let x = choose|x: Value|
        #[trigger] a.target(x) is Some && (a.object(x) matches HeapObject::LArray { elements, .. } && elements@ == args)
            && field_is(data, "args"@, x);
    assert(keyword_text(b.keywords, k) == Some("capability-denied"@));
    assert(string_at(b, p) == Some(name));
    assert(b.target(x) is Some);
}

/// A boundary turns a signal into a violation exactly where it carries a bit that the
/// boundary masks, other than a pause, and neither an error nor a halt, nor the switch
/// between fibers alone. Then the frames that waited are gone, and the error reads as the
/// violation of that signal.
pub proof fn lemma_boundary_stops_what_it_masks(
    vm: VM,
    after: VM,
    bits: SignalBits,
    mask: SignalBits,
    shown: String,
    r: bool,
    i: int,
)
    requires
        squelch_enforced(vm, after, bits, mask, shown, r),
        0 <= i < 64,
    ensures
        bits.has(i) && mask.has(i) && !bit(SIG_PAUSE, i) && !bits.has(0) && !bits.has(8) && bits != SignalBits::new(
            SIG_SWITCH,
        ) ==> r,
        bits.has(0) || bits.has(8) ==> !r,
        bits == SignalBits::new(SIG_SWITCH) ==> !r,
        (forall|j: int| !(#[trigger] bits.has(j) && mask.has(j) && !bit(SIG_PAUSE, j))) ==> !r,
        !r ==> after == vm,
        r ==> after.fiber.signal is Some && (after.fiber.signal->0).0 == SignalBits::new(SIG_ERROR)
            && after.fiber.suspended is None,
{
    let (b, m, p) = (bits.bits, mask.bits, SIG_PAUSE);
    lemma_masked_bits(b);
    assert forall|j: int| 0 <= j < 64 implies bit((b & m) & !p, j) == (bit(b, j) && bit(m, j) && !bit(p, j)) by {
        lemma_bit_and(b, m, j);
        lemma_bit_not(p, j);
        lemma_bit_and(b & m, !p, j);
    }
    lemma_bit_zero(i);
    if squelched(bits, mask).bits != 0 {
        let j = lemma_nonzero_has_bit(squelched(bits, mask).bits);
        assert(bits.has(j));
    }
}

/// An error of the machine is the fiber's signal and reads back as it was raised.
pub proof fn lemma_machine_error_reads_back(vm: VM, after: VM, kind: Seq<char>, msg: Seq<char>)
    requires
        error_raised(vm, after, kind, msg),
        vm.heap@.valid(),
        vm.heap@.room(10),
    ensures
        after.fiber.signal matches Some((bits, v)) && bits == SignalBits::new(SIG_ERROR) && reads_as_error(
            after.heap@,
            v,
            kind,
            msg,
        ),
        after.fiber.stack == vm.fiber.stack,
        after.fibers == vm.fibers,
{
    let s = vm.heap@.with_region();
    let home = RuntimeRegion(vm.heap@.counts.len() as u32);
    assert(s.valid()) by {
        assert forall|i: int, k: int| 0 <= i < s.edges.len() && 0 <= k < s.edges[i].len() implies (
        #[trigger] s.edges[i][k]) < s.counts.len() && s.edges[i][k] != i by {
            assert(vm.heap@.edges[i][k] < vm.heap@.counts.len());
        }
    }
    assert(s.room(8)) by {
        assert forall|i: int| 0 <= i < s.counts.len() implies #[trigger] s.counts[i] + 8 <= u32::MAX by {
            if i < vm.heap@.counts.len() {
                assert(vm.heap@.counts[i] + 10 <= u32::MAX);
            }
        }
    }
    lemma_error_reads_back(s, after.heap@, home, kind, msg, (after.fiber.signal->0).1);
}

/// A call that is entered is one deeper, its frame stands on top with its name and its
/// place, and its stack begins where the caller's ends.
pub proof fn lemma_entered_call_stands_on_top(
    vm: VM,
    after: VM,
    name: String,
    ip: usize,
    base: usize,
    outside: usize,
)
    requires
        frame_pushed(vm, after, name, ip),
        call_ensures(VM::current_frame_base, (&after,), base),
        call_ensures(VM::current_frame_base, (&vm,), outside),
        vm.fiber.stack@.len() <= usize::MAX,
    ensures
        after.fiber.call_depth == vm.fiber.call_depth + 1,
        after.fiber.call_stack@.len() == vm.fiber.call_stack@.len() + 1,
        after.fiber.call_stack@.last().name == name,
        after.fiber.call_stack@.last().ip == ip,
        forall|i: int|
            0 <= i < vm.fiber.call_stack@.len() ==> #[trigger] after.fiber.call_stack@[i] == vm.fiber.call_stack@[i],
        base == vm.fiber.stack@.len(),
        vm.fiber.call_stack@.len() == 0 ==> outside == 0,
        after.fiber.stack == vm.fiber.stack,
{
}

/// A call that is counted counts one more than before, no other count changes, and the
/// answer says whether the threshold is reached.
pub proof fn lemma_call_counts_one_more(
    vm: VM,
    after: VM,
    at: u64,
    hot: bool,
    had: usize,
    now: usize,
    other: u64,
    had_other: usize,
    now_other: usize,
)
    requires
        call_recorded(vm, after, at, hot),
        call_ensures(VM::get_closure_call_count, (&vm, at), had),
        call_ensures(VM::get_closure_call_count, (&after, at), now),
        had < usize::MAX,
        other != at,
        call_ensures(VM::get_closure_call_count, (&vm, other), had_other),
        call_ensures(VM::get_closure_call_count, (&after, other), now_other),
    ensures
        now == had + 1,
        now_other == had_other,
        hot <==> now >= vm.jit_threshold,
{
}

/// A module that is marked is loading until the mark is taken back; no other module is
/// concerned.
pub proof fn lemma_mark_lasts_until_taken_back(
    vm: VM,
    marked: VM,
    cleared: VM,
    module: String,
    other: String,
    a: bool,
    b: bool,
    c: bool,
    d: bool,
    e: bool,
)
    requires
        module_marked(vm, marked, module),
        module_unmarked(marked, cleared, module),
        call_ensures(VM::is_module_loading, (&marked, &module), a),
        call_ensures(VM::is_module_loading, (&cleared, &module), b),
        other@ != module@,
        call_ensures(VM::is_module_loading, (&vm, &other), c),
        call_ensures(VM::is_module_loading, (&marked, &other), d),
        call_ensures(VM::is_module_loading, (&cleared, &other), e),
    ensures
        a,
        !b,
        c == d,
        c == e,
{
}

/// The reason of a gated exit is given once.
pub proof fn lemma_exit_reason_is_given_once(
    vm: VM,
    after: VM,
    again: VM,
    first: Option<String>,
    second: Option<String>,
)
    requires
        exit_reason_taken(vm, after, first),
        exit_reason_taken(after, again, second),
    ensures
        first == vm.gated_exit_reason,
        second is None,
        again == after,
{
}

/// The owner node of the running activation is given once, and those of the activations
/// below it stay.
pub proof fn lemma_owner_node_is_given_once(
    vm: VM,
    after: VM,
    again: VM,
    first: Option<RuntimeRegion>,
    second: Option<RuntimeRegion>,
)
    requires
        owner_node_taken(vm, after, first),
        owner_node_taken(after, again, second),
        vm.fiber.activation_owner_nodes@.len() > 0,
    ensures
        first == vm.fiber.activation_owner_nodes@.last(),
        second is None,
        after.fiber.activation_owner_nodes@.len() == vm.fiber.activation_owner_nodes@.len(),
        forall|i: int|
            0 <= i < vm.fiber.activation_owner_nodes@.len() - 1 ==> #[trigger] after.fiber.activation_owner_nodes@[i]
                == vm.fiber.activation_owner_nodes@[i],
{
}

/// Frames that are discarded are gone, and whatever the fiber holds besides stays.
pub proof fn lemma_discarded_frames_are_gone(vm: VM, after: VM)
    requires
        frames_discarded(vm, after),
    ensures
        after.fiber.suspended is None,
        after.fiber.signal == vm.fiber.signal,
        after.fiber.stack == vm.fiber.stack,
        vm.fiber.suspended is None ==> after.heap@ == vm.heap@,
{
}

} // verus!
