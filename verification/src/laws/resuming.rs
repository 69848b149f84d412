//! Making, resuming, aborting and cancelling fibers.

use vstd::prelude::*;

use crate::bits::{bit, lemma_bit_and, lemma_bit_not, lemma_bit_or};
use crate::ctx::Alloc;
use crate::fiber::{Fiber, FiberStatus, SuspendedFrame};
use crate::fiber_introspect::{
    abort_asked, bits_given, cancel_asked, caps_given, child_given, mask_given, parent_given, propagation_asked,
    refusal_asked,
};
use crate::fibers::{fiber_made, keyword_text, prim_emit, resume_asked, status_given, value_given};
use crate::fibertable::{FiberTable, Slot};
use crate::heap::{lemma_adopted, lemma_allocated, FiberHeap, HeapState, RuntimeRegion};
use crate::laws::words::{lemma_masked_bits, lemma_signed_and_back};
use crate::object::Arity;
use crate::prim::{closure_at, fiber_handle};
use crate::registry::{names_in, SignalRegistry};
use crate::resume::{
    aborted, body_ended, first_resume_begun, resume_continued, resumed, wait_aborted, ExecResult, ResumeStep,
};
use crate::signalbits::SignalBits;
use crate::signals::{
    CAP_MASK, SIG_ABORT, SIG_ERROR, SIG_FUEL, SIG_HALT, SIG_OK, SIG_PROPAGATE, SIG_RESUME, SIG_SWITCH, SIG_TERMINAL,
};
use crate::value::{Value, TAG_INT};
use crate::vm::VM;

verus! {

/// The fiber that a suspended one waits for.
pub open spec fn awaited(f: Fiber) -> Option<u32> {
    match f.suspended {
        Some(frames) => if frames@.len() > 0 {
            match frames@[0] {
                SuspendedFrame::FiberResume { handle, .. } => Some(handle),
                _ => None,
            }
        } else {
            None
        },
        None => None,
    }
}

/// `(fiber/resume f v)` and then the resume it asks for: a fiber that never ran starts
/// with that very `v`, and a paused one goes on with it. Where it waits for another
/// fiber, `v` is the signal of that one, which is resumed in its place. Either way the
/// value has left the fiber it came by.
pub proof fn lemma_resume_delivers_the_value(
    before: HeapState,
    after: HeapState,
    fibers: FiberTable,
    fibers_after: Seq<Slot>,
    home: RuntimeRegion,
    args: Seq<Value>,
    kinds: Seq<String>,
    asked: (SignalBits, Value),
    vm: VM,
    vm_after: VM,
    h: u32,
    r: ResumeStep,
)
    requires
        resume_asked(before, after, fibers, fibers_after, home, args, kinds, asked),
        1 <= args.len() <= 2,
        fiber_handle(before, args[0]) == Some(h),
        fibers.present(h),
        fibers.fiber(h).status != FiberStatus::Dead && fibers.fiber(h).status != FiberStatus::Alive,
        fibers.fiber(h).native_iter is None,
        awaited(fibers.fiber(h)) matches Some(inner) ==> inner != h && inner < fibers.slots@.len(),
        vm.fibers.slots@ == fibers_after,
        resumed(vm, vm_after, h, args[0], r),
    ensures
        asked == (SignalBits::new(SIG_RESUME), args[0]),
        ({
            let f = fibers.fiber(h);
            let v = if args.len() == 2 {
                args[1]
            } else {
                Value::nil()
            };
            &&& f.status == FiberStatus::New ==> r == ResumeStep::StartChild(v)
            &&& f.status != FiberStatus::New && awaited(f) is None ==> r == ResumeStep::ContinueChild(v)
            &&& f.status != FiberStatus::New && awaited(f) is Some ==> {
                &&& vm_after.fibers.fiber(awaited(f)->0).signal == Some((SignalBits::new(SIG_OK), v))
                &&& r == ResumeStep::Settled(SignalBits::new(SIG_SWITCH), Value::nil())
                &&& vm_after.pending_fiber_resume is Some
                &&& (vm_after.pending_fiber_resume->0).handle == awaited(f)->0
                &&& (vm_after.pending_fiber_resume->0).parent == Some((h, Some(args[0])))
            }
            &&& vm_after.fibers.fiber(h).signal is None
        }),
{
}

/// Resuming one fiber leaves every other one alone, but for the one it waits for.
pub proof fn lemma_resume_touches_no_other_fiber(vm: VM, vm_after: VM, h: u32, v: Value, r: ResumeStep, other: u32)
    requires
        resumed(vm, vm_after, h, v, r),
        vm.fibers.present(h),
        other < vm.fibers.slots@.len(),
        other != h,
        awaited(vm.fibers.fiber(h)) matches Some(inner) ==> inner < vm.fibers.slots@.len() && inner != other,
    ensures
        vm_after.fibers.slots@.len() == vm.fibers.slots@.len(),
        vm_after.fibers.slots@[other as int] == vm.fibers.slots@[other as int],
        vm_after.fiber == vm.fiber,
{
}

/// A fiber that waits for another one withholds from it what is withheld from itself and
/// from the resumer, and no less than was withheld from it before.
pub proof fn lemma_denials_flow_down_a_resume(
    vm: VM,
    vm_after: VM,
    h: u32,
    v: Value,
    r: ResumeStep,
    inner: u32,
    i: int,
)
    requires
        resumed(vm, vm_after, h, v, r),
        vm.fibers.present(h),
        vm.fibers.fiber(h).native_iter is None,
        vm.fibers.fiber(h).status == FiberStatus::Paused,
        awaited(vm.fibers.fiber(h)) == Some(inner),
        inner != h,
        inner < vm.fibers.slots@.len(),
        0 <= i < 64,
    ensures
        vm_after.fibers.fiber(inner).withheld.has(i) == (vm.fibers.fiber(inner).withheld.has(i) || vm.fibers.fiber(
            h,
        ).withheld.has(i) || vm.fiber.withheld.has(i)),
{
    let (a, b, c) = (vm.fibers.fiber(inner).withheld.bits, vm.fibers.fiber(h).withheld.bits, vm.fiber.withheld.bits);
    lemma_bit_or(b, c, i);
    lemma_bit_or(a, b | c, i);
}

/// A first resume hands the value to the body as its one argument; a body without
/// parameters gets none. Nothing else is ever handed over.
pub proof fn lemma_first_resume_passes_the_value(vm: VM, vm_after: VM, value: Value, r: ResumeStep)
    requires
        first_resume_begun(vm, vm_after, value, r),
    ensures
        vm_after == vm,
        vm.fiber.closure.template.arity == Arity::Exact(0) ==> (r matches ResumeStep::RunBody(got) && got@.len() == 0),
        vm.fiber.closure.template.arity == Arity::Exact(1) ==> (r matches ResumeStep::RunBody(got) && got@
            == seq![value]),
        vm.fiber.closure.template.arity == Arity::AtLeast(0) ==> (r matches ResumeStep::RunBody(got) && got@
            == seq![value]),
        vm.fiber.closure.template.arity matches Arity::Exact(n) && n > 1 ==> r == ResumeStep::ArityMismatch(
            vm.fiber.closure.template.arity,
            1,
        ),
{
}

/// What a body leaves behind when it is suspended is what the next resume goes on with:
/// the same frame, with its code, its place and its stack, and the value of the resume.
pub proof fn lemma_parked_body_goes_on_where_it_stopped(
    vm: VM,
    parked: VM,
    after: VM,
    result: ExecResult,
    bits: SignalBits,
    value: Value,
    r: ResumeStep,
)
    requires
        vm.fiber.suspended is None,
        result.bits != SignalBits::empty(),
        !result.bits.meets(SignalBits::new(SIG_HALT)),
        body_ended(vm, parked, result, bits),
        resume_continued(parked, after, value, r),
    ensures
        bits == result.bits,
        r matches ResumeStep::Replay(frames, v) && v == value && frames@.len() == 1 && (frames@[0] matches SuspendedFrame::Bytecode(
            frame,
        ) && frame.code == result.code && frame.env == result.env && frame.ip == result.ip && frame.stack
            == result.stack && frame.current_closure == result.current_closure && frame.push_resume_value
            == !result.bits.meets(SignalBits::new(SIG_FUEL))),
        after.fiber.suspended is None,
{
}

/// A body that completed or halted leaves no frame to go on with.
pub proof fn lemma_completed_body_parks_nothing(vm: VM, after: VM, result: ExecResult, bits: SignalBits)
    requires
        body_ended(vm, after, result, bits),
        result.bits == SignalBits::empty() || result.bits.meets(SignalBits::new(SIG_HALT)),
    ensures
        after == vm,
        bits == result.bits,
{
}

/// Resuming with a value and going on: the frames come back in the order they were
/// parked in, once, with that value.
pub proof fn lemma_continued_fiber_replays_its_frames(vm: VM, after: VM, value: Value, r: ResumeStep)
    requires
        resume_continued(vm, after, value, r),
    ensures
        vm.fiber.suspended matches Some(frames) ==> (r matches ResumeStep::Replay(got, v) && got@ == frames@ && v
            == value && after.fiber.suspended is None),
        vm.fiber.suspended is None ==> (r matches ResumeStep::Settled(bits, _) && bits == SignalBits::new(
            SIG_ERROR,
        )),
{
}

/// An abort raises the error where the fiber stopped: at its own frames, which are
/// replayed in order, or at the fiber it waits for; without frames the error is the
/// outcome.
pub proof fn lemma_abort_raises_the_error(vm: VM, after: VM, error: Value, r: ResumeStep)
    requires
        aborted(vm, after, error, r),
        awaited(vm.fiber) matches Some(inner) ==> inner < vm.fibers.slots@.len(),
    ensures
        awaited(vm.fiber) is Some ==> {
            &&& after.fibers.fiber(awaited(vm.fiber)->0).signal == Some((SignalBits::new(SIG_ERROR), error))
            &&& r matches ResumeStep::AbortInner { handle, frames, .. } && handle == awaited(vm.fiber)->0 && Some(frames)
                == vm.fiber.suspended
        },
        awaited(vm.fiber) is None ==> after.fiber.signal == Some((SignalBits::new(SIG_ERROR), error)),
        vm.fiber.suspended is None ==> r == ResumeStep::Settled(SignalBits::new(SIG_ERROR), error),
        awaited(vm.fiber) is None && vm.fiber.suspended is Some && (vm.fiber.suspended->0)@.len() > 0 ==> (r matches ResumeStep::Replay(
            frames,
            _,
        ) && Some(frames) == vm.fiber.suspended),
        after.fiber.status == FiberStatus::Alive,
        after.fiber.suspended is None,
{
}

/// The error an aborted inner fiber ended with reaches the fiber that waited for it: it
/// is what the frames behind the wait go on with, or the outcome where there are none.
pub proof fn lemma_inner_abort_passes_on(
    vm: VM,
    after: VM,
    frames: Vec<SuspendedFrame>,
    bits: SignalBits,
    value: Value,
    caught: bool,
    r: ResumeStep,
)
    requires
        wait_aborted(vm, after, frames, bits, value, caught, r),
        frames@.len() > 0,
        bits == SignalBits::new(SIG_ERROR) || caught,
    ensures
        frames@.len() == 1 ==> r == ResumeStep::Settled(bits, value) && after.fiber.signal == Some((bits, value)),
        frames@.len() > 1 ==> (r matches ResumeStep::Replay(rest, v) && v == value && rest@.len() == frames@.len() - 1
            && forall|i: int| 0 <= i < rest@.len() ==> rest@[i] == frames@[i + 1]),
{
    lemma_masked_bits(SIG_ERROR);
}

/// `(fiber/cancel f e)` on a fiber that has not ended: its value is `e` from then on, its
/// status an error, nothing of it is left to run, and `e` is what the call gives.
pub proof fn lemma_cancelled_fiber_holds_its_error(
    ctx: Alloc,
    h0: FiberHeap,
    h1: FiberHeap,
    h2: FiberHeap,
    h3: FiberHeap,
    fibers: FiberTable,
    after: FiberTable,
    args: Vec<Value>,
    kinds: Vec<String>,
    h: u32,
    cancelled: (SignalBits, Value),
    value: (SignalBits, Value),
    status: (SignalBits, Value),
)
    requires
        cancel_asked(ctx, h0, h1, fibers, after, args, kinds, cancelled),
        args@.len() == 2,
        fiber_handle(h0@, args@[0]) == Some(h),
        fiber_handle(h1@, args@[0]) == Some(h),
        fibers.present(h),
        fibers.fiber(h).status == FiberStatus::New || fibers.fiber(h).status == FiberStatus::Paused,
        value_given(ctx, h1, h2, after, args, kinds, value),
        status_given(ctx, h1, h3, after, args, kinds, status),
    ensures
        cancelled == (SignalBits::new(SIG_OK), args@[1]),
        value == (SignalBits::new(SIG_OK), args@[1]),
        keyword_text(h3@.keywords, status.1) == Some("error"@) || h3@.keywords.len() > u32::MAX,
        after.fiber(h).suspended is None,
        after.fiber(h).status == FiberStatus::Error,
        forall|other: u32|
            other != h && other < fibers.slots@.len() ==> #[trigger] after.slots@[other as int]
                == fibers.slots@[other as int],
{
    let name = "error"@;
    assert(h1@.keywords.contains(name) || h3@.keywords.last() == name);
    assert(h3@.keywords.contains(name));
    let k = h3@.keywords.index_of(name);
    assert(h3@.keywords[k] == name);
}

/// A fiber that runs cannot be cancelled from within: the call ends it by a terminal
/// error with the value that was passed.
pub proof fn lemma_running_fiber_cancels_itself_by_error(
    ctx: Alloc,
    h0: FiberHeap,
    h1: FiberHeap,
    fibers: FiberTable,
    after: FiberTable,
    args: Vec<Value>,
    kinds: Vec<String>,
    h: u32,
    r: (SignalBits, Value),
)
    requires
        cancel_asked(ctx, h0, h1, fibers, after, args, kinds, r),
        args@.len() == 2,
        fiber_handle(h0@, args@[0]) == Some(h),
        fibers.present(h) ==> fibers.fiber(h).status == FiberStatus::Alive,
    ensures
        r.1 == args@[1],
        r.0.has(0),
        r.0.has(10),
        after.slots@ == fibers.slots@,
        h1@ == h0@,
{
    assert(bit(SIG_ERROR | SIG_TERMINAL, 0) && bit(SIG_ERROR | SIG_TERMINAL, 10)) by (bit_vector);
}

/// `(fiber/abort f e)` and `(fiber/refuse f e)` on a paused fiber do the same: the error
/// waits as the fiber's signal, the fiber keeps its frames to unwind, and the machine is
/// asked to abort it.
pub proof fn lemma_abort_and_refuse_inject_the_error(
    ctx: Alloc,
    h0: FiberHeap,
    h1: FiberHeap,
    h2: FiberHeap,
    fibers: FiberTable,
    a: FiberTable,
    b: FiberTable,
    args: Vec<Value>,
    kinds: Vec<String>,
    h: u32,
    ra: (SignalBits, Value),
    rb: (SignalBits, Value),
)
    requires
        abort_asked(ctx, h0, h1, fibers, a, args, kinds, ra),
        refusal_asked(ctx, h0, h2, fibers, b, args, kinds, rb),
        args@.len() == 2,
        fiber_handle(h0@, args@[0]) == Some(h),
        fibers.present(h),
        fibers.fiber(h).status == FiberStatus::Paused,
    ensures
        ra == rb,
        ra == (SignalBits::new(SIG_ABORT), args@[0]),
        a.slots@ == b.slots@,
        h1@ == h2@,
        a.fiber(h).signal == Some((SignalBits::new(SIG_ERROR), args@[1])),
        a.fiber(h).suspended == fibers.fiber(h).suspended,
        a.fiber(h).status == FiberStatus::Paused,
{
}

/// Aborting a fiber that never ran kills it, as cancelling does; aborting one that is
/// done changes nothing and gives its value; only a paused fiber can be refused.
pub proof fn lemma_abort_by_status(
    ctx: Alloc,
    h0: FiberHeap,
    h1: FiberHeap,
    h2: FiberHeap,
    h3: FiberHeap,
    fibers: FiberTable,
    a: FiberTable,
    b: FiberTable,
    c: FiberTable,
    args: Vec<Value>,
    kinds: Vec<String>,
    h: u32,
    ra: (SignalBits, Value),
    rb: (SignalBits, Value),
    rc: (SignalBits, Value),
)
    requires
        abort_asked(ctx, h0, h1, fibers, a, args, kinds, ra),
        cancel_asked(ctx, h0, h2, fibers, b, args, kinds, rb),
        refusal_asked(ctx, h0, h3, fibers, c, args, kinds, rc),
        args@.len() == 2,
        fiber_handle(h0@, args@[0]) == Some(h),
        fibers.present(h),
    ensures
        fibers.fiber(h).status == FiberStatus::New ==> a.slots@ == b.slots@ && ra == rb && h1@ == h2@,
        fibers.fiber(h).status == FiberStatus::Dead ==> a.slots@ == fibers.slots@ && h1@ == h0@ && ra.0
            == SignalBits::new(SIG_OK) && (fibers.fiber(h).signal matches Some((_, v)) ==> ra.1 == v),
        fibers.fiber(h).status == FiberStatus::Dead ==> rb.0 == SignalBits::new(SIG_ERROR) && b.slots@ == fibers.slots@,
        fibers.fiber(h).status == FiberStatus::Error ==> ra.0 == SignalBits::new(SIG_ERROR) && rb.0 == SignalBits::new(
            SIG_ERROR,
        ) && a.slots@ == fibers.slots@ && b.slots@ == fibers.slots@,
        fibers.fiber(h).status == FiberStatus::Alive ==> ra.0 == SignalBits::new(SIG_ERROR) && a.slots@ == fibers.slots@,
        fibers.fiber(h).status != FiberStatus::Paused ==> rc.0 == SignalBits::new(SIG_ERROR) && c.slots@
            == fibers.slots@,
{
}

/// A fiber that runs or has completed cannot be resumed, and is left as it is.
pub proof fn lemma_ended_fiber_is_not_resumed(
    before: HeapState,
    after: HeapState,
    fibers: FiberTable,
    fibers_after: Seq<Slot>,
    home: RuntimeRegion,
    args: Seq<Value>,
    kinds: Seq<String>,
    r: (SignalBits, Value),
    h: u32,
)
    requires
        resume_asked(before, after, fibers, fibers_after, home, args, kinds, r),
        1 <= args.len() <= 2,
        fiber_handle(before, args[0]) == Some(h),
        fibers.fiber(h).status == FiberStatus::Dead || fibers.fiber(h).status == FiberStatus::Alive,
    ensures
        r.0 == SignalBits::new(SIG_ERROR),
        fibers_after == fibers.slots@,
{
}

/// `(fiber/new fn mask [:deny bits])` gives a value that stands for a fiber of the next
/// number, which reads back as it was asked for: its closure, its mask, what is withheld
/// from it, and nothing run yet. No other fiber changes.
pub proof fn lemma_new_fiber_is_as_asked(
    ctx: Alloc,
    heap: FiberHeap,
    heap_after: FiberHeap,
    fibers: FiberTable,
    after: FiberTable,
    current: Fiber,
    args: Vec<Value>,
    kinds: Vec<String>,
    resolved: Vec<Result<SignalBits, (SignalBits, Value)>>,
    r: (SignalBits, Value),
    mask: SignalBits,
    deny: SignalBits,
)
    requires
        fiber_made(ctx, heap, heap_after, fibers, after, current, args, kinds, resolved, r),
        heap@.valid(),
        ctx.home().0 < heap@.counts.len(),
        heap@.room(1),
        fibers.slots@.len() < u32::MAX,
        resolved@.len() == args@.len(),
        closure_at(heap@, args@[0]) is Some,
        resolved@[1] == Ok::<SignalBits, (SignalBits, Value)>(mask),
        args@.len() == 2 && deny == SignalBits::empty() || args@.len() == 4 && keyword_text(heap@.keywords, args@[2])
            == Some("deny"@) && resolved@[3] == Ok::<SignalBits, (SignalBits, Value)>(deny),
    ensures
        r.0 == SignalBits::new(SIG_OK),
        fiber_handle(heap_after@, r.1) == Some(fibers.slots@.len() as u32),
        after.slots@.len() == fibers.slots@.len() + 1,
        forall|i: int| 0 <= i < fibers.slots@.len() ==> #[trigger] after.slots@[i] == fibers.slots@[i],
        ({
            let f = after.fiber(fibers.slots@.len() as u32);
            &&& after.present(fibers.slots@.len() as u32)
            &&& f.status == FiberStatus::New
            &&& f.mask == mask
            &&& f.withheld == deny
            &&& f.closure_value == args@[0]
            &&& f.closure.env@ == (closure_at(heap@, args@[0])->0).env@
            &&& f.closure.template == (closure_at(heap@, args@[0])->0).template
            &&& f.signal is None
            &&& f.suspended is None
            &&& f.native_iter is None
        }),
{
    reveal_with_fuel(crate::fibers::options_from, 3);
    let made = after.slots@.last()->Present_0;
    let n = fibers.slots@.len() as u32;
    assert(after.fiber(n) == made);
    let obj = crate::object::HeapObject::Fiber { handle: n, traits: Value::nil() };
    lemma_allocated(heap@, obj, ctx.home().0);
    let mid = heap@.allocated(obj, ctx.home().0);
    lemma_adopted(mid, ctx.home().0, crate::fibertable::fiber_content(made));
    assert(heap_after@.objects == mid.objects);
    assert(r.1 == heap_after@.newest());
    assert(heap_after@.target(r.1) == mid.target(mid.newest()));
}

/// Reading a fiber that was just made: `fiber/mask` gives the mask it was made with.
pub proof fn lemma_mask_reads_back(
    ctx: Alloc,
    heap: FiberHeap,
    after: FiberHeap,
    fibers: FiberTable,
    args: Vec<Value>,
    kinds: Vec<String>,
    r: (SignalBits, Value),
    h: u32,
)
    requires
        mask_given(ctx, heap, after, fibers, args, kinds, r),
        fiber_handle(heap@, args@[0]) == Some(h),
    ensures
        r.0 == SignalBits::new(SIG_OK),
        r.1.tag == TAG_INT,
        r.1.payload == fibers.fiber(h).mask.bits,
        after@ == heap@,
{
    let b = fibers.fiber(h).mask.bits;
    lemma_signed_and_back(b, 0);
}

/// What `fiber/bits` and `fiber/value` give are the two halves of the fiber's last
/// signal; without one they are zero and nil.
pub proof fn lemma_signal_reads_back(
    ctx: Alloc,
    heap: FiberHeap,
    ha: FiberHeap,
    hb: FiberHeap,
    fibers: FiberTable,
    args: Vec<Value>,
    kinds: Vec<String>,
    bits: (SignalBits, Value),
    value: (SignalBits, Value),
    h: u32,
)
    requires
        bits_given(ctx, heap, ha, fibers, args, kinds, bits),
        value_given(ctx, heap, hb, fibers, args, kinds, value),
        fiber_handle(heap@, args@[0]) == Some(h),
    ensures
        bits.1.tag == TAG_INT,
        fibers.fiber(h).signal matches Some((b, v)) ==> bits.1.payload == b.bits && value.1 == v,
        fibers.fiber(h).signal is None ==> bits.1.payload == 0 && value.1 == Value::nil(),
        ha@ == heap@,
        hb@ == heap@,
{
    if let Some((b, _)) = fibers.fiber(h).signal {
        let n = b.bits;
        lemma_signed_and_back(n, 0);
    }
    lemma_signed_and_back(0, 0);
}

/// `fiber/status` names the state the fiber is in, each by a name of its own.
pub proof fn lemma_status_names_the_state(
    ctx: Alloc,
    heap: FiberHeap,
    after: FiberHeap,
    fibers: FiberTable,
    args: Vec<Value>,
    kinds: Vec<String>,
    r: (SignalBits, Value),
    h: u32,
)
    requires
        status_given(ctx, heap, after, fibers, args, kinds, r),
        fiber_handle(heap@, args@[0]) == Some(h),
        after@.keywords.len() <= u32::MAX,
    ensures
        keyword_text(after@.keywords, r.1) == Some(
            match fibers.fiber(h).status {
                FiberStatus::New => "new"@,
                FiberStatus::Alive => "alive"@,
                FiberStatus::Paused => "paused"@,
                FiberStatus::Dead => "dead"@,
                FiberStatus::Error => "error"@,
            },
        ),
{
    let name = fibers.fiber(h).status.text();
    assert(heap@.keywords.contains(name) || after@.keywords.last() == name);
    assert(after@.keywords.contains(name));
    let k = after@.keywords.index_of(name);
    assert(after@.keywords[k] == name);
}

/// A signal is propagated only from a fiber that stopped with one.
pub proof fn lemma_only_a_stopped_signal_propagates(
    ctx: Alloc,
    heap: FiberHeap,
    after: FiberHeap,
    fibers: FiberTable,
    args: Vec<Value>,
    kinds: Vec<String>,
    r: (SignalBits, Value),
    h: u32,
)
    requires
        propagation_asked(ctx, heap, after, fibers, args, kinds, r),
        fiber_handle(heap@, args@[0]) == Some(h),
    ensures
        r == (SignalBits::new(SIG_PROPAGATE), args@[0]) <==> fibers.fiber(h).signal is Some && (fibers.fiber(h).status
            == FiberStatus::Error || fibers.fiber(h).status == FiberStatus::Paused),
        r.0 == SignalBits::new(SIG_PROPAGATE) || r.0 == SignalBits::new(SIG_ERROR),
{
    assert(SIG_PROPAGATE != SIG_ERROR);
}

/// `fiber/parent` gives a value of the parent while that is held, and nil where there is
/// none; `fiber/child` gives the child's value, or nil.
pub proof fn lemma_family_reads_back(
    ctx: Alloc,
    heap: FiberHeap,
    ha: FiberHeap,
    hb: FiberHeap,
    fibers: FiberTable,
    args: Vec<Value>,
    kinds: Vec<String>,
    parent: (SignalBits, Value),
    child: (SignalBits, Value),
    h: u32,
)
    requires
        ctx.ready(heap@, 8),
        parent_given(ctx, heap, ha, fibers, args, kinds, parent),
        child_given(ctx, heap, hb, fibers, args, kinds, child),
        fiber_handle(heap@, args@[0]) == Some(h),
    ensures
        parent.0 == SignalBits::new(SIG_OK),
        fibers.fiber(h).parent matches Some(p) ==> (fibers.held(p) ==> fiber_handle(ha@, parent.1) == Some(p)),
        fibers.fiber(h).parent is None ==> parent.1 == Value::nil(),
        child.0 == SignalBits::new(SIG_OK),
        fibers.fiber(h).child_value matches Some(v) ==> child.1 == v,
        fibers.fiber(h).child_value is None ==> child.1 == Value::nil(),
{
    if let Some(p) = fibers.fiber(h).parent {
        if fibers.held(p) {
            crate::laws::collections::lemma_newborn_reads_back(heap@, ha@, ctx.home(), parent.1);
        }
    }
}

/// The capabilities of a fiber are as many as the registered names of capabilities that
/// are not withheld from it: a fiber that everything is withheld from has none.
pub proof fn lemma_withheld_capabilities_are_not_told(
    ctx: Alloc,
    heap: FiberHeap,
    after: FiberHeap,
    fibers: FiberTable,
    registry: SignalRegistry,
    args: Vec<Value>,
    kinds: Vec<String>,
    r: (SignalBits, Value),
    h: u32,
)
    requires
        args@.len() == 1,
        caps_given(ctx, heap, after, fibers, registry, args, kinds, r),
        fiber_handle(heap@, args@[0]) == Some(h),
        forall|i: int|
            0 <= i < registry.entries@.len() && (#[trigger] registry.entries@[i]).0 < 64 ==> fibers.fiber(
                h,
            ).withheld.has(registry.entries@[i].0 as int),
    ensures
        r.0 == SignalBits::new(SIG_OK),
        after@.objects.last() is LSet,
        after@.objects.last()->LSet_data@.len() == 0,
{
    let w = fibers.fiber(h).withheld.bits;
    let caps = SignalBits { bits: CAP_MASK & !w };
    assert forall|i: int| 0 <= i < registry.entries@.len() && (#[trigger] registry.entries@[i]).0 < 64 implies !caps.has(
        registry.entries@[i].0 as int,
    ) by {
        let p = registry.entries@[i].0 as int;
        lemma_bit_not(w, p);
        lemma_bit_and(CAP_MASK, !w, p);
    }
    lemma_no_names(registry.entries@, caps);
}

/// A capability that is registered and not withheld is told.
pub proof fn lemma_granted_capability_is_told(
    ctx: Alloc,
    heap: FiberHeap,
    after: FiberHeap,
    fibers: FiberTable,
    registry: SignalRegistry,
    args: Vec<Value>,
    kinds: Vec<String>,
    r: (SignalBits, Value),
    h: u32,
    i: int,
)
    requires
        args@.len() == 1,
        caps_given(ctx, heap, after, fibers, registry, args, kinds, r),
        fiber_handle(heap@, args@[0]) == Some(h),
        0 <= i < registry.entries@.len(),
        registry.entries@[i].0 < 64,
        bit(CAP_MASK, registry.entries@[i].0 as int),
        !fibers.fiber(h).withheld.has(registry.entries@[i].0 as int),
    ensures
        after@.objects.last() is LSet,
        after@.objects.last()->LSet_data@.len() > 0,
{
    let w = fibers.fiber(h).withheld.bits;
    let caps = SignalBits { bits: CAP_MASK & !w };
    let p = registry.entries@[i].0 as int;
    lemma_bit_not(w, p);
    lemma_bit_and(CAP_MASK, !w, p);
    lemma_some_names(registry.entries@, caps, i);
    lemma_keywords_count(heap@.keywords, names_in(registry.entries@, caps));
}

proof fn lemma_no_names(entries: Seq<(u32, String)>, bits: SignalBits)
    requires
        forall|i: int| 0 <= i < entries.len() && (#[trigger] entries[i]).0 < 64 ==> !bits.has(entries[i].0 as int),
    ensures
        names_in(entries, bits).len() == 0,
    decreases entries.len(),
{
    if entries.len() > 0 {
        let rest = entries.drop_last();
        assert forall|i: int| 0 <= i < rest.len() && (#[trigger] rest[i]).0 < 64 implies !bits.has(rest[i].0 as int) by {
            assert(entries[i] == rest[i]);
        }
        lemma_no_names(rest, bits);
        assert(entries[entries.len() - 1] == entries.last());
    }
}

proof fn lemma_some_names(entries: Seq<(u32, String)>, bits: SignalBits, i: int)
    requires
        0 <= i < entries.len(),
        entries[i].0 < 64,
        bits.has(entries[i].0 as int),
    ensures
        names_in(entries, bits).len() > 0,
    decreases entries.len(),
{
    if i < entries.len() - 1 {
        lemma_some_names(entries.drop_last(), bits, i);
    }
}

proof fn lemma_keywords_count(keywords: Seq<Seq<char>>, names: Seq<Seq<char>>)
    ensures
        crate::fiber_introspect::keyword_values(keywords, names).len() == names.len(),
    decreases names.len(),
{
    if names.len() > 0 {
        lemma_keywords_count(keywords, names.drop_last());
    }
}

/// What is emitted is the value, with the signal's bits; a signal that could not be
/// resolved is the outcome.
pub proof fn lemma_emit_hands_the_value_on(
    args: Vec<Value>,
    bits: SignalBits,
    r: (SignalBits, Value),
    e: (SignalBits, Value),
    wrong: (SignalBits, Value),
)
    requires
        args@.len() == 2,
        call_ensures(prim_emit, (&args, Ok::<SignalBits, (SignalBits, Value)>(bits)), r),
        call_ensures(prim_emit, (&args, Err::<SignalBits, (SignalBits, Value)>(e)), wrong),
    ensures
        r == (bits, args@[1]),
        wrong == e,
{
}

} // verus!
