//! Resuming and aborting fibers: what happens before the swap, and what becomes
//! of the frames after it.

use vstd::prelude::*;

use crate::fiber::{BytecodeFrame, Code, Fiber, FiberStatus, NativeIter, SuspendedFrame};
use crate::fibertable::{bound_values, Slot};
use crate::heap::{lemma_adopted, EscapeSite, FiberHeap, HeapState, RuntimeRegion};
use crate::object::Arity;
use crate::params::{binding_count, bound, bound_in, distinct_ids, flatten_param_frames};
use crate::refcount::{is_terminal_signal, terminal};
use crate::regionmap::RegionMap;
use crate::signalbits::SignalBits;
use crate::signals::{SIG_ERROR, SIG_FUEL, SIG_HALT, SIG_OK, SIG_SWITCH, SIG_YIELD};
use crate::value::Value;
use crate::vm::{error_raised, PendingFiberResume, VM};

verus! {

/// What happens next in a resume or an abort.
pub enum ResumeStep {
    /// The outcome stands: these bits, and this value.
    Settled(SignalBits, Value),
    /// Swap the child in and start its body with this value.
    StartChild(Value),
    /// Swap the child in and continue it with this value.
    ContinueChild(Value),
    /// Raise an arity error on the running fiber.
    ArityMismatch(Arity, usize),
    /// Build the body's environment from these arguments and run it.
    RunBody(Vec<Value>),
    /// Replay these frames with this value.
    Replay(Vec<SuspendedFrame>, Value),
    /// Abort this fiber first; the frames wait for it.
    AbortInner { handle: u32, value: Value, frames: Vec<SuspendedFrame> },
}

/// How an execution of a body ended, with what it takes to go on.
pub struct ExecResult {
    pub bits: SignalBits,
    pub code: Code,
    pub env: Vec<Value>,
    pub ip: usize,
    pub stack: Vec<Value>,
    pub activation_region_map: RegionMap,
    pub activation_owner_node: Option<RuntimeRegion>,
    pub current_closure: Value,
}

/// A native iterator that has handed out one more element, or died.
pub open spec fn iterated(f: Fiber) -> Fiber {
    let it = f.native_iter->0;
    if it.cursor < it.elements@.len() {
        Fiber {
            native_iter: Some(NativeIter { cursor: (it.cursor + 1) as usize, ..it }),
            status: FiberStatus::Paused,
            signal: Some((SignalBits::new(SIG_YIELD), it.elements@[it.cursor as int])),
            ..f
        }
    } else {
        Fiber {
            status: FiberStatus::Dead,
            signal: Some((SignalBits::new(SIG_OK), Value::nil())),
            ..f
        }
    }
}

/// Hand out the next element of a native iterator, or let the fiber die.
fn iterate(f: Fiber) -> (r: (Fiber, SignalBits, Value))
    requires
        f.native_iter is Some,
    ensures
        r.0 == iterated(f),
        r.0.signal == Some((r.1, r.2)),
{
    let mut f = f;
    if let Some(it) = f.native_iter.take() {
        if it.cursor < it.elements.len() {
            let v = it.elements[it.cursor];
            f.native_iter = Some(NativeIter { elements: it.elements, cursor: it.cursor + 1 });
            f.status = FiberStatus::Paused;
            f.signal = Some((SignalBits::new(SIG_YIELD), v));
            return (f, SignalBits::new(SIG_YIELD), v);
        }
        f.native_iter = Some(it);
    }
    f.status = FiberStatus::Dead;
    f.signal = Some((SignalBits::new(SIG_OK), Value::nil()));
    (f, SignalBits::new(SIG_OK), Value::nil())
}

/// The value that a resume delivers: the one in the child's signal.
pub open spec fn delivered(f: Fiber) -> Value {
    match f.signal {
        Some((_, v)) => v,
        None => Value::nil(),
    }
}

/// The child once its signal, and all that hangs on it, is taken.
pub open spec fn consumed(f: Fiber) -> Fiber {
    Fiber { signal: None, emit_delivery: None, resume_value_unfunded: false, ..f }
}

/// The child inherits the resumer's bindings: it starts now, has none, and there
/// are some.
pub open spec fn inherits(child: Fiber, resumer: Fiber) -> bool {
    child.status == FiberStatus::New && child.param_frames@.len() == 0 && resumer.param_frames@.len() > 0
}

/// The child with the resumer's bindings as its baseline: each parameter once,
/// the innermost binding deciding.
pub open spec fn seeded(before: Fiber, after: Fiber, frames: Seq<Vec<(u32, Value)>>) -> bool {
    &&& after.param_frames@.len() == 1
    &&& distinct_ids(after.param_frames@[0]@)
    &&& forall|id: u32| bound_in(after.param_frames@[0]@, id) == #[trigger] bound(frames, id)
    &&& after == (Fiber {
        param_frames: after.param_frames,
        param_baseline_seeded: true,
        ..before
    })
}

/// The heap once a fiber's object holds a baseline.
pub open spec fn baseline_retained(s: HeapState, fiber_value: Value, flat: Seq<(u32, Value)>) -> HeapState {
    match s.region_of(fiber_value) {
        Some(r) => s.adopted(r.0, bound_values(flat)),
        None => s,
    }
}

/// The fiber's object takes a counted reference to each heap value of a
/// baseline that it was given after its birth.
pub fn retain_param_baseline(heap: &mut FiberHeap, fiber_value: Value, flat: &Vec<(u32, Value)>)
    requires
        old(heap)@.valid(),
        old(heap)@.room(flat@.len()),
    ensures
        final(heap)@ == baseline_retained(old(heap)@, fiber_value, flat@),
        final(heap)@.valid(),
        final(heap)@.same_objects(old(heap)@),
{
    let ghost start = heap@;
    if let Some(r) = heap.region_of(fiber_value) {
        proof {
            let i = start.target(fiber_value)->0;
            assert(start.owners[i] < start.counts.len());
        }
        let mut values: Vec<Value> = Vec::new();
        let mut i: usize = 0;
        while i < flat.len()
            invariant
                i <= flat@.len(),
                values@ == bound_values(flat@).take(i as int),
            decreases flat.len() - i,
        {
            values.push(flat[i].1);
            i = i + 1;
            assert(values@ =~= bound_values(flat@).take(i as int));
        }
        assert(bound_values(flat@).take(i as int) =~= bound_values(flat@));
        proof {
            lemma_adopted(start, r.0, values@);
        }
        heap.adopt_values(r, &values);
    }
}

/// The chain begins with a wait for another fiber.
pub open spec fn waits_for_fiber(f: Fiber) -> bool {
    &&& f.suspended is Some
    &&& (f.suspended->0)@.len() > 0
    &&& (f.suspended->0)@[0] is FiberResume
}

/// The frames behind the first, none where it was the only one.
pub open spec fn behind_first(frames: Option<Vec<SuspendedFrame>>, rest: Option<Vec<SuspendedFrame>>) -> bool {
    let tail = (frames->0)@.skip(1);
    if tail.len() == 0 {
        rest is None
    } else {
        rest is Some && (rest->0)@ == tail
    }
}

/// The heap once a resume has funded its delivery.
pub open spec fn funded(s: HeapState, child: Fiber) -> HeapState {
    if child.resume_value_unfunded {
        s.retained_opt(s.region_of(delivered(child)))
    } else {
        s
    }
}

/// How the first resume of the running fiber begins.
pub open spec fn first_resume_begun(
    vm: VM,
    vm_after: VM,
    value: Value,
    r: ResumeStep,
) -> bool {
    &&& ({
            let arity = vm.fiber.closure.template.arity;
            let args = if arity == Arity::Exact(0) {
                Seq::empty()
            } else {
                seq![value]
            };
            if arity.accepts(args.len()) {
                r matches ResumeStep::RunBody(got) && got@ == args
            } else {
                r == ResumeStep::ArityMismatch(arity, args.len() as usize)
            }
        })
    &&& vm_after == vm
}

/// What becomes of a body that ended.
pub open spec fn body_ended(
    vm: VM,
    vm_after: VM,
    result: ExecResult,
    r: SignalBits,
) -> bool {
    &&& r == result.bits
    &&& if result.bits != SignalBits::empty() && !result.bits.meets(SignalBits::new(SIG_HALT))
            && vm.fiber.suspended is None {
            &&& vm_after.fiber.suspended is Some
            &&& (vm_after.fiber.suspended->0)@ == seq![
                SuspendedFrame::Bytecode(
                    BytecodeFrame {
                        code: result.code,
                        env: result.env,
                        ip: result.ip,
                        stack: result.stack,
                        push_resume_value: !result.bits.meets(SignalBits::new(SIG_FUEL)),
                        activation_region_map: result.activation_region_map,
                        activation_owner_node: result.activation_owner_node,
                        current_closure: result.current_closure,
                    },
                ),
            ]
            &&& vm_after == (VM {
                fiber: Fiber { suspended: vm_after.fiber.suspended, ..vm.fiber },
                ..vm
            })
        } else {
            vm_after == vm
        }
}

/// How the running fiber goes on.
pub open spec fn resume_continued(
    vm: VM,
    vm_after: VM,
    value: Value,
    r: ResumeStep,
) -> bool {
    &&& match vm.fiber.suspended {
            Some(frames) => {
                &&& r == ResumeStep::Replay(frames, value)
                &&& vm_after == (VM {
                    fiber: Fiber { suspended: None, ..vm.fiber },
                    ..vm
                })
            },
            None => {
                &&& error_raised(
                    vm,
                    vm_after,
                    "internal-error"@,
                    "fiber/resume: suspended fiber has no saved context"@,
                )
                &&& r == ResumeStep::Settled(
                    SignalBits::new(SIG_ERROR),
                    (vm_after.fiber.signal->0).1,
                )
            },
        }
}

/// What becomes of a wait for a fiber that was aborted.
pub open spec fn wait_aborted(
    vm: VM,
    vm_after: VM,
    frames: Vec<SuspendedFrame>,
    bits: SignalBits,
    value: Value,
    caught: bool,
    r: ResumeStep,
) -> bool {
    &&& if !caught && !terminal(bits) {
            &&& r == ResumeStep::Settled(bits, value)
            &&& vm_after == (VM {
                fiber: Fiber {
                    signal: Some((bits, value)),
                    suspended: Some(frames),
                    ..vm.fiber
                },
                ..vm
            })
        } else if frames@.len() == 1 {
            &&& r == ResumeStep::Settled(bits, value)
            &&& vm_after == (VM {
                fiber: Fiber { signal: Some((bits, value)), ..vm.fiber },
                ..vm
            })
        } else {
            &&& r matches ResumeStep::Replay(rest, v) && rest@ == frames@.skip(1) && v == value
            &&& vm_after == vm
        }
}

impl VM {
    /// Prepare the resume of a fiber. A native iterator is answered at once. A
    /// fiber that waits for another one is not swapped in: the value goes to the
    /// inner fiber, which is resumed in its place. Any other fiber is swapped in.
    pub fn do_fiber_resume_single(&mut self, child_handle: u32, child_value: Value) -> (r: ResumeStep)
        requires
            old(self).heap@.valid(),
            old(self).heap@.room(binding_count(old(self).fiber.param_frames@) + 1),
            old(self).fibers.present(child_handle),
            ({
                let child = old(self).fibers.fiber(child_handle);
                waits_for_fiber(child) ==> {
                    let inner = (child.suspended->0)@[0]->FiberResume_handle;
                    old(self).fibers.present(inner) && inner != child_handle
                }
            }),
        ensures
            resumed(*old(self), *final(self), child_handle, child_value, r),
            final(self).heap@.valid(),
    {
        let ghost start = *self;
        let mut child = self.fibers.take(child_handle);
        if child.native_iter.is_some() {
            let (next, bits, v) = iterate(child);
            self.fibers.put(child_handle, next);
            assert(self.fibers.slots@ =~= start.fibers.updated(child_handle, next));
            return ResumeStep::Settled(bits, v);
        }
        let ghost was = child;
        let value = match child.signal.take() {
            Some((_, v)) => v,
            None => Value::nil(),
        };
        child.emit_delivery = None;
        let unfunded = child.resume_value_unfunded;
        child.resume_value_unfunded = false;
        let first = match child.status {
            FiberStatus::New => true,
            _ => false,
        };
        if unfunded {
            let region = self.heap.region_of(value);
            self.heap.incref_for_escape(region, EscapeSite::ResumeDelivery);
        }
        let ghost paid = self.heap@;
        if first && child.param_frames.len() == 0 && self.fiber.param_frames.len() > 0 {
            let flat = flatten_param_frames(&self.fiber.param_frames);
            proof {
                assert(start.heap@.room(binding_count(start.fiber.param_frames@) + 1));
                assert forall|q: int| 0 <= q < paid.counts.len() implies #[trigger] paid.counts[q]
                    + flat@.len() <= u32::MAX by {
                    assert(start.heap@.counts[q] + binding_count(start.fiber.param_frames@) + 1
                        <= u32::MAX);
                }
            }
            retain_param_baseline(&mut self.heap, child_value, &flat);
            let mut frames: Vec<Vec<(u32, Value)>> = Vec::new();
            frames.push(flat);
            child.param_frames = frames;
            child.param_baseline_seeded = true;
        }
        if !first && starts_with_wait(&child.suspended) {
            return self.redirect(child_handle, child_value, child, value, Ghost(start), Ghost(was));
        }
        self.fibers.put(child_handle, child);
        assert(self.fibers.slots@ =~= start.fibers.updated(child_handle, child));
        if first {
            ResumeStep::StartChild(value)
        } else {
            ResumeStep::ContinueChild(value)
        }
    }

    /// Deliver a value to the fiber that a suspended child waits for.
    fn redirect(
        &mut self,
        child_handle: u32,
        child_value: Value,
        child: Fiber,
        value: Value,
        start: Ghost<VM>,
        was: Ghost<Fiber>,
    ) -> (r: ResumeStep)
        requires
            start@.fibers.present(child_handle),
            was@ == start@.fibers.fiber(child_handle),
            was@.native_iter is None,
            was@.status != FiberStatus::New,
            child == consumed(was@),
            value == delivered(was@),
            waits_for_fiber(child),
            ({
                let inner = (child.suspended->0)@[0]->FiberResume_handle;
                start@.fibers.present(inner) && inner != child_handle
            }),
            old(self).heap@ == funded(start@.heap@, was@),
            old(self).heap@.valid(),
            old(self).fibers.slots@ == start@.fibers.slots@.update(child_handle as int, Slot::Taken),
            *old(self) == (VM { heap: old(self).heap, fibers: old(self).fibers, ..start@ }),
        ensures
            resumed(start@, *final(self), child_handle, child_value, r),
            final(self).heap@.valid(),
    {
        let mut child = child;
        let ghost before = child;
        let mut inner_handle: u32 = 0;
        let mut inner_value = Value::nil();
        if let Some(mut frames) = child.suspended.take() {
            let front = frames.remove(0);
            assert(frames@ =~= (before.suspended->0)@.skip(1));
            if let SuspendedFrame::FiberResume { handle, fiber_value } = front {
                inner_handle = handle;
                inner_value = fiber_value;
            }
            if frames.len() > 0 {
                child.suspended = Some(frames);
            }
        }
        child.withheld = child.withheld.union(self.fiber.withheld);
        let withheld = child.withheld;
        let ghost mid = child;
        self.fibers.put(child_handle, child);
        let mut inner = self.fibers.take(inner_handle);
        let ghost inner_was = inner;
        inner.withheld = inner.withheld.union(withheld);
        inner.signal = Some((SignalBits::new(SIG_OK), value));
        inner.emit_delivery = None;
        inner.denial_payload = None;
        self.fibers.put(inner_handle, inner);
        self.pending_fiber_resume = Some(
            PendingFiberResume {
                handle: inner_handle,
                fiber_value: inner_value,
                parent: Some((child_handle, Some(child_value))),
            },
        );
        proof {
            let s = start@.fibers.slots@;
            assert(self.fibers.slots@ =~= s.update(child_handle as int, Slot::Present(mid)).update(
                inner_handle as int,
                Slot::Present(inner),
            ));
        }
        ResumeStep::Settled(SignalBits::new(SIG_SWITCH), Value::nil())
    }

    /// Begin the first resume of the running fiber: a body that takes arguments
    /// gets the value as its one argument.
    pub fn do_fiber_first_resume(&mut self, value: Value) -> (r: ResumeStep)
        ensures
            first_resume_begun(
                *old(self),
                *final(self),
                value,
                r,
            ),
    {
        let arity = self.fiber.closure.template.arity;
        let mut args: Vec<Value> = Vec::new();
        match arity {
            Arity::Exact(0) => {},
            _ => {
                args.push(value);
            },
        }
        assert(arity == Arity::Exact(0) ==> args@ =~= Seq::empty());
        assert(arity != Arity::Exact(0) ==> args@ =~= seq![value]);
        let n: usize = args.len();
        if !arity.matches(n) {
            return ResumeStep::ArityMismatch(arity, n);
        }
        ResumeStep::RunBody(args)
    }

    /// Announce the body that runs next: the closure the fiber was made from, in
    /// a frame that is parked where it fails.
    pub fn enter_fiber_body(&mut self)
        ensures
            *final(self) == (VM {
                pending_entry_closure: old(self).fiber.closure_value,
                pending_error_park: true,
                ..*old(self)
            }),
    {
        self.pending_entry_closure = self.fiber.closure_value;
        self.pending_error_park = true;
    }

    /// Take how the body of a first resume ended. Where it neither completed nor
    /// halted and has not parked itself, its frame is parked. An instruction that
    /// ran out of fuel is executed again; any other gets the resume value.
    pub fn fiber_body_ended(&mut self, result: ExecResult) -> (r: SignalBits)
        ensures
            body_ended(
                *old(self),
                *final(self),
                result,
                r,
            ),
    {
        let bits = result.bits;
        if !bits.is_empty() && !bits.intersects(SignalBits::new(SIG_HALT))
            && self.fiber.suspended.is_none() {
            let frame = BytecodeFrame {
                code: result.code,
                env: result.env,
                ip: result.ip,
                stack: result.stack,
                push_resume_value: !bits.intersects(SignalBits::new(SIG_FUEL)),
                activation_region_map: result.activation_region_map,
                activation_owner_node: result.activation_owner_node,
                current_closure: result.current_closure,
            };
            let mut frames: Vec<SuspendedFrame> = Vec::new();
            frames.push(SuspendedFrame::Bytecode(frame));
            assert(frames@ =~= seq![SuspendedFrame::Bytecode(frame)]);
            self.fiber.suspended = Some(frames);
        }
        bits
    }

    /// Continue the running fiber from its suspended frames.
    pub fn do_fiber_subsequent_resume(&mut self, value: Value) -> (r: ResumeStep)
        requires
            old(self).heap@.valid(),
            old(self).heap@.room(9),
        ensures
            resume_continued(
                *old(self),
                *final(self),
                value,
                r,
            ),
    {
        match self.fiber.suspended.take() {
            Some(frames) => ResumeStep::Replay(frames, value),
            None => {
                self.set_error(
                    "internal-error",
                    &"fiber/resume: suspended fiber has no saved context".to_string(),
                );
                let v = match self.fiber.signal {
                    Some((_, v)) => v,
                    None => Value::nil(),
                };
                ResumeStep::Settled(SignalBits::new(SIG_ERROR), v)
            },
        }
    }

    /// Inject `error` into the running fiber, which was swapped in to be aborted.
    /// A fiber that waits for another one has that one aborted first. Any other
    /// replays its frames with the error set. A fiber without frames is left with
    /// the error as its signal.
    pub fn do_fiber_abort(&mut self, error: Value) -> (r: ResumeStep)
        requires
            waits_for_fiber(old(self).fiber) ==> old(self).fibers.present(
                (old(self).fiber.suspended->0)@[0]->FiberResume_handle,
            ),
        ensures
            aborted(*old(self), *final(self), error, r),
    {
        let ghost start = *self;
        self.fiber.status = FiberStatus::Alive;
        self.fiber.signal = None;
        self.fiber.emit_delivery = Some(error);
        self.fiber.resume_value_unfunded = false;
        let raised = Some((SignalBits::new(SIG_ERROR), error));
        match self.fiber.suspended.take() {
            None => {
                self.fiber.signal = raised;
                ResumeStep::Settled(SignalBits::new(SIG_ERROR), error)
            },
            Some(frames) => {
                if frames.len() == 0 {
                    self.fiber.signal = raised;
                    return ResumeStep::Settled(SignalBits::new(SIG_ERROR), error);
                }
                match &frames[0] {
                    SuspendedFrame::FiberResume { handle, fiber_value } => {
                        let inner_handle: u32 = *handle;
                        let inner_value = *fiber_value;
                        let mut inner = self.fibers.take(inner_handle);
                        inner.signal = raised;
                        self.fibers.put(inner_handle, inner);
                        assert(self.fibers.slots@ =~= start.fibers.updated(inner_handle, inner));
                        ResumeStep::AbortInner { handle: inner_handle, value: inner_value, frames }
                    },
                    SuspendedFrame::Bytecode(_) => {
                        self.fiber.signal = raised;
                        ResumeStep::Replay(frames, Value::nil())
                    },
                }
            },
        }
    }

    /// Take what came of aborting the fiber that this one waits for. `caught` says
    /// whether that fiber's mask catches the bits. Unwinding that suspended again
    /// leaves the chain parked; otherwise the frames behind the wait go on.
    pub fn inner_fiber_aborted(
        &mut self,
        frames: Vec<SuspendedFrame>,
        bits: SignalBits,
        value: Value,
        caught: bool,
    ) -> (r: ResumeStep)
        requires
            frames@.len() > 0,
        ensures
            wait_aborted(
                *old(self),
                *final(self),
                frames,
                bits,
                value,
                caught,
                r,
            ),
    {
        if !caught && !is_terminal_signal(bits) {
            self.fiber.signal = Some((bits, value));
            self.fiber.suspended = Some(frames);
            return ResumeStep::Settled(bits, value);
        }
        let ghost all = frames@;
        let mut rest = frames;
        rest.remove(0);
        assert(rest@ =~= all.skip(1));
        if rest.len() == 0 {
            self.fiber.signal = Some((bits, value));
            return ResumeStep::Settled(bits, value);
        }
        ResumeStep::Replay(rest, value)
    }
}

/// What an abort does to the fiber that was swapped in.
pub open spec fn aborted(before: VM, after: VM, error: Value, r: ResumeStep) -> bool {
    let raised = Some((SignalBits::new(SIG_ERROR), error));
    let base = Fiber {
        status: FiberStatus::Alive,
        emit_delivery: Some(error),
        resume_value_unfunded: false,
        suspended: None,
        ..before.fiber
    };
    if before.fiber.suspended is None || (before.fiber.suspended->0)@.len() == 0 {
        &&& r == ResumeStep::Settled(SignalBits::new(SIG_ERROR), error)
        &&& after == (VM { fiber: Fiber { signal: raised, ..base }, ..before })
    } else {
        let frames = before.fiber.suspended->0;
        match frames@[0] {
            SuspendedFrame::FiberResume { handle, fiber_value } => {
                &&& r == (ResumeStep::AbortInner { handle, value: fiber_value, frames })
                &&& after.fibers.slots@ == before.fibers.updated(
                    handle,
                    Fiber { signal: raised, ..before.fibers.fiber(handle) },
                )
                &&& after == (VM {
                    fiber: Fiber { signal: None, ..base },
                    fibers: after.fibers,
                    ..before
                })
            },
            SuspendedFrame::Bytecode(_) => {
                &&& r == ResumeStep::Replay(frames, Value::nil())
                &&& after == (VM { fiber: Fiber { signal: raised, ..base }, ..before })
            },
        }
    }
}

/// What preparing a resume does.
pub open spec fn resumed(before: VM, after: VM, h: u32, child_value: Value, r: ResumeStep) -> bool {
    let child = before.fibers.fiber(h);
    let value = delivered(child);
    if child.native_iter is Some {
        &&& after.fibers.slots@ == before.fibers.updated(h, iterated(child))
        &&& after == (VM { fibers: after.fibers, ..before })
        &&& r == ResumeStep::Settled(
            (iterated(child).signal->0).0,
            (iterated(child).signal->0).1,
        )
    } else if child.status != FiberStatus::New && waits_for_fiber(child) {
        let inner = (child.suspended->0)@[0]->FiberResume_handle;
        let inner_value = (child.suspended->0)@[0]->FiberResume_fiber_value;
        let waiting = after.fibers.fiber(h);
        let withheld = SignalBits { bits: child.withheld.bits | before.fiber.withheld.bits };
        let f = before.fibers.fiber(inner);
        &&& after.heap@ == funded(before.heap@, child)
        &&& behind_first(child.suspended, waiting.suspended)
        &&& waiting == (Fiber { suspended: waiting.suspended, withheld, ..consumed(child) })
        &&& after.fibers.slots@ == before.fibers.slots@.update(h as int, Slot::Present(waiting)).update(
            inner as int,
            Slot::Present(
                Fiber {
                    withheld: SignalBits { bits: f.withheld.bits | withheld.bits },
                    signal: Some((SignalBits::new(SIG_OK), value)),
                    emit_delivery: None,
                    denial_payload: None,
                    ..f
                },
            ),
        )
        &&& after == (VM {
            heap: after.heap,
            fibers: after.fibers,
            pending_fiber_resume: Some(
                PendingFiberResume {
                    handle: inner,
                    fiber_value: inner_value,
                    parent: Some((h, Some(child_value))),
                },
            ),
            ..before
        })
        &&& r == ResumeStep::Settled(SignalBits::new(SIG_SWITCH), Value::nil())
    } else {
        let next = after.fibers.fiber(h);
        &&& after.fibers.slots@ == before.fibers.updated(h, next)
        &&& after == (VM { heap: after.heap, fibers: after.fibers, ..before })
        &&& if inherits(child, before.fiber) {
            &&& seeded(consumed(child), next, before.fiber.param_frames@)
            &&& after.heap@ == baseline_retained(
                funded(before.heap@, child),
                child_value,
                next.param_frames@[0]@,
            )
        } else {
            &&& next == consumed(child)
            &&& after.heap@ == funded(before.heap@, child)
        }
        &&& r == if child.status == FiberStatus::New {
            ResumeStep::StartChild(value)
        } else {
            ResumeStep::ContinueChild(value)
        }
    }
}

/// Whether a chain begins with a wait for another fiber.
fn starts_with_wait(suspended: &Option<Vec<SuspendedFrame>>) -> (r: bool)
    ensures
        r == (*suspended is Some && (suspended->0)@.len() > 0 && (suspended->0)@[0] is FiberResume),
{
    match suspended {
        Some(frames) => if frames.len() > 0 {
            match &frames[0] {
                SuspendedFrame::FiberResume { .. } => true,
                _ => false,
            }
        } else {
            false
        },
        None => false,
    }
}

} // verus!
