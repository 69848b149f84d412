//! Calls in tail position, and the dynamic parameters they resolve.

use vstd::prelude::*;

use crate::bits::{bit, lemma_bit_and, lemma_bit_zero};
use crate::ctx::Alloc;
use crate::def::PrimitiveDef;
use crate::fiber::Fiber;
use crate::fibers::fiber_made;
use crate::fibertable::FiberTable;
use crate::heap::{FiberHeap, RuntimeRegion};
use crate::object::{Arity, Closure};
use crate::params::{bound, bound_in};
use crate::prim::closure_at;
use crate::registration::PrimRegistry;
use crate::registry::SignalRegistry;
use crate::signalbits::SignalBits;
use crate::signals::{SIG_ERROR, SIG_OK};
use crate::tailcall::{
    collection_called, env_built, native_def, native_returned, parameter_at, signal_driven, tail_called, TailCall,
    TailStep,
};
use crate::value::Value;
use crate::vm::VM;
use crate::vmsignal::SignalAction;

verus! {

/// Frame `k` binds `id` at place `i`, and no frame within it does.
pub open spec fn innermost(frames: Seq<Vec<(u32, Value)>>, id: u32, k: int, i: int) -> bool {
    &&& 0 <= k < frames.len()
    &&& 0 <= i < frames[k]@.len()
    &&& frames[k]@[i].0 == id
    &&& forall|j: int| 0 <= j < i ==> #[trigger] frames[k]@[j].0 != id
    &&& forall|m: int, j: int|
        k < m < frames.len() && 0 <= j < frames[m]@.len() ==> #[trigger] frames[m]@[j].0 != id
}

/// No frame binds `id`.
pub open spec fn unbound(frames: Seq<Vec<(u32, Value)>>, id: u32) -> bool {
    forall|m: int, j: int| 0 <= m < frames.len() && 0 <= j < frames[m]@.len() ==> #[trigger] frames[m]@[j].0 != id
}

proof fn lemma_found_in(frame: Seq<(u32, Value)>, id: u32, i: int)
    requires
        0 <= i < frame.len(),
        frame[i].0 == id,
        forall|j: int| 0 <= j < i ==> #[trigger] frame[j].0 != id,
    ensures
        bound_in(frame, id) == Some(frame[i].1),
    decreases frame.len(),
{
    if i > 0 {
        assert(frame[0].0 != id);
        let rest = frame.skip(1);
        assert forall|j: int| 0 <= j < i - 1 implies #[trigger] rest[j].0 != id by {
            assert(frame[j + 1].0 != id);
        }
        lemma_found_in(rest, id, i - 1);
    }
}

proof fn lemma_absent_from(frame: Seq<(u32, Value)>, id: u32)
    requires
        forall|j: int| 0 <= j < frame.len() ==> #[trigger] frame[j].0 != id,
    ensures
        bound_in(frame, id) is None,
    decreases frame.len(),
{
    if frame.len() > 0 {
        assert(frame[0].0 != id);
        let rest = frame.skip(1);
        assert forall|j: int| 0 <= j < rest.len() implies #[trigger] rest[j].0 != id by {
            assert(frame[j + 1].0 != id);
        }
        lemma_absent_from(rest, id);
    }
}

pub(crate) proof fn lemma_innermost_decides(frames: Seq<Vec<(u32, Value)>>, id: u32, k: int, i: int)
    requires
        innermost(frames, id, k, i),
    ensures
        bound(frames, id) == Some(frames[k]@[i].1),
    decreases frames.len(),
{
    let last = frames.len() - 1;
    if k == last {
        lemma_found_in(frames[k]@, id, i);
    } else {
        assert forall|j: int| 0 <= j < frames[last]@.len() implies #[trigger] frames[last]@[j].0 != id by {}
        lemma_absent_from(frames[last]@, id);
        let rest = frames.drop_last();
        assert forall|m: int, j: int| k < m < rest.len() && 0 <= j < rest[m]@.len() implies #[trigger] rest[m]@[j].0
            != id by {
            assert(frames[m]@[j].0 != id);
        }
        assert(innermost(rest, id, k, i));
        lemma_innermost_decides(rest, id, k, i);
    }
}

pub(crate) proof fn lemma_unbound_is_nothing(frames: Seq<Vec<(u32, Value)>>, id: u32)
    requires
        unbound(frames, id),
    ensures
        bound(frames, id) is None,
    decreases frames.len(),
{
    if frames.len() > 0 {
        let last = frames.len() - 1;
        assert forall|j: int| 0 <= j < frames[last]@.len() implies #[trigger] frames[last]@[j].0 != id by {}
        lemma_absent_from(frames[last]@, id);
        let rest = frames.drop_last();
        assert forall|m: int, j: int| 0 <= m < rest.len() && 0 <= j < rest[m]@.len() implies #[trigger] rest[m]@[j].0
            != id by {
            assert(frames[m]@[j].0 != id);
        }
        lemma_unbound_is_nothing(rest, id);
    }
}

/// `resolve_parameter` finds the binding of the innermost frame that has one, and
/// nothing where no frame has one.
pub proof fn lemma_innermost_binding_is_found(vm: VM, id: u32, r: Option<Value>, k: int, i: int)
    requires
        call_ensures(VM::resolve_parameter, (&vm, id), r),
    ensures
        innermost(vm.fiber.param_frames@, id, k, i) ==> r == Some(vm.fiber.param_frames@[k]@[i].1),
        unbound(vm.fiber.param_frames@, id) ==> r is None,
{
    let frames = vm.fiber.param_frames@;
    if innermost(frames, id, k, i) {
        lemma_innermost_decides(frames, id, k, i);
    }
    if unbound(frames, id) {
        lemma_unbound_is_nothing(frames, id);
    }
}

/// A parameter called in tail position without arguments gives the binding of the
/// innermost frame that has one, the very value that resolving it gives; its default
/// only where no frame binds it.
pub proof fn lemma_parameter_call_gives_its_binding(
    vm: VM,
    after: VM,
    prims: PrimRegistry,
    registry: SignalRegistry,
    call: TailCall,
    r: TailStep,
    id: u32,
    default: Value,
    k: int,
    i: int,
    found: Option<Value>,
)
    requires
        tail_called(vm, after, prims, registry, call, r),
        native_def(prims, call.func) is None,
        parameter_at(vm.heap@, call.func) == Some((id, default)),
        call.args@.len() == 0,
        call_ensures(VM::resolve_parameter, (&vm, id), found),
    ensures
        r == TailStep::Exit(SignalBits::new(SIG_OK)),
        innermost(vm.fiber.param_frames@, id, k, i) ==> after.fiber.signal == Some(
            (SignalBits::new(SIG_OK), vm.fiber.param_frames@[k]@[i].1),
        ),
        unbound(vm.fiber.param_frames@, id) ==> after.fiber.signal == Some((SignalBits::new(SIG_OK), default)),
        found matches Some(v) ==> after.fiber.signal == Some((SignalBits::new(SIG_OK), v)),
        found is None ==> after.fiber.signal == Some((SignalBits::new(SIG_OK), default)),
        after.fiber.stack == vm.fiber.stack,
        after.fiber.param_frames == vm.fiber.param_frames,
        after.fibers == vm.fibers,
{
    lemma_innermost_binding_is_found(vm, id, found, k, i);
}

/// A parameter takes no arguments.
pub proof fn lemma_parameter_takes_no_arguments(
    vm: VM,
    after: VM,
    prims: PrimRegistry,
    registry: SignalRegistry,
    call: TailCall,
    r: TailStep,
)
    requires
        tail_called(vm, after, prims, registry, call, r),
        native_def(prims, call.func) is None,
        parameter_at(vm.heap@, call.func) is Some,
        call.args@.len() > 0,
    ensures
        r == TailStep::Exit(SignalBits::new(SIG_ERROR)),
        after.fiber.signal is Some,
        (after.fiber.signal->0).0 == SignalBits::new(SIG_ERROR),
        after.fiber.param_frames == vm.fiber.param_frames,
{
}

/// A new fiber sees each parameter as its maker sees it: bound to the value of the
/// maker's innermost frame, in a frame of its own, or not at all.
pub proof fn lemma_new_fiber_sees_the_parameters(
    ctx: Alloc,
    heap: FiberHeap,
    heap_after: FiberHeap,
    fibers: FiberTable,
    after: FiberTable,
    current: Fiber,
    args: Vec<Value>,
    kinds: Vec<String>,
    resolved: Vec<Result<SignalBits, (SignalBits, Value)>>,
    r: (SignalBits, Value),
    id: u32,
    k: int,
    i: int,
)
    requires
        fiber_made(ctx, heap, heap_after, fibers, after, current, args, kinds, resolved, r),
        fibers.slots@.len() < u32::MAX,
        after.slots@.len() == fibers.slots@.len() + 1,
    ensures
        ({
            let frames = after.fiber(fibers.slots@.len() as u32).param_frames@;
            &&& innermost(current.param_frames@, id, k, i) ==> frames.len() == 1 && frames[0]@.contains(
                (id, current.param_frames@[k]@[i].1),
            )
            &&& innermost(current.param_frames@, id, k, i) ==> (forall|j: int|
                0 <= j < frames[0]@.len() && (#[trigger] frames[0]@[j]).0 == id ==> frames[0]@[j].1
                    == current.param_frames@[k]@[i].1)
            &&& unbound(current.param_frames@, id) ==> unbound(frames, id)
        }),
{
    let frames = after.fiber(fibers.slots@.len() as u32).param_frames@;
    if innermost(current.param_frames@, id, k, i) {
        lemma_innermost_decides(current.param_frames@, id, k, i);
        assert(bound_in(frames[0]@, id) == bound(current.param_frames@, id));
        lemma_bound_in_is_there(frames[0]@, id);
    }
    if unbound(current.param_frames@, id) {
        lemma_unbound_is_nothing(current.param_frames@, id);
        if frames.len() > 0 {
            assert(bound_in(frames[0]@, id) == bound(current.param_frames@, id));
            lemma_bound_in_is_there(frames[0]@, id);
        }
    }
}

/// What a frame is found to bind stands in it; where nothing is found, nothing stands.
pub(crate) proof fn lemma_bound_in_is_there(frame: Seq<(u32, Value)>, id: u32)
    ensures
        bound_in(frame, id) matches Some(v) ==> frame.contains((id, v)),
        bound_in(frame, id) is None ==> (forall|j: int| 0 <= j < frame.len() ==> #[trigger] frame[j].0 != id),
    decreases frame.len(),
{
    if frame.len() > 0 && frame[0].0 != id {
        let rest = frame.skip(1);
        lemma_bound_in_is_there(rest, id);
        if let Some(v) = bound_in(frame, id) {
            let j = choose|j: int| 0 <= j < rest.len() && rest[j] == (id, v);
            assert(frame[j + 1] == (id, v));
        } else {
            assert forall|j: int| 0 <= j < frame.len() implies #[trigger] frame[j].0 != id by {
                if j > 0 {
                    assert(rest[j - 1].0 != id);
                }
            }
        }
    } else if frame.len() > 0 {
        assert(frame[0] == (id, frame[0].1));
    }
}

/// A closure called in tail position waits for its environment where its arity takes the
/// arguments, and for the arity error where not, unless the call was checked before.
pub proof fn lemma_closure_call_checks_arity(
    vm: VM,
    after: VM,
    prims: PrimRegistry,
    registry: SignalRegistry,
    call: TailCall,
    r: TailStep,
    c: Closure,
)
    requires
        tail_called(vm, after, prims, registry, call, r),
        native_def(prims, call.func) is None,
        parameter_at(vm.heap@, call.func) is None,
        closure_at(vm.heap@, call.func) == Some(c),
        call.args@.len() <= usize::MAX,
    ensures
        after == vm,
        c.template.arity matches Arity::Exact(n) ==> r == if call.checked || call.args@.len() == n {
            TailStep::BuildEnv
        } else {
            TailStep::ArityMismatch(c.template.arity, call.args@.len() as usize)
        },
        c.template.arity matches Arity::AtLeast(n) ==> r == if call.checked || call.args@.len() >= n {
            TailStep::BuildEnv
        } else {
            TailStep::ArityMismatch(c.template.arity, call.args@.len() as usize)
        },
        c.template.arity matches Arity::Range(lo, hi) ==> r == if call.checked || lo <= call.args@.len() <= hi {
            TailStep::BuildEnv
        } else {
            TailStep::ArityMismatch(c.template.arity, call.args@.len() as usize)
        },
{
}

/// Where the environment could be built, the call that is left to make is the closure's
/// own code in that environment, and what the closure squelches stays squelched; where
/// not, the call is an error.
pub proof fn lemma_built_environment_is_entered(
    vm: VM,
    after: VM,
    call: TailCall,
    env: Option<Vec<Value>>,
    callee_region: Option<RuntimeRegion>,
    r: TailStep,
    c: Closure,
)
    requires
        env_built(vm, after, call, env, callee_region, r),
        closure_at(vm.heap@, call.func) == Some(c),
    ensures
        env is None ==> r == TailStep::Exit(SignalBits::new(SIG_ERROR)) && after == vm,
        env matches Some(e) ==> {
            &&& r == TailStep::Exit(SignalBits::new(SIG_OK))
            &&& after.pending_tail_call is Some
            &&& (after.pending_tail_call->0).code.template == c.template
            &&& (after.pending_tail_call->0).env == e
            &&& (after.pending_tail_call->0).closure == call.func
            &&& (after.pending_tail_call->0).squelch_mask == c.squelch_mask
            &&& (call.defer_callee_release ==> (after.pending_tail_call->0).deferred.callee == callee_region)
            &&& (!call.defer_callee_release ==> (after.pending_tail_call->0).deferred.callee is None)
            &&& after.heap@ == vm.heap@
            &&& after.fiber.stack == vm.fiber.stack
        },
{
}

/// A collection in call position gives the element on the stack's top; every failure is
/// an error.
pub proof fn lemma_indexed_collection_gives_its_element(
    vm: VM,
    after: VM,
    outcome: Option<Result<Value, (String, String)>>,
    shown: String,
    r: TailStep,
)
    requires
        collection_called(vm, after, outcome, shown, r),
    ensures
        outcome matches Some(Ok(v)) ==> {
            &&& r == TailStep::FallThrough
            &&& after.fiber.stack@.len() == vm.fiber.stack@.len() + 1
            &&& after.fiber.stack@.last() == v
            &&& forall|i: int| 0 <= i < vm.fiber.stack@.len() ==> #[trigger] after.fiber.stack@[i] == vm.fiber.stack@[i]
        },
        !(outcome matches Some(Ok(_))) ==> {
            &&& r == TailStep::Exit(SignalBits::new(SIG_ERROR))
            &&& after.fiber.signal is Some
            &&& (after.fiber.signal->0).0 == SignalBits::new(SIG_ERROR)
        },
{
}

/// A primitive is refused exactly where it may raise a capability that the fiber lacks;
/// the signal of the refusal holds those capabilities and no others.
pub proof fn lemma_lacking_a_capability_denies_the_call(
    vm: VM,
    after: VM,
    prims: PrimRegistry,
    registry: SignalRegistry,
    call: TailCall,
    r: TailStep,
    def: PrimitiveDef,
    i: int,
)
    requires
        tail_called(vm, after, prims, registry, call, r),
        native_def(prims, call.func) == Some(def),
        0 <= i < 64,
        def.signal.bits.has(i),
        vm.fiber.withheld.has(i),
        bit(crate::signals::CAP_MASK, i),
    ensures
        r matches TailStep::Exit(bits) && bits.has(i) && after.fiber.signal is Some && (after.fiber.signal->0).0 == bits,
        after.fiber.denial_payload == Some((after.fiber.signal->0).1),
        r matches TailStep::Exit(bits) && (forall|j: int|
            #[trigger] bits.has(j) ==> def.signal.bits.has(j) && vm.fiber.withheld.has(j) && bit(
                crate::signals::CAP_MASK,
                j,
            )),
{
    let (a, b, c) = (def.signal.bits.bits, vm.fiber.withheld.bits, crate::signals::CAP_MASK);
    assert forall|j: int| bit(a & b & c, j) == (bit(a, j) && bit(b, j) && bit(c, j)) by {
        lemma_bit_and(a, b, j);
        lemma_bit_and(a & b, c, j);
    }
    assert(bit(a & b & c, i));
    lemma_bit_zero(i);
}

/// A primitive that lacks nothing and takes the arguments runs, with nothing changed;
/// where the arguments do not fit, the call is an error.
pub proof fn lemma_permitted_primitive_runs(
    vm: VM,
    after: VM,
    prims: PrimRegistry,
    registry: SignalRegistry,
    call: TailCall,
    r: TailStep,
    def: PrimitiveDef,
)
    requires
        tail_called(vm, after, prims, registry, call, r),
        native_def(prims, call.func) == Some(def),
        forall|i: int|
            0 <= i < 64 && #[trigger] def.signal.bits.has(i) && bit(crate::signals::CAP_MASK, i)
                ==> !vm.fiber.withheld.has(i),
    ensures
        call.checked || def.arity.accepts(call.args@.len()) ==> r == TailStep::RunNative(call.func.payload as u32)
            && after == vm,
        !call.checked && !def.arity.accepts(call.args@.len()) ==> r == TailStep::Exit(SignalBits::new(SIG_ERROR))
            && after.fiber.signal is Some && (after.fiber.signal->0).0 == SignalBits::new(SIG_ERROR),
{
    let (a, b, c) = (def.signal.bits.bits, vm.fiber.withheld.bits, crate::signals::CAP_MASK);
    assert forall|j: int| !bit(a & b & c, j) by {
        lemma_bit_and(a, b, j);
        lemma_bit_and(a & b, c, j);
        assert(def.signal.bits.has(j) == bit(a, j));
    }
    if a & b & c != 0 {
        let j = crate::bits::lemma_nonzero_has_bit(a & b & c);
    }
}

/// What a primitive in tail position returned: a plain value lands on the stack; a
/// suspension, an error and a halt leave with their bits, and the value is the signal's.
pub proof fn lemma_returned_value_is_kept(
    vm: VM,
    after: VM,
    call: TailCall,
    action: SignalAction,
    bits: SignalBits,
    value: Value,
    r: TailStep,
)
    requires
        native_returned(vm, after, call, action, bits, value, r),
    ensures
        action == SignalAction::Done ==> {
            &&& r == TailStep::FallThrough
            &&& after.fiber.stack@.len() == vm.fiber.stack@.len() + 1
            &&& after.fiber.stack@.last() == value
            &&& forall|i: int| 0 <= i < vm.fiber.stack@.len() ==> #[trigger] after.fiber.stack@[i] == vm.fiber.stack@[i]
            &&& after.heap@ == vm.heap@
        },
        action == SignalAction::Suspend || action == SignalAction::Error || action == SignalAction::Halt ==> r
            == TailStep::Exit(bits) && after.fiber.signal == Some((bits, value)),
        action == SignalAction::Suspend ==> after.fiber.resume_value_unfunded,
        action == SignalAction::Resume || action == SignalAction::Propagate || action == SignalAction::Abort || action
            == SignalAction::Query ==> r is DriveSignal,
{
}

/// A signal that was driven to its end gives its value on the stack's top where it
/// ended well, and leaves with its bits where not.
pub proof fn lemma_driven_signal_ends(vm: VM, after: VM, bits: SignalBits, owed: Vec<RuntimeRegion>, r: TailStep)
    requires
        signal_driven(vm, after, bits, owed, r),
        vm.fiber.signal is Some,
    ensures
        bits == SignalBits::empty() ==> {
            &&& r == TailStep::FallThrough
            &&& after.fiber.stack@.len() == vm.fiber.stack@.len() + 1
            &&& after.fiber.stack@.last() == (vm.fiber.signal->0).1
            &&& after.fiber.signal is None
        },
        bits != SignalBits::empty() ==> r == TailStep::Exit(bits) && after.fiber == vm.fiber,
{
}

} // verus!
