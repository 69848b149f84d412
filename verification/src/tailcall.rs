//! Tail calls: what a call in tail position does to the frame it leaves.

use vstd::prelude::*;

use crate::ctx::error_made;
use crate::def::PrimitiveDef;
use crate::fiber::{nodes_released, release_nodes, Code, Fiber};
use crate::heap::{EscapeSite, FiberHeap, HeapState, RuntimeRegion};
use crate::object::{Arity, HeapObject};
use crate::params::{bound, find_binding};
use crate::prim::{as_closure, closure_at};
use crate::registration::{prim_def, PrimRegistry};
use crate::registry::{names_in, SignalRegistry};
use crate::signalbits::SignalBits;
use crate::signals::{CAP_MASK, SIG_ERROR, SIG_OK};
use crate::text::{decimal, push_decimal};
use crate::value::{Value, TAG_NATIVE_FN, TAG_PARAMETER};
use crate::vm::{error_raised, frame_base, DeferredReleases, TailCallInfo, VM};
use crate::vmsignal::{denied, top_slots, SignalAction};

verus! {

/// A call in tail position.
pub struct TailCall {
    pub func: Value,
    pub args: Vec<Value>,
    /// The argument count is known to fit.
    pub checked: bool,
    /// The callee closure's release stands behind the call.
    pub defer_callee_release: bool,
    /// The slot of a merged arena whose release stands behind the call.
    pub deferred_release_slot: Option<u32>,
    /// The locals that hold references taken for borrowed arguments.
    pub borrowed_arg_slots: Vec<u16>,
}

/// What happens next in a tail call.
pub enum TailStep {
    /// The frame stays; go on behind the call.
    FallThrough,
    /// Leave the frame with these bits.
    Exit(SignalBits),
    /// Run this primitive, and hand its signal back.
    RunNative(u32),
    /// Drive the fiber, or answer the query, that the signal asks for, and hand
    /// back the bits that come of it together with these regions.
    DriveSignal(Vec<RuntimeRegion>),
    /// Raise the arity error of a closure, and leave.
    ArityMismatch(Arity, usize),
    /// Build the environment of the closure, and hand it back.
    BuildEnv,
    /// Index the collection, and hand back what comes of it.
    CallCollection,
}

/// The stack once the named locals are taken: every local that is there becomes
/// nil, but for one that lives in the spared region.
pub open spec fn stamped(
    stack: Seq<Value>,
    heap: HeapState,
    base: int,
    slots: Seq<u16>,
    spared: Option<RuntimeRegion>,
) -> Seq<Value>
    decreases slots.len(),
{
    if slots.len() == 0 {
        stack
    } else {
        let before = stamped(stack, heap, base, slots.drop_last(), spared);
        let at = base + slots.last();
        if at < before.len() && !(spared is Some && heap.region_of(before[at]) == spared) {
            before.update(at, Value::nil())
        } else {
            before
        }
    }
}

/// The regions of the values that were taken, in order.
pub open spec fn owed_for(
    stack: Seq<Value>,
    heap: HeapState,
    base: int,
    slots: Seq<u16>,
    spared: Option<RuntimeRegion>,
) -> Seq<RuntimeRegion>
    decreases slots.len(),
{
    if slots.len() == 0 {
        Seq::empty()
    } else {
        let before = stamped(stack, heap, base, slots.drop_last(), spared);
        let rest = owed_for(stack, heap, base, slots.drop_last(), spared);
        let at = base + slots.last();
        if at < before.len() && !(spared is Some && heap.region_of(before[at]) == spared) {
            match heap.region_of(before[at]) {
                Some(r) => rest.push(r),
                None => rest,
            }
        } else {
            rest
        }
    }
}

/// The region of an optional value.
pub open spec fn region_of_opt(heap: HeapState, v: Option<Value>) -> Option<RuntimeRegion> {
    match v {
        Some(v) => heap.region_of(v),
        None => None,
    }
}

/// The stack of a machine whose borrowed-argument locals are taken.
pub open spec fn taken_stack(vm: VM, slots: Seq<u16>, spare: Option<Value>) -> Seq<Value> {
    stamped(
        vm.fiber.stack@,
        vm.heap@,
        frame_base(vm.fiber) as int,
        slots,
        region_of_opt(vm.heap@, spare),
    )
}

/// The regions that a machine owes once its borrowed-argument locals are taken.
pub open spec fn taken_regions(vm: VM, slots: Seq<u16>, spare: Option<Value>) -> Seq<RuntimeRegion> {
    owed_for(
        vm.fiber.stack@,
        vm.heap@,
        frame_base(vm.fiber) as int,
        slots,
        region_of_opt(vm.heap@, spare),
    )
}

/// A payload that the call raises and that is one of its own arguments needs a
/// reference of its own for the delivery.
pub open spec fn mints(heap: HeapState, args: Seq<Value>, payload: Value) -> bool {
    args.contains(payload) && heap.region_of(payload) is Some
}

/// The primitive that a value stands for.
pub open spec fn native_def(prims: PrimRegistry, v: Value) -> Option<PrimitiveDef> {
    if v.tag == TAG_NATIVE_FN && v.payload < prims.defs().len() && v.payload <= u32::MAX {
        Some(prims.defs()[v.payload as int])
    } else {
        None
    }
}

/// The dynamic parameter that a value stands for: its number and its default.
pub open spec fn parameter_at(s: HeapState, v: Value) -> Option<(u32, Value)> {
    if v.tag == TAG_PARAMETER && s.target(v) is Some {
        match s.object(v) {
            HeapObject::Parameter { id, default, .. } => Some((id, default)),
            _ => None,
        }
    } else {
        None
    }
}

fn as_parameter(heap: &FiberHeap, v: Value) -> (r: Option<(u32, Value)>)
    ensures
        r == parameter_at(heap@, v),
{
    if v.tag != TAG_PARAMETER {
        return None;
    }
    match heap.deref(v) {
        Some(HeapObject::Parameter { id, default, .. }) => Some((*id, *default)),
        _ => None,
    }
}

/// The capabilities of a primitive that the fiber lacks.
pub open spec fn blocked_bits(def: PrimitiveDef, f: Fiber) -> SignalBits {
    SignalBits { bits: def.signal.bits.bits & f.withheld.bits & CAP_MASK }
}

/// How a wrong argument count of a primitive is reported.
pub open spec fn arity_text(def: PrimitiveDef, n: nat) -> Seq<char> {
    def.name@ + ": expected "@ + def.arity.text() + " argument(s), got "@ + decimal(n)
}

/// The fiber with its locals taken.
pub open spec fn stamped_vm(before: VM, after: VM, slots: Seq<u16>, spare: Option<Value>) -> bool {
    &&& after.fiber.stack@ == taken_stack(before, slots, spare)
    &&& after == (VM {
        fiber: Fiber { stack: after.fiber.stack, ..before.fiber },
        ..before
    })
}

/// How a tail call begins: a primitive by its own rules, a dynamic parameter is resolved,
/// a closure waits for its environment, and anything else is indexed.
pub open spec fn tail_called(
    before: VM,
    after: VM,
    prims: PrimRegistry,
    registry: SignalRegistry,
    call: TailCall,
    r: TailStep,
) -> bool {
    match native_def(prims, call.func) {
        Some(def) => native_begun(before, after, registry, call, def, r),
        None => match parameter_at(before.heap@, call.func) {
            Some((id, default)) => parameter_called(
                before,
                after,
                call.args@,
                id,
                default,
                r,
            ),
            None => after == before && r == match closure_at(
                before.heap@,
                call.func,
            ) {
                Some(c) => if !call.checked && !c.template.arity.accepts(call.args@.len()) {
                    TailStep::ArityMismatch(c.template.arity, call.args@.len() as usize)
                } else {
                    TailStep::BuildEnv
                },
                None => TailStep::CallCollection,
            },
        },
    }
}

/// What becomes of a tail call whose signal was driven.
pub open spec fn signal_driven(
    vm: VM,
    vm_after: VM,
    bits: SignalBits,
    owed: Vec<RuntimeRegion>,
    r: TailStep,
) -> bool {
    &&& vm_after.heap@ == nodes_released(vm.heap@, owed@)
    &&& vm_after.heap@.valid()
    &&& if bits == SignalBits::empty() {
            &&& r == TailStep::FallThrough
            &&& vm_after.fiber.stack@ == vm.fiber.stack@.push(
                (vm.fiber.signal->0).1,
            )
            &&& vm_after == (VM {
                heap: vm_after.heap,
                fiber: Fiber {
                    stack: vm_after.fiber.stack,
                    signal: None,
                    ..vm.fiber
                },
                ..vm
            })
        } else {
            &&& r == TailStep::Exit(bits)
            &&& vm_after == (VM { heap: vm_after.heap, ..vm })
        }
}

/// What becomes of a tail call of a closure once its environment is built.
pub open spec fn env_built(
    vm: VM,
    vm_after: VM,
    call: TailCall,
    env: Option<Vec<Value>>,
    callee_region: Option<RuntimeRegion>,
    r: TailStep,
) -> bool {
    &&& match env {
            None => r == TailStep::Exit(SignalBits::new(SIG_ERROR)) && vm_after == vm,
            Some(env) => {
                &&& r == TailStep::Exit(SignalBits::new(SIG_OK))
                &&& vm_after == (VM {
                    pending_tail_call: Some(
                        TailCallInfo {
                            code: Code {
                                template: (closure_at(vm.heap@, call.func)->0).template,
                            },
                            env,
                            closure: call.func,
                            squelch_mask: (closure_at(vm.heap@, call.func)->0).squelch_mask,
                            deferred: DeferredReleases {
                                arena: arena_of(vm.fiber, call.deferred_release_slot),
                                callee: if call.defer_callee_release {
                                    callee_region
                                } else {
                                    None
                                },
                            },
                        },
                    ),
                    fiber: Fiber {
                        signal: Some((SignalBits::new(SIG_OK), Value::nil())),
                        ..vm.fiber
                    },
                    ..vm
                })
            },
        }
}

/// What becomes of a tail call of a collection.
pub open spec fn collection_called(
    vm: VM,
    vm_after: VM,
    outcome: Option<Result<Value, (String, String)>>,
    shown: String,
    r: TailStep,
) -> bool {
    &&& match outcome {
            Some(Ok(value)) => {
                &&& r == TailStep::FallThrough
                &&& vm_after.fiber.stack@ == vm.fiber.stack@.push(value)
                &&& vm_after == (VM {
                    fiber: Fiber { stack: vm_after.fiber.stack, ..vm.fiber },
                    ..vm
                })
            },
            Some(Err((kind, msg))) => r == TailStep::Exit(SignalBits::new(SIG_ERROR))
                && error_raised(vm, vm_after, kind@, msg@),
            None => r == TailStep::Exit(SignalBits::new(SIG_ERROR)) && error_raised(
                vm,
                vm_after,
                "type-error"@,
                "Cannot call "@ + shown@,
            ),
        }
}

impl VM {
    /// Take the values that the named locals hold for borrowed arguments, and
    /// give the regions they keep alive. Nothing is released yet. A value of the
    /// spared value's region stays where it is.
    fn take_borrowed_arg_retains(&mut self, slots: &Vec<u16>, spare: Option<Value>) -> (r: Vec<
        RuntimeRegion,
    >)
        requires
            old(self).heap@.valid(),
        ensures
            r@ == taken_regions(*old(self), slots@, spare),
            stamped_vm(*old(self), *final(self), slots@, spare),
    {
        let base: usize = self.current_frame_base();
        let spared = match spare {
            Some(v) => self.heap.region_of(v),
            None => None,
        };
        let ghost start = *self;
        let mut regions: Vec<RuntimeRegion> = Vec::new();
        let mut i: usize = 0;
        assert(slots@.take(0) =~= Seq::empty());
        while i < slots.len()
            invariant
                i <= slots@.len(),
                start.heap@.valid(),
                base == frame_base(start.fiber),
                self.fiber.stack@ == stamped(
                    start.fiber.stack@,
                    start.heap@,
                    base as int,
                    slots@.take(i as int),
                    spared,
                ),
                regions@ == owed_for(
                    start.fiber.stack@,
                    start.heap@,
                    base as int,
                    slots@.take(i as int),
                    spared,
                ),
                *self == (VM {
                    fiber: Fiber { stack: self.fiber.stack, ..start.fiber },
                    ..start
                }),
            decreases slots.len() - i,
        {
            proof {
                assert(slots@.take(i + 1).drop_last() =~= slots@.take(i as int));
            }
            if let Some(at) = base.checked_add(slots[i] as usize) {
                if at < self.fiber.stack.len() {
                    let region = self.heap.region_of(self.fiber.stack.get(at));
                    if !(spared.is_some() && region == spared) {
                        self.fiber.stack.set(at, Value::nil());
                        if let Some(r) = region {
                            regions.push(r);
                        }
                    }
                }
            } else {
                assert(base + slots@[i as int] > usize::MAX);
                let n: usize = self.fiber.stack.len();
            }
            i = i + 1;
        }
        assert(slots@.take(i as int) =~= slots@);
        regions
    }

    /// Take the delivery reference of a payload that the call raises, where the
    /// payload is one of its arguments, and record that it was taken.
    fn mint_raised_argument_delivery(&mut self, args: &Vec<Value>, payload: Value)
        requires
            old(self).heap@.valid(),
            old(self).heap@.room(1),
        ensures
            final(self).heap@.valid(),
            if mints(old(self).heap@, args@, payload) {
                &&& final(self).heap@ == old(self).heap@.retained_opt(
                    old(self).heap@.region_of(payload),
                )
                &&& *final(self) == (VM {
                    heap: final(self).heap,
                    fiber: Fiber { emit_delivery: Some(payload), ..old(self).fiber },
                    ..*old(self)
                })
            } else {
                *final(self) == *old(self)
            },
    {
        if !holds(args, payload) {
            return ;
        }
        let region = self.heap.region_of(payload);
        if region.is_none() {
            return ;
        }
        self.heap.incref_for_escape(region, EscapeSite::EmitEscape);
        self.fiber.emit_delivery = Some(payload);
    }

    /// Release the regions that were taken.
    fn run_borrowed_arg_retains(&mut self, regions: &Vec<RuntimeRegion>)
        requires
            old(self).heap@.valid(),
        ensures
            final(self).heap@ == nodes_released(old(self).heap@, regions@),
            final(self).heap@.valid(),
            *final(self) == (VM { heap: final(self).heap, ..*old(self) }),
    {
        release_nodes(&mut self.heap, regions);
    }

    /// Begin a tail call. A primitive that needs a capability the fiber lacks is
    /// denied, a wrong argument count is an error, and a dynamic parameter is
    /// resolved here. Anything else is handed to the driver first.
    pub fn tail_call_inner(
        &mut self,
        prims: &PrimRegistry,
        registry: &SignalRegistry,
        call: &TailCall,
    ) -> (r: TailStep)
        requires
            old(self).heap@.valid(),
            old(self).heap@.room(registry.entries@.len() * 2 + call.args@.len() + 26),
        ensures
            final(self).heap@.valid(),
            tail_called(*old(self), *final(self), *prims, *registry, *call, r),
    {
        if call.func.tag == TAG_NATIVE_FN && call.func.payload <= 0xffff_ffff {
            if let Some(def) = prim_def(prims, call.func.payload as u32) {
                return self.begin_native(registry, call, def);
            }
        }
        if let Some((id, default)) = as_parameter(&self.heap, call.func) {
            return self.call_parameter(&call.args, id, default);
        }
        if let Some(c) = as_closure(&self.heap, call.func) {
            let n: usize = call.args.len();
            if !call.checked && !c.template.arity.matches(n) {
                return TailStep::ArityMismatch(c.template.arity, n);
            }
            return TailStep::BuildEnv;
        }
        TailStep::CallCollection
    }

    /// The part of a tail call that comes before a primitive runs.
    fn begin_native(&mut self, registry: &SignalRegistry, call: &TailCall, def: &PrimitiveDef) -> (r:
        TailStep)
        requires
            old(self).heap@.valid(),
            old(self).heap@.room(registry.entries@.len() * 2 + call.args@.len() + 26),
            call.func.payload <= u32::MAX,
        ensures
            final(self).heap@.valid(),
            native_begun(*old(self), *final(self), *registry, *call, *def, r),
    {
        let blocked = def.signal.bits.intersection(self.fiber.withheld).intersection(
            SignalBits::new(CAP_MASK),
        );
        if !blocked.is_empty() {
            let owed = self.take_borrowed_arg_retains(&call.borrowed_arg_slots, None);
            let bits = self.handle_capability_denial_tail(
                registry,
                def.name,
                call.func,
                blocked,
                &call.args,
            );
            let ghost mid = self.heap@;
            self.run_borrowed_arg_retains(&owed);
            assert(denied(
                old(self).heap@,
                mid,
                names_in(registry.entries@, blocked),
                def.name@,
                call.func,
                call.args@,
                (self.fiber.signal->0).1,
            ));
            return TailStep::Exit(bits);
        }
        if !call.checked && !def.arity.matches(call.args.len()) {
            let owed = self.take_borrowed_arg_retains(&call.borrowed_arg_slots, None);
            let mut msg = def.name.to_string();
            msg.append(": expected ");
            def.arity.push_text(&mut msg);
            msg.append(" argument(s), got ");
            push_decimal(&mut msg, call.args.len() as u64);
            self.set_error("arity-error", &msg);
            let ghost mid = self.heap@;
            self.run_borrowed_arg_retains(&owed);
            assert(error_made(
                old(self).heap@.with_region(),
                mid,
                RuntimeRegion(old(self).heap@.counts.len() as u32),
                "arity-error"@,
                arity_text(*def, call.args@.len()),
                (self.fiber.signal->0).1,
            ));
            return TailStep::Exit(SignalBits::new(SIG_ERROR));
        }
        TailStep::RunNative(call.func.payload as u32)
    }

    /// Resolve a dynamic parameter in tail position.
    fn call_parameter(&mut self, args: &Vec<Value>, id: u32, default: Value) -> (r: TailStep)
        requires
            old(self).heap@.valid(),
            old(self).heap@.room(9),
        ensures
            final(self).heap@.valid(),
            parameter_called(*old(self), *final(self), args@, id, default, r),
    {
        if args.len() > 0 {
            let mut msg = "parameter call: expected 0 arguments, got ".to_string();
            push_decimal(&mut msg, args.len() as u64);
            self.set_error("arity-error", &msg);
            return TailStep::Exit(SignalBits::new(SIG_ERROR));
        }
        let value = match self.resolve_parameter(id) {
            Some(v) => v,
            None => default,
        };
        let region = self.heap.region_of(value);
        self.heap.incref_for_escape(region, EscapeSite::ParameterResolve);
        self.fiber.signal = Some((SignalBits::new(SIG_OK), value));
        TailStep::Exit(SignalBits::new(SIG_OK))
    }

    /// What a parameter is bound to on the running fiber: the innermost frame
    /// that binds it decides.
    pub fn resolve_parameter(&self, id: u32) -> (r: Option<Value>)
        ensures
            r == bound(self.fiber.param_frames@, id),
    {
        let frames = &self.fiber.param_frames;
        let mut k: usize = frames.len();
        assert(frames@.take(k as int) =~= frames@);
        while k > 0
            invariant
                k <= frames@.len(),
                *frames == self.fiber.param_frames,
                bound(frames@, id) == bound(frames@.take(k as int), id),
            decreases k,
        {
            assert(frames@.take(k as int).drop_last() =~= frames@.take(k - 1));
            assert(frames@.take(k as int).last() == frames@[k - 1]);
            k = k - 1;
            if let Some(v) = find_binding(&frames[k], id) {
                return Some(v);
            }
        }
        None
    }

    /// Take the signal of a primitive that ran in tail position. A result stays
    /// in the frame. Any other signal leaves it: what the borrowed arguments hold
    /// is taken, a raised argument is given the reference of its delivery, and
    /// the signal is routed. A suspension keeps the reference to what it yields.
    pub fn tail_native_returned(
        &mut self,
        call: &TailCall,
        action: SignalAction,
        bits: SignalBits,
        value: Value,
    ) -> (r: TailStep)
        requires
            old(self).heap@.valid(),
            old(self).heap@.room(1),
            (action == SignalAction::Done) == (bits == SignalBits::empty()),
        ensures
            final(self).heap@.valid(),
            native_returned(*old(self), *final(self), *call, action, bits, value, r),
    {
        if bits.is_empty() {
            self.fiber.stack.push(value);
            return TailStep::FallThrough;
        }
        let suspends = match action {
            SignalAction::Suspend => true,
            _ => false,
        };
        let spare = if suspends {
            Some(value)
        } else {
            None
        };
        let owed = self.take_borrowed_arg_retains(&call.borrowed_arg_slots, spare);
        if let SignalAction::Error = action {
            self.mint_raised_argument_delivery(&call.args, value);
        }
        match self.handle_primitive_signal_tail(action, bits, value) {
            None => TailStep::DriveSignal(owed),
            Some(out) => {
                self.run_borrowed_arg_retains(&owed);
                TailStep::Exit(out)
            },
        }
    }

    /// Take what became of a signal that was driven. Where the fiber's own mask
    /// absorbed the outcome, the frame never left: its value is the call's
    /// result.
    pub fn tail_signal_driven(&mut self, bits: SignalBits, owed: &Vec<RuntimeRegion>) -> (r: TailStep)
        requires
            old(self).heap@.valid(),
            bits == SignalBits::empty() ==> old(self).fiber.signal is Some,
        ensures
            signal_driven(
                *old(self),
                *final(self),
                bits,
                *owed,
                r,
            ),
    {
        self.run_borrowed_arg_retains(owed);
        if bits.is_empty() {
            if let Some((_, result)) = self.fiber.signal.take() {
                self.fiber.stack.push(result);
            }
            return TailStep::FallThrough;
        }
        TailStep::Exit(bits)
    }

    /// Take the environment of a closure callee, and let the trampoline replace
    /// the frame. The new activation takes over the releases that stand behind the
    /// call: the merged arena that the named slot stands for, and the callee's own
    /// region, each where there is one. Without an environment the error that kept
    /// it from being built is the fiber's signal already.
    pub fn tail_env_built(
        &mut self,
        call: &TailCall,
        env: Option<Vec<Value>>,
        callee_region: Option<RuntimeRegion>,
    ) -> (r: TailStep)
        requires
            closure_at(old(self).heap@, call.func) is Some,
        ensures
            env_built(
                *old(self),
                *final(self),
                *call,
                env,
                callee_region,
                r,
            ),
    {
        let arena = match call.deferred_release_slot {
            Some(slot) => self.runtime_region_for_release_slot(slot),
            None => None,
        };
        let callee = if call.defer_callee_release {
            callee_region
        } else {
            None
        };
        let (code, squelch_mask) = match as_closure(&self.heap, call.func) {
            Some(c) => (Code { template: c.template.clone() }, c.squelch_mask),
            None => {
                return TailStep::Exit(SignalBits::new(SIG_ERROR));
            },
        };
        match env {
            None => TailStep::Exit(SignalBits::new(SIG_ERROR)),
            Some(env) => {
                self.pending_tail_call = Some(
                    TailCallInfo {
                        code,
                        env,
                        closure: call.func,
                        squelch_mask,
                        deferred: DeferredReleases { arena, callee },
                    },
                );
                self.fiber.signal = Some((SignalBits::new(SIG_OK), Value::nil()));
                TailStep::Exit(SignalBits::new(SIG_OK))
            },
        }
    }

    /// The region that a slot of the current activation stands for.
    pub fn runtime_region_for_release_slot(&self, slot: u32) -> (r: Option<RuntimeRegion>)
        ensures
            r == arena_of(self.fiber, Some(slot)),
    {
        let n: usize = self.fiber.activation_region_maps.len();
        if n == 0 {
            return None;
        }
        match self.fiber.activation_region_maps[n - 1].get(slot) {
            Some(m) => Some(m.region),
            None => None,
        }
    }

    /// Take what came of indexing a collection: a value is the call's result and
    /// the frame stays; a failure is an error; a callee that is no collection
    /// cannot be called. `shown` is how the callee reads.
    pub fn tail_collection_called(
        &mut self,
        outcome: Option<Result<Value, (String, String)>>,
        shown: &String,
    ) -> (r: TailStep)
        requires
            old(self).heap@.valid(),
            old(self).heap@.room(9),
        ensures
            collection_called(
                *old(self),
                *final(self),
                outcome,
                *shown,
                r,
            ),
    {
        match outcome {
            Some(Ok(value)) => {
                self.fiber.stack.push(value);
                TailStep::FallThrough
            },
            Some(Err((kind, msg))) => {
                self.set_error(kind.as_str(), &msg);
                TailStep::Exit(SignalBits::new(SIG_ERROR))
            },
            None => {
                let mut msg = "Cannot call ".to_string();
                msg.append(shown.as_str());
                self.set_error("type-error", &msg);
                TailStep::Exit(SignalBits::new(SIG_ERROR))
            },
        }
    }
}

/// The region that a slot of the fiber's current activation stands for.
pub open spec fn arena_of(f: Fiber, slot: Option<u32>) -> Option<RuntimeRegion> {
    match slot {
        Some(slot) => if top_slots(f.activation_region_maps@).dom().contains(slot as u64) {
            Some(top_slots(f.activation_region_maps@)[slot as u64].region)
        } else {
            None
        },
        None => None,
    }
}

/// What a tail call of a primitive does before the primitive runs.
pub open spec fn native_begun(
    before: VM,
    after: VM,
    registry: SignalRegistry,
    call: TailCall,
    def: PrimitiveDef,
    r: TailStep,
) -> bool {
    let blocked = blocked_bits(def, before.fiber);
    let slots = call.borrowed_arg_slots@;
    let owed = taken_regions(before, slots, None);
    if blocked != SignalBits::empty() {
        &&& r == TailStep::Exit(blocked)
        &&& after.fiber.signal is Some
        &&& after.fiber.stack@ == taken_stack(before, slots, None)
        &&& exists|mid: HeapState|
            #![trigger nodes_released(mid, owed)]
            denied(
                before.heap@,
                mid,
                names_in(registry.entries@, blocked),
                def.name@,
                call.func,
                call.args@,
                (after.fiber.signal->0).1,
            ) && after.heap@ == nodes_released(mid, owed)
        &&& after == (VM {
            heap: after.heap,
            fiber: Fiber {
                stack: after.fiber.stack,
                resume_value_unfunded: true,
                denial_payload: Some((after.fiber.signal->0).1),
                signal: Some((blocked, (after.fiber.signal->0).1)),
                ..before.fiber
            },
            ..before
        })
    } else if !call.checked && !def.arity.accepts(call.args@.len()) {
        &&& r == TailStep::Exit(SignalBits::new(SIG_ERROR))
        &&& after.fiber.signal is Some
        &&& after.fiber.stack@ == taken_stack(before, slots, None)
        &&& exists|mid: HeapState|
            #![trigger nodes_released(mid, owed)]
            error_made(
                before.heap@.with_region(),
                mid,
                RuntimeRegion(before.heap@.counts.len() as u32),
                "arity-error"@,
                arity_text(def, call.args@.len()),
                (after.fiber.signal->0).1,
            ) && after.heap@ == nodes_released(mid, owed)
        &&& after == (VM {
            heap: after.heap,
            fiber: Fiber {
                stack: after.fiber.stack,
                signal: Some((SignalBits::new(SIG_ERROR), (after.fiber.signal->0).1)),
                ..before.fiber
            },
            ..before
        })
    } else {
        r == TailStep::RunNative(call.func.payload as u32) && after == before
    }
}

/// What a tail call of a dynamic parameter does.
pub open spec fn parameter_called(
    before: VM,
    after: VM,
    args: Seq<Value>,
    id: u32,
    default: Value,
    r: TailStep,
) -> bool {
    if args.len() > 0 {
        &&& r == TailStep::Exit(SignalBits::new(SIG_ERROR))
        &&& error_raised(
            before,
            after,
            "arity-error"@,
            "parameter call: expected 0 arguments, got "@ + decimal(args.len()),
        )
    } else {
        let value = match bound(before.fiber.param_frames@, id) {
            Some(v) => v,
            None => default,
        };
        &&& r == TailStep::Exit(SignalBits::new(SIG_OK))
        &&& after.heap@ == before.heap@.retained_opt(before.heap@.region_of(value))
        &&& after == (VM {
            heap: after.heap,
            fiber: Fiber {
                signal: Some((SignalBits::new(SIG_OK), value)),
                ..before.fiber
            },
            ..before
        })
    }
}

/// What the signal of a primitive that ran in tail position does.
pub open spec fn native_returned(
    before: VM,
    after: VM,
    call: TailCall,
    action: SignalAction,
    bits: SignalBits,
    value: Value,
    r: TailStep,
) -> bool {
    let slots = call.borrowed_arg_slots@;
    let spare = if action == SignalAction::Suspend {
        Some(value)
    } else {
        None
    };
    let owed = taken_regions(before, slots, spare);
    match action {
        SignalAction::Done => {
            &&& r == TailStep::FallThrough
            &&& after.fiber.stack@ == before.fiber.stack@.push(value)
            &&& after == (VM {
                fiber: Fiber { stack: after.fiber.stack, ..before.fiber },
                ..before
            })
        },
        SignalAction::Suspend => {
            &&& r == TailStep::Exit(bits)
            &&& after.fiber.stack@ == taken_stack(before, slots, spare)
            &&& after.heap@ == nodes_released(
                before.heap@.retained_opt(before.heap@.region_of(value)),
                owed,
            )
            &&& after == (VM {
                heap: after.heap,
                fiber: Fiber {
                    stack: after.fiber.stack,
                    resume_value_unfunded: true,
                    signal: Some((bits, value)),
                    ..before.fiber
                },
                ..before
            })
        },
        SignalAction::Error => {
            let minted = mints(before.heap@, call.args@, value);
            &&& r == TailStep::Exit(bits)
            &&& after.fiber.stack@ == taken_stack(before, slots, spare)
            &&& after.heap@ == nodes_released(
                if minted {
                    before.heap@.retained_opt(before.heap@.region_of(value))
                } else {
                    before.heap@
                },
                owed,
            )
            &&& after == (VM {
                heap: after.heap,
                fiber: Fiber {
                    stack: after.fiber.stack,
                    emit_delivery: if minted {
                        Some(value)
                    } else {
                        before.fiber.emit_delivery
                    },
                    signal: Some((bits, value)),
                    ..before.fiber
                },
                ..before
            })
        },
        SignalAction::Halt => {
            &&& r == TailStep::Exit(bits)
            &&& after.fiber.stack@ == taken_stack(before, slots, spare)
            &&& after.heap@ == nodes_released(before.heap@, owed)
            &&& after == (VM {
                heap: after.heap,
                fiber: Fiber {
                    stack: after.fiber.stack,
                    signal: Some((bits, value)),
                    ..before.fiber
                },
                ..before
            })
        },
        _ => {
            &&& r matches TailStep::DriveSignal(regions)
            &&& regions@ == owed
            &&& stamped_vm(before, after, slots, spare)
        },
    }
}

/// Whether one of the values is `v`.
fn holds(values: &Vec<Value>, v: Value) -> (r: bool)
    ensures
        r == values@.contains(v),
{
    let mut i: usize = 0;
    while i < values.len()
        invariant
            i <= values@.len(),
            forall|k: int| 0 <= k < i ==> #[trigger] values@[k] != v,
        decreases values.len() - i,
    {
        if values[i].bit_identical(v) {
            assert(values@[i as int] == v);
            return true;
        }
        i = i + 1;
    }
    false
}

/// The references that a signal exit releases are each one that its stack no
/// longer holds: taking the same locals again finds nothing, so a replayed
/// release counts once.
pub proof fn lemma_taken_once(
    stack: Seq<Value>,
    heap: HeapState,
    base: int,
    slots: Seq<u16>,
)
    requires
        0 <= base,
    ensures
        owed_for(stamped(stack, heap, base, slots, None), heap, base, slots, None).len() == 0,
        stamped(stamped(stack, heap, base, slots, None), heap, base, slots, None) == stamped(
            stack,
            heap,
            base,
            slots,
            None,
        ),
{
    let once = stamped(stack, heap, base, slots, None);
    lemma_stamped_nil(stack, heap, base, slots, slots.len() as int);
    assert(slots.take(slots.len() as int) =~= slots);
    lemma_all_nil(once, heap, base, slots);
}

proof fn lemma_stamped_nil(stack: Seq<Value>, heap: HeapState, base: int, slots: Seq<u16>, upto: int)
    requires
        0 <= base,
        0 <= upto <= slots.len(),
    ensures
        stamped(stack, heap, base, slots.take(upto), None).len() == stack.len(),
        forall|i: int|
            0 <= i < upto && base + #[trigger] slots[i] < stack.len() ==> stamped(
                stack,
                heap,
                base,
                slots.take(upto),
                None,
            )[base + slots[i]] == Value::nil(),
    decreases upto,
{
    if upto > 0 {
        lemma_stamped_nil(stack, heap, base, slots, upto - 1);
        assert(slots.take(upto).drop_last() =~= slots.take(upto - 1));
    } else {
        assert(slots.take(0) =~= Seq::empty());
    }
}

proof fn lemma_all_nil(stack: Seq<Value>, heap: HeapState, base: int, slots: Seq<u16>)
    requires
        0 <= base,
        forall|i: int|
            0 <= i < slots.len() && base + #[trigger] slots[i] < stack.len() ==> stack[base + slots[i]]
                == Value::nil(),
    ensures
        stamped(stack, heap, base, slots, None) == stack,
        owed_for(stack, heap, base, slots, None).len() == 0,
    decreases slots.len(),
{
    if slots.len() > 0 {
        let init = slots.drop_last();
        assert forall|i: int|
            0 <= i < init.len() && base + #[trigger] init[i] < stack.len() implies stack[base + init[i]]
            == Value::nil() by {
            assert(init[i] == slots[i]);
        }
        lemma_all_nil(stack, heap, base, init);
        let at = base + slots[slots.len() - 1];
        if at < stack.len() {
            assert(stack[at] == Value::nil());
            assert(stack.update(at, Value::nil()) =~= stack);
        }
    }
}

} // verus!
