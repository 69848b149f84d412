//! Fibers: independent execution contexts.

use std::rc::Rc;

use vstd::prelude::*;

use crate::ctx::{error_made, Alloc};
use crate::heap::{FiberHeap, HeapState, RuntimeRegion};
use crate::object::{Arity, Closure, ClosureTemplate};
use crate::refcount::{
    is_terminal_signal, record_terminal_signal_park, release_discarded_signal, signal_discarded, terminal,
    terminal_parked,
};
use crate::regionmap::{MappedRegion, RegionMap};
use crate::signalbits::SignalBits;
use crate::signals::SIG_ERROR;
use crate::stack::ValueStack;
use crate::text::{decimal, push_decimal};
use crate::token::SourceLoc;
use crate::value::{Value, TAG_HEAP_START};

verus! {

/// Calls deeper than this halt with a stack overflow.
pub const MAX_CALL_DEPTH: usize = 200;

/// Where a fiber is in its life.
#[derive(Clone, Copy, PartialEq, Eq, Structural, Debug)]
pub enum FiberStatus {
    New,
    Alive,
    Paused,
    Dead,
    Error,
}

impl FiberStatus {
    /// The status's name.
    pub open spec fn text(self) -> Seq<char> {
        match self {
            FiberStatus::New => "new"@,
            FiberStatus::Alive => "alive"@,
            FiberStatus::Paused => "paused"@,
            FiberStatus::Dead => "dead"@,
            FiberStatus::Error => "error"@,
        }
    }

    /// The status's name.
    pub fn as_str(self) -> (r: &'static str)
        ensures
            r@ == self.text(),
    {
        match self {
            FiberStatus::New => "new",
            FiberStatus::Alive => "alive",
            FiberStatus::Paused => "paused",
            FiberStatus::Dead => "dead",
            FiberStatus::Error => "error",
        }
    }
}

/// The code an activation runs, shared with the closures made from it.
pub struct Code {
    pub template: Rc<ClosureTemplate>,
}

impl Code {
    /// The same code.
    pub fn copy(&self) -> (r: Code)
        ensures
            r == *self,
    {
        Code { template: self.template.clone() }
    }
}

/// A parked activation.
pub struct BytecodeFrame {
    pub code: Code,
    pub env: Vec<Value>,
    pub ip: usize,
    pub stack: Vec<Value>,
    /// Whether the resume value goes on the stack before the code continues.
    pub push_resume_value: bool,
    pub activation_region_map: RegionMap,
    pub activation_owner_node: Option<RuntimeRegion>,
    pub current_closure: Value,
}

/// One frame of a suspended chain.
pub enum SuspendedFrame {
    Bytecode(BytecodeFrame),
    /// A wait for another fiber.
    FiberResume { handle: u32, fiber_value: Value },
}

/// An execution frame: what runs, where, and where its stack begins.
pub struct Frame {
    pub closure: Rc<Closure>,
    pub ip: usize,
    pub base: usize,
}

/// A call frame, for stack traces.
pub struct CallFrame {
    pub name: String,
    pub ip: usize,
    pub frame_base: usize,
}

/// A native iterator that feeds values to a fiber.
pub struct NativeIter {
    pub elements: Vec<Value>,
    pub cursor: usize,
}

/// The fiber: an independent execution context.
pub struct Fiber {
    /// Operand stack.
    pub stack: ValueStack,
    /// Execution frames.
    pub frames: Vec<Frame>,
    pub status: FiberStatus,
    /// Which of this fiber's signals its parent catches.
    pub mask: SignalBits,
    /// Parent fiber.
    pub parent: Option<u32>,
    pub parent_value: Option<Value>,
    /// Most recently resumed child.
    pub child: Option<u32>,
    pub child_value: Option<Value>,
    /// The closure this fiber was created from.
    pub closure: Rc<Closure>,
    /// The value of that closure, nil where it never runs as a body.
    pub closure_value: Value,
    /// Parameter bindings, innermost frame last.
    pub param_frames: Vec<Vec<(u32, Value)>>,
    /// Whether the first parameter frame is an inherited, counted baseline.
    pub param_baseline_seeded: bool,
    /// The region and generation of each heap value of the inherited baseline,
    /// by parameter.
    pub param_borrows: Vec<(u32, RuntimeRegion, u32)>,
    /// The last signal or return value.
    pub signal: Option<(SignalBits, Value)>,
    /// A parked error and where it was raised.
    pub error_loc: Option<(Value, SourceLoc)>,
    /// The error payload whose delivery reference this fiber's frames do not
    /// fund.
    pub emit_delivery: Option<Value>,
    /// Whether the next resume value arrives owing one reference.
    pub resume_value_unfunded: bool,
    /// The capability-denial payload this fiber has parked.
    pub denial_payload: Option<Value>,
    /// Suspended frames, innermost first.
    pub suspended: Option<Vec<SuspendedFrame>>,
    /// Region slots of each activation, the current one last.
    pub activation_region_maps: Vec<RegionMap>,
    /// Owner node of each activation.
    pub activation_owner_nodes: Vec<Option<RuntimeRegion>>,
    /// The fiber's own owner node.
    pub fiber_owner_node: Option<RuntimeRegion>,
    /// The closure whose body is running.
    pub current_closure: Value,
    pub call_depth: usize,
    pub call_stack: Vec<CallFrame>,
    /// Instruction budget, none for unlimited.
    pub fuel: Option<u32>,
    /// Capabilities this fiber does not have.
    pub withheld: SignalBits,
    /// Set for a fiber that iterates natively.
    pub native_iter: Option<NativeIter>,
}

/// What a fiber that can never run again strands.
pub struct ParkedState {
    /// Each parked frame's owner node, in chain order.
    pub nodes: Vec<RuntimeRegion>,
    /// The parked signal whose reference the discharge owes.
    pub signal: Option<(SignalBits, Value)>,
    /// The values the parked frames still owe a release.
    pub owed: Vec<Value>,
    /// The mapped regions the parked frames still owe a release.
    pub owed_regions: Vec<MappedRegion>,
    /// The value whose region the discharge must leave standing.
    pub protect: Option<Value>,
}

/// The owner nodes of a chain, in order.
pub open spec fn chain_nodes(frames: Seq<SuspendedFrame>) -> Seq<RuntimeRegion>
    decreases frames.len(),
{
    if frames.len() == 0 {
        Seq::empty()
    } else {
        let rest = chain_nodes(frames.drop_last());
        match frames.last() {
            SuspendedFrame::Bytecode(f) => match f.activation_owner_node {
                Some(n) => rest.push(n),
                None => rest,
            },
            _ => rest,
        }
    }
}

/// The heap values at the named slots of a saved stack, in slot order.
pub open spec fn owed_at(stack: Seq<Value>, slots: Seq<u16>) -> Seq<Value>
    decreases slots.len(),
{
    if slots.len() == 0 {
        Seq::empty()
    } else {
        let rest = owed_at(stack, slots.drop_last());
        let s = slots.last() as int;
        if s < stack.len() && stack[s].tag >= TAG_HEAP_START {
            rest.push(stack[s])
        } else {
            rest
        }
    }
}

/// The regions still mapped at the named slots, in slot order.
pub open spec fn mapped_at(map: Map<u64, MappedRegion>, slots: Seq<u32>) -> Seq<MappedRegion>
    decreases slots.len(),
{
    if slots.len() == 0 {
        Seq::empty()
    } else {
        let rest = mapped_at(map, slots.drop_last());
        if map.dom().contains(slots.last() as u64) {
            rest.push(map[slots.last() as u64])
        } else {
            rest
        }
    }
}

/// The values that the frames of a chain still owe a release.
pub open spec fn chain_owed(frames: Seq<SuspendedFrame>) -> Seq<Value>
    decreases frames.len(),
{
    if frames.len() == 0 {
        Seq::empty()
    } else {
        let rest = chain_owed(frames.drop_last());
        match frames.last() {
            SuspendedFrame::Bytecode(f) => rest + owed_at(f.stack@, f.code.template.frame_release_slots@),
            _ => rest,
        }
    }
}

/// The mapped regions that the frames of a chain still owe a release.
pub open spec fn chain_owed_regions(frames: Seq<SuspendedFrame>) -> Seq<MappedRegion>
    decreases frames.len(),
{
    if frames.len() == 0 {
        Seq::empty()
    } else {
        let rest = chain_owed_regions(frames.drop_last());
        match frames.last() {
            SuspendedFrame::Bytecode(f) => rest + mapped_at(
                f.activation_region_map@,
                f.code.template.frame_release_regions@,
            ),
            _ => rest,
        }
    }
}

/// The frames of an optional chain.
pub open spec fn chain(suspended: Option<Vec<SuspendedFrame>>) -> Seq<SuspendedFrame> {
    match suspended {
        Some(frames) => frames@,
        None => Seq::empty(),
    }
}

impl Fiber {
    /// The suspension ran in this fiber: its innermost frame is its own code,
    /// not a wait for another fiber.
    pub open spec fn owns_signal(self) -> bool {
        chain(self.suspended).len() > 0 && chain(self.suspended)[0] is Bytecode
    }

    /// The parked signal that discharging this fiber takes: one that suspended
    /// here and is not a result.
    pub open spec fn dischargeable(self) -> Option<(SignalBits, Value)> {
        match self.signal {
            Some((bits, v)) => if self.owns_signal() && !terminal(bits) {
                Some((bits, v))
            } else {
                None
            },
            None => None,
        }
    }

    /// The value whose region discharging this fiber leaves standing: the
    /// signal's, unless its delivery was funded at the raise.
    pub open spec fn protected(self) -> Option<Value> {
        match self.signal {
            Some((_, v)) => if self.emit_delivery == Some(v) {
                None
            } else {
                Some(v)
            },
            None => None,
        }
    }

    /// The fiber once its parked state is taken.
    pub open spec fn discharged(self) -> Fiber {
        if self.dischargeable() is Some {
            Fiber { suspended: None, signal: None, denial_payload: None, ..self }
        } else {
            Fiber { suspended: None, ..self }
        }
    }

    /// Take the parked region state of a fiber that can never run again, so
    /// that no second release path can reach it.
    pub fn take_parked_state(&mut self) -> (r: ParkedState)
        ensures
            *final(self) == old(self).discharged(),
            r.nodes@ == chain_nodes(chain(old(self).suspended)),
            r.owed@ == chain_owed(chain(old(self).suspended)),
            r.owed_regions@ == chain_owed_regions(chain(old(self).suspended)),
            r.signal == old(self).dischargeable(),
            r.protect == old(self).protected(),
    {
        let mut nodes: Vec<RuntimeRegion> = Vec::new();
        let mut owed: Vec<Value> = Vec::new();
        let mut owed_regions: Vec<MappedRegion> = Vec::new();
        let mut owns_signal = false;
        let taken = self.suspended.take();
        let frames = match taken {
            Some(frames) => frames,
            None => Vec::new(),
        };
        assert(frames@ =~= chain(old(self).suspended));
        let mut i: usize = 0;
        assert(frames@.take(0) =~= Seq::empty());
        while i < frames.len()
            invariant
                i <= frames@.len(),
                nodes@ == chain_nodes(frames@.take(i as int)),
                owed@ == chain_owed(frames@.take(i as int)),
                owed_regions@ == chain_owed_regions(frames@.take(i as int)),
                owns_signal == (i > 0 && frames@[0] is Bytecode),
            decreases frames.len() - i,
        {
            assert(frames@.take(i + 1).drop_last() =~= frames@.take(i as int));
            if let SuspendedFrame::Bytecode(f) = &frames[i] {
                if i == 0 {
                    owns_signal = true;
                }
                if let Some(n) = f.activation_owner_node {
                    nodes.push(n);
                }
                push_owed(&mut owed, &f.stack, &f.code.template.frame_release_slots);
                push_mapped(
                    &mut owed_regions,
                    &f.activation_region_map,
                    &f.code.template.frame_release_regions,
                );
            }
            i = i + 1;
        }
        assert(frames@.take(i as int) =~= frames@);
        let protect = match self.signal {
            Some((_, v)) => {
                match self.emit_delivery {
                    Some(m) => if m.bit_identical(v) {
                        None
                    } else {
                        Some(v)
                    },
                    None => Some(v),
                }
            },
            None => None,
        };
        let signal = match self.signal {
            Some((bits, _)) => if owns_signal && !is_terminal_signal(bits) {
                self.signal.take()
            } else {
                None
            },
            None => None,
        };
        if signal.is_some() {
            self.denial_payload = None;
        }
        ParkedState { nodes, signal, owed, owed_regions, protect }
    }

    /// A new fiber from a closure with a signal mask.
    pub fn new(closure: Rc<Closure>, mask: SignalBits) -> (r: Fiber)
        ensures
            r.fresh(closure, mask),
            r.status == FiberStatus::New,
            r.native_iter is None,
    {
        let mut maps: Vec<RegionMap> = Vec::new();
        maps.push(RegionMap::new());
        let mut nodes: Vec<Option<RuntimeRegion>> = Vec::new();
        nodes.push(None);
        Fiber {
            stack: ValueStack::new(),
            frames: Vec::new(),
            status: FiberStatus::New,
            mask,
            parent: None,
            parent_value: None,
            child: None,
            child_value: None,
            closure,
            closure_value: Value::nil(),
            param_frames: Vec::new(),
            param_baseline_seeded: false,
            param_borrows: Vec::new(),
            signal: None,
            error_loc: None,
            emit_delivery: None,
            resume_value_unfunded: false,
            denial_payload: None,
            suspended: None,
            activation_region_maps: maps,
            activation_owner_nodes: nodes,
            fiber_owner_node: None,
            current_closure: Value::nil(),
            call_depth: 0,
            call_stack: Vec::new(),
            fuel: None,
            withheld: SignalBits::empty(),
            native_iter: None,
        }
    }

    /// Nothing has happened to the fiber yet: empty stacks, one activation
    /// without slots, no signal, no parent or child.
    pub open spec fn blank(self, mask: SignalBits) -> bool {
        &&& self.stack@.len() == 0
        &&& self.frames@.len() == 0
        &&& self.mask == mask
        &&& self.parent is None
        &&& self.parent_value is None
        &&& self.child is None
        &&& self.child_value is None
        &&& self.param_borrows@.len() == 0
        &&& self.signal is None
        &&& self.error_loc is None
        &&& self.emit_delivery is None
        &&& !self.resume_value_unfunded
        &&& self.denial_payload is None
        &&& self.suspended is None
        &&& self.activation_region_maps@.len() == 1
        &&& self.activation_region_maps@[0]@ == Map::<u64, MappedRegion>::empty()
        &&& self.activation_owner_nodes@ == seq![None::<RuntimeRegion>]
        &&& self.fiber_owner_node is None
        &&& self.current_closure == Value::nil()
        &&& self.call_depth == 0
        &&& self.call_stack@.len() == 0
        &&& self.fuel is None
    }

    /// A blank fiber with full access and no inherited bindings.
    pub open spec fn fresh(self, closure: Rc<Closure>, mask: SignalBits) -> bool {
        &&& self.blank(mask)
        &&& self.closure == closure
        &&& self.closure_value == Value::nil()
        &&& self.param_frames@.len() == 0
        &&& !self.param_baseline_seeded
        &&& self.withheld == SignalBits::empty()
    }

    /// A fiber that hands out `elements` one a resume and dies after the last.
    pub fn native_iter(elements: Vec<Value>, mask: SignalBits) -> (r: Fiber)
        ensures
            r.status == FiberStatus::Paused,
            r.fresh(r.closure, mask),
            does_nothing(*r.closure),
            r.native_iter == Some(NativeIter { elements, cursor: 0 }),
    {
        let closure = noop_closure();
        let mut f = Fiber::new(closure, mask);
        f.status = FiberStatus::Paused;
        f.native_iter = Some(NativeIter { elements, cursor: 0 });
        f
    }

    /// Set an error signal on this fiber, the error born in the region of `ctx`.
    pub fn set_error_in(&mut self, heap: &mut FiberHeap, kind: &String, msg: &String, ctx: &Alloc)
        requires
            ctx.ready(old(heap)@, 8),
        ensures
            final(self).signal is Some,
            (final(self).signal->0).0 == SignalBits::new(SIG_ERROR),
            error_made(
                old(heap)@,
                final(heap)@,
                ctx.home(),
                kind@,
                msg@,
                (final(self).signal->0).1,
            ),
            *final(self) == (Fiber { signal: final(self).signal, ..*old(self) }),
    {
        let err = ctx.error(heap, kind, msg);
        self.signal = Some((SignalBits::new(SIG_ERROR), err));
    }

    /// Readable summary of the fiber.
    pub fn render(&self) -> (r: String)
        ensures
            r@ == "<fiber:"@ + self.status.text() + " frames="@ + decimal(self.frames@.len())
                + " stack="@ + decimal(self.stack@.len()) + ">"@,
    {
        let mut out = "<fiber:".to_string();
        out.append(self.status.as_str());
        out.append(" frames=");
        push_decimal(&mut out, self.frames.len() as u64);
        out.append(" stack=");
        push_decimal(&mut out, self.stack.len() as u64);
        out.append(">");
        out
    }
}

/// The closure takes no argument, captured nothing and is a single return.
pub open spec fn does_nothing(c: Closure) -> bool {
    &&& c.code().bytecode@ == seq![3u8, 0, 0, 0]
    &&& c.code().arity == Arity::Exact(0)
    &&& c.code().constants@.len() == 0
    &&& c.code().num_locals == 0
    &&& c.code().num_captures == 0
    &&& c.code().num_params == 0
    &&& c.code().signal == crate::signals::plain(0)
    &&& c.code().symbol_names@.len() == 0
    &&& c.code().lir_function is None
    &&& c.code().doc is None
    &&& c.code().name is None
    &&& c.code().child_protos@.len() == 0
    &&& c.env@.len() == 0
    &&& c.squelch_mask == SignalBits::empty()
}

/// The closure of a native iterator: a single return that is never executed.
fn noop_closure() -> (r: Rc<Closure>)
    ensures
        does_nothing(*r),
{
    let mut code: Vec<u8> = Vec::new();
    code.push(3);
    code.push(0);
    code.push(0);
    code.push(0);
    assert(code@ =~= seq![3u8, 0, 0, 0]);
    let template = ClosureTemplate::new(code, Arity::Exact(0), Vec::new());
    Rc::new(
        Closure { template: Rc::new(template), env: Vec::new(), squelch_mask: SignalBits::empty() },
    )
}

fn push_owed(out: &mut Vec<Value>, stack: &Vec<Value>, slots: &Vec<u16>)
    ensures
        final(out)@ == old(out)@ + owed_at(stack@, slots@),
{
    let ghost before = out@;
    let mut k: usize = 0;
    assert(slots@.take(0) =~= Seq::empty());
    assert(before + owed_at(stack@, slots@.take(0)) =~= before);
    while k < slots.len()
        invariant
            k <= slots@.len(),
            out@ == before + owed_at(stack@, slots@.take(k as int)),
        decreases slots.len() - k,
    {
        assert(slots@.take(k + 1).drop_last() =~= slots@.take(k as int));
        let s: usize = slots[k] as usize;
        if s < stack.len() && stack[s].is_heap() {
            out.push(stack[s]);
        }
        k = k + 1;
        assert(out@ =~= before + owed_at(stack@, slots@.take(k as int)));
    }
    assert(slots@.take(k as int) =~= slots@);
}

fn push_mapped(out: &mut Vec<MappedRegion>, map: &RegionMap, slots: &Vec<u32>)
    ensures
        final(out)@ == old(out)@ + mapped_at(map@, slots@),
{
    let ghost before = out@;
    let mut k: usize = 0;
    assert(slots@.take(0) =~= Seq::empty());
    assert(before + mapped_at(map@, slots@.take(0)) =~= before);
    while k < slots.len()
        invariant
            k <= slots@.len(),
            out@ == before + mapped_at(map@, slots@.take(k as int)),
        decreases slots.len() - k,
    {
        assert(slots@.take(k + 1).drop_last() =~= slots@.take(k as int));
        if let Some(m) = map.get(slots[k]) {
            out.push(m);
        }
        k = k + 1;
        assert(out@ =~= before + mapped_at(map@, slots@.take(k as int)));
    }
    assert(slots@.take(k as int) =~= slots@);
}

/// Taking a fiber's parked state leaves nothing for a second taking: no nodes,
/// no owed values, no signal.
pub proof fn lemma_parked_state_taken_once(f: Fiber)
    ensures
        f.discharged().discharged() == f.discharged(),
        f.discharged().dischargeable() is None,
        chain_nodes(chain(f.discharged().suspended)).len() == 0,
        chain_owed(chain(f.discharged().suspended)).len() == 0,
        chain_owed_regions(chain(f.discharged().suspended)).len() == 0,
{
}

/// The regions of some values given up, one reference each, but for those that
/// share the region of the protected value.
pub open spec fn owed_released(s: HeapState, owed: Seq<Value>, keep: Option<RuntimeRegion>) -> HeapState
    decreases owed.len(),
{
    if owed.len() == 0 {
        s
    } else {
        let before = owed_released(s, owed.drop_last(), keep);
        let r = before.region_of(owed.last());
        if r is Some && r == keep {
            before
        } else {
            before.decref_opt(r)
        }
    }
}

/// Some mapped regions given up, one reference each, but for the protected one.
pub open spec fn mapped_released(
    s: HeapState,
    owed: Seq<MappedRegion>,
    keep: Option<RuntimeRegion>,
) -> HeapState
    decreases owed.len(),
{
    if owed.len() == 0 {
        s
    } else {
        let before = mapped_released(s, owed.drop_last(), keep);
        if Some(owed.last().region) == keep {
            before
        } else {
            before.decref(owed.last().region.0)
        }
    }
}

/// One reference given up to each of `nodes`.
pub open spec fn nodes_released(s: HeapState, nodes: Seq<RuntimeRegion>) -> HeapState
    decreases nodes.len(),
{
    if nodes.len() == 0 {
        s
    } else {
        nodes_released(s, nodes.drop_last()).decref(nodes.last().0)
    }
}

/// The region a value protects.
pub open spec fn kept_region(s: HeapState, protect: Option<Value>) -> Option<RuntimeRegion> {
    match protect {
        Some(v) => s.region_of(v),
        None => None,
    }
}

/// The heap once a dead fiber's stranded state is given up: owner nodes first,
/// the owed values and mapped regions that its signal does not protect, the
/// signal's own reference, and the fiber's owner node.
pub open spec fn fiber_discharged(s: HeapState, f: Fiber) -> HeapState {
    let frames = chain(f.suspended);
    let keep = kept_region(s, f.protected());
    let a = nodes_released(s, chain_nodes(frames));
    let b = owed_released(a, chain_owed(frames), keep);
    let c = mapped_released(b, chain_owed_regions(frames), keep);
    let d = signal_discarded(c, f.dischargeable());
    d.decref_opt(f.fiber_owner_node)
}

/// Give up one reference to each of `nodes`.
pub fn release_nodes(heap: &mut FiberHeap, nodes: &Vec<RuntimeRegion>)
    requires
        old(heap)@.valid(),
    ensures
        final(heap)@ == nodes_released(old(heap)@, nodes@),
        final(heap)@.valid(),
        final(heap)@.same_objects(old(heap)@),
{
    let ghost start = heap@;
    let mut i: usize = 0;
    assert(nodes@.take(0) =~= Seq::empty());
    while i < nodes.len()
        invariant
            i <= nodes@.len(),
            heap@.valid(),
            heap@.same_objects(start),
            heap@ == nodes_released(start, nodes@.take(i as int)),
        decreases nodes.len() - i,
    {
        assert(nodes@.take(i + 1).drop_last() =~= nodes@.take(i as int));
        heap.decref_region_if_present(nodes[i]);
        i = i + 1;
    }
    assert(nodes@.take(i as int) =~= nodes@);
}

/// Give up everything that a fiber which can never run again strands, and take
/// it out of the fiber.
pub fn release_fiber_owned(heap: &mut FiberHeap, fiber: &mut Fiber)
    requires
        old(heap)@.valid(),
    ensures
        final(heap)@ == fiber_discharged(old(heap)@, *old(fiber)),
        final(heap)@.valid(),
        final(heap)@.same_objects(old(heap)@),
        *final(fiber) == (Fiber { fiber_owner_node: None, ..old(fiber).discharged() }),
{
    let ghost start = heap@;
    let parked = fiber.take_parked_state();
    let keep = match parked.protect {
        Some(v) => heap.region_of(v),
        None => None,
    };
    release_nodes(heap, &parked.nodes);
    let ghost a = heap@;
    let mut i: usize = 0;
    assert(parked.owed@.take(0) =~= Seq::empty());
    while i < parked.owed.len()
        invariant
            i <= parked.owed@.len(),
            heap@.valid(),
            heap@.same_objects(start),
            heap@ == owed_released(a, parked.owed@.take(i as int), keep),
        decreases parked.owed.len() - i,
    {
        assert(parked.owed@.take(i + 1).drop_last() =~= parked.owed@.take(i as int));
        let r = heap.region_of(parked.owed[i]);
        if !(r.is_some() && r == keep) {
            heap.decref_region_opt(r);
        }
        i = i + 1;
    }
    assert(parked.owed@.take(i as int) =~= parked.owed@);
    let ghost b = heap@;
    let mut k: usize = 0;
    assert(parked.owed_regions@.take(0) =~= Seq::empty());
    while k < parked.owed_regions.len()
        invariant
            k <= parked.owed_regions@.len(),
            heap@.valid(),
            heap@.same_objects(start),
            heap@ == mapped_released(b, parked.owed_regions@.take(k as int), keep),
        decreases parked.owed_regions.len() - k,
    {
        assert(parked.owed_regions@.take(k + 1).drop_last() =~= parked.owed_regions@.take(k as int));
        let m = parked.owed_regions[k];
        if !(Some(m.region) == keep) {
            heap.decref_region_if_present(m.region);
        }
        k = k + 1;
    }
    assert(parked.owed_regions@.take(k as int) =~= parked.owed_regions@);
    release_discarded_signal(heap, parked.signal);
    let node = fiber.fiber_owner_node;
    heap.decref_region_opt(node);
    fiber.fiber_owner_node = None;
}

/// Kill a fiber: give up what it strands, and leave it errored with `error` as
/// its counted result.
pub fn kill_fiber(heap: &mut FiberHeap, fiber: &mut Fiber, fiber_value: Value, error: Value)
    requires
        old(heap)@.valid(),
        old(heap)@.room(1),
    ensures
        final(heap)@ == terminal_parked(
            fiber_discharged(old(heap)@, *old(fiber)),
            fiber_value,
            Some((SignalBits::new(SIG_ERROR), error)),
        ),
        final(heap)@.valid(),
        *final(fiber) == killed(*old(fiber), error),
{
    let ghost start = heap@;
    release_fiber_owned(heap, fiber);
    proof {
        lemma_discharged_room(start, *old(fiber), 1);
    }
    fiber.status = FiberStatus::Error;
    let signal = Some((SignalBits::new(SIG_ERROR), error));
    record_terminal_signal_park(heap, fiber_value, &signal);
    fiber.signal = signal;
    fiber.denial_payload = None;
}

/// A fiber killed with `error`.
pub open spec fn killed(f: Fiber, error: Value) -> Fiber {
    Fiber {
        fiber_owner_node: None,
        status: FiberStatus::Error,
        signal: Some((SignalBits::new(SIG_ERROR), error)),
        denial_payload: None,
        ..f.discharged()
    }
}

/// Giving a reference up leaves at least as much room as there was.
pub proof fn lemma_counts_only_fall(s: HeapState, r: u32, n: nat)
    requires
        s.valid(),
        s.room(n),
    ensures
        s.decref(r).valid(),
        s.decref(r).room(n),
        s.decref(r).same_objects(s),
{
    if r < s.counts.len() {
        crate::heap::lemma_decref(s, r);
        let after = s.decref(r);
        assert forall|q: int| 0 <= q < after.counts.len() implies #[trigger] after.counts[q] + n
            <= u32::MAX by {
            assert(s.counts[q] + n <= u32::MAX);
        }
    } else {
        let rest = seq![r].subrange(1, 1);
        assert(rest =~= Seq::empty());
        assert(s.released(rest) == s);
    }
}

proof fn lemma_nodes_room(s: HeapState, nodes: Seq<RuntimeRegion>, n: nat)
    requires
        s.valid(),
        s.room(n),
    ensures
        nodes_released(s, nodes).valid(),
        nodes_released(s, nodes).room(n),
        nodes_released(s, nodes).same_objects(s),
    decreases nodes.len(),
{
    if nodes.len() > 0 {
        lemma_nodes_room(s, nodes.drop_last(), n);
        lemma_counts_only_fall(nodes_released(s, nodes.drop_last()), nodes.last().0, n);
    }
}

proof fn lemma_owed_room(s: HeapState, owed: Seq<Value>, keep: Option<RuntimeRegion>, n: nat)
    requires
        s.valid(),
        s.room(n),
    ensures
        owed_released(s, owed, keep).valid(),
        owed_released(s, owed, keep).room(n),
        owed_released(s, owed, keep).same_objects(s),
    decreases owed.len(),
{
    if owed.len() > 0 {
        lemma_owed_room(s, owed.drop_last(), keep, n);
        let before = owed_released(s, owed.drop_last(), keep);
        match before.region_of(owed.last()) {
            Some(r) => lemma_counts_only_fall(before, r.0, n),
            None => {},
        }
    }
}

proof fn lemma_mapped_room(s: HeapState, owed: Seq<MappedRegion>, keep: Option<RuntimeRegion>, n: nat)
    requires
        s.valid(),
        s.room(n),
    ensures
        mapped_released(s, owed, keep).valid(),
        mapped_released(s, owed, keep).room(n),
        mapped_released(s, owed, keep).same_objects(s),
    decreases owed.len(),
{
    if owed.len() > 0 {
        lemma_mapped_room(s, owed.drop_last(), keep, n);
        lemma_counts_only_fall(mapped_released(s, owed.drop_last(), keep), owed.last().region.0, n);
    }
}

/// Discharging a fiber allocates nothing and takes no reference.
pub proof fn lemma_discharged_room(s: HeapState, f: Fiber, n: nat)
    requires
        s.valid(),
        s.room(n),
    ensures
        fiber_discharged(s, f).valid(),
        fiber_discharged(s, f).room(n),
        fiber_discharged(s, f).same_objects(s),
{
    let frames = chain(f.suspended);
    let keep = kept_region(s, f.protected());
    lemma_nodes_room(s, chain_nodes(frames), n);
    let a = nodes_released(s, chain_nodes(frames));
    lemma_owed_room(a, chain_owed(frames), keep, n);
    let b = owed_released(a, chain_owed(frames), keep);
    lemma_mapped_room(b, chain_owed_regions(frames), keep, n);
    let c = mapped_released(b, chain_owed_regions(frames), keep);
    match f.dischargeable() {
        Some((_, v)) => match c.region_of(v) {
            Some(r) => lemma_counts_only_fall(c, r.0, n),
            None => {},
        },
        None => {},
    }
    let d = signal_discarded(c, f.dischargeable());
    match f.fiber_owner_node {
        Some(r) => lemma_counts_only_fall(d, r.0, n),
        None => {},
    }
}

} // verus!
