//! What becomes of the signal that a primitive leaves with.

use vstd::prelude::*;

use crate::ctx::{is_string, struct_fields, with_keyword, Alloc};
use crate::fiber::{BytecodeFrame, Code, Fiber, SuspendedFrame};
use crate::fiber_introspect::{keyword_values, keywords_for};
use crate::fields::{field_is, keys_sorted, put_field};
use crate::heap::{keyword_value, lemma_allocated, EscapeSite, FiberHeap, HeapState, RuntimeRegion};
use crate::object::{HeapObject, HeapTag, TableKey, push_values};
use crate::regionmap::{MappedRegion, RegionMap};
use crate::registry::{names_in, SignalRegistry};
use crate::signalbits::SignalBits;
use crate::signals::{SIG_ERROR, SIG_OK};
use crate::symbol::interned_all;
use crate::value::Value;
use crate::vm::VM;

verus! {

/// How a signal is routed.
#[derive(Clone, Copy, PartialEq, Eq, Structural, Debug)]
pub enum SignalAction {
    /// A result.
    Done,
    Resume,
    Propagate,
    Abort,
    Query,
    Error,
    Halt,
    Suspend,
}

/// What the dispatch loop does next.
#[derive(Clone, Copy, PartialEq, Eq, Structural, Debug)]
pub enum SignalStep {
    /// Go on with the next instruction.
    Continue,
    /// Leave with these bits.
    Exit(SignalBits),
    /// Drive the fiber, or answer the query, that the signal asks for.
    Drive,
}

/// The owner nodes once the current activation's node is moved out.
pub open spec fn node_taken(nodes: Seq<Option<RuntimeRegion>>) -> Seq<Option<RuntimeRegion>> {
    if nodes.len() == 0 {
        nodes
    } else {
        nodes.update(nodes.len() - 1, None)
    }
}

/// The current activation's owner node.
pub open spec fn top_node(nodes: Seq<Option<RuntimeRegion>>) -> Option<RuntimeRegion> {
    if nodes.len() == 0 {
        None
    } else {
        nodes.last()
    }
}

/// The current activation's region slots.
pub open spec fn top_slots(maps: Seq<RegionMap>) -> Map<u64, MappedRegion> {
    if maps.len() == 0 {
        Map::<u64, MappedRegion>::empty()
    } else {
        maps.last()@
    }
}

/// The frame holds an activation of `f`, to continue at `ip` with the resume
/// value on its stack.
pub open spec fn frame_of(frame: BytecodeFrame, f: Fiber, code: Code, env: Seq<Value>, ip: usize) -> bool {
    &&& frame.code == code
    &&& frame.env@ == env
    &&& frame.ip == ip
    &&& frame.stack@ == f.stack@
    &&& frame.push_resume_value
    &&& frame.activation_region_map@ == top_slots(f.activation_region_maps@)
    &&& frame.activation_owner_node == top_node(f.activation_owner_nodes@)
    &&& frame.current_closure == f.current_closure
}

/// The fiber parked its current activation: the stack and the owner node moved
/// into the one frame of the chain.
pub open spec fn parked(before: Fiber, after: Fiber, code: Code, env: Seq<Value>, ip: usize) -> bool {
    &&& after.stack@ == Seq::<Value>::empty()
    &&& after.activation_owner_nodes@ == node_taken(before.activation_owner_nodes@)
    &&& after.suspended is Some
    &&& (after.suspended->0)@.len() == 1
    &&& (after.suspended->0)@[0] is Bytecode
    &&& frame_of((after.suspended->0)@[0]->Bytecode_0, before, code, env, ip)
}

/// `obj` is a set of these values, with the default traits of sets.
pub open spec fn is_set_of(s: HeapState, obj: HeapObject, values: Seq<Value>) -> bool {
    match obj {
        HeapObject::LSet { data, traits } => data@ == values && traits == s.traits[HeapTag::LSet.slot()],
        _ => false,
    }
}

/// `obj` is an array of these values, with the default traits of arrays.
pub open spec fn is_array_of(s: HeapState, obj: HeapObject, values: Seq<Value>) -> bool {
    match obj {
        HeapObject::LArray { elements, traits } => elements@ == values && traits
            == s.traits[HeapTag::LArray.slot()],
        _ => false,
    }
}

/// A denial payload came between the two heaps, every part of it born in `home`:
/// which capabilities were denied, the primitive by name and as a value, and the
/// arguments.
pub open spec fn denial_made(
    before: HeapState,
    after: HeapState,
    home: RuntimeRegion,
    denied: Seq<Seq<char>>,
    name: Seq<char>,
    func: Value,
    args: Seq<Value>,
    payload: Value,
) -> bool {
    let n = before.objects.len() as int;
    let set_obj = after.objects[n];
    let name_obj = after.objects[n + 1];
    let args_obj = after.objects[n + 2];
    let whole = after.objects[n + 3];
    let s0 = HeapState { keywords: interned_all(before.keywords, denied), ..before };
    let s1 = s0.allocated(set_obj, home.0);
    let s2 = s1.allocated(name_obj, home.0);
    let s3 = s2.allocated(args_obj, home.0);
    let s4 = with_keyword(s3, "capability-denied"@);
    &&& after.valid()
    &&& after.objects.len() == n + 4
    &&& after == s4.allocated(whole, home.0)
    &&& payload == after.newest()
    &&& is_set_of(before, set_obj, keyword_values(before.keywords, denied))
    &&& is_string(before, name_obj, name)
    &&& is_array_of(before, args_obj, args)
    &&& whole is LStruct
    &&& whole->LStruct_traits == before.traits[HeapTag::LStruct.slot()]
    &&& keys_sorted(struct_fields(whole))
    &&& forall|field: Seq<char>, v: Value| #[trigger]
        field_is(struct_fields(whole), field, v) == (denial_field(
            keyword_value(s4.keywords, "capability-denied"@),
            s1.newest(),
            s2.newest(),
            func,
            s3.newest(),
            field,
        ) == Some(v))
}

/// What a field of a denial payload holds.
pub open spec fn denial_field(
    kind: Value,
    denied: Value,
    primitive: Value,
    func: Value,
    args: Value,
    field: Seq<char>,
) -> Option<Value> {
    if field == "error"@ {
        Some(kind)
    } else if field == "denied"@ {
        Some(denied)
    } else if field == "primitive"@ {
        Some(primitive)
    } else if field == "func"@ {
        Some(func)
    } else if field == "args"@ {
        Some(args)
    } else {
        None
    }
}

proof fn lemma_denial_names()
    ensures
        "error"@ != "denied"@,
        "error"@ != "primitive"@,
        "error"@ != "func"@,
        "error"@ != "args"@,
        "denied"@ != "primitive"@,
        "denied"@ != "func"@,
        "denied"@ != "args"@,
        "primitive"@ != "func"@,
        "primitive"@ != "args"@,
        "func"@ != "args"@,
{
    reveal_strlit("error");
    reveal_strlit("denied");
    reveal_strlit("primitive");
    reveal_strlit("func");
    reveal_strlit("args");
    assert("func"@[0] == 'f');
    assert("args"@[0] == 'a');
    assert("error"@.len() == 5);
    assert("denied"@.len() == 6);
    assert("primitive"@.len() == 9);
    assert("func"@.len() == 4);
    assert("args"@.len() == 4);
}

/// Build the payload `{:error :capability-denied :denied set :primitive name
/// :func primitive :args array}`, every part of it in the region of `ctx`.
pub fn build_denial_payload(
    ctx: &Alloc,
    heap: &mut FiberHeap,
    registry: &SignalRegistry,
    name: &'static str,
    func: Value,
    blocked: SignalBits,
    args: &Vec<Value>,
) -> (r: Value)
    requires
        ctx.ready(old(heap)@, registry.entries@.len() * 2 + args@.len() + 24),
    ensures
        denial_made(
            old(heap)@,
            final(heap)@,
            ctx.home(),
            names_in(registry.entries@, blocked),
            name@,
            func,
            args@,
            r,
        ),
        final(heap)@.room(1),
{
    let ghost start = heap@;
    let ghost k = registry.entries@.len();
    let ghost n = args@.len();
    let names = registry.names(blocked);
    let ghost m = names@.len();
    let keywords = keywords_for(heap, &names);
    let ghost s0 = heap@;
    proof {
        assert(s0.room(k + n + 24));
    }
    let denied = ctx.set(heap, keywords);
    let ghost s1 = heap@;
    proof {
        lemma_allocated(s0, s1.objects.last(), ctx.home().0);
        assert(s1.objects.last().children().len() == m + 1);
        assert(s1.room((k + n + 24 - (m + 1) - 1) as nat));
        assert(s1.room(n + 22));
    }
    let primitive = ctx.string(heap, &name.to_string());
    let ghost s2 = heap@;
    proof {
        lemma_allocated(s1, s2.objects.last(), ctx.home().0);
        assert(s2.objects.last().children().len() == 1);
        assert(s2.room((n + 22 - 1 - 1) as nat));
    }
    let mut copy: Vec<Value> = Vec::new();
    push_values(&mut copy, args);
    assert(copy@ =~= args@);
    let args_array = ctx.array(heap, copy);
    let ghost s3 = heap@;
    proof {
        lemma_allocated(s2, s3.objects.last(), ctx.home().0);
        assert(s3.objects.last().children().len() == n + 1);
        assert(s3.room((n + 20 - (n + 1) - 1) as nat));
        assert(s3.room(18));
    }
    let kind = heap.keyword(&"capability-denied".to_string());
    let ghost s4 = heap@;
    assert(s4.room(17));
    let mut fields: Vec<(TableKey, Value)> = Vec::new();
    proof {
        lemma_denial_names();
        assert forall|field: Seq<char>, v: Value| !(#[trigger] field_is(fields@, field, v)) by {}
    }
    put_field(&mut fields, "error".to_string(), kind);
    put_field(&mut fields, "denied".to_string(), denied);
    put_field(&mut fields, "primitive".to_string(), primitive);
    put_field(&mut fields, "func".to_string(), func);
    put_field(&mut fields, "args".to_string(), args_array);
    proof {
        lemma_denial_names();
        let now = fields@;
        assert forall|field: Seq<char>, v: Value| #[trigger] field_is(now, field, v) == (denial_field(
            kind,
            denied,
            primitive,
            func,
            args_array,
            field,
        ) == Some(v)) by {
            if field_is(now, field, v) {
                if field == "error"@ {
                    crate::fields::lemma_field_unique(now, field, v, kind);
                } else if field == "denied"@ {
                    crate::fields::lemma_field_unique(now, field, v, denied);
                } else if field == "primitive"@ {
                    crate::fields::lemma_field_unique(now, field, v, primitive);
                } else if field == "func"@ {
                    crate::fields::lemma_field_unique(now, field, v, func);
                } else if field == "args"@ {
                    crate::fields::lemma_field_unique(now, field, v, args_array);
                }
            }
        }
        assert(fields@.len() <= 5);
    }
    let r = ctx.struct_from_sorted(heap, fields);
    proof {
        lemma_allocated(s4, heap@.objects.last(), ctx.home().0);
        let c = start.objects.len() as int;
        assert(heap@.objects[c] == s1.objects.last());
        assert(heap@.objects[c + 1] == s2.objects.last());
        assert(heap@.objects[c + 2] == s3.objects.last());
        assert(heap@.room((17 - heap@.objects.last().children().len() - 1) as nat));
    }
    r
}

/// Where the signal of a primitive goes.
pub open spec fn routed(
    vm: VM,
    vm_after: VM,
    action: SignalAction,
    bits: SignalBits,
    value: Value,
    code: Code,
    env: Vec<Value>,
    ip: usize,
    r: SignalStep,
) -> bool {
    &&& match action {
            SignalAction::Done => {
                &&& r == SignalStep::Continue
                &&& vm_after.fiber.stack@ == vm.fiber.stack@.push(value)
                &&& vm_after == (VM {
                    fiber: Fiber { stack: vm_after.fiber.stack, ..vm.fiber },
                    ..vm
                })
            },
            SignalAction::Error => {
                &&& r == SignalStep::Continue
                &&& vm_after.fiber.stack@ == vm.fiber.stack@.push(Value::nil())
                &&& vm_after == (VM {
                    fiber: Fiber {
                        stack: vm_after.fiber.stack,
                        signal: Some((bits, value)),
                        ..vm.fiber
                    },
                    ..vm
                })
            },
            SignalAction::Halt => {
                &&& r == SignalStep::Exit(bits)
                &&& vm_after == (VM {
                    fiber: Fiber { signal: Some((bits, value)), ..vm.fiber },
                    ..vm
                })
            },
            SignalAction::Suspend => {
                &&& r == SignalStep::Exit(bits)
                &&& vm_after.heap@ == vm.heap@.retained_opt(
                    vm.heap@.region_of(value),
                )
                &&& vm_after.heap@.valid()
                &&& parked(vm.fiber, vm_after.fiber, code, env@, ip)
                &&& vm_after == (VM {
                    heap: vm_after.heap,
                    fiber: Fiber {
                        stack: vm_after.fiber.stack,
                        activation_owner_nodes: vm_after.fiber.activation_owner_nodes,
                        suspended: vm_after.fiber.suspended,
                        resume_value_unfunded: true,
                        signal: Some((bits, value)),
                        ..vm.fiber
                    },
                    ..vm
                })
            },
            _ => r == SignalStep::Drive && vm_after == vm,
        }
}

/// What becomes of the answer to a query.
pub open spec fn query_answered(
    vm: VM,
    vm_after: VM,
    sig: SignalBits,
    result: Value,
) -> bool {
    &&& if sig.meets(SignalBits::new(SIG_ERROR)) {
            &&& vm_after.fiber.stack@ == vm.fiber.stack@.push(Value::nil())
            &&& vm_after == (VM {
                fiber: Fiber {
                    stack: vm_after.fiber.stack,
                    signal: Some((sig, result)),
                    ..vm.fiber
                },
                ..vm
            })
        } else {
            &&& vm_after.fiber.stack@ == vm.fiber.stack@.push(result)
            &&& vm_after == (VM {
                fiber: Fiber { stack: vm_after.fiber.stack, ..vm.fiber },
                ..vm
            })
        }
}

/// What becomes of the answer to a query in tail position.
pub open spec fn query_answered_tail(
    vm: VM,
    vm_after: VM,
    sig: SignalBits,
    result: Value,
    r: SignalBits,
) -> bool {
    &&& r == sig
    &&& vm_after == (VM {
            fiber: Fiber { signal: Some((sig, result)), ..vm.fiber },
            ..vm
        })
}

/// What denying a primitive does.
pub open spec fn denial_handled(
    vm: VM,
    vm_after: VM,
    registry: SignalRegistry,
    name: &'static str,
    func: Value,
    blocked: SignalBits,
    args: Vec<Value>,
    code: Code,
    env: Vec<Value>,
    ip: usize,
    r: SignalBits,
) -> bool {
    &&& r == blocked
    &&& vm_after.fiber.signal is Some
    &&& denied(
            vm.heap@,
            vm_after.heap@,
            names_in(registry.entries@, blocked),
            name@,
            func,
            args@,
            (vm_after.fiber.signal->0).1,
        )
    &&& parked(vm.fiber, vm_after.fiber, code, env@, ip)
    &&& vm_after == (VM {
            heap: vm_after.heap,
            fiber: Fiber {
                stack: vm_after.fiber.stack,
                activation_owner_nodes: vm_after.fiber.activation_owner_nodes,
                suspended: vm_after.fiber.suspended,
                resume_value_unfunded: true,
                denial_payload: Some((vm_after.fiber.signal->0).1),
                signal: Some((blocked, (vm_after.fiber.signal->0).1)),
                ..vm.fiber
            },
            ..vm
        })
}

/// What denying a primitive in tail position does.
pub open spec fn denial_handled_tail(
    vm: VM,
    vm_after: VM,
    registry: SignalRegistry,
    name: &'static str,
    func: Value,
    blocked: SignalBits,
    args: Vec<Value>,
    r: SignalBits,
) -> bool {
    &&& r == blocked
    &&& denied_tail(
            vm,
            vm_after,
            names_in(registry.entries@, blocked),
            name@,
            func,
            blocked,
            args@,
        )
    &&& vm_after.heap@.valid()
}

/// What taking the owner node of the running activation does.
pub open spec fn owner_node_taken(
    vm: VM,
    vm_after: VM,
    r: Option<RuntimeRegion>,
) -> bool {
    &&& r == top_node(vm.fiber.activation_owner_nodes@)
    &&& vm_after.fiber.activation_owner_nodes@ == node_taken(
            vm.fiber.activation_owner_nodes@,
        )
    &&& vm_after == (VM {
            fiber: Fiber {
                activation_owner_nodes: vm_after.fiber.activation_owner_nodes,
                ..vm.fiber
            },
            ..vm
        })
}

impl VM {
    /// Move the current activation's owner node out of its place.
    pub fn take_activation_owner_node(&mut self) -> (r: Option<RuntimeRegion>)
        ensures
            owner_node_taken(
                *old(self),
                *final(self),
                r,
            ),
    {
        let n: usize = self.fiber.activation_owner_nodes.len();
        if n == 0 {
            return None;
        }
        let node = self.fiber.activation_owner_nodes[n - 1];
        self.fiber.activation_owner_nodes.set(n - 1, None);
        node
    }

    /// Park the current activation as the whole suspended chain.
    fn park_activation(&mut self, code: &Code, env: &Vec<Value>, ip: usize)
        ensures
            parked(old(self).fiber, final(self).fiber, *code, env@, ip),
            *final(self) == (VM {
                fiber: Fiber {
                    stack: final(self).fiber.stack,
                    activation_owner_nodes: final(self).fiber.activation_owner_nodes,
                    suspended: final(self).fiber.suspended,
                    ..old(self).fiber
                },
                ..*old(self)
            }),
    {
        let stack = self.fiber.stack.drain();
        let n: usize = self.fiber.activation_region_maps.len();
        let slots = if n == 0 {
            RegionMap::new()
        } else {
            self.fiber.activation_region_maps[n - 1].copy()
        };
        let node = self.take_activation_owner_node();
        let mut copied: Vec<Value> = Vec::new();
        push_values(&mut copied, env);
        assert(copied@ =~= env@);
        let frame = BytecodeFrame {
            code: code.copy(),
            env: copied,
            ip,
            stack,
            push_resume_value: true,
            activation_region_map: slots,
            activation_owner_node: node,
            current_closure: self.fiber.current_closure,
        };
        let mut frames: Vec<SuspendedFrame> = Vec::new();
        frames.push(SuspendedFrame::Bytecode(frame));
        self.fiber.suspended = Some(frames);
    }

    /// Route the signal of a primitive that was called from a frame which goes
    /// on: a result is pushed, an error is recorded, a halt leaves, a suspension
    /// takes a reference to what it yields and parks the frame. Fiber requests and
    /// queries are the driver's.
    pub fn handle_primitive_signal(
        &mut self,
        action: SignalAction,
        bits: SignalBits,
        value: Value,
        code: &Code,
        env: &Vec<Value>,
        ip: usize,
    ) -> (r: SignalStep)
        requires
            old(self).heap@.valid(),
            action == SignalAction::Suspend ==> old(self).heap@.room(1),
        ensures
            routed(
                *old(self),
                *final(self),
                action,
                bits,
                value,
                *code,
                *env,
                ip,
                r,
            ),
    {
        match action {
            SignalAction::Done => {
                self.fiber.stack.push(value);
                SignalStep::Continue
            },
            SignalAction::Error => {
                self.fiber.signal = Some((bits, value));
                self.fiber.stack.push(Value::nil());
                SignalStep::Continue
            },
            SignalAction::Halt => {
                self.fiber.signal = Some((bits, value));
                SignalStep::Exit(bits)
            },
            SignalAction::Suspend => {
                let region = self.heap.region_of(value);
                self.heap.incref_for_escape(region, EscapeSite::SuspendEscape);
                self.park_activation(code, env, ip);
                self.fiber.resume_value_unfunded = true;
                self.fiber.signal = Some((bits, value));
                SignalStep::Exit(bits)
            },
            _ => SignalStep::Drive,
        }
    }

    /// Take the answer to a query that a call made: an error becomes the fiber's
    /// signal, anything else the call's result.
    pub fn answer_query(&mut self, sig: SignalBits, result: Value)
        ensures
            query_answered(
                *old(self),
                *final(self),
                sig,
                result,
            ),
    {
        if sig.intersects(SignalBits::new(SIG_ERROR)) {
            self.fiber.signal = Some((sig, result));
            self.fiber.stack.push(Value::nil());
        } else {
            self.fiber.stack.push(result);
        }
    }

    /// Route the signal of a primitive in tail position. The outcome becomes the
    /// fiber's signal; a suspension takes a reference to what it yields. Fiber
    /// requests and queries are the driver's: nothing is returned for them.
    pub fn handle_primitive_signal_tail(
        &mut self,
        action: SignalAction,
        bits: SignalBits,
        value: Value,
    ) -> (r: Option<SignalBits>)
        requires
            old(self).heap@.valid(),
            action == SignalAction::Suspend ==> old(self).heap@.room(1),
        ensures
            tail_routed(*old(self), *final(self), action, bits, value, r),
    {
        match action {
            SignalAction::Done => {
                self.fiber.signal = Some((SignalBits::new(SIG_OK), value));
                Some(SignalBits::new(SIG_OK))
            },
            SignalAction::Suspend => {
                let region = self.heap.region_of(value);
                self.heap.incref_for_escape(region, EscapeSite::SuspendEscape);
                self.fiber.resume_value_unfunded = true;
                self.fiber.signal = Some((bits, value));
                Some(bits)
            },
            SignalAction::Error | SignalAction::Halt => {
                self.fiber.signal = Some((bits, value));
                Some(bits)
            },
            _ => None,
        }
    }

    /// Take the answer to a query that a tail call made: it becomes the fiber's
    /// signal.
    pub fn answer_query_tail(&mut self, sig: SignalBits, result: Value) -> (r: SignalBits)
        ensures
            query_answered_tail(
                *old(self),
                *final(self),
                sig,
                result,
                r,
            ),
    {
        self.fiber.signal = Some((sig, result));
        sig
    }

    /// Refuse a primitive whose signals meet the fiber's withheld capabilities:
    /// the fiber parks with a payload that tells what was denied. The set of what was
    /// denied follows the registry, until `FiberHeap::order_set` puts it in order.
    pub fn handle_capability_denial(
        &mut self,
        registry: &SignalRegistry,
        name: &'static str,
        func: Value,
        blocked: SignalBits,
        args: &Vec<Value>,
        code: &Code,
        env: &Vec<Value>,
        ip: usize,
    ) -> (r: SignalBits)
        requires
            old(self).heap@.valid(),
            old(self).heap@.room(registry.entries@.len() * 2 + args@.len() + 26),
        ensures
            denial_handled(
                *old(self),
                *final(self),
                *registry,
                name,
                func,
                blocked,
                *args,
                *code,
                *env,
                ip,
                r,
            ),
    {
        let payload = self.deny(registry, name, func, blocked, args);
        self.park_activation(code, env, ip);
        self.fiber.resume_value_unfunded = true;
        self.fiber.denial_payload = Some(payload);
        self.fiber.signal = Some((blocked, payload));
        blocked
    }

    /// The same in tail position, where no frame is parked here.
    pub fn handle_capability_denial_tail(
        &mut self,
        registry: &SignalRegistry,
        name: &'static str,
        func: Value,
        blocked: SignalBits,
        args: &Vec<Value>,
    ) -> (r: SignalBits)
        requires
            old(self).heap@.valid(),
            old(self).heap@.room(registry.entries@.len() * 2 + args@.len() + 26),
        ensures
            denial_handled_tail(
                *old(self),
                *final(self),
                *registry,
                name,
                func,
                blocked,
                *args,
                r,
            ),
    {
        let payload = self.deny(registry, name, func, blocked, args);
        self.fiber.resume_value_unfunded = true;
        self.fiber.denial_payload = Some(payload);
        self.fiber.signal = Some((blocked, payload));
        blocked
    }

    /// Build a denial payload in a region of its own, and take the reference that
    /// its escape into the signal needs.
    fn deny(
        &mut self,
        registry: &SignalRegistry,
        name: &'static str,
        func: Value,
        blocked: SignalBits,
        args: &Vec<Value>,
    ) -> (r: Value)
        requires
            old(self).heap@.valid(),
            old(self).heap@.room(registry.entries@.len() * 2 + args@.len() + 26),
        ensures
            denied(
                old(self).heap@,
                final(self).heap@,
                names_in(registry.entries@, blocked),
                name@,
                func,
                args@,
                r,
            ),
            final(self).heap@.valid(),
            *final(self) == (VM { heap: final(self).heap, ..*old(self) }),
    {
        let ghost start = self.heap@;
        let ctx = Alloc::new(&mut self.heap);
        let payload = build_denial_payload(
            &ctx,
            &mut self.heap,
            registry,
            name,
            func,
            blocked,
            args,
        );
        let ghost built = self.heap@;
        let region = self.heap.region_of(payload);
        self.heap.incref_for_escape(region, EscapeSite::SuspendEscape);
        assert(denial_made(
            start.with_region(),
            built,
            RuntimeRegion(start.counts.len() as u32),
            names_in(registry.entries@, blocked),
            name@,
            func,
            args@,
            payload,
        ));
        payload
    }
}

/// How a tail signal was routed.
pub open spec fn tail_routed(
    before: VM,
    after: VM,
    action: SignalAction,
    bits: SignalBits,
    value: Value,
    r: Option<SignalBits>,
) -> bool {
    match action {
        SignalAction::Done => {
            &&& r == Some(SignalBits::new(SIG_OK))
            &&& after == (VM {
                fiber: Fiber {
                    signal: Some((SignalBits::new(SIG_OK), value)),
                    ..before.fiber
                },
                ..before
            })
        },
        SignalAction::Suspend => {
            &&& r == Some(bits)
            &&& after.heap@ == before.heap@.retained_opt(before.heap@.region_of(value))
            &&& after.heap@.valid()
            &&& after == (VM {
                heap: after.heap,
                fiber: Fiber {
                    resume_value_unfunded: true,
                    signal: Some((bits, value)),
                    ..before.fiber
                },
                ..before
            })
        },
        SignalAction::Error => {
            &&& r == Some(bits)
            &&& after == (VM {
                fiber: Fiber { signal: Some((bits, value)), ..before.fiber },
                ..before
            })
        },
        SignalAction::Halt => {
            &&& r == Some(bits)
            &&& after == (VM {
                fiber: Fiber { signal: Some((bits, value)), ..before.fiber },
                ..before
            })
        },
        _ => r is None && after == before,
    }
}

/// A denial payload was built in a region of its own, and holds one reference
/// more for its escape.
pub open spec fn denied(
    before: HeapState,
    after: HeapState,
    names: Seq<Seq<char>>,
    name: Seq<char>,
    func: Value,
    args: Seq<Value>,
    payload: Value,
) -> bool {
    exists|built: HeapState| #[trigger]
        denial_made(
            before.with_region(),
            built,
            RuntimeRegion(before.counts.len() as u32),
            names,
            name,
            func,
            args,
            payload,
        ) && after == built.retained_opt(built.region_of(payload))
}

/// A primitive was denied in tail position.
pub open spec fn denied_tail(
    before: VM,
    after: VM,
    names: Seq<Seq<char>>,
    name: Seq<char>,
    func: Value,
    blocked: SignalBits,
    args: Seq<Value>,
) -> bool {
    &&& after.fiber.signal is Some
    &&& denied(
        before.heap@,
        after.heap@,
        names,
        name,
        func,
        args,
        (after.fiber.signal->0).1,
    )
    &&& after == (VM {
        heap: after.heap,
        fiber: Fiber {
            resume_value_unfunded: true,
            denial_payload: Some((after.fiber.signal->0).1),
            signal: Some((blocked, (after.fiber.signal->0).1)),
            ..before.fiber
        },
        ..before
    })
}

} // verus!
