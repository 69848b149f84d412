//! Fiber introspection and management primitives.

use vstd::prelude::*;

use crate::ctx::{birth, born, with_keyword, Alloc};
use crate::fiber::{fiber_discharged, kill_fiber, killed, Fiber, FiberStatus};
use crate::fibers::{last_value, signal_value};
use crate::fibertable::FiberTable;
use crate::heap::{keyword_value, EscapeSite, FiberHeap, HeapState};
use crate::object::{HeapObject, HeapTag, Pair};
use crate::prim::{
    arg_or_nil, as_fiber, fail, failed, fiber_handle, optional_arg, returned, type_error, type_error_text,
};
use crate::refcount::{
    denial_displaced, release_displaced_denial_payload, release_displaced_terminal_signal,
    terminal_displaced, terminal_parked,
};
use crate::registry::{names_in, SignalRegistry};
use crate::signalbits::SignalBits;
use crate::signals::{
    CAP_MASK, SIG_ABORT, SIG_ERROR, SIG_OK, SIG_PROPAGATE, SIG_QUERY, SIG_TERMINAL,
};
use crate::symbol::{interned, interned_all};
use crate::value::Value;

verus! {

/// The signal bits of a fiber's last signal, none where there is no signal.
pub open spec fn signal_bits(f: Fiber) -> SignalBits {
    match f.signal {
        Some((bits, _)) => bits,
        None => SignalBits::new(SIG_OK),
    }
}

/// What `fiber/bits` gives.
pub open spec fn bits_given(
    ctx: Alloc,
    heap: FiberHeap,
    heap_after: FiberHeap,
    fibers: FiberTable,
    args: Vec<Value>,
    kinds: Vec<String>,
    r: (SignalBits, Value),
) -> bool {
    &&& match fiber_handle(heap@, args@[0]) {
            None => failed(
                heap@,
                heap_after@,
                ctx.home(),
                "type-error"@,
                type_error_text("fiber/bits"@, "fiber"@, kinds@[0]@),
                r,
            ),
            Some(h) => heap_after@ == heap@ && r == returned(
                Value::integer(signal_bits(fibers.fiber(h)).bits as i64),
            ),
        }
}

/// `(fiber/bits fiber)`: the signal bits of the fiber's last signal, as an
/// integer.
pub fn prim_fiber_bits(
    ctx: &Alloc,
    heap: &mut FiberHeap,
    fibers: &FiberTable,
    args: &Vec<Value>,
    kinds: &Vec<String>,
) -> (r: (SignalBits, Value))
    requires
        kinds@.len() == args@.len(),
        args@.len() >= 1,
        ctx.ready(old(heap)@, 8),
        fiber_handle(old(heap)@, args@[0]) is Some ==> fibers.present(
            fiber_handle(old(heap)@, args@[0])->0,
        ),
    ensures
        bits_given(
            *ctx,
            *old(heap),
            *final(heap),
            *fibers,
            *args,
            *kinds,
            r,
        ),
{
    match as_fiber(heap, args[0]) {
        None => type_error(ctx, heap, &kinds[0], "fiber/bits", "fiber"),
        Some(h) => {
            let bits = match fibers.get(h).signal {
                Some((bits, _)) => bits,
                None => SignalBits::new(SIG_OK),
            };
            (SignalBits::new(SIG_OK), Value::integer(bits.raw() as i64))
        },
    }
}

/// What `fiber/mask` gives.
pub open spec fn mask_given(
    ctx: Alloc,
    heap: FiberHeap,
    heap_after: FiberHeap,
    fibers: FiberTable,
    args: Vec<Value>,
    kinds: Vec<String>,
    r: (SignalBits, Value),
) -> bool {
    &&& match fiber_handle(heap@, args@[0]) {
            None => failed(
                heap@,
                heap_after@,
                ctx.home(),
                "type-error"@,
                type_error_text("fiber/mask"@, "fiber"@, kinds@[0]@),
                r,
            ),
            Some(h) => heap_after@ == heap@ && r == returned(
                Value::integer(fibers.fiber(h).mask.bits as i64),
            ),
        }
}

/// `(fiber/mask fiber)`: the fiber's signal mask, as an integer.
pub fn prim_fiber_mask(
    ctx: &Alloc,
    heap: &mut FiberHeap,
    fibers: &FiberTable,
    args: &Vec<Value>,
    kinds: &Vec<String>,
) -> (r: (SignalBits, Value))
    requires
        kinds@.len() == args@.len(),
        args@.len() >= 1,
        ctx.ready(old(heap)@, 8),
        fiber_handle(old(heap)@, args@[0]) is Some ==> fibers.present(
            fiber_handle(old(heap)@, args@[0])->0,
        ),
    ensures
        mask_given(
            *ctx,
            *old(heap),
            *final(heap),
            *fibers,
            *args,
            *kinds,
            r,
        ),
{
    match as_fiber(heap, args[0]) {
        None => type_error(ctx, heap, &kinds[0], "fiber/mask", "fiber"),
        Some(h) => (SignalBits::new(SIG_OK), Value::integer(fibers.get(h).mask.raw() as i64)),
    }
}

/// What `fiber/parent` gives.
pub open spec fn parent_given(
    ctx: Alloc,
    heap: FiberHeap,
    heap_after: FiberHeap,
    fibers: FiberTable,
    args: Vec<Value>,
    kinds: Vec<String>,
    r: (SignalBits, Value),
) -> bool {
    &&& match fiber_handle(heap@, args@[0]) {
            None => failed(
                heap@,
                heap_after@,
                ctx.home(),
                "type-error"@,
                type_error_text("fiber/parent"@, "fiber"@, kinds@[0]@),
                r,
            ),
            Some(h) => match fibers.fiber(h).parent {
                Some(p) if fibers.held(p) => r.0 == SignalBits::new(SIG_OK) && born(
                    heap@,
                    heap_after@,
                    ctx.home(),
                    r.1,
                ) && birth(heap_after@) == (HeapObject::Fiber { handle: p, traits: Value::nil() }),
                _ => heap_after@ == heap@ && r == returned(Value::nil()),
            },
        }
}

/// `(fiber/parent fiber)`: a fresh value for the parent fiber while that fiber
/// still exists, else nil. The value cached at the resume is never read.
pub fn prim_fiber_parent(
    ctx: &Alloc,
    heap: &mut FiberHeap,
    fibers: &FiberTable,
    args: &Vec<Value>,
    kinds: &Vec<String>,
) -> (r: (SignalBits, Value))
    requires
        kinds@.len() == args@.len(),
        args@.len() >= 1,
        ctx.ready(old(heap)@, 8),
        fiber_handle(old(heap)@, args@[0]) is Some ==> fibers.present(
            fiber_handle(old(heap)@, args@[0])->0,
        ),
    ensures
        parent_given(
            *ctx,
            *old(heap),
            *final(heap),
            *fibers,
            *args,
            *kinds,
            r,
        ),
{
    match as_fiber(heap, args[0]) {
        None => type_error(ctx, heap, &kinds[0], "fiber/parent", "fiber"),
        Some(h) => {
            if let Some(p) = fibers.get(h).parent {
                if fibers.is_held(p) {
                    return (SignalBits::new(SIG_OK), ctx.fiber_from_handle(heap, p));
                }
            }
            (SignalBits::new(SIG_OK), Value::nil())
        },
    }
}

/// What `fiber/child` gives.
pub open spec fn child_given(
    ctx: Alloc,
    heap: FiberHeap,
    heap_after: FiberHeap,
    fibers: FiberTable,
    args: Vec<Value>,
    kinds: Vec<String>,
    r: (SignalBits, Value),
) -> bool {
    &&& match fiber_handle(heap@, args@[0]) {
            None => failed(
                heap@,
                heap_after@,
                ctx.home(),
                "type-error"@,
                type_error_text("fiber/child"@, "fiber"@, kinds@[0]@),
                r,
            ),
            Some(h) => heap_after@ == heap@ && r == returned(
                match fibers.fiber(h).child_value {
                    Some(v) => v,
                    None => Value::nil(),
                },
            ),
        }
}

/// `(fiber/child fiber)`: the most recently resumed child fiber, or nil.
pub fn prim_fiber_child(
    ctx: &Alloc,
    heap: &mut FiberHeap,
    fibers: &FiberTable,
    args: &Vec<Value>,
    kinds: &Vec<String>,
) -> (r: (SignalBits, Value))
    requires
        kinds@.len() == args@.len(),
        args@.len() >= 1,
        ctx.ready(old(heap)@, 8),
        fiber_handle(old(heap)@, args@[0]) is Some ==> fibers.present(
            fiber_handle(old(heap)@, args@[0])->0,
        ),
    ensures
        child_given(
            *ctx,
            *old(heap),
            *final(heap),
            *fibers,
            *args,
            *kinds,
            r,
        ),
{
    match as_fiber(heap, args[0]) {
        None => type_error(ctx, heap, &kinds[0], "fiber/child", "fiber"),
        Some(h) => {
            let v = match fibers.get(h).child_value {
                Some(v) => v,
                None => Value::nil(),
            };
            (SignalBits::new(SIG_OK), v)
        },
    }
}

/// What `fiber/propagate` does.
pub open spec fn propagation_asked(
    ctx: Alloc,
    heap: FiberHeap,
    heap_after: FiberHeap,
    fibers: FiberTable,
    args: Vec<Value>,
    kinds: Vec<String>,
    r: (SignalBits, Value),
) -> bool {
    &&& match fiber_handle(heap@, args@[0]) {
            None => failed(
                heap@,
                heap_after@,
                ctx.home(),
                "type-error"@,
                type_error_text("fiber/propagate"@, "fiber"@, kinds@[0]@),
                r,
            ),
            Some(h) => {
                let f = fibers.fiber(h);
                if (f.status == FiberStatus::Error || f.status == FiberStatus::Paused)
                    && f.signal is Some {
                    heap_after@ == heap@ && r == (SignalBits::new(SIG_PROPAGATE), args@[0])
                } else {
                    failed(
                        heap@,
                        heap_after@,
                        ctx.home(),
                        "internal-error"@,
                        "fiber/propagate: fiber must be errored or paused with a signal"@,
                        r,
                    )
                }
            },
        }
}

/// `(fiber/propagate fiber)`: ask the VM to propagate the signal of an errored
/// or paused fiber.
pub fn prim_fiber_propagate(
    ctx: &Alloc,
    heap: &mut FiberHeap,
    fibers: &FiberTable,
    args: &Vec<Value>,
    kinds: &Vec<String>,
) -> (r: (SignalBits, Value))
    requires
        kinds@.len() == args@.len(),
        args@.len() >= 1,
        ctx.ready(old(heap)@, 8),
        fiber_handle(old(heap)@, args@[0]) is Some ==> fibers.present(
            fiber_handle(old(heap)@, args@[0])->0,
        ),
    ensures
        propagation_asked(
            *ctx,
            *old(heap),
            *final(heap),
            *fibers,
            *args,
            *kinds,
            r,
        ),
{
    match as_fiber(heap, args[0]) {
        None => type_error(ctx, heap, &kinds[0], "fiber/propagate", "fiber"),
        Some(h) => {
            let f = fibers.get(h);
            let stopped = match f.status {
                FiberStatus::Error => true,
                FiberStatus::Paused => true,
                _ => false,
            };
            if stopped && f.signal.is_some() {
                (SignalBits::new(SIG_PROPAGATE), args[0])
            } else {
                fail(
                    ctx,
                    heap,
                    "internal-error",
                    &"fiber/propagate: fiber must be errored or paused with a signal".to_string(),
                )
            }
        },
    }
}

/// The heap once fiber `f` is killed with `error`.
pub open spec fn kill_settled(s: HeapState, f: Fiber, fiber_value: Value, error: Value) -> HeapState {
    terminal_parked(
        fiber_discharged(s, f),
        fiber_value,
        Some((SignalBits::new(SIG_ERROR), error)),
    )
}

/// What `fiber/cancel` does.
pub open spec fn cancel_asked(
    ctx: Alloc,
    heap: FiberHeap,
    heap_after: FiberHeap,
    fibers: FiberTable,
    fibers_after: FiberTable,
    args: Vec<Value>,
    kinds: Vec<String>,
    r: (SignalBits, Value),
) -> bool {
    &&& match fiber_handle(heap@, args@[0]) {
            None => fibers_after.slots@ == fibers.slots@ && failed(
                heap@,
                heap_after@,
                ctx.home(),
                "type-error"@,
                type_error_text("fiber/cancel"@, "fiber"@, kinds@[0]@),
                r,
            ),
            Some(h) => {
                let f = fibers.fiber(h);
                let error = arg_or_nil(args@, 1);
                if !fibers.present(h) || f.status == FiberStatus::Alive {
                    &&& fibers_after.slots@ == fibers.slots@
                    &&& heap_after@ == heap@
                    &&& r == (SignalBits { bits: SIG_ERROR | SIG_TERMINAL }, error)
                } else if f.status == FiberStatus::New || f.status == FiberStatus::Paused {
                    &&& fibers_after.slots@ == fibers.updated(h, killed(f, error))
                    &&& heap_after@ == kill_settled(heap@, f, args@[0], error)
                    &&& heap_after@.valid()
                    &&& r == returned(error)
                } else {
                    fibers_after.slots@ == fibers.slots@ && failed(
                        heap@,
                        heap_after@,
                        ctx.home(),
                        "state-error"@,
                        if f.status == FiberStatus::Dead {
                            "fiber/cancel: cannot cancel a completed fiber"@
                        } else {
                            "fiber/cancel: fiber already errored"@
                        },
                        r,
                    )
                }
            },
        }
}

/// `(fiber/cancel fiber [value])`: hard-kill a fiber without unwinding it. A
/// running fiber that cancels itself gets a terminal error.
pub fn prim_fiber_cancel(
    ctx: &Alloc,
    heap: &mut FiberHeap,
    fibers: &mut FiberTable,
    args: &Vec<Value>,
    kinds: &Vec<String>,
) -> (r: (SignalBits, Value))
    requires
        kinds@.len() == args@.len(),
        args@.len() >= 1,
        ctx.ready(old(heap)@, 8),
    ensures
        cancel_asked(
            *ctx,
            *old(heap),
            *final(heap),
            *old(fibers),
            *final(fibers),
            *args,
            *kinds,
            r,
        ),
{
    let h: u32 = match as_fiber(heap, args[0]) {
        Some(h) => h,
        None => {
            return type_error(ctx, heap, &kinds[0], "fiber/cancel", "fiber");
        },
    };
    let error = optional_arg(args, 1);
    let own = SignalBits::new(SIG_ERROR | SIG_TERMINAL);
    if !fibers.is_present(h) {
        return (own, error);
    }
    match fibers.get(h).status {
        FiberStatus::Alive => (own, error),
        FiberStatus::New | FiberStatus::Paused => {
            let mut f = fibers.take(h);
            kill_fiber(heap, &mut f, args[0], error);
            let ghost dead = f;
            fibers.put(h, f);
            assert(fibers.slots@ =~= old(fibers).updated(h, dead));
            (SignalBits::new(SIG_OK), error)
        },
        FiberStatus::Dead => fail(
            ctx,
            heap,
            "state-error",
            &"fiber/cancel: cannot cancel a completed fiber".to_string(),
        ),
        FiberStatus::Error => fail(
            ctx,
            heap,
            "state-error",
            &"fiber/cancel: fiber already errored".to_string(),
        ),
    }
}

/// The heap once `error` is injected into a paused fiber: a displaced terminal
/// result and a displaced denial payload give up their reference, and the error
/// takes the one that its delivery consumes.
pub open spec fn injected(s: HeapState, f: Fiber, fiber_value: Value, error: Value) -> HeapState {
    let a = terminal_displaced(s, fiber_value, f.signal);
    let b = denial_displaced(a, f.signal, f.denial_payload);
    b.retained_opt(b.region_of(error))
}

/// The fiber once `error` is injected.
pub open spec fn injected_fiber(f: Fiber, error: Value) -> Fiber {
    Fiber {
        signal: Some((SignalBits::new(SIG_ERROR), error)),
        denial_payload: None,
        ..f
    }
}

/// Install `error` as raised at a paused fiber's suspension point. The signal
/// asks the VM to resume the fiber there.
fn inject_error_at_suspension(
    heap: &mut FiberHeap,
    fibers: &mut FiberTable,
    fiber_value: Value,
    h: u32,
    error: Value,
) -> (r: (SignalBits, Value))
    requires
        old(heap)@.valid(),
        old(heap)@.room(1),
        old(fibers).present(h),
    ensures
        final(heap)@ == injected(old(heap)@, old(fibers).fiber(h), fiber_value, error),
        final(heap)@.valid(),
        final(fibers).slots@ == old(fibers).updated(h, injected_fiber(old(fibers).fiber(h), error)),
        r == (SignalBits::new(SIG_ABORT), fiber_value),
{
    let ghost start = heap@;
    let mut f = fibers.take(h);
    release_displaced_terminal_signal(heap, fiber_value, f.signal);
    let ghost a = heap@;
    release_displaced_denial_payload(heap, f.signal, f.denial_payload);
    proof {
        lemma_displaced_room(start, fiber_value, f.signal, f.denial_payload, 1);
    }
    f.signal = Some((SignalBits::new(SIG_ERROR), error));
    f.denial_payload = None;
    fibers.put(h, f);
    let region = heap.region_of(error);
    heap.incref_for_escape(region, EscapeSite::AbortDelivery);
    (SignalBits::new(SIG_ABORT), fiber_value)
}

/// Displacing a parked signal takes no reference.
proof fn lemma_displaced_room(
    s: HeapState,
    fiber_value: Value,
    parked: Option<(SignalBits, Value)>,
    denial: Option<Value>,
    n: nat,
)
    requires
        s.valid(),
        s.room(n),
        terminal_displaced(s, fiber_value, parked).valid(),
    ensures
        denial_displaced(terminal_displaced(s, fiber_value, parked), parked, denial).room(n),
{
    let a = terminal_displaced(s, fiber_value, parked);
    match parked {
        Some((bits, v)) => {
            let r = s.region_of(v);
            if crate::refcount::terminal(bits) && r is Some {
                let i = s.target(v)->0;
                assert(s.owners[i] < s.counts.len());
                let mid = s.edge_unrecorded(s.region_of(fiber_value), r);
                crate::heap::lemma_edge_unrecorded(s, s.region_of(fiber_value), r);
                crate::fiber::lemma_counts_only_fall(mid, (r->0).0, n);
                assert(a.room(n));
            }
            if denial == Some(v) && a.region_of(v) is Some {
                crate::fiber::lemma_counts_only_fall(a, (a.region_of(v)->0).0, n);
            }
        },
        None => {},
    }
}

/// What `fiber/refuse` does.
pub open spec fn refusal_asked(
    ctx: Alloc,
    heap: FiberHeap,
    heap_after: FiberHeap,
    fibers: FiberTable,
    fibers_after: FiberTable,
    args: Vec<Value>,
    kinds: Vec<String>,
    r: (SignalBits, Value),
) -> bool {
    &&& match fiber_handle(heap@, args@[0]) {
            None => fibers_after.slots@ == fibers.slots@ && failed(
                heap@,
                heap_after@,
                ctx.home(),
                "type-error"@,
                type_error_text("fiber/refuse"@, "fiber"@, kinds@[0]@),
                r,
            ),
            Some(h) => {
                let f = fibers.fiber(h);
                let error = arg_or_nil(args@, 1);
                if f.status == FiberStatus::Paused {
                    &&& heap_after@ == injected(heap@, f, args@[0], error)
                    &&& heap_after@.valid()
                    &&& fibers_after.slots@ == fibers.updated(h, injected_fiber(f, error))
                    &&& r == (SignalBits::new(SIG_ABORT), args@[0])
                } else {
                    fibers_after.slots@ == fibers.slots@ && failed(
                        heap@,
                        heap_after@,
                        ctx.home(),
                        "state-error"@,
                        "fiber/refuse: expected a paused fiber, got :"@ + f.status.text(),
                        r,
                    )
                }
            },
        }
}

/// `(fiber/refuse fiber [error])`: raise `error` at the call a paused fiber is
/// suspended on. No other state has such a call.
pub fn prim_fiber_refuse(
    ctx: &Alloc,
    heap: &mut FiberHeap,
    fibers: &mut FiberTable,
    args: &Vec<Value>,
    kinds: &Vec<String>,
) -> (r: (SignalBits, Value))
    requires
        kinds@.len() == args@.len(),
        args@.len() >= 1,
        ctx.ready(old(heap)@, 8),
        fiber_handle(old(heap)@, args@[0]) is Some ==> old(fibers).present(
            fiber_handle(old(heap)@, args@[0])->0,
        ),
    ensures
        refusal_asked(
            *ctx,
            *old(heap),
            *final(heap),
            *old(fibers),
            *final(fibers),
            *args,
            *kinds,
            r,
        ),
{
    let h: u32 = match as_fiber(heap, args[0]) {
        Some(h) => h,
        None => {
            return type_error(ctx, heap, &kinds[0], "fiber/refuse", "fiber");
        },
    };
    let error = optional_arg(args, 1);
    let status = fibers.get(h).status;
    match status {
        FiberStatus::Paused => inject_error_at_suspension(heap, fibers, args[0], h, error),
        other => {
            let mut msg = "fiber/refuse: expected a paused fiber, got :".to_string();
            msg.append(other.as_str());
            fail(ctx, heap, "state-error", &msg)
        },
    }
}

/// What `fiber/abort` does.
pub open spec fn abort_asked(
    ctx: Alloc,
    heap: FiberHeap,
    heap_after: FiberHeap,
    fibers: FiberTable,
    fibers_after: FiberTable,
    args: Vec<Value>,
    kinds: Vec<String>,
    r: (SignalBits, Value),
) -> bool {
    &&& match fiber_handle(heap@, args@[0]) {
            None => fibers_after.slots@ == fibers.slots@ && failed(
                heap@,
                heap_after@,
                ctx.home(),
                "type-error"@,
                type_error_text("fiber/abort"@, "fiber"@, kinds@[0]@),
                r,
            ),
            Some(h) => {
                let f = fibers.fiber(h);
                let error = arg_or_nil(args@, 1);
                match f.status {
                    FiberStatus::Paused => {
                        &&& heap_after@ == injected(heap@, f, args@[0], error)
                        &&& heap_after@.valid()
                        &&& fibers_after.slots@ == fibers.updated(h, injected_fiber(f, error))
                        &&& r == (SignalBits::new(SIG_ABORT), args@[0])
                    },
                    FiberStatus::New => {
                        &&& fibers_after.slots@ == fibers.updated(h, killed(f, error))
                        &&& heap_after@ == kill_settled(heap@, f, args@[0], error)
                        &&& heap_after@.valid()
                        &&& r == returned(error)
                    },
                    FiberStatus::Alive => fibers_after.slots@ == fibers.slots@ && failed(
                        heap@,
                        heap_after@,
                        ctx.home(),
                        "state-error"@,
                        "fiber/abort: cannot abort a running fiber"@,
                        r,
                    ),
                    FiberStatus::Dead => {
                        &&& fibers_after.slots@ == fibers.slots@
                        &&& heap_after@ == heap@
                        &&& r == returned(signal_value(f))
                    },
                    FiberStatus::Error => fibers_after.slots@ == fibers.slots@ && failed(
                        heap@,
                        heap_after@,
                        ctx.home(),
                        "state-error"@,
                        "fiber/abort: fiber already errored"@,
                        r,
                    ),
                }
            },
        }
}

/// `(fiber/abort fiber [error])`: end a fiber by an error raised where it
/// stopped, so that its cleanup runs. A fiber that never started is killed, a
/// completed one is left as it is and its value returned.
pub fn prim_fiber_abort(
    ctx: &Alloc,
    heap: &mut FiberHeap,
    fibers: &mut FiberTable,
    args: &Vec<Value>,
    kinds: &Vec<String>,
) -> (r: (SignalBits, Value))
    requires
        kinds@.len() == args@.len(),
        args@.len() >= 1,
        ctx.ready(old(heap)@, 8),
        fiber_handle(old(heap)@, args@[0]) is Some ==> old(fibers).present(
            fiber_handle(old(heap)@, args@[0])->0,
        ),
    ensures
        abort_asked(
            *ctx,
            *old(heap),
            *final(heap),
            *old(fibers),
            *final(fibers),
            *args,
            *kinds,
            r,
        ),
{
    let h: u32 = match as_fiber(heap, args[0]) {
        Some(h) => h,
        None => {
            return type_error(ctx, heap, &kinds[0], "fiber/abort", "fiber");
        },
    };
    let error = optional_arg(args, 1);
    let status = fibers.get(h).status;
    match status {
        FiberStatus::Paused => inject_error_at_suspension(heap, fibers, args[0], h, error),
        FiberStatus::New => {
            let mut f = fibers.take(h);
            kill_fiber(heap, &mut f, args[0], error);
            let ghost dead = f;
            fibers.put(h, f);
            assert(fibers.slots@ =~= old(fibers).updated(h, dead));
            (SignalBits::new(SIG_OK), error)
        },
        FiberStatus::Alive => fail(
            ctx,
            heap,
            "state-error",
            &"fiber/abort: cannot abort a running fiber".to_string(),
        ),
        FiberStatus::Dead => (SignalBits::new(SIG_OK), last_value(fibers.get(h))),
        FiberStatus::Error => fail(
            ctx,
            heap,
            "state-error",
            &"fiber/abort: fiber already errored".to_string(),
        ),
    }
}

/// The keyword values of some spellings, each interned in turn.
pub open spec fn keyword_values(keywords: Seq<Seq<char>>, names: Seq<Seq<char>>) -> Seq<Value>
    decreases names.len(),
{
    if names.len() == 0 {
        Seq::empty()
    } else {
        keyword_values(keywords, names.drop_last()).push(
            keyword_value(interned_all(keywords, names), names.last()),
        )
    }
}

/// Intern the spellings, and give their keywords.
pub fn keywords_for(heap: &mut FiberHeap, names: &Vec<String>) -> (r: Vec<Value>)
    requires
        old(heap)@.keywords.len() + names@.len() <= u32::MAX,
    ensures
        final(heap)@ == (HeapState {
            keywords: interned_all(old(heap)@.keywords, crate::text::texts(names@)),
            ..old(heap)@
        }),
        r@ == keyword_values(old(heap)@.keywords, crate::text::texts(names@)),
        r@.len() == names@.len(),
        final(heap)@.keywords.len() <= old(heap)@.keywords.len() + names@.len(),
{
    let ghost start = heap@;
    let ghost all = crate::text::texts(names@);
    let mut out: Vec<Value> = Vec::new();
    let mut i: usize = 0;
    assert(all.take(0) =~= Seq::empty());
    while i < names.len()
        invariant
            i <= names@.len(),
            all == crate::text::texts(names@),
            out@.len() == i,
            start.keywords.len() + names@.len() <= u32::MAX,
            heap@.keywords.len() <= start.keywords.len() + i,
            heap@ == (HeapState {
                keywords: interned_all(start.keywords, all.take(i as int)),
                ..start
            }),
            out@ == keyword_values(start.keywords, all.take(i as int)),
        decreases names.len() - i,
    {
        assert(all.take(i + 1).drop_last() =~= all.take(i as int));
        assert(all.take(i + 1).last() == names@[i as int]@);
        let v = heap.keyword(&names[i]);
        out.push(v);
        i = i + 1;
    }
    assert(all.take(i as int) =~= all);
    out
}

/// What `fiber/caps` gives.
pub open spec fn caps_given(
    ctx: Alloc,
    heap: FiberHeap,
    heap_after: FiberHeap,
    fibers: FiberTable,
    registry: SignalRegistry,
    args: Vec<Value>,
    kinds: Vec<String>,
    r: (SignalBits, Value),
) -> bool {
    &&& if args@.len() == 0 {
            let named = with_keyword(heap@, "fiber/caps"@);
            &&& r.0 == SignalBits::new(SIG_QUERY)
            &&& born(named, heap_after@, ctx.home(), r.1)
            &&& birth(heap_after@) == HeapObject::Pair(
                Pair {
                    first: keyword_value(named.keywords, "fiber/caps"@),
                    rest: Value::nil(),
                    traits: heap@.traits[HeapTag::Pair.slot()],
                },
            )
        } else {
            match fiber_handle(heap@, args@[0]) {
                None => failed(
                    heap@,
                    heap_after@,
                    ctx.home(),
                    "type-error"@,
                    type_error_text("fiber/caps"@, "fiber"@, kinds@[0]@),
                    r,
                ),
                Some(h) => {
                    let caps = SignalBits { bits: CAP_MASK & !fibers.fiber(h).withheld.bits };
                    let names = names_in(registry.entries@, caps);
                    let named = HeapState {
                        keywords: interned_all(heap@.keywords, names),
                        ..heap@
                    };
                    &&& r.0 == SignalBits::new(SIG_OK)
                    &&& born(named, heap_after@, ctx.home(), r.1)
                    &&& birth(heap_after@) is LSet
                    &&& birth(heap_after@)->LSet_data@ == keyword_values(
                        heap@.keywords,
                        names,
                    )
                    &&& birth(heap_after@)->LSet_traits == heap@.traits[HeapTag::LSet.slot()]
                },
            }
        }
}

/// `(fiber/caps [fiber])`: the fiber's capabilities as a set of keywords, which
/// follows the registry until `FiberHeap::order_set` puts it in order. Without a
/// fiber the VM is asked about the current one.
pub fn prim_fiber_caps(
    ctx: &Alloc,
    heap: &mut FiberHeap,
    fibers: &FiberTable,
    registry: &SignalRegistry,
    args: &Vec<Value>,
    kinds: &Vec<String>,
) -> (r: (SignalBits, Value))
    requires
        kinds@.len() == args@.len(),
        ctx.ready(old(heap)@, registry.entries@.len() * 2 + 8),
        args@.len() >= 1 && fiber_handle(old(heap)@, args@[0]) is Some ==> fibers.present(
            fiber_handle(old(heap)@, args@[0])->0,
        ),
    ensures
        caps_given(
            *ctx,
            *old(heap),
            *final(heap),
            *fibers,
            *registry,
            *args,
            *kinds,
            r,
        ),
{
    if args.len() == 0 {
        let name = heap.keyword(&"fiber/caps".to_string());
        let v = ctx.pair(heap, name, Value::nil());
        return (SignalBits::new(SIG_QUERY), v);
    }
    match as_fiber(heap, args[0]) {
        None => type_error(ctx, heap, &kinds[0], "fiber/caps", "fiber"),
        Some(h) => {
            let caps = SignalBits::new(CAP_MASK).subtract(fibers.get(h).withheld);
            let names = registry.names(caps);
            let items = keywords_for(heap, &names);
            let v = ctx.set(heap, items);
            (SignalBits::new(SIG_OK), v)
        },
    }
}

} // verus!
