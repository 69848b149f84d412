//! Fiber lifecycle primitives: creation, resumption, signalling, status and
//! value extraction.

use std::rc::Rc;

use vstd::prelude::*;

use crate::ctx::{with_keyword, Alloc};
use crate::fiber::{Fiber, FiberStatus};
use crate::fibertable::{fiber_born, FiberTable, Slot};
use crate::heap::{keyword_value, FiberHeap, HeapState, RuntimeRegion};
use crate::object::Closure;
use crate::params::{binding_count, bound, bound_in, distinct_ids, flatten_param_frames};
use crate::prim::{
    arg_or_nil, as_closure, as_fiber, closure_at, fail, failed, fiber_handle, optional_arg, returned,
    type_error, type_error_text,
};
use crate::refcount::{
    park_released, release_displaced_terminal_signal, release_parked_signal, terminal_displaced,
};
use crate::signalbits::SignalBits;
use crate::signals::{SIG_OK, SIG_RESUME};
use crate::text::{decimal, push_decimal};
use crate::value::{Value, TAG_KEYWORD};

verus! {

/// The spelling of a keyword value.
pub open spec fn keyword_text(keywords: Seq<Seq<char>>, v: Value) -> Option<Seq<char>> {
    if v.tag == TAG_KEYWORD && v.payload < keywords.len() && v.payload <= u32::MAX {
        Some(keywords[v.payload as int])
    } else {
        None
    }
}

/// What the arguments after closure and mask ask for.
pub enum NewOptions {
    /// The capabilities to withhold.
    Deny(SignalBits),
    /// `:deny` ends the call.
    MissingDeny,
    /// Not an option, at this place.
    Unexpected(usize),
    /// The value of `:deny` names no signals; this is how resolving it failed.
    Refused(SignalBits, Value),
}

/// Read the options from place `i` on. `resolved` holds what each argument means
/// as signal bits, or how resolving it fails. A later `:deny` replaces an
/// earlier one.
pub open spec fn options_from(
    keywords: Seq<Seq<char>>,
    args: Seq<Value>,
    resolved: Seq<Result<SignalBits, (SignalBits, Value)>>,
    i: int,
    deny: SignalBits,
) -> NewOptions
    decreases args.len() - i,
{
    if i >= args.len() {
        NewOptions::Deny(deny)
    } else if keyword_text(keywords, args[i]) != Some("deny"@) {
        NewOptions::Unexpected(i as usize)
    } else if i + 1 >= args.len() {
        NewOptions::MissingDeny
    } else {
        match resolved[i + 1] {
            Ok(bits) => options_from(keywords, args, resolved, i + 2, bits),
            Err((bits, v)) => NewOptions::Refused(bits, v),
        }
    }
}

fn read_options(
    heap: &FiberHeap,
    args: &Vec<Value>,
    resolved: &Vec<Result<SignalBits, (SignalBits, Value)>>,
) -> (r: NewOptions)
    requires
        resolved@.len() == args@.len(),
        args@.len() >= 2,
    ensures
        r == options_from(heap@.keywords, args@, resolved@, 2, SignalBits::empty()),
        r matches NewOptions::Unexpected(i) ==> i < args@.len(),
{
    let mut deny = SignalBits::empty();
    let mut i: usize = 2;
    while i < args.len()
        invariant
            resolved@.len() == args@.len(),
            i <= args@.len(),
            options_from(heap@.keywords, args@, resolved@, 2, SignalBits::empty()) == options_from(
                heap@.keywords,
                args@,
                resolved@,
                i as int,
                deny,
            ),
        decreases args.len() - i,
    {
        let is_deny = match heap.keyword_spelling(args[i]) {
            Some(s) => s == "deny".to_string(),
            None => false,
        };
        if !is_deny {
            return NewOptions::Unexpected(i);
        }
        if i + 1 >= args.len() {
            return NewOptions::MissingDeny;
        }
        match resolved[i + 1] {
            Ok(bits) => {
                deny = bits;
            },
            Err((bits, v)) => {
                return NewOptions::Refused(bits, v);
            },
        }
        i = i + 2;
    }
    NewOptions::Deny(deny)
}

/// How an argument that is no option is named; `kind` is how its type reads.
pub open spec fn option_name(keywords: Seq<Seq<char>>, v: Value, kind: Seq<char>) -> Seq<char> {
    match keyword_text(keywords, v) {
        Some(s) => s,
        None => kind,
    }
}

/// A new fiber of `closure`: it catches `mask`, lacks `deny`, and starts from
/// its creator's parameter bindings as they stand at its creation, each
/// parameter once, the innermost binding deciding.
pub open spec fn created(
    f: Fiber,
    closure: Closure,
    closure_value: Value,
    mask: SignalBits,
    deny: SignalBits,
    parent_frames: Seq<Vec<(u32, Value)>>,
) -> bool {
    &&& f.blank(mask)
    &&& f.status == FiberStatus::New
    &&& f.native_iter is None
    &&& f.closure.same(closure)
    &&& f.closure_value == closure_value
    &&& f.withheld == deny
    &&& f.param_baseline_seeded == (parent_frames.len() > 0)
    &&& if parent_frames.len() == 0 {
        f.param_frames@.len() == 0
    } else {
        &&& f.param_frames@.len() == 1
        &&& distinct_ids(f.param_frames@[0]@)
        &&& forall|id: u32| bound_in(f.param_frames@[0]@, id) == #[trigger] bound(parent_frames, id)
    }
}

/// What `fiber/new` does.
pub open spec fn fiber_made(
    ctx: Alloc,
    heap: FiberHeap,
    heap_after: FiberHeap,
    fibers: FiberTable,
    fibers_after: FiberTable,
    current: Fiber,
    args: Vec<Value>,
    kinds: Vec<String>,
    resolved: Vec<Result<SignalBits, (SignalBits, Value)>>,
    r: (SignalBits, Value),
) -> bool {
    &&& match closure_at(heap@, args@[0]) {
            None => fibers_after.slots@ == fibers.slots@ && failed(
                heap@,
                heap_after@,
                ctx.home(),
                "type-error"@,
                type_error_text("fiber/new"@, "closure"@, kinds@[0]@),
                r,
            ),
            Some(closure) => match resolved@[1] {
                Err(e) => fibers_after.slots@ == fibers.slots@ && heap_after@ == heap@ && r
                    == e,
                Ok(mask) => match options_from(
                    heap@.keywords,
                    args@,
                    resolved@,
                    2,
                    SignalBits::empty(),
                ) {
                    NewOptions::Refused(bits, v) => fibers_after.slots@ == fibers.slots@ && heap_after@
                        == heap@ && r == (bits, v),
                    NewOptions::MissingDeny => fibers_after.slots@ == fibers.slots@ && failed(
                        heap@,
                        heap_after@,
                        ctx.home(),
                        "arity-error"@,
                        "fiber/new: :deny requires a value"@,
                        r,
                    ),
                    NewOptions::Unexpected(i) => fibers_after.slots@ == fibers.slots@ && failed(
                        heap@,
                        heap_after@,
                        ctx.home(),
                        "argument-error"@,
                        "fiber/new: unexpected keyword argument :"@ + option_name(
                            heap@.keywords,
                            args@[i as int],
                            kinds@[i as int]@,
                        ),
                        r,
                    ),
                    NewOptions::Deny(deny) => {
                        let made = fibers_after.slots@.last()->Present_0;
                        &&& fibers_after.slots@ == fibers.slots@.push(Slot::Present(made))
                        &&& created(made, closure, args@[0], mask, deny, current.param_frames@)
                        &&& heap_after@ == fiber_born(
                            heap@,
                            ctx.home(),
                            fibers.slots@.len() as u32,
                            made,
                        )
                        &&& r == returned(heap_after@.newest())
                    },
                },
            },
        }
}

/// `(fiber/new fn mask [:deny bits])`: create a fiber from a closure and a
/// signal mask. `resolved` holds what each argument means as signal bits, or how
/// resolving it fails; `current` is the creating fiber.
pub fn prim_fiber_new(
    ctx: &Alloc,
    heap: &mut FiberHeap,
    fibers: &mut FiberTable,
    current: &Fiber,
    args: &Vec<Value>,
    kinds: &Vec<String>,
    resolved: &Vec<Result<SignalBits, (SignalBits, Value)>>,
) -> (r: (SignalBits, Value))
    requires
        kinds@.len() == args@.len(),
        args@.len() >= 2,
        resolved@.len() == args@.len(),
        old(fibers).slots@.len() < u32::MAX,
        ctx.ready(old(heap)@, binding_count(current.param_frames@) + 8),
    ensures
        fiber_made(
            *ctx,
            *old(heap),
            *final(heap),
            *old(fibers),
            *final(fibers),
            *current,
            *args,
            *kinds,
            *resolved,
            r,
        ),
{
    let closure = match as_closure(heap, args[0]) {
        Some(c) => Rc::new(c.copy()),
        None => {
            return type_error(ctx, heap, &kinds[0], "fiber/new", "closure");
        },
    };
    let mask = match resolved[1] {
        Ok(bits) => bits,
        Err(e) => {
            return e;
        },
    };
    let deny = match read_options(heap, args, resolved) {
        NewOptions::Deny(deny) => deny,
        NewOptions::Refused(bits, v) => {
            return (bits, v);
        },
        NewOptions::MissingDeny => {
            return fail(
                ctx,
                heap,
                "arity-error",
                &"fiber/new: :deny requires a value".to_string(),
            );
        },
        NewOptions::Unexpected(i) => {
            let mut msg = "fiber/new: unexpected keyword argument :".to_string();
            match heap.keyword_spelling(args[i]) {
                Some(s) => {
                    msg.append(s.as_str());
                },
                None => {
                    msg.append(kinds[i].as_str());
                },
            }
            return fail(ctx, heap, "argument-error", &msg);
        },
    };
    let mut fiber = Fiber::new(closure, mask);
    fiber.closure_value = args[0];
    fiber.withheld = deny;
    if current.param_frames.len() > 0 {
        let flat = flatten_param_frames(&current.param_frames);
        let mut frames: Vec<Vec<(u32, Value)>> = Vec::new();
        frames.push(flat);
        fiber.param_frames = frames;
        fiber.param_baseline_seeded = true;
    }
    let v = fibers.allocate(ctx, heap, fiber);
    (SignalBits::new(SIG_OK), v)
}

/// A fiber that a resume may start or continue.
pub open spec fn resumable(status: FiberStatus) -> bool {
    status == FiberStatus::New || status == FiberStatus::Paused || status == FiberStatus::Error
}

/// The heap once `v` is to be delivered into fiber `f`: the parked signal's
/// left-over reference and a displaced terminal result are given up.
pub open spec fn resume_released(s: HeapState, f: Fiber, fiber_value: Value, v: Value) -> HeapState {
    terminal_displaced(park_released(s, f.signal, f.denial_payload, v), fiber_value, f.signal)
}

/// What asking for a resume does: the fiber's signal is the value, and what it parked is
/// settled. A fiber that runs or is done is refused, as is what is no fiber.
pub open spec fn resume_asked(
    before: HeapState,
    after: HeapState,
    fibers: FiberTable,
    fibers_after: Seq<Slot>,
    home: RuntimeRegion,
    args: Seq<Value>,
    kinds: Seq<String>,
    r: (SignalBits, Value),
) -> bool {
    if args.len() == 0 || args.len() > 2 {
        fibers_after == fibers.slots@ && failed(
            before,
            after,
            home,
            "arity-error"@,
            "fiber/resume: expected 1-2 arguments, got "@ + decimal(args.len()),
            r,
        )
    } else {
        match fiber_handle(before, args[0]) {
            None => fibers_after == fibers.slots@ && failed(
                before,
                after,
                home,
                "type-error"@,
                type_error_text("fiber/resume"@, "fiber"@, kinds[0]@),
                r,
            ),
            Some(h) => {
                let f = fibers.fiber(h);
                let v = arg_or_nil(args, 1);
                if resumable(f.status) {
                    &&& after == resume_released(before, f, args[0], v)
                    &&& after.valid()
                    &&& fibers_after == fibers.updated(
                        h,
                        Fiber {
                            signal: Some((SignalBits::new(SIG_OK), v)),
                            denial_payload: None,
                            ..f
                        },
                    )
                    &&& r == (SignalBits::new(SIG_RESUME), args[0])
                } else {
                    fibers_after == fibers.slots@ && failed(
                        before,
                        after,
                        home,
                        "state-error"@,
                        if f.status == FiberStatus::Alive {
                            "fiber/resume: fiber is already running"@
                        } else {
                            "fiber/resume: cannot resume completed fiber"@
                        },
                        r,
                    )
                }
            },
        }
    }
}

/// `(fiber/resume fiber [value])`: validate the fiber, settle what it parked and
/// put the value into its signal. The signal asks the VM for the swap.
pub fn prim_fiber_resume(
    ctx: &Alloc,
    heap: &mut FiberHeap,
    fibers: &mut FiberTable,
    args: &Vec<Value>,
    kinds: &Vec<String>,
) -> (r: (SignalBits, Value))
    requires
        kinds@.len() == args@.len(),
        ctx.ready(old(heap)@, 8),
        1 <= args@.len() <= 2 && fiber_handle(old(heap)@, args@[0]) is Some ==> old(fibers).present(
            fiber_handle(old(heap)@, args@[0])->0,
        ),
    ensures
        resume_asked(
            old(heap)@,
            final(heap)@,
            *old(fibers),
            final(fibers).slots@,
            ctx.home(),
            args@,
            kinds@,
            r,
        ),
{
    if args.len() == 0 || args.len() > 2 {
        let mut msg = "fiber/resume: expected 1-2 arguments, got ".to_string();
        push_decimal(&mut msg, args.len() as u64);
        return fail(ctx, heap, "arity-error", &msg);
    }
    let h: u32 = match as_fiber(heap, args[0]) {
        Some(h) => h,
        None => {
            return type_error(ctx, heap, &kinds[0], "fiber/resume", "fiber");
        },
    };
    let v = optional_arg(args, 1);
    let status = fibers.get(h).status;
    match status {
        FiberStatus::Alive => {
            return fail(
                ctx,
                heap,
                "state-error",
                &"fiber/resume: fiber is already running".to_string(),
            );
        },
        FiberStatus::Dead => {
            return fail(
                ctx,
                heap,
                "state-error",
                &"fiber/resume: cannot resume completed fiber".to_string(),
            );
        },
        _ => {},
    }
    let mut f = fibers.take(h);
    release_parked_signal(heap, f.signal, f.denial_payload, v);
    release_displaced_terminal_signal(heap, args[0], f.signal);
    f.signal = Some((SignalBits::new(SIG_OK), v));
    f.denial_payload = None;
    let ghost ready = f;
    fibers.put(h, f);
    assert(fibers.slots@ =~= old(fibers).updated(h, ready));
    (SignalBits::new(SIG_RESUME), args[0])
}

/// `(emit bits value)`: the signal that the first argument resolved to, carrying
/// the second; or how resolving it failed.
pub fn prim_emit(args: &Vec<Value>, resolved: Result<SignalBits, (SignalBits, Value)>) -> (r: (
    SignalBits,
    Value,
))
    requires
        args@.len() >= 2,
    ensures
        r == match resolved {
            Ok(bits) => (bits, args@[1]),
            Err(e) => e,
        },
{
    match resolved {
        Ok(bits) => (bits, args[1]),
        Err(e) => e,
    }
}

/// What `fiber/status` gives.
pub open spec fn status_given(
    ctx: Alloc,
    heap: FiberHeap,
    heap_after: FiberHeap,
    fibers: FiberTable,
    args: Vec<Value>,
    kinds: Vec<String>,
    r: (SignalBits, Value),
) -> bool {
    &&& match fiber_handle(heap@, args@[0]) {
            None => failed(
                heap@,
                heap_after@,
                ctx.home(),
                "type-error"@,
                type_error_text("fiber/status"@, "fiber"@, kinds@[0]@),
                r,
            ),
            Some(h) => {
                let name = fibers.fiber(h).status.text();
                &&& heap_after@ == with_keyword(heap@, name)
                &&& r == returned(keyword_value(heap_after@.keywords, name))
            },
        }
}

/// `(fiber/status fiber)`: the fiber's status as a keyword.
pub fn prim_fiber_status(
    ctx: &Alloc,
    heap: &mut FiberHeap,
    fibers: &FiberTable,
    args: &Vec<Value>,
    kinds: &Vec<String>,
) -> (r: (SignalBits, Value))
    requires
        kinds@.len() == args@.len(),
        args@.len() >= 1,
        ctx.ready(old(heap)@, 8),
        fiber_handle(old(heap)@, args@[0]) is Some ==> fibers.present(
            fiber_handle(old(heap)@, args@[0])->0,
        ),
    ensures
        status_given(
            *ctx,
            *old(heap),
            *final(heap),
            *fibers,
            *args,
            *kinds,
            r,
        ),
{
    match as_fiber(heap, args[0]) {
        None => type_error(ctx, heap, &kinds[0], "fiber/status", "fiber"),
        Some(h) => {
            let name = fibers.get(h).status.as_str().to_string();
            let v = heap.keyword(&name);
            (SignalBits::new(SIG_OK), v)
        },
    }
}

/// The payload of a fiber's last signal, nil where there is none.
pub open spec fn signal_value(f: Fiber) -> Value {
    match f.signal {
        Some((_, v)) => v,
        None => Value::nil(),
    }
}

/// What `fiber/value` gives.
pub open spec fn value_given(
    ctx: Alloc,
    heap: FiberHeap,
    heap_after: FiberHeap,
    fibers: FiberTable,
    args: Vec<Value>,
    kinds: Vec<String>,
    r: (SignalBits, Value),
) -> bool {
    &&& match fiber_handle(heap@, args@[0]) {
            None => failed(
                heap@,
                heap_after@,
                ctx.home(),
                "type-error"@,
                type_error_text("fiber/value"@, "fiber"@, kinds@[0]@),
                r,
            ),
            Some(h) => heap_after@ == heap@ && r == returned(signal_value(fibers.fiber(h))),
        }
}

/// `(fiber/value fiber)`: the payload of the fiber's last signal or its return
/// value, nil where there is none.
pub fn prim_fiber_value(
    ctx: &Alloc,
    heap: &mut FiberHeap,
    fibers: &FiberTable,
    args: &Vec<Value>,
    kinds: &Vec<String>,
) -> (r: (SignalBits, Value))
    requires
        kinds@.len() == args@.len(),
        args@.len() >= 1,
        ctx.ready(old(heap)@, 8),
        fiber_handle(old(heap)@, args@[0]) is Some ==> fibers.present(
            fiber_handle(old(heap)@, args@[0])->0,
        ),
    ensures
        value_given(
            *ctx,
            *old(heap),
            *final(heap),
            *fibers,
            *args,
            *kinds,
            r,
        ),
{
    match as_fiber(heap, args[0]) {
        None => type_error(ctx, heap, &kinds[0], "fiber/value", "fiber"),
        Some(h) => (SignalBits::new(SIG_OK), last_value(fibers.get(h))),
    }
}

/// The payload of a fiber's last signal, nil where there is none.
pub fn last_value(f: &Fiber) -> (r: Value)
    ensures
        r == signal_value(*f),
{
    match f.signal {
        Some((_, v)) => v,
        None => Value::nil(),
    }
}

} // verus!
