//! Running closures on threads of their own.
//!
//! A closure crosses to its thread as a bundle, and its result comes back as one.
//! Starting the thread and waiting for it is outside; what is sent, what the
//! worker starts from and what the caller is told is here.

use vstd::prelude::*;

use crate::ctx::{birth, born, is_string, with_keyword, Alloc};
use crate::fiber::Fiber;
use crate::heap::{keyword_value, lemma_allocated, FiberHeap, HeapState, RuntimeRegion};
use crate::materialize::{extends, grown, lemma_room_less};
use crate::object::{ChanEnd, Closure, ExternalData, HeapObject, HeapTag};
use crate::parse::{parse_signed, parse_unsigned, spelled_number, stripped, trim};
use crate::prim::{as_closure, closure_at, fail, failed, returned};
use crate::searchpath::{has_prefix, starts};
use crate::sendarrive::{arrived, arrived_as, closure_rebuilt, Arrival};
use crate::sendmirror::{
    bounded, cycles_through_closures, descends, is_part, leads, lemma_part_reached, lemma_reaches_itself, linked, own,
    points_right, reached, reached_within, sent_as, settled, value_rank, Ranks,
};
use crate::sendorder::{closures_met, first_refusal};
use crate::sendscript::carried_out;
use crate::sendvalue::SendBundle;
use crate::signalbits::SignalBits;
use crate::signals::SIG_OK;
use crate::symbol::SymbolTable;
use crate::value::{Value, TAG_HEAP_START, TAG_NATIVE_FN, TAG_THREAD};
use crate::vm::{StdlibCache, VM};

verus! {

/// A worker never gets a smaller stack than this.
pub const WORKER_STACK_FLOOR: u64 = 2097152;

/// The stack of a worker where the main thread's limit is unknown or unbounded.
pub const WORKER_STACK_FALLBACK: u64 = 8388608;

/// A worker never gets a larger stack than this.
pub const WORKER_STACK_CAP: u64 = 67108864;

/// A size brought between floor and cap.
pub open spec fn clamped(n: int) -> int {
    if n < WORKER_STACK_FLOOR {
        WORKER_STACK_FLOOR as int
    } else if n > WORKER_STACK_CAP {
        WORKER_STACK_CAP as int
    } else {
        n
    }
}

/// The size that a setting asks for, if it is a number that fits the machine.
pub open spec fn asked_size(setting: Option<&str>) -> Option<int> {
    match setting {
        Some(s) => {
            let t = stripped(s@);
            match spelled_number(t) {
                Some(n) => if n <= usize::MAX && !(t.len() > 1 && t[0] == '-') {
                    Some(n)
                } else {
                    None
                },
                None => None,
            }
        },
        None => None,
    }
}

/// The stack size of a worker: what the setting asks for, else the main thread's
/// limit, else a fixed size; the first two between floor and cap.
pub fn resolve_worker_stack(env_min_stack: Option<&str>, main_stack: Option<u64>) -> (r: u64)
    ensures
        r == match asked_size(env_min_stack) {
            Some(n) => clamped(n),
            None => match main_stack {
                Some(n) => clamped(n as int),
                None => WORKER_STACK_FALLBACK as int,
            },
        },
{
    if let Some(s) = env_min_stack {
        let t = trim(s);
        if let Some(n) = parse_unsigned(t.as_str(), usize::MAX as u64) {
            return clamp_stack(n);
        }
    }
    match main_stack {
        Some(n) => clamp_stack(n),
        None => WORKER_STACK_FALLBACK,
    }
}

fn clamp_stack(n: u64) -> (r: u64)
    ensures
        r == clamped(n as int),
{
    if n < WORKER_STACK_FLOOR {
        WORKER_STACK_FLOOR
    } else if n > WORKER_STACK_CAP {
        WORKER_STACK_CAP
    } else {
        n
    }
}

/// The main thread's stack limit, none where it could not be read, is unset or
/// unbounded.
pub fn main_thread_stack_limit(read: bool, current: u64, infinity: u64) -> (r: Option<u64>)
    ensures
        r == if read && current != infinity && current != 0 {
            Some(current)
        } else {
            None
        },
{
    if !read {
        return None;
    }
    if current == infinity || current == 0 {
        return None;
    }
    Some(current)
}

/// The text without `p` at its start, however often it stands there.
pub open spec fn without_prefixes(s: Seq<char>, p: Seq<char>) -> Seq<char>
    decreases s.len(),
{
    if p.len() > 0 && starts(s, p) {
        without_prefixes(s.skip(p.len() as int), p)
    } else {
        s
    }
}

/// The text without closing brackets at its end.
pub open spec fn without_brackets(s: Seq<char>) -> Seq<char>
    decreases s.len(),
{
    if s.len() > 0 && s.last() == ')' {
        without_brackets(s.drop_last())
    } else {
        s
    }
}

/// The number that a thread's name spells.
pub open spec fn thread_number(name: Seq<char>) -> int {
    match spelled_number(without_brackets(without_prefixes(name, "ThreadId("@))) {
        Some(n) => if i64::MIN <= n <= i64::MAX {
            n
        } else {
            0
        },
        None => 0,
    }
}

/// The number of the current thread, out of its name `ThreadId(n)`; zero where the
/// name is of another form.
pub fn prim_current_thread_id(name: &str) -> (r: (SignalBits, Value))
    ensures
        r == returned(Value::integer(thread_number(name@) as i64)),
{
    proof {
        reveal_strlit("ThreadId(");
    }
    let ghost p = "ThreadId("@;
    let mut from: usize = 0;
    let mut to: usize = name.unicode_len();
    assert(name@.skip(0) =~= name@);
    loop
        invariant_except_break
            from <= name@.len(),
            to == name@.len(),
            p == "ThreadId("@,
            p.len() == 9,
            without_prefixes(name@.skip(from as int), p) == without_prefixes(name@, p),
        ensures
            from <= to,
            to == name@.len(),
            name@.skip(from as int) == without_prefixes(name@, p),
        decreases name@.len() - from,
    {
        let rest = name.substring_char(from, to);
        assert(rest@ =~= name@.skip(from as int));
        if !has_prefix(rest, "ThreadId(") {
            break ;
        }
        assert(name@.skip(from as int).skip(9) =~= name@.skip(from + 9));
        from = from + 9;
    }
    let ghost body = name@.skip(from as int);
    assert(name@.subrange(from as int, to as int) =~= body);
    while from < to && name.get_char(to - 1) == ')'
        invariant
            from <= to <= name@.len(),
            without_brackets(name@.subrange(from as int, to as int)) == without_brackets(body),
        decreases to,
    {
        assert(name@.subrange(from as int, to as int).drop_last() =~= name@.subrange(
            from as int,
            to - 1,
        ));
        to = to - 1;
    }
    proof {
        let t = name@.subrange(from as int, to as int);
        if from < to {
            assert(t.last() == name@[to - 1]);
        }
    }
    let n: i64 = match parse_signed(name.substring_char(from, to)) {
        Some(n) => n,
        None => 0,
    };
    (SignalBits::new(SIG_OK), Value::integer(n))
}

/// What one more closure reaches, whose parts are those of another, the other reaches
/// too, but for itself.
proof fn lemma_copy_reaches(a: HeapState, b: HeapState, c: Closure, v: Value, from: Value, p: Value, depth: nat)
    requires
        a.valid(),
        linked(a, from),
        closure_at(a, from) is Some,
        c.same(closure_at(a, from)->0),
        b.objects.len() == a.objects.len() + 1,
        forall|i: int| 0 <= i < a.objects.len() ==> #[trigger] b.objects[i] == a.objects[i],
        b.traits == a.traits,
        closure_at(b, v) == Some(c),
        reached_within(b, v, p, depth),
    ensures
        p == v || reached(a, from, p),
    decreases depth,
{
    if p != v {
        let q = choose|q: Value| #[trigger]
            leads(b, q, p) && reached_within(b, v, q, (depth - 1) as nat);
        lemma_copy_reaches(a, b, c, v, from, q, (depth - 1) as nat);
        lemma_reaches_itself(a, from);
        if q == v {
            assert(is_part(a, a.object(from), p));
            lemma_part_reached(a, from, from, p);
        } else {
            assert(points_right(a, q));
            assert(b.target(q) == a.target(q));
            assert(b.object(q) == a.object(q));
            assert(is_part(a, a.object(q), p));
            lemma_part_reached(a, from, q, p);
        }
    }
}

/// One more closure, whose parts are those of another, can be sent as that one can.
proof fn lemma_closure_added(a: HeapState, b: HeapState, c: Closure, v: Value, from: Value)
    requires
        a.valid(),
        linked(a, from),
        cycles_through_closures(a, from),
        closure_at(a, from) is Some,
        c.same(closure_at(a, from)->0),
        b.objects.len() == a.objects.len() + 1,
        a.objects.len() < crate::heap::MAX_OBJECTS,
        forall|i: int| 0 <= i < a.objects.len() ==> #[trigger] b.objects[i] == a.objects[i],
        b.objects.last() == (HeapObject::Closure { closure: c, traits: Value::nil() }),
        b.traits == a.traits,
        v == b.newest(),
    ensures
        linked(b, v),
        cycles_through_closures(b, v),
        closure_at(b, v) == Some(c),
{
    let n = a.objects.len() as int;
    assert(b.objects[n] == b.objects.last());
    assert(v.payload == crate::heap::address(n));
    assert(v.payload / 8 - 1 == n);
    assert(closure_at(b, v) == Some(c));
    assert forall|p: Value| points_right(a, p) implies points_right(b, p) && (p.tag >= TAG_HEAP_START
        ==> b.target(p) == a.target(p) && b.object(p) == a.object(p)) by {
        if p.tag >= TAG_HEAP_START {
            assert(b.target(p) == a.target(p));
            assert(b.objects[a.target(p)->0] == a.objects[a.target(p)->0]);
        }
    }
    assert forall|p: Value| #[trigger] reached(b, v, p) implies p == v || (reached(a, from, p)
        && points_right(a, p)) by {
        let depth = choose|depth: nat| reached_within(b, v, p, depth);
        lemma_copy_reaches(a, b, c, v, from, p, depth);
    }
    assert(linked(b, v));
    let g = choose|g: Ranks| bounded(a, g) && #[trigger] descends(a, g, from);
    let h = Ranks {
        rank: |i: int|
            if i < n {
                (g.rank)(i)
            } else {
                0nat
            },
        top: g.top + 1,
        live: Set::empty(),
    };
    assert(bounded(b, h)) by {
        assert forall|i: int| 0 <= i < b.objects.len() implies #[trigger] (h.rank)(i) < h.top by {
            if i < n {
                assert((g.rank)(i) < g.top);
            }
        }
    }
    assert(descends(b, h, v)) by {
        assert forall|q: Value, p: Value|
            #![trigger reached(b, v, q), is_part(b, b.object(q), p)]
            reached(b, v, q) && q.tag >= TAG_HEAP_START && b.target(q) is Some && !(b.object(q) is Closure)
                && is_part(b, b.object(q), p) implies value_rank(b, h, p) < value_rank(b, h, q) by {
            assert(q != v);
            assert(reached(a, from, q) && points_right(a, q));
            assert(a.object(q) == b.object(q));
            assert(is_part(a, a.object(q), p));
            lemma_part_reached(a, from, q, p);
            assert(points_right(a, p));
            assert(value_rank(a, g, p) < value_rank(a, g, q));
            assert(value_rank(b, h, q) == value_rank(a, g, q));
            if p.tag >= TAG_HEAP_START {
                assert(value_rank(b, h, p) == value_rank(a, g, p));
            } else {
                assert(b.target(p) is None);
            }
        }
    }
    assert(bounded(b, h) && descends(b, h, v));
}

/// What a spawn needs next.
pub enum SpawnStep {
    /// The call is over.
    Done((SignalBits, Value)),
    /// Start a worker that runs the bundle's closure, with the standard library or
    /// without. A capability withheld from the spawning fiber stays withheld from the
    /// closure; the library is loaded through the spawning machine's cache, and
    /// strings are segmented by its generation.
    Start {
        bundle: SendBundle,
        load_stdlib: bool,
        withheld: SignalBits,
        cache: StdlibCache,
        unicode_generation: u32,
    },
}

/// What a worker has from the machine that spawns it.
pub open spec fn inherited(vm: VM, withheld: SignalBits, cache: StdlibCache, unicode_generation: u32) -> bool {
    &&& withheld == vm.fiber.withheld
    &&& cache.same(vm.stdlib_cache)
    &&& unicode_generation == vm.unicode_generation
}

/// What a worker starts from: a copy of the closure, born in the call's region, is
/// sent, and with it goes what a worker inherits.
pub fn spawn_closure_impl(
    ctx: &Alloc,
    vm: &mut VM,
    symbols: Option<&SymbolTable>,
    value: Value,
    load_stdlib: bool,
) -> (r: Result<SpawnStep, String>)
    requires
        closure_at(old(vm).heap@, value) matches Some(c) && ctx.ready(
            old(vm).heap@,
            c.env@.len() + c.template.constants@.len() + 2,
        ),
        linked(old(vm).heap@, value),
        cycles_through_closures(old(vm).heap@, value),
    ensures
        final(vm).heap@.valid(),
        *final(vm) == (VM { heap: final(vm).heap, ..*old(vm) }),
        copied(old(vm).heap@, final(vm).heap@, ctx.home(), value),
        match r {
            Ok(step) => {
                &&& step is Start
                &&& launches(*old(vm), final(vm).heap@, symbols, load_stdlib, step)
            },
            Err(m) => unsent_text(final(vm).heap@, symbols, m@),
        },
{
    let ghost start = vm.heap@;
    let copy = match as_closure(&vm.heap, value) {
        Some(c) => c.copy(),
        None => {
            assert(false);
            return Err(String::new());
        },
    };
    let ghost made = copy;
    let v = ctx.closure(&mut vm.heap, copy);
    proof {
        lemma_allocated(start, birth(vm.heap@), ctx.home().0);
        lemma_closure_added(start, vm.heap@, made, v, value);
    }
    match symbols {
        None => Err("spawn: no symbol table".to_string()),
        Some(names) => match SendBundle::from_value(v, &vm.heap, names) {
            Ok(bundle) => Ok(
                SpawnStep::Start {
                    bundle,
                    load_stdlib,
                    withheld: vm.fiber.withheld,
                    cache: vm.stdlib_cache.copy(),
                    unicode_generation: vm.unicode_generation,
                },
            ),
            Err(why) => {
                let mut m = "spawn: ".to_string();
                m.append(why.as_str());
                Err(m)
            },
        },
    }
}

/// How much room a spawn of the value asks for.
pub open spec fn spawn_room(s: HeapState, value: Value) -> nat {
    match closure_at(s, value) {
        Some(c) => c.env@.len() + c.template.constants@.len() + 10,
        None => 8,
    }
}

/// A value stands for something that a worker can or cannot run.
pub fn spawn_dispatch(
    ctx: &Alloc,
    vm: &mut VM,
    symbols: Option<&SymbolTable>,
    args: &Vec<Value>,
    load_stdlib: bool,
) -> (r: SpawnStep)
    requires
        args@.len() == 1,
        ctx.ready(old(vm).heap@, spawn_room(old(vm).heap@, args@[0])),
        linked(old(vm).heap@, args@[0]),
        cycles_through_closures(old(vm).heap@, args@[0]),
    ensures
        spawned(*old(vm), *final(vm), ctx.home(), symbols, args@[0], load_stdlib, r),
        r matches SpawnStep::Start { withheld, cache, unicode_generation, .. } ==> inherited(
            *old(vm),
            withheld,
            cache,
            unicode_generation,
        ),
{
    let is_closure = as_closure(&vm.heap, args[0]).is_some();
    if is_closure {
        let ghost start = vm.heap@;
        let ghost c = closure_at(start, args@[0])->0;
        proof {
            lemma_room_less(
                start,
                c.env@.len() + c.template.constants@.len() + 10,
                c.env@.len() + c.template.constants@.len() + 2,
            );
        }
        match spawn_closure_impl(ctx, vm, symbols, args[0], load_stdlib) {
            Ok(step) => {
                assert(copied(start, vm.heap@, ctx.home(), args@[0]));
                assert(spawn_outcome(*old(vm), vm.heap@, vm.heap@, ctx.home(), symbols, load_stdlib, step));
                step
            },
            Err(e) => {
                let ghost mid = vm.heap@;
                assert(copied(start, mid, ctx.home(), args@[0]));
                proof {
                    let obj = mid.objects.last();
                    lemma_allocated(start, obj, ctx.home().0);
                    let d = closure_at(mid, mid.newest())->0;
                    assert(mid.object(mid.newest()) == obj);
                    assert(obj.children().len() == d.env@.len() + d.template.constants@.len() + 1);
                    assert(start.allocated(obj, ctx.home().0).room(
                        (c.env@.len() + c.template.constants@.len() + 10 - obj.children().len() - 1) as nat,
                    ));
                }
                let done = fail(ctx, &mut vm.heap, "thread-error", &e);
                assert(failed(mid, vm.heap@, ctx.home(), "thread-error"@, e@, done));
                assert(unsent_text(mid, symbols, e@));
                assert(spawn_outcome(
                    *old(vm),
                    mid,
                    vm.heap@,
                    ctx.home(),
                    symbols,
                    load_stdlib,
                    SpawnStep::Done(done),
                ));
                SpawnStep::Done(done)
            },
        }
    } else if args[0].is_native_fn() {
        SpawnStep::Done(
            fail(
                ctx,
                &mut vm.heap,
                "argument-error",
                &"spawn: native functions cannot be spawned. Use closures instead.".to_string(),
            ),
        )
    } else {
        SpawnStep::Done(
            fail(ctx, &mut vm.heap, "type-error", &"spawn: argument must be a closure".to_string()),
        )
    }
}

/// What a spawn gives: a closure is sent to a worker, anything else is refused.
pub open spec fn spawned(
    before: VM,
    after: VM,
    home: RuntimeRegion,
    symbols: Option<&SymbolTable>,
    value: Value,
    load_stdlib: bool,
    r: SpawnStep,
) -> bool {
    let s = before.heap@;
    let t = after.heap@;
    &&& after == (VM { heap: after.heap, ..before })
    &&& match closure_at(s, value) {
        Some(_) => spawn_settled(before, t, home, symbols, value, load_stdlib, r),
        None => match r {
            SpawnStep::Done(e) => if value.tag == TAG_NATIVE_FN {
                failed(
                    s,
                    t,
                    home,
                    "argument-error"@,
                    "spawn: native functions cannot be spawned. Use closures instead."@,
                    e,
                )
            } else {
                failed(s, t, home, "type-error"@, "spawn: argument must be a closure"@, e)
            },
            _ => false,
        },
    }
}

/// A closure was sent to a worker, or the call failed with the reason it could not
/// be.
pub open spec fn spawn_settled(
    before: VM,
    after: HeapState,
    home: RuntimeRegion,
    symbols: Option<&SymbolTable>,
    value: Value,
    load_stdlib: bool,
    r: SpawnStep,
) -> bool {
    exists|mid: HeapState| #[trigger]
        copied(before.heap@, mid, home, value) && spawn_outcome(
            before,
            mid,
            after,
            home,
            symbols,
            load_stdlib,
            r,
        )
}

/// What became of the copy of the closure.
pub open spec fn spawn_outcome(
    before: VM,
    mid: HeapState,
    after: HeapState,
    home: RuntimeRegion,
    symbols: Option<&SymbolTable>,
    load_stdlib: bool,
    r: SpawnStep,
) -> bool {
    match r {
        SpawnStep::Start { .. } => after == mid && launches(before, mid, symbols, load_stdlib, r),
        SpawnStep::Done(e) => exists|msg: Seq<char>|
            failed(mid, after, home, "thread-error"@, msg, e) && #[trigger] unsent_text(
                mid,
                symbols,
                msg,
            ),
    }
}

/// The newest closure goes to a worker, with all that a worker inherits. Where its
/// code and that of the closures it meets names no entry of a bundle, the bundle can
/// be rebuilt.
pub open spec fn launches(
    before: VM,
    mid: HeapState,
    symbols: Option<&SymbolTable>,
    load_stdlib: bool,
    r: SpawnStep,
) -> bool {
    match r {
        SpawnStep::Start { bundle, load_stdlib: l, withheld, cache, unicode_generation } => {
            let met = closures_met(mid, mid.newest());
            &&& l == load_stdlib
            &&& inherited(before, withheld, cache, unicode_generation)
            &&& symbols matches Some(names)
            &&& first_refusal(mid, mid.newest()) is None
            &&& sent_as(mid, own(names@), mid.newest(), bundle, met)
            &&& bundle.root is Ref
            &&& settled(mid, met) ==> bundle.well_formed()
        },
        SpawnStep::Done(_) => false,
    }
}

/// Why the newest closure could not be sent.
pub open spec fn unsent_text(s: HeapState, symbols: Option<&SymbolTable>, msg: Seq<char>) -> bool {
    match symbols {
        None => msg == "spawn: no symbol table"@,
        Some(_) => first_refusal(s, s.newest()) matches Some(why) && msg == "spawn: "@ + why,
    }
}

/// A copy of the closure came between the heaps.
pub open spec fn copied(before: HeapState, after: HeapState, home: RuntimeRegion, value: Value) -> bool {
    &&& after.objects.len() == before.objects.len() + 1
    &&& after == before.allocated(after.objects.last(), home.0)
    &&& closure_at(after, after.newest()) matches Some(c)
    &&& c.same(closure_at(before, value)->0)
}

/// What `spawn` does.
pub open spec fn spawn_asked(
    ctx: Alloc,
    vm: VM,
    vm_after: VM,
    symbols: Option<&SymbolTable>,
    args: Vec<Value>,
    r: SpawnStep,
) -> bool {
    &&& spawned(vm, vm_after, ctx.home(), symbols, args@[0], true, r)
    &&& r matches SpawnStep::Start { withheld, cache, unicode_generation, .. } ==> inherited(
            vm,
            withheld,
            cache,
            unicode_generation,
        )
}

/// Spawn a worker with the standard library.
pub fn prim_spawn(
    ctx: &Alloc,
    vm: &mut VM,
    symbols: Option<&SymbolTable>,
    args: &Vec<Value>,
) -> (r: SpawnStep)
    requires
        args@.len() == 1,
        ctx.ready(old(vm).heap@, spawn_room(old(vm).heap@, args@[0])),
        linked(old(vm).heap@, args@[0]),
        cycles_through_closures(old(vm).heap@, args@[0]),
    ensures
        spawn_asked(
            *ctx,
            *old(vm),
            *final(vm),
            symbols,
            *args,
            r,
        ),
{
    spawn_dispatch(ctx, vm, symbols, args, true)
}

/// What `spawn-vm` does.
pub open spec fn bare_spawn_asked(
    ctx: Alloc,
    vm: VM,
    vm_after: VM,
    symbols: Option<&SymbolTable>,
    args: Vec<Value>,
    r: SpawnStep,
) -> bool {
    &&& spawned(vm, vm_after, ctx.home(), symbols, args@[0], false, r)
    &&& r matches SpawnStep::Start { withheld, cache, unicode_generation, .. } ==> inherited(
            vm,
            withheld,
            cache,
            unicode_generation,
        )
}

/// Spawn a worker with the primitives alone.
pub fn prim_spawn_vm(
    ctx: &Alloc,
    vm: &mut VM,
    symbols: Option<&SymbolTable>,
    args: &Vec<Value>,
) -> (r: SpawnStep)
    requires
        args@.len() == 1,
        ctx.ready(old(vm).heap@, spawn_room(old(vm).heap@, args@[0])),
        linked(old(vm).heap@, args@[0]),
        cycles_through_closures(old(vm).heap@, args@[0]),
    ensures
        bare_spawn_asked(
            *ctx,
            *old(vm),
            *final(vm),
            symbols,
            *args,
            r,
        ),
{
    spawn_dispatch(ctx, vm, symbols, args, false)
}

/// What a spawn gives once its thread was started, or not.
pub open spec fn thread_given(
    ctx: Alloc,
    heap: FiberHeap,
    heap_after: FiberHeap,
    started: Result<u32, String>,
    r: (SignalBits, Value),
) -> bool {
    &&& match started {
            Ok(handle) => {
                &&& r.0 == SignalBits::new(SIG_OK)
                &&& born(heap@, heap_after@, ctx.home(), r.1)
                &&& birth(heap_after@) == (HeapObject::ThreadHandle { handle, traits: Value::nil() })
            },
            Err(why) => failed(
                heap@,
                heap_after@,
                ctx.home(),
                "thread-error"@,
                "spawn: failed to start worker thread: "@ + why@,
                r,
            ),
        }
}

/// End a spawn once the thread was started, or could not be.
pub fn spawn_started(ctx: &Alloc, heap: &mut FiberHeap, started: Result<u32, String>) -> (r: (
    SignalBits,
    Value,
))
    requires
        ctx.ready(old(heap)@, 8),
    ensures
        thread_given(
            *ctx,
            *old(heap),
            *final(heap),
            started,
            r,
        ),
{
    match started {
        Ok(handle) => {
            proof {
                lemma_room_less(heap@, 8, 2);
            }
            let v = ctx.allocate(heap, HeapObject::ThreadHandle { handle, traits: Value::nil() });
            (SignalBits::new(SIG_OK), v)
        },
        Err(why) => {
            let mut m = "spawn: failed to start worker thread: ".to_string();
            m.append(why.as_str());
            fail(ctx, heap, "thread-error", &m)
        },
    }
}

/// The locals that a body starts with, after `n` of them: a captured one is a cell
/// in a region of its own, any other is nil.
pub open spec fn fresh_locals(h: HeapState, c: Closure, n: nat) -> (HeapState, Seq<Value>)
    decreases n,
{
    if n == 0 {
        (h, Seq::empty())
    } else {
        let (g, values) = fresh_locals(h, c, (n - 1) as nat);
        if c.template.capture_locals_mask.has(n - 1) {
            let next = g.with_region().allocated(
                HeapObject::CaptureCell { cell: Value::nil(), traits: Value::nil() },
                g.counts.len() as u32,
            );
            (next, values.push(next.newest()))
        } else {
            (g, values.push(Value::nil()))
        }
    }
}

/// How many locals a body has beyond its parameters.
pub open spec fn own_locals(c: Closure) -> nat {
    if c.template.num_locals >= c.template.num_params {
        (c.template.num_locals - c.template.num_params) as nat
    } else {
        0
    }
}

/// The environment that a worker runs its closure in.
pub open spec fn worker_env_made(
    heap: FiberHeap,
    heap_after: FiberHeap,
    closure: Closure,
    r: Vec<Value>,
) -> bool {
    &&& heap_after@.valid()
    &&& heap_after@ == fresh_locals(heap@, closure, own_locals(closure)).0
    &&& r@ == closure.env@ + fresh_locals(heap@, closure, own_locals(closure)).1
}

/// The environment that a spawned body starts with: its captures, then its locals.
pub fn worker_env(heap: &mut FiberHeap, closure: &Closure) -> (r: Vec<Value>)
    requires
        old(heap)@.valid(),
        old(heap)@.room(4 * own_locals(*closure)),
    ensures
        worker_env_made(
            *old(heap),
            *final(heap),
            *closure,
            r,
        ),
{
    let ghost h0 = heap@;
    let ghost total = own_locals(*closure);
    let mut env: Vec<Value> = Vec::new();
    crate::object::push_values(&mut env, &closure.env);
    assert(env@ =~= closure.env@);
    let n: usize = if closure.template.num_locals >= closure.template.num_params {
        closure.template.num_locals - closure.template.num_params
    } else {
        0
    };
    let mut i: usize = 0;
    assert(env@ =~= closure.env@ + fresh_locals(h0, *closure, 0).1);
    while i < n
        invariant
            i <= n,
            n == total,
            heap@.valid(),
            heap@ == fresh_locals(h0, *closure, i as nat).0,
            heap@.room((4 * (n - i)) as nat),
            env@ == closure.env@ + fresh_locals(h0, *closure, i as nat).1,
        decreases n - i,
    {
        let ghost sofar = env@;
        let ghost h1 = heap@;
        if closure.template.capture_locals_mask.is_set(i) {
            proof {
                lemma_room_less(h1, (4 * (n - i)) as nat, 4);
            }
            let (cell, _) = heap.alloc_in_fresh_region(
                HeapObject::CaptureCell { cell: Value::nil(), traits: Value::nil() },
            );
            proof {
                lemma_fresh_room(h1, (4 * (n - i)) as nat);
            }
            env.push(cell);
        } else {
            proof {
                lemma_room_less(h1, (4 * (n - i)) as nat, (4 * (n - i - 1)) as nat);
            }
            env.push(Value::nil());
        }
        i = i + 1;
        assert(env@ =~= closure.env@ + fresh_locals(h0, *closure, i as nat).1);
    }
    env
}

/// A cell in a region of its own takes room for four.
proof fn lemma_fresh_room(h: HeapState, n: nat)
    requires
        h.valid(),
        h.room(n),
        n >= 4,
    ensures
        h.with_region().allocated(
            (HeapObject::CaptureCell { cell: Value::nil(), traits: Value::nil() }),
            h.counts.len() as u32,
        ).room((n - 4) as nat),
{
    let obj = HeapObject::CaptureCell { cell: Value::nil(), traits: Value::nil() };
    let m = h.with_region();
    assert(m.valid()) by {
        assert forall|i: int, k: int|
            0 <= i < m.edges.len() && 0 <= k < m.edges[i].len() implies #[trigger] m.edges[i][k]
            < m.counts.len() by {
            assert(h.edges[i][k] < h.counts.len());
        }
    }
    assert(m.room((n - 1) as nat)) by {
        assert forall|r: int| 0 <= r < m.counts.len() implies #[trigger] m.counts[r] + (n - 1) <= u32::MAX by {
            if r < h.counts.len() {
                assert(h.counts[r] + n <= u32::MAX);
            } else {
                assert(h.counts.len() + n <= u32::MAX);
            }
        }
    }
    lemma_allocated(m, obj, h.counts.len() as u32);
    assert(obj.children().len() == 2);
    assert(m.allocated(obj, h.counts.len() as u32).room(((n - 1) - 2 - 1) as nat));
}

/// What a worker starts its body from.
pub struct WorkerStart {
    /// The region that the whole message was rebuilt in.
    pub region: RuntimeRegion,
    /// The rebuilt closure.
    pub closure: Value,
    /// The environment of its body.
    pub env: Vec<Value>,
}

/// How many locals the body of a bundle's closure has beyond its parameters.
pub open spec fn sent_locals(b: SendBundle) -> nat {
    let sc = b.closures@[b.root->Ref_0 as int];
    if sc.num_locals >= sc.num_params {
        (sc.num_locals - sc.num_params) as nat
    } else {
        0
    }
}

/// The machine of a worker: bare, but for the generation and the cache that it has
/// from the spawning one. Nothing is withheld from it yet: it stands itself up, with
/// its primitives and its standard library, before the closure arrives.
pub fn worker_machine(launch: &SpawnStep, jit_threshold: usize) -> (r: VM)
    requires
        launch is Start,
    ensures
        r.idle(),
        r.heap@.valid(),
        r.heap@.untouched(),
        r.unicode_generation == launch->unicode_generation,
        r.stdlib_cache.same(launch->cache),
        (VM { stdlib_cache: StdlibCache::Process, ..r }).bare(jit_threshold, launch->unicode_generation),
{
    match launch {
        SpawnStep::Start { cache, unicode_generation, .. } => {
            let mut vm = VM::new(jit_threshold, *unicode_generation);
            vm.set_stdlib_cache(cache.copy());
            vm
        },
        SpawnStep::Done(_) => {
            assert(false);
            VM::new(jit_threshold, 0)
        },
    }
}

/// How a worker starts.
pub open spec fn worker_begun(
    vm: VM,
    vm_after: VM,
    launch: SpawnStep,
    symbols: SymbolTable,
    symbols_after: SymbolTable,
    r: WorkerStart,
) -> bool {
    &&& vm_after.heap@.valid()
    &&& vm_after.fiber.withheld == launch->withheld
    &&& extends(symbols@, symbols_after@)
    &&& (exists|mid: HeapState| #[trigger]
            message_landed(vm.heap@, symbols@, mid, symbols_after@, launch->bundle, r.closure) && closure_at(
                mid,
                r.closure,
            ) is Some && started_on(
                vm,
                vm_after,
                mid,
                r.closure,
                closure_at(mid, r.closure)->0,
                launch->withheld,
                r,
            ))
}

/// Make a worker's machine ready to run the closure that was sent to it. The message
/// lands in a region of its own; the capabilities withheld from the spawning fiber
/// are withheld from the body.
pub fn worker_start(vm: &mut VM, launch: &SpawnStep, symbols: &mut SymbolTable) -> (r: WorkerStart)
    requires
        launch is Start,
        launch->bundle.well_formed(),
        launch->bundle.root is Ref,
        old(vm).heap@.valid(),
        old(vm).heap@.room(launch->bundle.total_weight() + 4 * sent_locals(launch->bundle) + 1),
        old(symbols)@.len() + launch->bundle.total_weight() + 4 * sent_locals(launch->bundle) <= u32::MAX,
    ensures
        worker_begun(
            *old(vm),
            *final(vm),
            *launch,
            *old(symbols),
            *final(symbols),
            r,
        ),
{
    let (bundle, withheld) = match launch {
        SpawnStep::Start { bundle, withheld, .. } => (bundle, *withheld),
        SpawnStep::Done(_) => {
            assert(false);
            return WorkerStart { region: RuntimeRegion(0), closure: Value::nil(), env: Vec::new() };
        },
    };
    let ghost before = vm.heap@;
    let ghost known = symbols@;
    let ghost need = (bundle.total_weight() + 4 * sent_locals(*bundle)) as nat;
    proof {
        lemma_room_less(before, need + 1, 1);
    }
    let region = vm.heap.new_runtime_region();
    let alloc = Alloc::with_region(region);
    proof {
        let m = before.with_region();
        assert forall|q: int| 0 <= q < m.counts.len() implies #[trigger] m.counts[q] + need <= u32::MAX by {
            if q < before.counts.len() {
                assert(before.counts[q] + (need + 1) <= u32::MAX);
            } else {
                assert(before.counts.len() + (need + 1) <= u32::MAX);
            }
        }
        assert(m.room(need));
    }
    let v = bundle.rebuild_with(&alloc, &mut vm.heap, symbols, Ghost(4 * sent_locals(*bundle)));
    let ghost mid = vm.heap@;
    proof {
        lemma_root_closure(mid, symbols@, before.objects.len() as int, region.0, *bundle, v);
    }
    let closure = match as_closure(&vm.heap, v) {
        Some(c) => c.copy(),
        None => {
            assert(false);
            return WorkerStart { region, closure: v, env: Vec::new() };
        },
    };
    proof {
        lemma_same_locals(mid, closure, closure_at(mid, v)->0, own_locals(closure));
    }
    let env = worker_env(&mut vm.heap, &closure);
    vm.pending_entry_closure = v;
    vm.fiber.withheld = withheld;
    let start = WorkerStart { region, closure: v, env };
    proof {
        assert(message_landed(before, known, mid, symbols@, *bundle, v));
        let c = closure_at(mid, v)->0;
        assert(own_locals(closure) == own_locals(c));
        assert(start.env@ == c.env@ + fresh_locals(mid, c, own_locals(c)).1);
        assert(started_on(*old(vm), *vm, mid, v, c, withheld, start));
    }
    start
}

/// The root of a rebuilt bundle is the closure that was sent.
proof fn lemma_root_closure(
    h: HeapState,
    symbols: Seq<Seq<char>>,
    lo: int,
    region: u32,
    b: SendBundle,
    v: Value,
)
    requires
        arrived(h, symbols, lo, region, b, v),
        b.root is Ref,
    ensures
        closure_at(h, v) matches Some(c) && own_locals(c) == sent_locals(b),
{
    let (w, paths) = choose|w: Arrival, paths: Map<int, Set<int>>| #[trigger]
        arrived_as(w, paths, b, v) && w.heap == h && w.symbols == symbols && w.lo == lo && w.region
            == region;
    let idx = b.root->Ref_0 as int;
    assert(w.done.contains_key(idx));
    assert(paths.contains_key(idx));
    assert(closure_rebuilt(w, paths[idx], w.done[idx], b.closures@[idx]));
}

/// The locals depend on a closure's code alone.
proof fn lemma_same_locals(h: HeapState, a: Closure, b: Closure, n: nat)
    requires
        a.template == b.template,
    ensures
        fresh_locals(h, a, n) == fresh_locals(h, b, n),
    decreases n,
{
    if n > 0 {
        lemma_same_locals(h, a, b, (n - 1) as nat);
    }
}

/// The message was rebuilt in a region of its own.
pub open spec fn message_landed(
    before: HeapState,
    known: Seq<Seq<char>>,
    mid: HeapState,
    symbols: Seq<Seq<char>>,
    bundle: SendBundle,
    v: Value,
) -> bool {
    let region = before.counts.len() as u32;
    &&& arrived(mid, symbols, before.objects.len() as int, region, bundle, v)
    &&& grown(before.with_region(), mid, region)
    &&& carried_out(before, known, mid, symbols, bundle.script())
}

/// The worker has the closure, its environment and what is withheld from it.
pub open spec fn started_on(
    before: VM,
    after: VM,
    mid: HeapState,
    v: Value,
    c: Closure,
    withheld: SignalBits,
    start: WorkerStart,
) -> bool {
    &&& start.region.0 == before.heap@.counts.len()
    &&& start.closure == v
    &&& start.env@ == c.env@ + fresh_locals(mid, c, own_locals(c)).1
    &&& after.heap@ == fresh_locals(mid, c, own_locals(c)).0
    &&& after == (VM {
        heap: after.heap,
        pending_entry_closure: v,
        fiber: Fiber { withheld, ..before.fiber },
        ..before
    })
}

/// Capabilities flow down across a thread as they do across a fiber: a closure starts
/// on its worker with all withheld that was withheld from the fiber that spawned it,
/// whether the worker has the standard library or not.
pub proof fn lemma_denials_cross_threads(
    spawner: VM,
    after: VM,
    home: RuntimeRegion,
    symbols: Option<&SymbolTable>,
    value: Value,
    load_stdlib: bool,
    launch: SpawnStep,
    worker: VM,
    running: VM,
    mid: HeapState,
    v: Value,
    c: Closure,
    start: WorkerStart,
)
    requires
        spawned(spawner, after, home, symbols, value, load_stdlib, launch),
        launch is Start,
        started_on(worker, running, mid, v, c, launch->withheld, start),
    ensures
        running.fiber.withheld == spawner.fiber.withheld,
        launch->cache.same(spawner.stdlib_cache),
        launch->unicode_generation == spawner.unicode_generation,
{
}

/// What a worker hands back.
pub open spec fn result_packed(
    vm: VM,
    vm_after: VM,
    region: RuntimeRegion,
    result: Result<Value, String>,
    symbols: SymbolTable,
    r: Result<SendBundle, String>,
) -> bool {
    &&& vm_after.heap@ == vm.heap@.decref(region.0)
    &&& vm_after == (VM { heap: vm_after.heap, ..vm })
    &&& match result {
            Ok(v) => match r {
                Ok(b) => {
                    let met = closures_met(vm.heap@, v);
                    &&& first_refusal(vm.heap@, v) is None
                    &&& sent_as(vm.heap@, own(symbols@), v, b, met)
                    &&& settled(vm.heap@, met) ==> b.well_formed()
                },
                Err(m) => first_refusal(vm.heap@, v) matches Some(why) && m@
                    == "Failed to serialize result: "@ + why,
            },
            Err(e) => r matches Err(m) && m@ == e@,
        }
}

/// Send what a worker's body returned, and give its message's region up.
pub fn worker_result(
    vm: &mut VM,
    region: RuntimeRegion,
    result: Result<Value, String>,
    symbols: &SymbolTable,
) -> (r: Result<SendBundle, String>)
    requires
        old(vm).heap@.valid(),
        region.0 < old(vm).heap@.counts.len(),
        result matches Ok(v) ==> linked(old(vm).heap@, v) && cycles_through_closures(old(vm).heap@, v),
    ensures
        result_packed(
            *old(vm),
            *final(vm),
            region,
            result,
            *symbols,
            r,
        ),
{
    let out = match result {
        Ok(v) => match SendBundle::from_value(v, &vm.heap, symbols) {
            Ok(b) => Ok(b),
            Err(why) => {
                let mut m = "Failed to serialize result: ".to_string();
                m.append(why.as_str());
                Err(m)
            },
        },
        Err(e) => Err(e),
    };
    vm.heap.decref_region(region);
    out
}

/// How a worker's panic reads.
pub enum Unwound {
    /// The body ended by itself.
    No,
    /// The body panicked with this text.
    Text(String),
    /// The body panicked with something that is no text.
    Other,
}

/// What a joiner finds: what the body stored, or the reason it stored nothing.
pub fn worker_outcome(
    stored: Option<Result<SendBundle, String>>,
    unwound: &Unwound,
) -> (r: Result<SendBundle, String>)
    ensures
        match stored {
            Some(result) => r == result,
            None => r matches Err(m) && m@ == "worker thread panicked: "@ + match *unwound {
                Unwound::Text(text) => text@,
                Unwound::Other => "non-string panic payload"@,
                Unwound::No => "result never stored"@,
            },
        },
{
    match stored {
        Some(result) => result,
        None => {
            let mut m = "worker thread panicked: ".to_string();
            match unwound {
                Unwound::Text(text) => m.append(text.as_str()),
                Unwound::Other => m.append("non-string panic payload"),
                Unwound::No => m.append("result never stored"),
            }
            Err(m)
        },
    }
}

/// The thread that a value stands for.
pub open spec fn thread_at(s: HeapState, v: Value) -> Option<u32> {
    if v.tag == TAG_THREAD && s.target(v) is Some {
        match s.object(v) {
            HeapObject::ThreadHandle { handle, .. } => Some(handle),
            _ => None,
        }
    } else {
        None
    }
}

/// The thread that a value stands for.
pub fn as_thread_handle(heap: &FiberHeap, v: Value) -> (r: Option<u32>)
    ensures
        r == thread_at(heap@, v),
{
    if v.tag != TAG_THREAD {
        return None;
    }
    match heap.deref(v) {
        Some(HeapObject::ThreadHandle { handle, .. }) => Some(*handle),
        _ => None,
    }
}

/// An array of a keyword and a value was born, the keyword interned before.
pub open spec fn tagged(
    before: HeapState,
    after: HeapState,
    home: RuntimeRegion,
    name: Seq<char>,
    v: Value,
    r: Value,
) -> bool {
    let named = with_keyword(before, name);
    &&& born(named, after, home, r)
    &&& birth(after) matches HeapObject::LArray { elements, traits }
    &&& elements@ == seq![keyword_value(named.keywords, name), v]
    &&& traits == before.traits[HeapTag::LArray.slot()]
}

/// An array of a keyword and a value.
fn tagged_array(ctx: &Alloc, heap: &mut FiberHeap, name: &str, v: Value) -> (r: (SignalBits, Value))
    requires
        ctx.ready(old(heap)@, 5),
    ensures
        r.0 == SignalBits::new(SIG_OK),
        tagged(old(heap)@, final(heap)@, ctx.home(), name@, v, r.1),
{
    let ghost start = heap@;
    let key = heap.keyword(&name.to_string());
    proof {
        let named = heap@;
        assert(named.valid());
        assert forall|q: int| 0 <= q < named.counts.len() implies #[trigger] named.counts[q] + 4
            <= u32::MAX by {
            assert(start.counts[q] + 5 <= u32::MAX);
        }
        assert(named.room(4));
    }
    let mut items: Vec<Value> = Vec::new();
    items.push(key);
    items.push(v);
    assert(items@ =~= seq![key, v]);
    let r = ctx.array(heap, items);
    (SignalBits::new(SIG_OK), r)
}

/// What the state of a thread is.
pub open spec fn state_told(
    ctx: Alloc,
    heap: FiberHeap,
    heap_after: FiberHeap,
    symbols: SymbolTable,
    symbols_after: SymbolTable,
    has_symbols: bool,
    args: Vec<Value>,
    slot: Option<&Result<SendBundle, String>>,
    done: ChanEnd,
    r: (SignalBits, Value),
) -> bool {
    &&& thread_at(heap@, args@[0]) is None ==> failed(
            heap@,
            heap_after@,
            ctx.home(),
            "type-error"@,
            "thread-state: argument must be a thread handle"@,
            r,
        )
    &&& thread_at(heap@, args@[0]) is Some ==> match slot {
            Some(Ok(b)) => if has_symbols {
                exists|mid: HeapState, v: Value| #[trigger]
                    tagged(mid, heap_after@, ctx.home(), "ready"@, v, r.1) && arrived(
                        mid,
                        symbols_after@,
                        heap@.objects.len() as int,
                        ctx.home().0,
                        *b,
                        v,
                    ) && grown(heap@, mid, ctx.home().0) && carried_out(
                        heap@,
                        symbols@,
                        mid,
                        symbols_after@,
                        b.script(),
                    ) && r.0 == SignalBits::new(SIG_OK)
            } else {
                failed(
                    heap@,
                    heap_after@,
                    ctx.home(),
                    "internal-error"@,
                    "thread-state: no symbol table"@,
                    r,
                )
            },
            Some(Err(e)) => exists|mid: HeapState, v: Value| #[trigger]
                tagged(mid, heap_after@, ctx.home(), "failed"@, v, r.1) && born(
                    heap@,
                    mid,
                    ctx.home(),
                    v,
                ) && is_string(heap@, birth(mid), e@) && r.0 == SignalBits::new(SIG_OK),
            None => exists|mid: HeapState, v: Value| #[trigger]
                tagged(mid, heap_after@, ctx.home(), "pending"@, v, r.1) && born(
                    heap@,
                    mid,
                    ctx.home(),
                    v,
                ) && is_receiver(birth(mid), done) && r.0 == SignalBits::new(SIG_OK),
        }
    &&& !(slot matches Some(Ok(_))) || !has_symbols || thread_at(heap@, args@[0]) is None
            ==> symbols_after@ == symbols@
    &&& extends(symbols@, symbols_after@)
}

/// Say how a thread is doing, without waiting: `[:ready value]` with its result,
/// `[:failed message]`, or `[:pending receiver]` with a receiver over its
/// completion channel. `slot` is what the thread stored, `done` that channel.
pub fn prim_thread_state(
    ctx: &Alloc,
    heap: &mut FiberHeap,
    symbols: &mut SymbolTable,
    has_symbols: bool,
    args: &Vec<Value>,
    slot: Option<&Result<SendBundle, String>>,
    done: ChanEnd,
) -> (r: (SignalBits, Value))
    requires
        args@.len() == 1,
        ctx.ready(old(heap)@, 8),
        slot matches Some(Ok(b)) ==> b.well_formed() && ctx.ready(old(heap)@, b.total_weight() + 5)
            && old(symbols)@.len() + b.total_weight() + 5 <= u32::MAX,
    ensures
        state_told(
            *ctx,
            *old(heap),
            *final(heap),
            *old(symbols),
            *final(symbols),
            has_symbols,
            *args,
            slot,
            done,
            r,
        ),
{
    let ghost start = heap@;
    if as_thread_handle(heap, args[0]).is_none() {
        return fail(
            ctx,
            heap,
            "type-error",
            &"thread-state: argument must be a thread handle".to_string(),
        );
    }
    match slot {
        Some(Ok(b)) => {
            if !has_symbols {
                return fail(ctx, heap, "internal-error", &"thread-state: no symbol table".to_string());
            }
            let v = b.rebuild_with(ctx, heap, symbols, Ghost(5));
            tagged_array(ctx, heap, "ready", v)
        },
        Some(Err(e)) => {
            proof {
                lemma_room_less(start, 8, 2);
            }
            let v = ctx.string(heap, e);
            proof {
                lemma_allocated(start, birth(heap@), ctx.home().0);
                assert(birth(heap@).children().len() == 1);
                assert(start.allocated(birth(heap@), ctx.home().0).room((8 - 1 - 1) as nat));
                lemma_room_less(heap@, 6, 5);
            }
            tagged_array(ctx, heap, "failed", v)
        },
        None => {
            proof {
                lemma_room_less(start, 8, 2);
            }
            let v = ctx.external(heap, "chan/receiver".to_string(), ExternalData::Channel(done));
            proof {
                lemma_allocated(start, birth(heap@), ctx.home().0);
                assert(birth(heap@).children().len() == 1);
                assert(start.allocated(birth(heap@), ctx.home().0).room((8 - 1 - 1) as nat));
                lemma_room_less(heap@, 6, 5);
            }
            tagged_array(ctx, heap, "pending", v)
        },
    }
}

/// The object is a receiver over this channel.
pub open spec fn is_receiver(obj: HeapObject, end: ChanEnd) -> bool {
    match obj {
        HeapObject::External { obj, traits } => obj.kind_name@ == "chan/receiver"@ && obj.data
            == ExternalData::Channel(end) && traits == Value::nil(),
        _ => false,
    }
}

} // verus!
