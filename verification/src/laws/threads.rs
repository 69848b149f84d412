//! Threads and what passes between them: stacks, workers, results and wake-ups.

use vstd::prelude::*;

use crate::chan::{
    chan_trace, guard_let_go, lemma_deregistered, pipe_replied, ChanSelectGuard, GuardRelease, PipeStep, WakeList,
    WakePipe,
};
use crate::concurrency::{
    as_thread_handle, bare_spawn_asked, main_thread_stack_limit, prim_current_thread_id, resolve_worker_stack,
    result_packed, spawn_asked, state_told, thread_given, worker_env_made, worker_outcome, SpawnStep, Unwound,
    WORKER_STACK_CAP, WORKER_STACK_FALLBACK, WORKER_STACK_FLOOR,
};
use crate::ctx::{with_keyword, Alloc};
use crate::fibers::keyword_text;
use crate::heap::{lemma_allocated, FiberHeap, HeapState, RuntimeRegion};
use crate::laws::collections::lemma_newborn_reads_back;
use crate::laws::failing::{lemma_failure_reads_back, raises};
use crate::laws::spelling::lemma_decimal_value;
use crate::object::{ChanEnd, Closure, HeapObject};
use crate::parse::stripped;
use crate::prim::{closure_at, string_at};
use crate::sendmirror::{own, sent};
use crate::sendvalue::SendBundle;
use crate::signalbits::SignalBits;
use crate::signals::SIG_OK;
use crate::symbol::SymbolTable;
use crate::text::decimal;
use crate::value::{Value, TAG_ARRAY, TAG_NATIVE_FN, TAG_THREAD};
use crate::vm::VM;

verus! {

/// Without a setting a worker's stack is as large as the main thread's, but no smaller
/// than the floor and no larger than the cap; where that is not known it is the fallback.
pub proof fn lemma_worker_stack_follows_the_main_one(main: Option<u64>, r: u64)
    requires
        call_ensures(resolve_worker_stack, (None::<&str>, main), r),
    ensures
        main matches Some(n) ==> (WORKER_STACK_FLOOR <= n <= WORKER_STACK_CAP ==> r == n),
        main matches Some(n) ==> (n < WORKER_STACK_FLOOR ==> r == WORKER_STACK_FLOOR),
        main matches Some(n) ==> (n > WORKER_STACK_CAP ==> r == WORKER_STACK_CAP),
        main is None ==> r == WORKER_STACK_FALLBACK,
{
}

/// A setting that spells a number decides, whatever the main thread has, within the same
/// bounds; space around it does not matter to what it spells.
pub proof fn lemma_stack_setting_decides(s: &str, n: usize, main: Option<u64>, r: u64)
    requires
        s@ == decimal(n as nat),
        call_ensures(resolve_worker_stack, (Some(s), main), r),
    ensures
        WORKER_STACK_FLOOR <= n <= WORKER_STACK_CAP ==> r == n,
        n < WORKER_STACK_FLOOR ==> r == WORKER_STACK_FLOOR,
        n > WORKER_STACK_CAP ==> r == WORKER_STACK_CAP,
{
    lemma_decimal_value(n as nat);
    assert(s@[0] != '-' && s@[0] != '+');
    assert(stripped(s@) == s@);
}

/// The limit of the main thread's stack is what was read, where it could be read and is a
/// limit at all.
pub proof fn lemma_stack_limit_is_what_was_read(read: bool, current: u64, infinity: u64, r: Option<u64>)
    requires
        call_ensures(main_thread_stack_limit, (read, current, infinity), r),
    ensures
        read && current != infinity && current != 0 ==> r == Some(current),
        !read || current == infinity || current == 0 ==> r is None,
{
}

/// A thread is known by the number in its name.
pub proof fn lemma_thread_is_known_by_its_number(name: &str, n: nat, r: (SignalBits, Value))
    requires
        name@ == "ThreadId("@ + decimal(n) + ")"@,
        n <= i64::MAX,
        call_ensures(prim_current_thread_id, (name,), r),
    ensures
        r == (SignalBits::new(SIG_OK), Value::integer(n as i64)),
{
    reveal_strlit("ThreadId(");
    reveal_strlit(")");
    let p = "ThreadId("@;
    lemma_decimal_value(n);
    let rest = decimal(n) + ")"@;
    assert(name@ =~= p + rest);
    assert(name@.skip(p.len() as int) =~= rest);
    assert(rest[0] == decimal(n)[0]);
    assert(!crate::searchpath::starts(rest, p)) by {
        if crate::searchpath::starts(rest, p) {
            assert(rest[0] == p[0]);
        }
    }
    assert(crate::concurrency::without_prefixes(rest, p) == rest);
    assert(name@.take(p.len() as int) =~= p);
    assert(crate::searchpath::starts(name@, p));
    assert(crate::concurrency::without_prefixes(name@, p) == rest);
    assert(rest.last() == ')');
    assert(rest.drop_last() =~= decimal(n));
    assert(crate::concurrency::without_brackets(decimal(n)) == decimal(n));
    assert(crate::concurrency::without_brackets(rest) == decimal(n));
    assert(decimal(n)[0] != '-' && decimal(n)[0] != '+');
}

proof fn lemma_fresh_locals(h: HeapState, c: Closure, n: nat)
    requires
        h.valid(),
        h.objects.len() + n <= crate::heap::MAX_OBJECTS,
        h.counts.len() + n <= u32::MAX,
    ensures
        ({
            let (g, values) = crate::concurrency::fresh_locals(h, c, n);
            &&& g.valid()
            &&& values.len() == n
            &&& h.objects.len() <= g.objects.len() <= h.objects.len() + n
            &&& h.counts.len() <= g.counts.len() <= h.counts.len() + n
            &&& forall|u: Value| h.target(u) is Some ==> #[trigger] g.target(u) == h.target(u)
            &&& forall|k: int| 0 <= k < h.objects.len() ==> #[trigger] g.objects[k] == h.objects[k]
            &&& forall|i: int|
                0 <= i < n ==> if c.code().capture_locals_mask.has(i) {
                    g.target(#[trigger] values[i]) is Some && g.object(values[i]) == (HeapObject::CaptureCell {
                        cell: Value::nil(),
                        traits: Value::nil(),
                    })
                } else {
                    values[i] == Value::nil()
                }
        }),
    decreases n,
{
    if n > 0 {
        let m = (n - 1) as nat;
        lemma_fresh_locals(h, c, m);
        let (g, values) = crate::concurrency::fresh_locals(h, c, m);
        if c.code().capture_locals_mask.has(n - 1) {
            let cell = HeapObject::CaptureCell { cell: Value::nil(), traits: Value::nil() };
            let wide = g.with_region();
            assert(wide.valid()) by {
                assert forall|i: int, k: int| 0 <= i < wide.edges.len() && 0 <= k < wide.edges[i].len() implies (
                #[trigger] wide.edges[i][k]) < wide.counts.len() && wide.edges[i][k] != i by {
                    assert(g.edges[i][k] < g.counts.len());
                }
            }
            lemma_allocated(wide, cell, g.counts.len() as u32);
            let next = wide.allocated(cell, g.counts.len() as u32);
            assert(next.resolves(next.newest()));
            assert forall|u: Value| h.target(u) is Some implies #[trigger] next.target(u) == h.target(u) by {
                assert(g.target(u) == h.target(u));
                assert(wide.target(u) == g.target(u));
            }
            let all = values.push(next.newest());
            assert forall|i: int| 0 <= i < n implies if c.code().capture_locals_mask.has(i) {
                next.target(#[trigger] all[i]) is Some && next.object(all[i]) == cell
            } else {
                all[i] == Value::nil()
            } by {
                if i < m {
                    assert(all[i] == values[i]);
                    if c.code().capture_locals_mask.has(i) {
                        assert(wide.target(values[i]) == g.target(values[i]));
                        assert(next.target(values[i]) == wide.target(values[i]));
                    }
                }
            }
        }
    }
}

/// The environment of a worker: what the closure captured, at the same places, and then
/// its locals, each nil, or a fresh cell that holds nil where the local is captured.
pub proof fn lemma_worker_env_lays_out_the_locals(heap: FiberHeap, after: FiberHeap, closure: Closure, r: Vec<Value>)
    requires
        worker_env_made(heap, after, closure, r),
        closure.template.num_locals >= closure.template.num_params,
        heap@.valid(),
        heap@.objects.len() + closure.template.num_locals <= crate::heap::MAX_OBJECTS,
        heap@.counts.len() + closure.template.num_locals <= u32::MAX,
    ensures
        r@.len() == closure.env@.len() + (closure.template.num_locals - closure.template.num_params),
        forall|i: int| 0 <= i < closure.env@.len() ==> #[trigger] r@[i] == closure.env@[i],
        forall|j: int|
            closure.env@.len() <= j < r@.len() ==> if closure.template.capture_locals_mask.has(
                j - closure.env@.len(),
            ) {
                after@.target(#[trigger] r@[j]) is Some && after@.object(r@[j]) == (HeapObject::CaptureCell {
                    cell: Value::nil(),
                    traits: Value::nil(),
                })
            } else {
                r@[j] == Value::nil()
            },
{
    let n = (closure.template.num_locals - closure.template.num_params) as nat;
    lemma_fresh_locals(heap@, closure, n);
    let values = crate::concurrency::fresh_locals(heap@, closure, n).1;
    assert forall|j: int| closure.env@.len() <= j < r@.len() implies if closure.template.capture_locals_mask.has(
        j - closure.env@.len(),
    ) {
        after@.target(#[trigger] r@[j]) is Some && after@.object(r@[j]) == (HeapObject::CaptureCell {
            cell: Value::nil(),
            traits: Value::nil(),
        })
    } else {
        r@[j] == Value::nil()
    } by {
        assert(r@[j] == values[j - closure.env@.len()]);
    }
}

/// What a joiner finds is what the body stored; where it stored nothing, an error that
/// says how the body ended.
pub proof fn lemma_joiner_finds_what_was_stored(
    stored: Option<Result<SendBundle, String>>,
    unwound: Unwound,
    r: Result<SendBundle, String>,
)
    requires
        call_ensures(worker_outcome, (stored, &unwound), r),
    ensures
        stored matches Some(x) ==> r == x,
        stored is None ==> r is Err,
        stored is None ==> (unwound matches Unwound::Text(t) ==> r->Err_0@ == "worker thread panicked: "@ + t@),
        stored is None && unwound is Other ==> r->Err_0@ == "worker thread panicked: "@ + "non-string panic payload"@,
        stored is None && unwound is No ==> r->Err_0@ == "worker thread panicked: "@ + "result never stored"@,
{
}

/// A worker hands back the value that its body gave, packed, or the error that it failed
/// with; the region it ran in is given up.
pub proof fn lemma_worker_hands_its_result_back(
    vm: VM,
    after: VM,
    region: RuntimeRegion,
    result: Result<Value, String>,
    symbols: SymbolTable,
    r: Result<SendBundle, String>,
)
    requires
        result_packed(vm, after, region, result, symbols, r),
    ensures
        result matches Err(e) ==> r is Err && r->Err_0@ == e@,
        result matches Ok(v) ==> (r matches Ok(b) ==> sent(vm.heap@, own(symbols@), v, b)),
        after.heap@ == vm.heap@.decref(region.0),
        after.fiber == vm.fiber,
{
}

/// A thread that was started is known by its handle; one that could not be is an error
/// with its reason.
pub proof fn lemma_started_thread_is_known(
    ctx: Alloc,
    heap: FiberHeap,
    after: FiberHeap,
    handle: u32,
    r: (SignalBits, Value),
    seen: Option<u32>,
    failed_heap: FiberHeap,
    why: String,
    none: (SignalBits, Value),
)
    requires
        ctx.ready(heap@, 8),
        thread_given(ctx, heap, after, Ok(handle), r),
        call_ensures(as_thread_handle, (&after, r.1), seen),
        thread_given(ctx, heap, failed_heap, Err(why), none),
    ensures
        r.0 == SignalBits::new(SIG_OK),
        r.1.tag == TAG_THREAD,
        seen == Some(handle),
        raises(
            failed_heap@,
            none,
            "thread-error"@,
            "spawn: failed to start worker thread: "@ + why@,
        ),
{
    lemma_newborn_reads_back(heap@, after@, ctx.home(), r.1);
    lemma_failure_reads_back(
        heap@,
        failed_heap@,
        ctx.home(),
        "thread-error"@,
        "spawn: failed to start worker thread: "@ + why@,
        none,
    );
}

/// The array is a state: the keyword of this name, and what goes with it.
pub open spec fn reads_as_state(s: HeapState, v: Value, name: Seq<char>, with: Value) -> bool {
    &&& v.tag == TAG_ARRAY
    &&& s.target(v) is Some
    &&& s.object(v) matches HeapObject::LArray { elements, .. } && elements@.len() == 2 && keyword_text(
        s.keywords,
        elements@[0],
    ) == Some(name) && elements@[1] == with
}

proof fn lemma_state_reads_back(
    before: HeapState,
    after: HeapState,
    home: RuntimeRegion,
    name: Seq<char>,
    v: Value,
    r: Value,
)
    requires
        before.valid(),
        home.0 < before.counts.len(),
        before.objects.len() < crate::heap::MAX_OBJECTS,
        before.keywords.len() < u32::MAX,
        crate::concurrency::tagged(before, after, home, name, v, r),
    ensures
        reads_as_state(after, r, name, v),
        forall|u: Value| before.target(u) is Some ==> #[trigger] after.target(u) == before.target(u) && after.object(u)
            == before.object(u),
{
    let named = with_keyword(before, name);
    assert(named.valid());
    assert(before.keywords.contains(name) || named.keywords.last() == name);
    assert(named.keywords.contains(name));
    assert(named.keywords[named.keywords.index_of(name)] == name);
    lemma_allocated(named, after.objects.last(), home.0);
    assert forall|u: Value| before.target(u) is Some implies #[trigger] after.target(u) == before.target(u)
        && after.object(u) == before.object(u) by {
        assert(named.target(u) == before.target(u));
        let i = before.target(u)->0;
        assert(after.objects[i] == before.objects[i]);
    }
}

/// A thread that has not ended is pending, with a receiver of the channel that its end is
/// announced on; one that failed is failed, with the message.
pub proof fn lemma_thread_state_is_told(
    ctx: Alloc,
    heap: FiberHeap,
    ha: FiberHeap,
    hb: FiberHeap,
    symbols: SymbolTable,
    sa: SymbolTable,
    sb: SymbolTable,
    args: Vec<Value>,
    has_symbols: bool,
    done: ChanEnd,
    why: String,
    handle: u32,
    pending: (SignalBits, Value),
    failed: (SignalBits, Value),
) -> (out: (Value, Value))
    requires
        ctx.ready(heap@, 12),
        args@.len() == 1,
        call_ensures(as_thread_handle, (&heap, args@[0]), Some(handle)),
        done.open,
        state_told(ctx, heap, ha, symbols, sa, has_symbols, args, None, done, pending),
        state_told(ctx, heap, hb, symbols, sb, has_symbols, args, Some(&Err(why)), done, failed),
    ensures
        pending.0 == SignalBits::new(SIG_OK),
        reads_as_state(ha@, pending.1, "pending"@, out.0),
        crate::chan::end_at(ha@, out.0, "chan/receiver"@) == Some(done),
        failed.0 == SignalBits::new(SIG_OK),
        reads_as_state(hb@, failed.1, "failed"@, out.1),
        string_at(hb@, out.1) == Some(why@),
{
    let (mid, v) = choose|mid: HeapState, v: Value| #[trigger]
        crate::concurrency::tagged(mid, ha@, ctx.home(), "pending"@, v, pending.1) && crate::ctx::born(
            heap@,
            mid,
            ctx.home(),
            v,
        ) && crate::concurrency::is_receiver(crate::ctx::birth(mid), done) && pending.0 == SignalBits::new(SIG_OK);
    lemma_newborn_reads_back(heap@, mid, ctx.home(), v);
    lemma_allocated(heap@, mid.objects.last(), ctx.home().0);
    lemma_state_reads_back(mid, ha@, ctx.home(), "pending"@, v, pending.1);
    assert(ha@.target(v) == mid.target(v));
    let (mid2, w) = choose|mid: HeapState, v: Value| #[trigger]
        crate::concurrency::tagged(mid, hb@, ctx.home(), "failed"@, v, failed.1) && crate::ctx::born(
            heap@,
            mid,
            ctx.home(),
            v,
        ) && crate::ctx::is_string(heap@, crate::ctx::birth(mid), why@) && failed.0 == SignalBits::new(SIG_OK);
    lemma_newborn_reads_back(heap@, mid2, ctx.home(), w);
    lemma_allocated(heap@, mid2.objects.last(), ctx.home().0);
    lemma_state_reads_back(mid2, hb@, ctx.home(), "failed"@, w, failed.1);
    assert(hb@.target(w) == mid2.target(w));
    (v, w)
}

/// Only closures are spawned: a native function is refused, and so is anything else.
pub proof fn lemma_only_closures_are_spawned(
    ctx: Alloc,
    vm: VM,
    after: VM,
    symbols: Option<&SymbolTable>,
    args: Vec<Value>,
    r: SpawnStep,
)
    requires
        ctx.ready(vm.heap@, 8),
        args@.len() == 1,
        spawn_asked(ctx, vm, after, symbols, args, r),
        closure_at(vm.heap@, args@[0]) is None,
    ensures
        r is Done,
        args@[0].tag == TAG_NATIVE_FN ==> raises(
            after.heap@,
            r->Done_0,
            "argument-error"@,
            "spawn: native functions cannot be spawned. Use closures instead."@,
        ),
        args@[0].tag != TAG_NATIVE_FN ==> raises(
            after.heap@,
            r->Done_0,
            "type-error"@,
            "spawn: argument must be a closure"@,
        ),
{
    if args@[0].tag == TAG_NATIVE_FN {
        lemma_failure_reads_back(
            vm.heap@,
            after.heap@,
            ctx.home(),
            "argument-error"@,
            "spawn: native functions cannot be spawned. Use closures instead."@,
            r->Done_0,
        );
    } else {
        lemma_failure_reads_back(
            vm.heap@,
            after.heap@,
            ctx.home(),
            "type-error"@,
            "spawn: argument must be a closure"@,
            r->Done_0,
        );
    }
}

/// A worker starts from what its spawner has: what is withheld from the one is withheld
/// from the other, and strings are segmented alike. It gets the standard library unless it
/// was spawned bare.
pub proof fn lemma_worker_starts_from_its_spawner(
    ctx: Alloc,
    vm: VM,
    a: VM,
    b: VM,
    symbols: Option<&SymbolTable>,
    args: Vec<Value>,
    full: SpawnStep,
    bare: SpawnStep,
    i: int,
)
    requires
        args@.len() == 1,
        spawn_asked(ctx, vm, a, symbols, args, full),
        bare_spawn_asked(ctx, vm, b, symbols, args, bare),
        closure_at(vm.heap@, args@[0]) is Some,
    ensures
        full matches SpawnStep::Start { load_stdlib, withheld, unicode_generation, .. } ==> load_stdlib && (
        withheld.has(i) <==> vm.fiber.withheld.has(i)) && unicode_generation == vm.unicode_generation,
        bare matches SpawnStep::Start { load_stdlib, withheld, unicode_generation, .. } ==> !load_stdlib && (
        withheld.has(i) <==> vm.fiber.withheld.has(i)) && unicode_generation == vm.unicode_generation,
        a.fiber == vm.fiber,
        b.fiber == vm.fiber,
        a.fibers == vm.fibers,
{
}

/// A list that waits for a wake-up is woken whole.
pub proof fn lemma_all_are_woken(list: WakeList, r: Vec<i32>, n: usize)
    requires
        call_ensures(WakeList::wake_all, (&list,), r),
        call_ensures(WakeList::len, (&list,), n),
    ensures
        r@.len() == n,
        forall|i: int| 0 <= i < n ==> #[trigger] r@[i] == list@[i],
{
}

/// A guard that is let go waits on none of its channels any more; other waiters and other
/// channels are as before. Both its ends are closed, each once.
pub proof fn lemma_guard_waits_no_more(
    guard: ChanSelectGuard,
    lists: Vec<WakeList>,
    after: Vec<WakeList>,
    r: GuardRelease,
    c: int,
    other: i32,
)
    requires
        guard_let_go(guard, lists, after, r),
        0 <= c < lists@.len(),
        lists@.len() <= usize::MAX,
    ensures
        after@.len() == lists@.len(),
        guard.channels@.contains(c as usize) ==> !after@[c]@.contains(guard.wake_fd),
        other != guard.wake_fd ==> after@[c]@.contains(other) == lists@[c]@.contains(other),
        !guard.channels@.contains(c as usize) ==> after@[c]@ == lists@[c]@,
        r.signal == guard.wake_fd,
        r.close@.contains(guard.poll_fd),
        r.close@.contains(guard.wake_fd),
        r.close@.no_duplicates(),
{
    lemma_deregistered(lists@[c]@, guard.wake_fd, other);
    assert(r.close@[0] == guard.poll_fd);
    assert(r.close@[r.close@.len() - 1] == guard.wake_fd);
}

/// The flags that a wake pipe sets hold what was there and what is to be set; a call that
/// failed closes both ends.
pub proof fn lemma_pipe_keeps_the_flags(pipe: WakePipe, after: WakePipe, reply: i32, r: PipeStep)
    requires
        pipe_replied(pipe, after, reply, r),
    ensures
        reply < 0 ==> r == (PipeStep::Fail { read_fd: pipe.read_fd, write_fd: pipe.write_fd }),
        reply >= 0 ==> (pipe.asked matches PipeStep::GetStatus { fd } ==> (r matches PipeStep::SetStatus {
            fd: f,
            flags,
        } && f == fd && flags & reply == reply && flags & pipe.nonblock == pipe.nonblock)),
        reply >= 0 ==> (pipe.asked matches PipeStep::GetDescriptor { fd } ==> (r matches PipeStep::SetDescriptor {
            fd: f,
            flags,
        } && f == fd && flags & reply == reply && flags & pipe.cloexec == pipe.cloexec)),
        after.read_fd == pipe.read_fd && after.write_fd == pipe.write_fd,
{
    let (a, b, c) = (reply, pipe.nonblock, pipe.cloexec);
    assert((a | b) & a == a && (a | b) & b == b && (a | c) & a == a && (a | c) & c == c) by (bit_vector);
}

/// A traced event is one line; where tracing is off there is none.
pub proof fn lemma_traced_event_is_one_line(enabled: bool, event: String, r: Option<String>)
    requires
        call_ensures(chan_trace, (enabled, &event), r),
    ensures
        r is Some == enabled,
        r matches Some(line) ==> line@ == "[trace:chan] "@ + event@ + "\n"@,
{
}

} // verus!
