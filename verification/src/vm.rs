//! The virtual machine's state, and the bookkeeping that every execution path
//! shares.

use std::rc::Rc;

use rustc_hash::FxHashMap;
use vstd::prelude::*;

use crate::ctx::{error_made, Alloc};
use crate::fiber::{
    chain, chain_nodes, nodes_released, release_nodes, CallFrame, Code, Fiber, FiberStatus, SuspendedFrame,
};
use crate::fibertable::FiberTable;
use crate::fxmap::{fx_get, fx_insert, fx_new};
use crate::heap::{FiberHeap, HeapState, RuntimeRegion};
use crate::object::{Arity, Closure, ClosureTemplate};
use crate::registration::DocTable;
use crate::signalbits::SignalBits;
use crate::signals::{squelched, squelched_bits, SIG_ERROR, SIG_OK};
use crate::token::SourceLoc;
use crate::value::Value;

verus! {

/// Compiled code together with the bytecode it was compiled from. Holding the
/// bytecode keeps its address from being reused while the entry lives.
pub struct JitCacheEntry {
    pin: Rc<Vec<u8>>,
    /// The compiled code, by its number in the code cache.
    pub code: u64,
}

impl JitCacheEntry {
    /// The bytecode that the entry keeps alive.
    pub closed spec fn pinned(self) -> Rc<Vec<u8>> {
        self.pin
    }

    /// The compiled code.
    pub closed spec fn compiled(self) -> u64 {
        self.code
    }

    /// An entry that keeps `bytecode` alive.
    pub fn new(bytecode: Rc<Vec<u8>>, code: u64) -> (r: JitCacheEntry)
        ensures
            r.pinned() == bytecode,
            r.compiled() == code,
    {
        JitCacheEntry { pin: bytecode, code }
    }
}

/// The releases that a frame-replacing tail call leaves behind.
#[derive(Clone, Copy, PartialEq, Eq, Structural, Debug)]
pub struct DeferredReleases {
    /// The merged arena of a closure cycle.
    pub arena: Option<RuntimeRegion>,
    /// The callee closure's own region.
    pub callee: Option<RuntimeRegion>,
}

impl DeferredReleases {
    /// The regions to release, in the order they were earned.
    pub open spec fn owed(self) -> Seq<RuntimeRegion> {
        let a = match self.arena {
            Some(r) => seq![r],
            None => Seq::empty(),
        };
        match self.callee {
            Some(r) => a.push(r),
            None => a,
        }
    }

    /// The regions to release at the activation's normal completion, in the
    /// order they were earned.
    pub fn regions(self) -> (r: Vec<RuntimeRegion>)
        ensures
            r@ == self.owed(),
    {
        let mut out: Vec<RuntimeRegion> = Vec::new();
        if let Some(r) = self.arena {
            out.push(r);
        }
        if let Some(r) = self.callee {
            out.push(r);
        }
        assert(out@ =~= self.owed());
        out
    }
}

/// A tail call that waits for the frame to be replaced.
pub struct TailCallInfo {
    pub code: Code,
    pub env: Vec<Value>,
    /// The callee that the activation goes on as.
    pub closure: Value,
    pub squelch_mask: SignalBits,
    /// The releases that the new activation takes over.
    pub deferred: DeferredReleases,
}

/// A fiber switch that waits for the trampoline.
#[derive(Clone, Copy)]
pub struct PendingFiberResume {
    pub handle: u32,
    pub fiber_value: Value,
    /// The fiber whose code asked for the resume, with its value.
    pub parent: Option<(u32, Option<Value>)>,
}

/// Where an instance keeps its compiled standard library.
pub enum StdlibCache {
    /// In the directory that the whole process shares.
    Process,
    /// In a directory of its own.
    Dir(String),
}

impl StdlibCache {
    /// The same place.
    pub open spec fn same(self, other: StdlibCache) -> bool {
        match (self, other) {
            (StdlibCache::Process, StdlibCache::Process) => true,
            (StdlibCache::Dir(a), StdlibCache::Dir(b)) => a@ == b@,
            _ => false,
        }
    }

    /// Copy of the place.
    pub fn copy(&self) -> (r: StdlibCache)
        ensures
            r.same(*self),
    {
        match self {
            StdlibCache::Process => StdlibCache::Process,
            StdlibCache::Dir(d) => StdlibCache::Dir(d.clone()),
        }
    }
}

/// The virtual machine.
pub struct VM {
    /// The generation of the Unicode tables that strings are segmented by, fixed
    /// before the first string is.
    pub unicode_generation: u32,
    /// Where the instance keeps its compiled standard library; a worker inherits
    /// it.
    pub stdlib_cache: StdlibCache,
    pub heap: FiberHeap,
    pub fibers: FiberTable,
    /// The fiber that is running.
    pub fiber: Fiber,
    /// Its number, none for the root fiber.
    pub current_fiber_handle: Option<u32>,
    pub current_fiber_value: Option<Value>,
    /// The modules that are being loaded, each once.
    pub loading_modules: Vec<String>,
    /// What each loaded plugin returned.
    pub loaded_plugins: Vec<(String, Value)>,
    /// How often each closure was called, by the address of its bytecode.
    pub closure_call_counts: FxHashMap<u64, usize>,
    pub pending_tail_call: Option<TailCallInfo>,
    pub pending_fiber_resume: Option<PendingFiberResume>,
    /// The closure whose body runs next.
    pub pending_entry_closure: Value,
    /// Whether the caller parks the next activation's frame on an error.
    pub pending_error_park: bool,
    pub trampoline_parent_override: Option<(u32, Option<Value>)>,
    /// Where the current error was raised.
    pub error_loc: Option<SourceLoc>,
    pub gated_exit_reason: Option<String>,
    /// The backend that is executing.
    pub active_tier: &'static str,
    /// Whether an exit is turned into an error.
    pub exit_trapped: bool,
    /// Documentation of all named forms.
    pub docs: DocTable,
    pub user_args: Vec<String>,
    pub source_arg: String,
    /// From how many calls on a closure is hot.
    pub jit_threshold: usize,
}

/// The texts of a list of names.
pub open spec fn loading(names: Seq<String>) -> Set<Seq<char>> {
    Set::new(|t: Seq<char>| exists|i: int| 0 <= i < names.len() && (#[trigger] names[i])@ == t)
}

/// No name twice.
pub open spec fn once_each(names: Seq<String>) -> bool {
    forall|i: int, j: int| 0 <= i < j < names.len() ==> (#[trigger] names[i])@ != (#[trigger] names[j])@
}

/// How often a closure was called.
pub open spec fn call_count(counts: Map<u64, usize>, at: u64) -> usize {
    if counts.dom().contains(at) {
        counts[at]
    } else {
        0
    }
}

/// The root fiber's closure: empty code that is never called.
fn root_closure() -> (r: Rc<Closure>)
    ensures
        r.template.bytecode@.len() == 0,
        r.template.arity == Arity::Exact(0),
        r.template.constants@.len() == 0,
        r.env@.len() == 0,
        r.squelch_mask == SignalBits::empty(),
{
    let template = ClosureTemplate::new(Vec::new(), Arity::Exact(0), Vec::new());
    Rc::new(
        Closure { template: Rc::new(template), env: Vec::new(), squelch_mask: SignalBits::empty() },
    )
}

/// The fiber is the root fiber as it starts: alive, catching nothing.
pub open spec fn is_root(f: Fiber) -> bool {
    &&& f.fresh(f.closure, SignalBits::new(SIG_OK))
    &&& f.status == FiberStatus::Alive
    &&& f.native_iter is None
    &&& f.closure.template.bytecode@.len() == 0
    &&& f.closure.template.arity == Arity::Exact(0)
    &&& f.closure.env@.len() == 0
}

fn root_fiber() -> (r: Fiber)
    ensures
        is_root(r),
{
    let mut f = Fiber::new(root_closure(), SignalBits::new(SIG_OK));
    f.status = FiberStatus::Alive;
    f
}

/// Where the current call's locals begin.
pub open spec fn frame_base(f: Fiber) -> usize {
    if f.call_stack@.len() == 0 {
        0
    } else {
        f.call_stack@.last().frame_base
    }
}

/// What a squelching boundary does to a signal.
pub open spec fn squelch_enforced(
    vm: VM,
    vm_after: VM,
    bits: SignalBits,
    mask: SignalBits,
    shown: String,
    r: bool,
) -> bool {
    &&& r == (squelched(bits, mask) != SignalBits::empty())
    &&& !r ==> vm_after == vm
    &&& r ==> squelch_settled(vm, vm_after, shown@, (vm_after.fiber.signal->0).1)
    &&& r ==> vm_after.fiber.signal is Some
    &&& r ==> (vm_after.fiber.signal->0).0 == SignalBits::new(SIG_ERROR)
    &&& r ==> vm_after == (VM {
            heap: vm_after.heap,
            fiber: Fiber {
                signal: vm_after.fiber.signal,
                suspended: None,
                ..vm.fiber
            },
            ..vm
        })
}

/// What entering a call does.
pub open spec fn frame_pushed(
    vm: VM,
    vm_after: VM,
    name: String,
    ip: usize,
) -> bool {
    &&& vm_after.fiber.call_depth == vm.fiber.call_depth + 1
    &&& vm_after.fiber.call_stack@ == vm.fiber.call_stack@.push(
            CallFrame { name, ip, frame_base: vm.fiber.stack@.len() as usize },
        )
    &&& vm_after == (VM {
            fiber: Fiber {
                call_depth: vm_after.fiber.call_depth,
                call_stack: vm_after.fiber.call_stack,
                ..vm.fiber
            },
            ..vm
        })
    &&& frame_base(vm_after.fiber) == vm.fiber.stack@.len()
}

/// What counting a call does.
pub open spec fn call_recorded(
    vm: VM,
    vm_after: VM,
    at: u64,
    r: bool,
) -> bool {
    &&& vm_after.closure_call_counts@ == vm.closure_call_counts@.insert(
            at,
            (call_count(vm.closure_call_counts@, at) + 1) as usize,
        )
    &&& r == (call_count(vm.closure_call_counts@, at) + 1 >= vm.jit_threshold)
    &&& vm_after == (VM {
            closure_call_counts: vm_after.closure_call_counts,
            ..vm
        })
}

/// What taking the reason of a gated exit does.
pub open spec fn exit_reason_taken(
    vm: VM,
    vm_after: VM,
    r: Option<String>,
) -> bool {
    &&& r == vm.gated_exit_reason
    &&& vm_after == (VM { gated_exit_reason: None, ..vm })
}

/// What marking a module as loading does.
pub open spec fn module_marked(
    vm: VM,
    vm_after: VM,
    module: String,
) -> bool {
    &&& loading(vm_after.loading_modules@) == loading(vm.loading_modules@).insert(
            module@,
        )
    &&& once_each(vm_after.loading_modules@)
    &&& vm_after == (VM { loading_modules: vm_after.loading_modules, ..vm })
}

/// What taking the mark back does.
pub open spec fn module_unmarked(
    vm: VM,
    vm_after: VM,
    module: String,
) -> bool {
    &&& loading(vm_after.loading_modules@) == loading(vm.loading_modules@).remove(
            module@,
        )
    &&& once_each(vm_after.loading_modules@)
    &&& vm_after == (VM { loading_modules: vm_after.loading_modules, ..vm })
}

/// What discarding the suspended frames does.
pub open spec fn frames_discarded(
    vm: VM,
    vm_after: VM,
) -> bool {
    &&& vm_after.heap@ == nodes_released(
            vm.heap@,
            chain_nodes(chain(vm.fiber.suspended)),
        )
    &&& vm_after.heap@.valid()
    &&& vm_after == (VM {
            heap: vm_after.heap,
            fiber: Fiber { suspended: None, ..vm.fiber },
            ..vm
        })
}

impl VM {
    /// Nothing is pending and nothing has run.
    pub open spec fn idle(self) -> bool {
        &&& is_root(self.fiber)
        &&& self.current_fiber_handle is None
        &&& self.current_fiber_value is None
        &&& self.loading_modules@.len() == 0
        &&& self.closure_call_counts@.dom() == Set::<u64>::empty()
        &&& self.pending_tail_call is None
        &&& self.pending_fiber_resume is None
        &&& self.pending_entry_closure == Value::nil()
        &&& !self.pending_error_park
        &&& self.error_loc is None
        &&& self.active_tier@ == "bytecode"@
    }

    /// A machine on a heap of its own. The default traits of its types are set by
    /// whoever has their tables.
    pub fn new(jit_threshold: usize, unicode_generation: u32) -> (r: VM)
        ensures
            r.idle(),
            r.heap@.valid(),
            r.heap@.untouched(),
            r.bare(jit_threshold, unicode_generation),
    {
        VM::on_heap(FiberHeap::new(), jit_threshold, unicode_generation)
    }

    /// A machine on a given heap, with the default traits that the heap has.
    pub fn new_with_heap(heap: FiberHeap, jit_threshold: usize, unicode_generation: u32) -> (r: VM)
        ensures
            r.heap == heap,
            r.idle(),
            r.bare(jit_threshold, unicode_generation),
    {
        VM::on_heap(heap, jit_threshold, unicode_generation)
    }

    /// The generation of the Unicode tables that strings are segmented by.
    pub fn unicode_generation(&self) -> (r: u32)
        ensures
            r == self.unicode_generation,
    {
        self.unicode_generation
    }

    /// Choose the generation, before any string is segmented.
    pub fn set_unicode_generation(&mut self, generation: u32)
        ensures
            *final(self) == (VM { unicode_generation: generation, ..*old(self) }),
    {
        self.unicode_generation = generation;
    }

    /// Where the instance keeps its compiled standard library.
    pub fn stdlib_cache(&self) -> (r: &StdlibCache)
        ensures
            *r == self.stdlib_cache,
    {
        &self.stdlib_cache
    }

    /// Record where the instance keeps its compiled standard library.
    pub fn set_stdlib_cache(&mut self, cache: StdlibCache)
        ensures
            *final(self) == (VM { stdlib_cache: cache, ..*old(self) }),
    {
        self.stdlib_cache = cache;
    }

    /// Nothing was loaded, named or configured yet.
    pub open spec fn bare(self, jit_threshold: usize, unicode_generation: u32) -> bool {
        &&& self.fibers.slots@.len() == 0
        &&& self.loaded_plugins@.len() == 0
        &&& self.trampoline_parent_override is None
        &&& self.gated_exit_reason is None
        &&& !self.exit_trapped
        &&& self.docs.entries@.len() == 0
        &&& self.user_args@.len() == 0
        &&& self.source_arg@.len() == 0
        &&& self.jit_threshold == jit_threshold
        &&& self.unicode_generation == unicode_generation
        &&& self.stdlib_cache == StdlibCache::Process
    }

    /// Assemble a machine over a heap, which brings its default trait tables.
    fn on_heap(heap: FiberHeap, jit_threshold: usize, unicode_generation: u32) -> (r: VM)
        ensures
            r.heap == heap,
            r.idle(),
            r.bare(jit_threshold, unicode_generation),
    {
        VM {
            unicode_generation,
            stdlib_cache: StdlibCache::Process,
            heap,
            fibers: FiberTable::new(),
            fiber: root_fiber(),
            current_fiber_handle: None,
            current_fiber_value: None,
            loading_modules: Vec::new(),
            loaded_plugins: Vec::new(),
            closure_call_counts: fx_new(),
            pending_tail_call: None,
            pending_fiber_resume: None,
            pending_entry_closure: Value::nil(),
            pending_error_park: false,
            trampoline_parent_override: None,
            error_loc: None,
            gated_exit_reason: None,
            active_tier: "bytecode",
            exit_trapped: false,
            docs: DocTable { entries: Vec::new() },
            user_args: Vec::new(),
            source_arg: String::new(),
            jit_threshold,
        }
    }

    /// Make the machine ready for another program. The heap, the fibers, the
    /// documentation and the loaded plugins stay.
    pub fn reset_fiber(&mut self)
        ensures
            final(self).idle(),
            *final(self) == (VM {
                fiber: final(self).fiber,
                current_fiber_handle: None,
                current_fiber_value: None,
                pending_tail_call: None,
                pending_entry_closure: Value::nil(),
                pending_error_park: false,
                pending_fiber_resume: None,
                error_loc: None,
                active_tier: final(self).active_tier,
                closure_call_counts: final(self).closure_call_counts,
                loading_modules: final(self).loading_modules,
                ..*old(self)
            }),
    {
        self.fiber = root_fiber();
        self.current_fiber_handle = None;
        self.current_fiber_value = None;
        self.pending_tail_call = None;
        self.pending_entry_closure = Value::nil();
        self.pending_error_park = false;
        self.pending_fiber_resume = None;
        self.error_loc = None;
        self.active_tier = "bytecode";
        self.closure_call_counts = fx_new();
        self.loading_modules = Vec::new();
    }

    /// Take the reason of the last uncaught gate; a second call finds none.
    pub fn take_gated_exit_reason(&mut self) -> (r: Option<String>)
        ensures
            exit_reason_taken(
                *old(self),
                *final(self),
                r,
            ),
    {
        self.gated_exit_reason.take()
    }

    /// Raise an error on the running fiber, born in a region of its own.
    pub fn set_error(&mut self, kind: &str, msg: &String)
        requires
            old(self).heap@.valid(),
            old(self).heap@.room(9),
        ensures
            error_raised(*old(self), *final(self), kind@, msg@),
    {
        let ctx = Alloc::new(&mut self.heap);
        self.fiber.set_error_in(&mut self.heap, &kind.to_string(), msg, &ctx);
    }

    /// An error value of its own region, which leaves the frame that built it.
    pub fn escaping_error(&mut self, kind: &str, msg: &String) -> (r: Value)
        requires
            old(self).heap@.valid(),
            old(self).heap@.room(9),
        ensures
            error_made(
                old(self).heap@.with_region(),
                final(self).heap@,
                RuntimeRegion(old(self).heap@.counts.len() as u32),
                kind@,
                msg@,
                r,
            ),
            *final(self) == (VM { heap: final(self).heap, ..*old(self) }),
    {
        let ctx = Alloc::new(&mut self.heap);
        ctx.error(&mut self.heap, &kind.to_string(), msg)
    }

    /// Check a signal against a boundary's mask. Where the boundary squelches it,
    /// the fiber gets a violation error instead and the suspended frames are
    /// discarded. `shown` is how the squelched bits are spelled.
    pub fn enforce_squelch(&mut self, bits: SignalBits, mask: SignalBits, shown: &String) -> (r: bool)
        requires
            old(self).heap@.valid(),
            old(self).heap@.room(9),
        ensures
            squelch_enforced(
                *old(self),
                *final(self),
                bits,
                mask,
                *shown,
                r,
            ),
    {
        let found = squelched_bits(bits, mask);
        if found.is_empty() {
            return false;
        }
        let err = self.squelch_violation(shown);
        self.fiber.signal = Some((SignalBits::new(SIG_ERROR), err));
        true
    }

    /// The error that a boundary raises for squelched signals. The suspended
    /// frames that it abandons are discarded.
    pub fn squelch_violation(&mut self, shown: &String) -> (r: Value)
        requires
            old(self).heap@.valid(),
            old(self).heap@.room(9),
        ensures
            squelch_settled(*old(self), *final(self), shown@, r),
            *final(self) == (VM {
                heap: final(self).heap,
                fiber: Fiber { suspended: None, ..old(self).fiber },
                ..*old(self)
            }),
    {
        let mut msg = "squelch: signal ".to_string();
        msg.append(shown.as_str());
        msg.append(" caught at boundary");
        let err = self.escaping_error("signal-violation", &msg);
        self.discard_suspended_frames();
        err
    }

    /// Discard the running fiber's suspended frames. Their owner nodes are
    /// released; the fiber's own node and every other region they name are not.
    pub fn discard_suspended_frames(&mut self)
        requires
            old(self).heap@.valid(),
        ensures
            frames_discarded(
                *old(self),
                *final(self),
            ),
    {
        if let Some(frames) = self.fiber.suspended.take() {
            let nodes = parked_owner_nodes(&frames);
            release_nodes(&mut self.heap, &nodes);
        }
    }

    /// Count a call of the closure whose bytecode stands at `at`, and say whether
    /// it is hot by now.
    pub fn record_closure_call(&mut self, at: u64) -> (r: bool)
        requires
            call_count(old(self).closure_call_counts@, at) < usize::MAX,
        ensures
            call_recorded(
                *old(self),
                *final(self),
                at,
                r,
            ),
    {
        let count: usize = self.get_closure_call_count(at) + 1;
        fx_insert(&mut self.closure_call_counts, at, count);
        count >= self.jit_threshold
    }

    /// How often a closure was called.
    pub fn get_closure_call_count(&self, at: u64) -> (r: usize)
        ensures
            r == call_count(self.closure_call_counts@, at),
    {
        match fx_get(&self.closure_call_counts, at) {
            Some(n) => n,
            None => 0,
        }
    }

    /// Whether a module is being loaded.
    pub fn is_module_loading(&self, module: &String) -> (r: bool)
        ensures
            r == loading(self.loading_modules@).contains(module@),
    {
        find_name(&self.loading_modules, module).is_some()
    }

    /// Mark a module as being loaded.
    pub fn mark_module_loading(&mut self, module: String)
        requires
            once_each(old(self).loading_modules@),
        ensures
            module_marked(
                *old(self),
                *final(self),
                module,
            ),
    {
        let ghost before = self.loading_modules@;
        let ghost path = module@;
        if self.is_module_loading(&module) {
            assert(loading(before).insert(path) =~= loading(before));
            return ;
        }
        self.loading_modules.push(module);
        proof {
            let after = self.loading_modules@;
            assert forall|t: Seq<char>| loading(after).contains(t) == loading(before).insert(
                path,
            ).contains(t) by {
                if loading(before).contains(t) {
                    let i = choose|i: int| 0 <= i < before.len() && (#[trigger] before[i])@ == t;
                    assert(after[i]@ == t);
                }
                if t == path {
                    assert(after[before.len() as int]@ == t);
                }
                if loading(after).contains(t) && t != path {
                    let i = choose|i: int| 0 <= i < after.len() && (#[trigger] after[i])@ == t;
                    assert(before[i]@ == t);
                }
            }
            assert(loading(after) =~= loading(before).insert(path));
            assert forall|i: int, j: int| 0 <= i < j < after.len() implies (#[trigger] after[i])@ != (
            #[trigger] after[j])@ by {
                assert(before[i]@ == after[i]@);
                if j < before.len() {
                    assert(before[j]@ == after[j]@);
                }
            }
        }
    }

    /// Unmark a module.
    pub fn unmark_module_loading(&mut self, module: &String)
        requires
            once_each(old(self).loading_modules@),
        ensures
            module_unmarked(
                *old(self),
                *final(self),
                *module,
            ),
    {
        let ghost before = self.loading_modules@;
        match find_name(&self.loading_modules, module) {
            None => {
                assert(loading(before).remove(module@) =~= loading(before));
            },
            Some(at) => {
                self.loading_modules.remove(at);
                proof {
                    let after = self.loading_modules@;
                    assert(after =~= before.remove(at as int));
                    assert forall|t: Seq<char>| loading(after).contains(t) == loading(before).remove(
                        module@,
                    ).contains(t) by {
                        if loading(after).contains(t) {
                            let i = choose|i: int| 0 <= i < after.len() && (#[trigger] after[i])@ == t;
                            let k = if i < at {
                                i
                            } else {
                                i + 1
                            };
                            assert(before[k]@ == t);
                            if k < at {
                                assert(before[k]@ != before[at as int]@);
                            } else {
                                assert(before[at as int]@ != before[k]@);
                            }
                        }
                        if loading(before).contains(t) && t != module@ {
                            let k = choose|k: int| 0 <= k < before.len() && (#[trigger] before[k])@ == t;
                            if k < at {
                                assert(after[k]@ == t);
                            } else {
                                assert(after[k - 1]@ == t);
                            }
                        }
                    }
                    assert(loading(after) =~= loading(before).remove(module@));
                    assert forall|i: int, j: int| 0 <= i < j < after.len() implies (#[trigger] after[i])@
                        != (#[trigger] after[j])@ by {
                        let a = if i < at {
                            i
                        } else {
                            i + 1
                        };
                        let b = if j < at {
                            j
                        } else {
                            j + 1
                        };
                        assert(before[a]@ != before[b]@);
                    }
                }
            },
        }
    }

    /// Enter a call: its locals begin at the top of the stack.
    pub fn push_call_frame(&mut self, name: String, ip: usize)
        requires
            old(self).fiber.call_depth < usize::MAX,
        ensures
            frame_pushed(
                *old(self),
                *final(self),
                name,
                ip,
            ),
    {
        let frame_base = self.fiber.stack.len();
        self.fiber.call_depth = self.fiber.call_depth + 1;
        self.fiber.call_stack.push(CallFrame { name, ip, frame_base });
    }

    /// Where the current call's locals begin, zero at top level.
    pub fn current_frame_base(&self) -> (r: usize)
        ensures
            r == frame_base(self.fiber),
    {
        let n: usize = self.fiber.call_stack.len();
        if n == 0 {
            0
        } else {
            self.fiber.call_stack[n - 1].frame_base
        }
    }
}

/// An error was raised on the running fiber: it was born in a region of its own
/// and became the fiber's signal.
pub open spec fn error_raised(before: VM, after: VM, kind: Seq<char>, msg: Seq<char>) -> bool {
    &&& after.fiber.signal is Some
    &&& (after.fiber.signal->0).0 == SignalBits::new(SIG_ERROR)
    &&& error_made(
        before.heap@.with_region(),
        after.heap@,
        RuntimeRegion(before.heap@.counts.len() as u32),
        kind,
        msg,
        (after.fiber.signal->0).1,
    )
    &&& after == (VM {
        heap: after.heap,
        fiber: Fiber { signal: after.fiber.signal, ..before.fiber },
        ..before
    })
}

/// A squelch violation was built, and the frames it abandons gave up their owner
/// nodes.
pub open spec fn squelch_settled(before: VM, after: VM, shown: Seq<char>, err: Value) -> bool {
    exists|mid: HeapState|
        #![trigger nodes_released(mid, chain_nodes(chain(before.fiber.suspended)))]
        error_made(
            before.heap@.with_region(),
            mid,
            RuntimeRegion(before.heap@.counts.len() as u32),
            "signal-violation"@,
            "squelch: signal "@ + shown + " caught at boundary"@,
            err,
        ) && after.heap@ == nodes_released(mid, chain_nodes(chain(before.fiber.suspended)))
}

/// Where a name stands, if it does.
fn find_name(names: &Vec<String>, name: &String) -> (r: Option<usize>)
    ensures
        r is Some == loading(names@).contains(name@),
        r matches Some(i) ==> i < names@.len() && names@[i as int]@ == name@,
{
    let mut i: usize = 0;
    while i < names.len()
        invariant
            i <= names@.len(),
            forall|k: int| 0 <= k < i ==> (#[trigger] names@[k])@ != name@,
        decreases names.len() - i,
    {
        if names[i] == *name {
            assert(names@[i as int]@ == name@);
            return Some(i);
        }
        i = i + 1;
    }
    None
}

/// The owner nodes of suspended frames, in order.
pub fn parked_owner_nodes(frames: &Vec<SuspendedFrame>) -> (r: Vec<RuntimeRegion>)
    ensures
        r@ == chain_nodes(frames@),
{
    let mut out: Vec<RuntimeRegion> = Vec::new();
    let mut i: usize = 0;
    assert(frames@.take(0) =~= Seq::empty());
    while i < frames.len()
        invariant
            i <= frames@.len(),
            out@ == chain_nodes(frames@.take(i as int)),
        decreases frames.len() - i,
    {
        assert(frames@.take(i + 1).drop_last() =~= frames@.take(i as int));
        if let SuspendedFrame::Bytecode(f) = &frames[i] {
            if let Some(n) = f.activation_owner_node {
                out.push(n);
            }
        }
        i = i + 1;
    }
    assert(frames@.take(i as int) =~= frames@);
    out
}

} // verus!
