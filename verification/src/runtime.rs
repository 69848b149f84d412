//! The process runtime: one lifecycle for every way in.
//!
//! A `Runtime` owns the machine with its heap, the symbols and the compile-time
//! state. Teardown releases the registered roots by their counts and lets the
//! cascade reclaim what they held; it never walks the regions freeing them, so
//! that a leak stays visible in the report.

use vstd::prelude::*;

use crate::def::{PrimitiveDef, PrimitiveMeta};
use crate::heap::{FiberHeap, HeapState};
use crate::moduleinit::{
    entered, export_names, exportable, exports_of, first_step, given_up, init_stdlib, origin, register_exports,
    root_registered, stdlib_compiled, stdlib_origin, struct_at, CompileCtx, StdlibSource, StdlibStep,
};
use crate::registration::{describes, documented, name_count, names_interned, register_primitives, DocTable};
use crate::symbol::SymbolTable;
use crate::value::Value;
use crate::vm::{StdlibCache, VM};

verus! {

/// What a teardown found.
pub struct TeardownReport {
    /// How many regions are still live; none is the aim.
    pub live_regions: usize,
    /// Number, references and objects of each region that is still live.
    pub regions: Vec<(u32, u32, usize)>,
    /// How many process roots were released.
    pub roots_released: usize,
}

/// What one instance owns. Two instances in a process share nothing.
pub struct RuntimeCore {
    pub vm: VM,
    pub symbols: SymbolTable,
    pub compile: CompileCtx,
    /// What is known of the primitives, for the core's life.
    pub meta: PrimitiveMeta,
}

/// The documentation is that of the primitives and nothing else.
pub open spec fn documents_only(docs: DocTable, defs: Seq<PrimitiveDef>) -> bool {
    exists|none: DocTable| none.entries@.len() == 0 && #[trigger] documented(docs, none, defs)
}

/// The core as it starts: the primitives are registered, nothing ran.
pub open spec fn fresh_core(
    c: RuntimeCore,
    generation: u32,
    jit_threshold: usize,
    defs: Seq<PrimitiveDef>,
) -> bool {
    &&& c.vm.idle()
    &&& c.vm.heap@.valid()
    &&& c.vm.heap@.untouched()
    &&& c.vm.unicode_generation == generation
    &&& c.vm.jit_threshold == jit_threshold
    &&& c.symbols@ == names_interned(Seq::empty(), defs)
    &&& describes(c.meta, c.symbols@, defs)
    &&& documents_only(c.vm.docs, defs)
    &&& c.compile.transformers@.len() == 0
    &&& c.compile.exports@.dom() =~= Set::<u32>::empty()
}

impl RuntimeCore {
    /// A core whose machine segments strings under `generation`.
    pub fn bare_with_unicode(generation: u32, jit_threshold: usize, defs: &Vec<PrimitiveDef>) -> (r:
        RuntimeCore)
        requires
            defs@.len() <= u32::MAX,
            name_count(defs@) <= u32::MAX,
        ensures
            fresh_core(r, generation, jit_threshold, defs@),
            r.vm.stdlib_cache == StdlibCache::Process,
    {
        let mut vm = VM::new_with_heap(FiberHeap::new(), jit_threshold, generation);
        let mut symbols = SymbolTable::new();
        let ghost none = vm.docs;
        let meta = register_primitives(&mut vm.docs, &mut symbols, defs);
        assert(documented(vm.docs, none, defs@));
        RuntimeCore { vm, symbols, compile: CompileCtx::new(), meta }
    }

    /// Begin to load the standard library: record where its compiled code is
    /// kept, and say what comes next and where the code comes from, by what the
    /// cache replied.
    pub fn load_stdlib(&mut self, cache: &StdlibCache, reply: &Option<Result<(), String>>) -> (r: (
        StdlibStep,
        StdlibSource,
    ))
        ensures
            r.0 == first_step(*reply),
            r.1 == origin(*reply),
            final(self).vm.stdlib_cache.same(*cache),
            *final(self) == (RuntimeCore {
                vm: VM { stdlib_cache: final(self).vm.stdlib_cache, ..old(self).vm },
                ..*old(self)
            }),
    {
        self.vm.set_stdlib_cache(cache.copy());
        (init_stdlib(reply), stdlib_origin(reply))
    }

    /// The machine.
    pub fn vm(&mut self) -> (r: &mut VM)
        ensures
            *r == old(self).vm,
            *final(self) == (RuntimeCore { vm: *final(r), ..*old(self) }),
    {
        &mut self.vm
    }

    /// The symbols.
    pub fn symbols(&mut self) -> (r: &mut SymbolTable)
        ensures
            *r == old(self).symbols,
            *final(self) == (RuntimeCore { symbols: *final(r), ..*old(self) }),
    {
        &mut self.symbols
    }

    /// The compile-time state.
    pub fn compile(&mut self) -> (r: &mut CompileCtx)
        ensures
            *r == old(self).compile,
            *final(self) == (RuntimeCore { compile: *final(r), ..*old(self) }),
    {
        &mut self.compile
    }

    /// The heap.
    pub fn heap(&mut self) -> (r: &mut FiberHeap)
        ensures
            *r == old(self).vm.heap,
            *final(self) == (RuntimeCore { vm: VM { heap: *final(r), ..old(self).vm }, ..*old(self) }),
    {
        &mut self.vm.heap
    }

    /// The machine, the symbols and the compile-time state at once.
    pub fn parts(&mut self) -> (r: (&mut VM, &mut SymbolTable, &mut CompileCtx))
        ensures
            *r.0 == old(self).vm,
            *r.1 == old(self).symbols,
            *r.2 == old(self).compile,
            *final(self) == (RuntimeCore {
                vm: *final(r.0),
                symbols: *final(r.1),
                compile: *final(r.2),
                ..*old(self)
            }),
    {
        (&mut self.vm, &mut self.symbols, &mut self.compile)
    }

    /// The compile-time state and the heap at once.
    pub fn compile_and_heap(&mut self) -> (r: (&mut CompileCtx, &mut FiberHeap))
        ensures
            *r.0 == old(self).compile,
            *r.1 == old(self).vm.heap,
            *final(self) == (RuntimeCore {
                compile: *final(r.0),
                vm: VM { heap: *final(r.1), ..old(self).vm },
                ..*old(self)
            }),
    {
        (&mut self.compile, &mut self.vm.heap)
    }
}

/// The process runtime.
pub struct Runtime {
    pub core: RuntimeCore,
    pub torn_down: bool,
    pub stdlib_source: StdlibSource,
    /// What is left to do until the standard library is loaded, if anything is.
    pub stdlib_next: Option<StdlibStep>,
}

/// A runtime that nothing ran on: its core is fresh, and the standard library is
/// loaded next, out of where the cache's reply says, if there is a reply.
pub open spec fn fresh_runtime(
    r: Runtime,
    reply: Option<Option<Result<(), String>>>,
    cache: StdlibCache,
    generation: u32,
    jit_threshold: usize,
    defs: Seq<PrimitiveDef>,
) -> bool {
    &&& fresh_core(r.core, generation, jit_threshold, defs)
    &&& !r.torn_down
    &&& match reply {
        Some(reply) => {
            &&& r.stdlib_next == Some(first_step(reply))
            &&& r.stdlib_source == origin(reply)
            &&& r.core.vm.stdlib_cache.same(cache)
        },
        None => {
            &&& r.stdlib_next is None
            &&& r.stdlib_source is Compiled
            &&& r.core.vm.stdlib_cache == StdlibCache::Process
        },
    }
}

/// The heap without default traits.
pub open spec fn without_traits(s: HeapState) -> HeapState {
    HeapState { traits: Seq::new(30, |i: int| Value::nil()), ..s }
}

/// The heap once its roots are released.
pub open spec fn without_roots(s: HeapState) -> HeapState {
    (HeapState { roots: Seq::empty(), ..s }).released_each(s.roots)
}

/// The heap after a teardown that gives up `transformers` first.
pub open spec fn torn(s: HeapState, transformers: Seq<Value>) -> HeapState {
    without_roots(without_traits(given_up(s, transformers)))
}

impl Runtime {
    /// A runtime under the given generation. Where the cache was asked, the
    /// standard library is loaded next, as its reply says, and kept under `cache`.
    pub fn build_with(
        reply: Option<&Option<Result<(), String>>>,
        generation: u32,
        cache: &StdlibCache,
        jit_threshold: usize,
        defs: &Vec<PrimitiveDef>,
    ) -> (r: Runtime)
        requires
            defs@.len() <= u32::MAX,
            name_count(defs@) <= u32::MAX,
        ensures
            fresh_runtime(
                r,
                match reply {
                    Some(reply) => Some(*reply),
                    None => None,
                },
                *cache,
                generation,
                jit_threshold,
                defs@,
            ),
    {
        let mut core = RuntimeCore::bare_with_unicode(generation, jit_threshold, defs);
        let ghost docs = core.vm.docs;
        let mut next: Option<StdlibStep> = None;
        let mut source = StdlibSource::Compiled;
        if let Some(reply) = reply {
            let (step, from) = core.load_stdlib(cache, reply);
            assert(core.vm.docs == docs);
            next = Some(step);
            source = from;
        }
        Runtime { core, torn_down: false, stdlib_source: source, stdlib_next: next }
    }

    /// A runtime whose standard library is loaded next, kept where the process
    /// keeps it.
    pub fn new(
        reply: &Option<Result<(), String>>,
        generation: u32,
        jit_threshold: usize,
        defs: &Vec<PrimitiveDef>,
    ) -> (r: Runtime)
        requires
            defs@.len() <= u32::MAX,
            name_count(defs@) <= u32::MAX,
        ensures
            fresh_runtime(r, Some(*reply), StdlibCache::Process, generation, jit_threshold, defs@),
    {
        Runtime::build(Some(reply), generation, jit_threshold, defs)
    }

    /// A runtime with the primitives alone.
    pub fn without_stdlib(generation: u32, jit_threshold: usize, defs: &Vec<PrimitiveDef>) -> (r: Runtime)
        requires
            defs@.len() <= u32::MAX,
            name_count(defs@) <= u32::MAX,
        ensures
            fresh_runtime(r, None, StdlibCache::Process, generation, jit_threshold, defs@),
    {
        Runtime::build(None, generation, jit_threshold, defs)
    }

    /// A runtime whose machine segments strings under `generation` for its life.
    pub fn with_unicode(
        generation: u32,
        reply: &Option<Result<(), String>>,
        jit_threshold: usize,
        defs: &Vec<PrimitiveDef>,
    ) -> (r: Runtime)
        requires
            defs@.len() <= u32::MAX,
            name_count(defs@) <= u32::MAX,
        ensures
            fresh_runtime(r, Some(*reply), StdlibCache::Process, generation, jit_threshold, defs@),
    {
        Runtime::build_with(Some(reply), generation, &StdlibCache::Process, jit_threshold, defs)
    }

    /// A runtime that keeps its compiled standard library under `cache`.
    pub fn with_stdlib_cache(
        cache: &StdlibCache,
        reply: &Option<Result<(), String>>,
        generation: u32,
        jit_threshold: usize,
        defs: &Vec<PrimitiveDef>,
    ) -> (r: Runtime)
        requires
            defs@.len() <= u32::MAX,
            name_count(defs@) <= u32::MAX,
        ensures
            fresh_runtime(r, Some(*reply), *cache, generation, jit_threshold, defs@),
    {
        Runtime::build_with(Some(reply), generation, cache, jit_threshold, defs)
    }

    fn build(
        reply: Option<&Option<Result<(), String>>>,
        generation: u32,
        jit_threshold: usize,
        defs: &Vec<PrimitiveDef>,
    ) -> (r: Runtime)
        requires
            defs@.len() <= u32::MAX,
            name_count(defs@) <= u32::MAX,
        ensures
            fresh_runtime(
                r,
                match reply {
                    Some(reply) => Some(*reply),
                    None => None,
                },
                StdlibCache::Process,
                generation,
                jit_threshold,
                defs@,
            ),
    {
        Runtime::build_with(reply, generation, &StdlibCache::Process, jit_threshold, defs)
    }

    /// The standard library is compiled: what comes next.
    pub fn stdlib_compiled(&mut self)
        ensures
            *final(self) == (Runtime {
                stdlib_next: match old(self).stdlib_next {
                    Some(StdlibStep::Compile { store: true }) => Some(StdlibStep::Store),
                    Some(StdlibStep::Compile { store: false }) => Some(StdlibStep::Execute),
                    other => other,
                },
                ..*old(self)
            }),
    {
        if let Some(StdlibStep::Compile { store }) = self.stdlib_next {
            self.stdlib_next = Some(stdlib_compiled(store));
        }
    }

    /// The compiled code is stored, or could not be; it is run next.
    pub fn stdlib_stored(&mut self)
        ensures
            *final(self) == (Runtime {
                stdlib_next: match old(self).stdlib_next {
                    Some(StdlibStep::Store) => Some(StdlibStep::Execute),
                    other => other,
                },
                ..*old(self)
            }),
    {
        if let Some(StdlibStep::Store) = self.stdlib_next {
            self.stdlib_next = Some(StdlibStep::Execute);
        }
    }

    /// The standard library ran and its closure returned the exports: they are
    /// entered, and nothing is left to do.
    pub fn stdlib_loaded(&mut self, closure_val: Value, exports_val: Value)
        requires
            old(self).core.vm.heap@.valid(),
            struct_at(old(self).core.vm.heap@, exports_val) is Some,
            forall|i: int|
                0 <= i < struct_at(old(self).core.vm.heap@, exports_val)->0.len() && (#[trigger] struct_at(
                    old(self).core.vm.heap@,
                    exports_val,
                )->0[i]).0 is Keyword ==> exportable(
                    old(self).core.vm.heap@,
                    struct_at(old(self).core.vm.heap@, exports_val)->0[i].1,
                ),
            old(self).core.symbols@.len() + struct_at(old(self).core.vm.heap@, exports_val)->0.len() < u32::MAX,
        ensures
            final(self).stdlib_next is None,
            final(self).core.vm.heap@ == root_registered(
                root_registered(old(self).core.vm.heap@, closure_val),
                exports_val,
            ),
            final(self).core.symbols@ == export_names(
                old(self).core.symbols@,
                struct_at(old(self).core.vm.heap@, exports_val)->0,
            ),
            final(self).core.compile.exports@ == entered(
                old(self).core.compile.exports@,
                exports_of(
                    old(self).core.vm.heap@,
                    old(self).core.symbols@,
                    struct_at(old(self).core.vm.heap@, exports_val)->0,
                ),
            ),
            final(self).core.compile.transformers == old(self).core.compile.transformers,
            *final(self) == (Runtime {
                core: RuntimeCore {
                    vm: VM { heap: final(self).core.vm.heap, ..old(self).core.vm },
                    symbols: final(self).core.symbols,
                    compile: final(self).core.compile,
                    ..old(self).core
                },
                stdlib_next: None,
                ..*old(self)
            }),
    {
        register_exports(
            &mut self.core.vm.heap,
            &mut self.core.symbols,
            &mut self.core.compile,
            closure_val,
            exports_val,
        );
        self.stdlib_next = None;
    }

    /// Where the standard library came from.
    pub fn stdlib_source(&self) -> (r: StdlibSource)
        ensures
            r == self.stdlib_source,
    {
        self.stdlib_source
    }

    /// The machine.
    pub fn vm(&mut self) -> (r: &mut VM)
        ensures
            *r == old(self).core.vm,
            *final(self) == (Runtime { core: RuntimeCore { vm: *final(r), ..old(self).core }, ..*old(self) }),
    {
        self.core.vm()
    }

    /// The symbols.
    pub fn symbols(&mut self) -> (r: &mut SymbolTable)
        ensures
            *r == old(self).core.symbols,
            *final(self) == (Runtime {
                core: RuntimeCore { symbols: *final(r), ..old(self).core },
                ..*old(self)
            }),
    {
        self.core.symbols()
    }

    /// The compile-time state.
    pub fn compile(&mut self) -> (r: &mut CompileCtx)
        ensures
            *r == old(self).core.compile,
            *final(self) == (Runtime {
                core: RuntimeCore { compile: *final(r), ..old(self).core },
                ..*old(self)
            }),
    {
        self.core.compile()
    }

    /// The heap.
    pub fn heap(&mut self) -> (r: &mut FiberHeap)
        ensures
            *r == old(self).core.vm.heap,
            *final(self) == (Runtime {
                core: RuntimeCore {
                    vm: VM { heap: *final(r), ..old(self).core.vm },
                    ..old(self).core
                },
                ..*old(self)
            }),
    {
        self.core.heap()
    }

    /// The machine, the symbols and the compile-time state at once.
    pub fn parts(&mut self) -> (r: (&mut VM, &mut SymbolTable, &mut CompileCtx))
        ensures
            *r.0 == old(self).core.vm,
            *r.1 == old(self).core.symbols,
            *r.2 == old(self).core.compile,
            *final(self) == (Runtime {
                core: RuntimeCore {
                    vm: *final(r.0),
                    symbols: *final(r.1),
                    compile: *final(r.2),
                    ..old(self).core
                },
                ..*old(self)
            }),
    {
        self.core.parts()
    }

    /// The compile-time state and the heap at once.
    pub fn compile_and_heap(&mut self) -> (r: (&mut CompileCtx, &mut FiberHeap))
        ensures
            *r.0 == old(self).core.compile,
            *r.1 == old(self).core.vm.heap,
            *final(self) == (Runtime {
                core: RuntimeCore {
                    compile: *final(r.0),
                    vm: VM { heap: *final(r.1), ..old(self).core.vm },
                    ..old(self).core
                },
                ..*old(self)
            }),
    {
        self.core.compile_and_heap()
    }

    /// Tear down unless that was done; what the end of the runtime does.
    pub fn close(&mut self)
        requires
            old(self).core.vm.heap@.valid(),
            old(self).core.vm.heap@.counts.len() <= u32::MAX,
        ensures
            final(self).torn_down,
            old(self).torn_down ==> *final(self) == *old(self),
            !old(self).torn_down ==> brought_down(*old(self), *final(self)),
    {
        if !self.torn_down {
            let _ = self.teardown();
        }
    }

    /// Release the macro transformers, the default traits and the process roots,
    /// and report what is still live. A second teardown releases nothing more.
    pub fn teardown(&mut self) -> (r: TeardownReport)
        requires
            old(self).core.vm.heap@.valid(),
            old(self).core.vm.heap@.counts.len() <= u32::MAX,
        ensures
            brought_down(*old(self), *final(self)),
            r.regions@ == final(self).core.vm.heap@.live_regions(
                final(self).core.vm.heap@.counts.len(),
            ),
            r.live_regions == r.regions@.len(),
            r.roots_released == old(self).core.vm.heap@.roots.len(),
    {
        let ghost start = self.core.vm.heap@;
        let ghost owed = self.core.compile.transformers@;
        self.torn_down = true;
        self.core.compile.release(&mut self.core.vm.heap);
        proof {
            lemma_given_up(start, owed);
        }
        self.core.vm.heap.reset_default_traits();
        let ghost mid = self.core.vm.heap@;
        let roots_released = self.core.vm.heap.teardown_process_root_regions();
        proof {
            lemma_released_each(HeapState { roots: Seq::empty(), ..mid }, mid.roots);
        }
        let regions = self.core.vm.heap.region_info_vec();
        TeardownReport { live_regions: regions.len(), regions, roots_released }
    }
}

/// The heap has given up the transformers, the default traits and the roots, and
/// everything else is as it was.
pub open spec fn brought_down(before: Runtime, after: Runtime) -> bool {
    let heap = after.core.vm.heap;
    &&& heap@ == torn(before.core.vm.heap@, before.core.compile.transformers@)
    &&& heap@.valid()
    &&& heap@.counts.len() == before.core.vm.heap@.counts.len()
    &&& heap@.roots.len() == 0
    &&& after.core.compile.transformers@.len() == 0
    &&& after == (Runtime {
        core: RuntimeCore {
            vm: VM { heap, ..before.core.vm },
            compile: CompileCtx {
                transformers: after.core.compile.transformers,
                ..before.core.compile
            },
            ..before.core
        },
        torn_down: true,
        ..before
    })
}

/// Giving up references keeps the heap's tables, and leaves the roots alone.
proof fn lemma_given_up(s: HeapState, values: Seq<Value>)
    requires
        s.valid(),
    ensures
        given_up(s, values).valid(),
        given_up(s, values).counts.len() == s.counts.len(),
        given_up(s, values).roots == s.roots,
    decreases values.len(),
{
    if values.len() > 0 {
        lemma_given_up(s, values.drop_last());
        let t = given_up(s, values.drop_last());
        if let Some(r) = t.region_of(values.last()) {
            crate::heap::lemma_decref(t, r.0);
        }
    }
}

proof fn lemma_released_each(s: HeapState, roots: Seq<u32>)
    requires
        s.valid(),
        forall|i: int| 0 <= i < roots.len() ==> roots[i] < s.counts.len(),
    ensures
        s.released_each(roots).valid(),
        s.released_each(roots).counts.len() == s.counts.len(),
        s.released_each(roots).roots == s.roots,
        s.released_each(roots).traits == s.traits,
    decreases roots.len(),
{
    if roots.len() > 0 {
        lemma_released_each(s, roots.drop_last());
        crate::heap::lemma_decref(s.released_each(roots.drop_last()), roots.last());
    }
}

/// A teardown is idempotent: the next one, with nothing registered in between,
/// leaves the heap as it is.
pub proof fn lemma_teardown_idempotent(s: HeapState, transformers: Seq<Value>)
    requires
        s.valid(),
    ensures
        torn(torn(s, transformers), Seq::empty()) == torn(s, transformers),
        torn(s, transformers).roots.len() == 0,
{
    lemma_given_up(s, transformers);
    let mid = without_traits(given_up(s, transformers));
    lemma_released_each(HeapState { roots: Seq::empty(), ..mid }, mid.roots);
    let t = torn(s, transformers);
    assert(given_up(t, Seq::empty()) == t);
    assert(without_traits(t).traits =~= t.traits);
    assert(without_traits(t) == t);
    assert(t.roots =~= Seq::<u32>::empty());
    assert((HeapState { roots: Seq::empty(), ..t }) == t);
    assert(t.released_each(Seq::empty()) == t);
}

/// Teardown frees by counts alone: with no root registered and no transformer
/// held, no region loses a reference, however little refers to it.
pub proof fn lemma_teardown_frees_only_roots(s: HeapState)
    requires
        s.valid(),
        s.roots.len() == 0,
    ensures
        torn(s, Seq::empty()).counts == s.counts,
        torn(s, Seq::empty()).objects == s.objects,
{
    let mid = without_traits(given_up(s, Seq::empty()));
    assert(mid.roots =~= Seq::<u32>::empty());
    assert((HeapState { roots: Seq::empty(), ..mid }).released_each(Seq::empty()) == (HeapState {
        roots: Seq::empty(),
        ..mid
    }));
}

} // verus!
