//! Bringing the standard library up: which step comes next, what the exports
//! are, and where they are entered.

use std::collections::HashMap;

use vstd::prelude::*;

use crate::concurrency::own_locals;
use crate::heap::{FiberHeap, HeapState};
use crate::object::{Closure, HeapObject, TableKey};
use crate::prim::{arg_or_nil, as_closure, closure_at};
use crate::signals::{plain, Signal};
use crate::symbol::{id_in, interned, SymbolTable};
use crate::value::{Value, TAG_PARAMETER, TAG_STRUCT};
use crate::vm::VM;

verus! {

broadcast use vstd::std_specs::hash::group_hash_axioms;

/// What to do next to bring the standard library up.
#[derive(Clone, Copy, PartialEq, Eq, Structural, Debug)]
pub enum StdlibStep {
    /// Compile the source; a failure ends the process.
    Compile { store: bool },
    /// Put the compiled code into the cache, then run it.
    Store,
    /// Run the compiled code; a failure ends the process.
    Execute,
}

/// The first step, by what the cache replied: code that it holds is run, code
/// that it refused is compiled and not stored again.
pub open spec fn first_step(reply: Option<Result<(), String>>) -> StdlibStep {
    match reply {
        Some(Ok(_)) => StdlibStep::Execute,
        Some(Err(_)) => StdlibStep::Compile { store: false },
        None => StdlibStep::Compile { store: true },
    }
}

/// Begin, knowing what the cache replied: `None` where it holds nothing, an error
/// where its entry cannot be used.
pub fn init_stdlib(reply: &Option<Result<(), String>>) -> (r: StdlibStep)
    ensures
        r == first_step(*reply),
{
    match reply {
        Some(Ok(_)) => StdlibStep::Execute,
        Some(Err(_)) => StdlibStep::Compile { store: false },
        None => StdlibStep::Compile { store: true },
    }
}

/// After compiling.
pub fn stdlib_compiled(store: bool) -> (r: StdlibStep)
    ensures
        r == if store {
            StdlibStep::Store
        } else {
            StdlibStep::Execute
        },
{
    if store {
        StdlibStep::Store
    } else {
        StdlibStep::Execute
    }
}

/// Where the standard library's code came from.
#[derive(Clone, Copy, PartialEq, Eq, Structural, Debug)]
pub enum StdlibSource {
    Compiled,
    Cached,
}

/// Where the code comes from, by what the cache replied: out of the cache where
/// that could use its entry, and otherwise out of the compiler.
pub open spec fn origin(reply: Option<Result<(), String>>) -> StdlibSource {
    if reply matches Some(Ok(_)) {
        StdlibSource::Cached
    } else {
        StdlibSource::Compiled
    }
}

/// Where the code comes from, by what the cache replied.
pub fn stdlib_origin(reply: &Option<Result<(), String>>) -> (r: StdlibSource)
    ensures
        r == origin(*reply),
{
    match reply {
        Some(Ok(_)) => StdlibSource::Cached,
        _ => StdlibSource::Compiled,
    }
}

/// The environment of a call: what the closure captured, then its parameters,
/// then its locals. A parameter without an argument, and every local, is nil.
pub open spec fn call_env(c: Closure, args: Seq<Value>) -> Seq<Value> {
    c.env@ + Seq::new(c.code().num_params as nat, |i: int| arg_or_nil(args, i)) + Seq::new(
        own_locals(c),
        |i: int| Value::nil(),
    )
}

/// Build the environment for calling a closure.
pub fn build_closure_call_env(closure: &Closure, args: &Vec<Value>) -> (r: Vec<Value>)
    ensures
        r@ == call_env(*closure, args@),
{
    let mut env = closure.env.clone();
    let n = closure.template.num_params;
    let ghost captured = env@;
    let mut i: usize = 0;
    while i < n
        invariant
            i <= n,
            env@ == captured + Seq::new(i as nat, |k: int| arg_or_nil(args@, k)),
        decreases n - i,
    {
        if i < args.len() {
            env.push(args[i]);
        } else {
            env.push(Value::nil());
        }
        i = i + 1;
        assert(env@ =~= captured + Seq::new(i as nat, |k: int| arg_or_nil(args@, k)));
    }
    let ghost with_params = env@;
    let locals: usize = if closure.template.num_locals >= n {
        closure.template.num_locals - n
    } else {
        0
    };
    let mut k: usize = 0;
    while k < locals
        invariant
            k <= locals,
            env@ == with_params + Seq::new(k as nat, |j: int| Value::nil()),
        decreases locals - k,
    {
        env.push(Value::nil());
        k = k + 1;
        assert(env@ =~= with_params + Seq::new(k as nat, |j: int| Value::nil()));
    }
    proof {
        assert(with_params =~= closure.env@ + Seq::new(n as nat, |j: int| arg_or_nil(args@, j)));
        assert(env@ =~= call_env(*closure, args@));
    }
    env
}

/// How a closure without arguments is entered.
pub open spec fn closure_entered(
    vm: VM,
    vm_after: VM,
    closure_val: Value,
    r: Vec<Value>,
) -> bool {
    &&& r@ == call_env(closure_at(vm.heap@, closure_val)->0, Seq::empty())
    &&& vm_after == (VM { pending_entry_closure: closure_val, ..vm })
}

/// Make the call of a closure without arguments ready: the machine runs it next,
/// in the environment returned.
pub fn call_closure(vm: &mut VM, closure_val: Value) -> (r: Vec<Value>)
    requires
        closure_at(old(vm).heap@, closure_val) is Some,
    ensures
        closure_entered(
            *old(vm),
            *final(vm),
            closure_val,
            r,
        ),
{
    let env = match as_closure(&vm.heap, closure_val) {
        Some(closure) => build_closure_call_env(closure, &Vec::new()),
        None => Vec::new(),
    };
    vm.pending_entry_closure = closure_val;
    env
}

/// One export: its symbol, its value and what it may signal.
pub struct Export {
    pub symbol: u32,
    pub value: Value,
    pub signal: Signal,
}

/// The value can be exported: it is a closure or a parameter.
pub open spec fn exportable(s: HeapState, v: Value) -> bool {
    closure_at(s, v) is Some || v.tag == TAG_PARAMETER
}

/// What an exported value may signal.
pub open spec fn export_signal(s: HeapState, v: Value) -> Signal {
    match closure_at(s, v) {
        Some(c) => c.code().signal,
        None => plain(0),
    }
}

/// The entries of a struct.
pub open spec fn struct_at(s: HeapState, v: Value) -> Option<Seq<(TableKey, Value)>> {
    if v.tag == TAG_STRUCT && s.target(v) is Some && s.object(v) is LStruct {
        Some(s.object(v)->LStruct_data@)
    } else {
        None
    }
}

/// The symbols after the exports of a struct were named.
pub open spec fn export_names(names: Seq<Seq<char>>, entries: Seq<(TableKey, Value)>) -> Seq<Seq<char>>
    decreases entries.len(),
{
    if entries.len() == 0 {
        names
    } else {
        let before = export_names(names, entries.drop_last());
        match entries.last().0 {
            TableKey::Keyword(name) => interned(before, name@),
            _ => before,
        }
    }
}

/// The exports of a struct: its fields with a keyword for a name, in order.
pub open spec fn exports_of(s: HeapState, names: Seq<Seq<char>>, entries: Seq<(TableKey, Value)>) -> Seq<
    Export,
>
    decreases entries.len(),
{
    if entries.len() == 0 {
        Seq::empty()
    } else {
        let before = exports_of(s, names, entries.drop_last());
        match entries.last().0 {
            TableKey::Keyword(name) => before.push(
                Export {
                    symbol: id_in(export_names(names, entries), name@) as u32,
                    value: entries.last().1,
                    signal: export_signal(s, entries.last().1),
                },
            ),
            _ => before,
        }
    }
}

proof fn lemma_export_names_len(names: Seq<Seq<char>>, entries: Seq<(TableKey, Value)>)
    ensures
        export_names(names, entries).len() <= names.len() + entries.len(),
    decreases entries.len(),
{
    if entries.len() > 0 {
        lemma_export_names_len(names, entries.drop_last());
    }
}

/// What the exports of a module come to.
pub open spec fn exports_extracted(
    heap: FiberHeap,
    exports_val: Value,
    symbols: SymbolTable,
    symbols_after: SymbolTable,
    r: Vec<Export>,
) -> bool {
    &&& symbols_after@ == export_names(symbols@, struct_at(heap@, exports_val)->0)
    &&& r@ == exports_of(heap@, symbols@, struct_at(heap@, exports_val)->0)
}

/// Read the exports out of a struct, naming each.
pub fn extract_exports(heap: &FiberHeap, exports_val: Value, symbols: &mut SymbolTable) -> (r: Vec<Export>)
    requires
        struct_at(heap@, exports_val) is Some,
        forall|i: int|
            0 <= i < struct_at(heap@, exports_val)->0.len() && (#[trigger] struct_at(
                heap@,
                exports_val,
            )->0[i]).0 is Keyword ==> exportable(heap@, struct_at(heap@, exports_val)->0[i].1),
        old(symbols)@.len() + struct_at(heap@, exports_val)->0.len() < u32::MAX,
    ensures
        exports_extracted(
            *heap,
            exports_val,
            *old(symbols),
            *final(symbols),
            r,
        ),
{
    let ghost start = symbols@;
    let ghost all = struct_at(heap@, exports_val)->0;
    let mut out: Vec<Export> = Vec::new();
    if let Some(HeapObject::LStruct { data, .. }) = heap.deref(exports_val) {
        let mut i: usize = 0;
        assert(all.take(0) =~= Seq::empty());
        while i < data.len()
            invariant
                i <= data@.len(),
                data@ == all,
                start.len() + all.len() < u32::MAX,
                symbols@ == export_names(start, all.take(i as int)),
                out@ == exports_of(heap@, start, all.take(i as int)),
                forall|k: int|
                    0 <= k < all.len() && (#[trigger] all[k]).0 is Keyword ==> exportable(heap@, all[k].1),
            decreases data.len() - i,
        {
            let ghost next = all.take(i + 1);
            proof {
                assert(next.drop_last() =~= all.take(i as int));
                assert(next.last() == all[i as int]);
                lemma_export_names_len(start, all.take(i as int));
            }
            let value = data[i].1;
            if let TableKey::Keyword(name) = &data[i].0 {
                let id = symbols.intern(name);
                assert(symbols@ == export_names(start, next));
                let signal = match as_closure(heap, value) {
                    Some(c) => c.template.signal,
                    None => Signal::silent(),
                };
                out.push(Export { symbol: id.0, value, signal });
            }
            i = i + 1;
        }
        assert(all.take(i as int) =~= all);
    }
    out
}

/// Compile-time state of an instance, as far as the runtime reads it.
pub struct CompileCtx {
    /// The exports that code sees as globals, by symbol.
    pub exports: HashMap<u32, (Value, Signal)>,
    /// The compiled macro transformers; each holds a reference to its region.
    pub transformers: Vec<Value>,
}

/// What is known of each symbol after more exports were entered; a later export
/// of a symbol takes the place of an earlier one.
pub open spec fn entered(known: Map<u32, (Value, Signal)>, exports: Seq<Export>) -> Map<
    u32,
    (Value, Signal),
>
    decreases exports.len(),
{
    if exports.len() == 0 {
        known
    } else {
        entered(known, exports.drop_last()).insert(
            exports.last().symbol,
            (exports.last().value, exports.last().signal),
        )
    }
}

/// The heap once a reference to each value's region was given up, in order.
pub open spec fn given_up(s: HeapState, values: Seq<Value>) -> HeapState
    decreases values.len(),
{
    if values.len() == 0 {
        s
    } else {
        let t = given_up(s, values.drop_last());
        t.decref_opt(t.region_of(values.last()))
    }
}

impl CompileCtx {
    /// Nothing exported, no macros.
    pub fn new() -> (r: CompileCtx)
        ensures
            r.exports@ == Map::<u32, (Value, Signal)>::empty(),
            r.transformers@.len() == 0,
    {
        CompileCtx { exports: HashMap::new(), transformers: Vec::new() }
    }

    /// Enter the exports.
    pub fn register_stdlib_exports(&mut self, exports: &Vec<Export>)
        ensures
            final(self).exports@ == entered(old(self).exports@, exports@),
            final(self).transformers == old(self).transformers,
    {
        let ghost known = self.exports@;
        let mut i: usize = 0;
        assert(exports@.take(0) =~= Seq::empty());
        while i < exports.len()
            invariant
                i <= exports@.len(),
                self.exports@ == entered(known, exports@.take(i as int)),
                self.transformers == old(self).transformers,
            decreases exports.len() - i,
        {
            assert(exports@.take(i + 1).drop_last() =~= exports@.take(i as int));
            self.exports.insert(exports[i].symbol, (exports[i].value, exports[i].signal));
            i = i + 1;
        }
        assert(exports@.take(i as int) =~= exports@);
    }

    /// Give up the macro transformers' references.
    pub fn release(&mut self, heap: &mut FiberHeap)
        requires
            old(heap)@.valid(),
        ensures
            final(heap)@ == given_up(old(heap)@, old(self).transformers@),
            final(heap)@.valid(),
            final(heap)@.same_objects(old(heap)@),
            final(self).transformers@.len() == 0,
            final(self).exports == old(self).exports,
    {
        let ghost start = heap@;
        let mut values: Vec<Value> = Vec::new();
        core::mem::swap(&mut values, &mut self.transformers);
        let mut i: usize = 0;
        assert(values@.take(0) =~= Seq::empty());
        while i < values.len()
            invariant
                i <= values@.len(),
                heap@.valid(),
                heap@.same_objects(start),
                heap@ == given_up(start, values@.take(i as int)),
            decreases values.len() - i,
        {
            assert(values@.take(i + 1).drop_last() =~= values@.take(i as int));
            let region = heap.region_of(values[i]);
            heap.decref_region_opt(region);
            i = i + 1;
        }
        assert(values@.take(i as int) =~= values@);
    }
}

/// Enter the exports into the compile-time state.
pub fn register_stdlib_exports(cctx: &mut CompileCtx, exports: &Vec<Export>)
    ensures
        final(cctx).exports@ == entered(old(cctx).exports@, exports@),
        final(cctx).transformers == old(cctx).transformers,
{
    cctx.register_stdlib_exports(exports);
}

/// The heap once the region of a value is a process root; an immediate has none.
pub open spec fn root_registered(s: HeapState, v: Value) -> HeapState {
    match s.region_of(v) {
        Some(r) => HeapState { roots: s.roots.push(r.0), ..s },
        None => s,
    }
}

/// Keep the region of a value until teardown.
pub fn register_process_root(heap: &mut FiberHeap, v: Value)
    requires
        old(heap)@.valid(),
    ensures
        final(heap)@ == root_registered(old(heap)@, v),
        final(heap)@.valid(),
{
    if let Some(r) = heap.region_of(v) {
        heap.register_root(r);
    }
}

/// What registering the exports of a module does.
pub open spec fn exports_registered(
    heap: FiberHeap,
    heap_after: FiberHeap,
    symbols: SymbolTable,
    symbols_after: SymbolTable,
    cctx: CompileCtx,
    cctx_after: CompileCtx,
    closure_val: Value,
    exports_val: Value,
) -> bool {
    &&& heap_after@ == root_registered(root_registered(heap@, closure_val), exports_val)
    &&& heap_after@.valid()
    &&& symbols_after@ == export_names(symbols@, struct_at(heap@, exports_val)->0)
    &&& cctx_after.exports@ == entered(
            cctx.exports@,
            exports_of(heap@, symbols@, struct_at(heap@, exports_val)->0),
        )
    &&& cctx_after.transformers == cctx.transformers
}

/// Enter what the standard library exports: the closure and the struct it
/// returned become process roots, and every export is entered.
pub fn register_exports(
    heap: &mut FiberHeap,
    symbols: &mut SymbolTable,
    cctx: &mut CompileCtx,
    closure_val: Value,
    exports_val: Value,
)
    requires
        old(heap)@.valid(),
        struct_at(old(heap)@, exports_val) is Some,
        forall|i: int|
            0 <= i < struct_at(old(heap)@, exports_val)->0.len() && (#[trigger] struct_at(
                old(heap)@,
                exports_val,
            )->0[i]).0 is Keyword ==> exportable(
                old(heap)@,
                struct_at(old(heap)@, exports_val)->0[i].1,
            ),
        old(symbols)@.len() + struct_at(old(heap)@, exports_val)->0.len() < u32::MAX,
    ensures
        exports_registered(
            *old(heap),
            *final(heap),
            *old(symbols),
            *final(symbols),
            *old(cctx),
            *final(cctx),
            closure_val,
            exports_val,
        ),
{
    let exports = extract_exports(heap, exports_val, symbols);
    register_process_root(heap, closure_val);
    register_process_root(heap, exports_val);
    register_stdlib_exports(cctx, &exports);
}

/// Every export is known by its own value and signal after the exports are
/// entered, where no symbol is exported twice.
pub proof fn lemma_exports_are_entered(known: Map<u32, (Value, Signal)>, exports: Seq<Export>, i: int)
    requires
        0 <= i < exports.len(),
        forall|j: int, k: int|
            0 <= j < k < exports.len() ==> (#[trigger] exports[j]).symbol != (#[trigger] exports[k]).symbol,
    ensures
        entered(known, exports).dom().contains(exports[i].symbol),
        entered(known, exports)[exports[i].symbol] == (exports[i].value, exports[i].signal),
    decreases exports.len(),
{
    let rest = exports.drop_last();
    if i < exports.len() - 1 {
        lemma_exports_are_entered(known, rest, i);
        assert(rest[i] == exports[i]);
        assert(exports[i].symbol != exports[exports.len() - 1].symbol);
    }
}

} // verus!
