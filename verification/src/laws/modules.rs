//! What importing a module does, from the specifier to the module's value, and what
//! becomes of its exports.

use vstd::prelude::*;

use crate::ctx::Alloc;
use crate::fiber::Code;
use crate::heap::{FiberHeap, HeapState};
use crate::moduleinit::{
    build_closure_call_env, closure_entered, exports_extracted, exports_registered, init_stdlib, stdlib_compiled,
    stdlib_origin, CompileCtx, Export, StdlibSource, StdlibStep,
};
use crate::modules::{
    import_asked, import_settled, module_ran, plugin_of, plugin_settled, source_compiled, source_read, ImportStep,
    ReadFailure,
};
use crate::object::{Closure, TableKey};
use crate::prim::{closure_at, string_at};
use crate::signalbits::SignalBits;
use crate::signals::{SIG_ERROR, SIG_OK};
use crate::symbol::SymbolTable;
use crate::value::{Value, TAG_STRUCT};
use crate::vfs::Mounts;
use crate::vm::VM;

verus! {

/// The import of this path is under way.
pub open spec fn under_way(vm: VM, path: Seq<char>) -> bool {
    exists|i: int| 0 <= i < vm.loading_modules@.len() && (#[trigger] vm.loading_modules@[i])@ == path
}

/// The path ends in the extension of a native library.
pub open spec fn native(path: Seq<char>) -> bool {
    crate::searchpath::is_library(path)
}

/// An import looks for the specifier that was passed.
pub proof fn lemma_import_looks_for_its_specifier(
    ctx: Alloc,
    vm: VM,
    after: VM,
    args: Vec<Value>,
    kinds: Vec<String>,
    r: ImportStep,
)
    requires
        args@.len() == 1,
        import_asked(ctx, vm, after, args, kinds, r),
    ensures
        string_at(vm.heap@, args@[0]) matches Some(spec) ==> after == vm && r is Resolve && r->Resolve_0@ == spec,
        string_at(vm.heap@, args@[0]) is None ==> r is Done && (r->Done_0).0 == SignalBits::new(SIG_ERROR),
{
}

/// Mounted source is compiled as it is, and a file that is not mounted is read first;
/// the text that was read is what is compiled. Meanwhile the import is under way.
pub proof fn lemma_source_is_read_and_compiled(
    ctx: Alloc,
    vm: VM,
    begun: VM,
    mounts: Mounts,
    spec: String,
    path: String,
    r: ImportStep,
    read: VM,
    text: String,
    next: ImportStep,
)
    requires
        import_settled(ctx, vm, begun, mounts, spec, Some(path), true, r),
        !under_way(vm, path@),
        !native(path@),
        source_read(ctx, begun, read, path, Ok(text), next),
    ensures
        mounts@.contains_key(path@) ==> (r matches ImportStep::Compile { path: p, contents } && p@ == path@
            && contents@ == mounts@[path@]),
        !mounts@.contains_key(path@) ==> r is ReadFile && r->ReadFile_0@ == path@,
        under_way(begun, path@),
        begun.heap == vm.heap,
        next matches ImportStep::Compile { path: p, contents } && p@ == path@ && contents@ == text@,
        read == begun,
{
    assert(crate::vm::loading(vm.loading_modules@).contains(path@) == under_way(vm, path@));
    assert(crate::vm::loading(begun.loading_modules@).contains(path@));
    assert(crate::vm::loading(begun.loading_modules@).contains(path@) == under_way(begun, path@));
}

/// Compiled code is run as it is, and what the module signalled is what the import gives;
/// the import is then over, and every other one is as it was.
pub proof fn lemma_module_value_is_given(
    ctx: Alloc,
    vm: VM,
    compiled: VM,
    path: String,
    code: Code,
    r: ImportStep,
    run: VM,
    after: VM,
    shown: String,
    given: (SignalBits, Value),
    other: Seq<char>,
)
    requires
        source_compiled(ctx, vm, compiled, path, Ok(code), r),
        module_ran(ctx, run, after, path, SignalBits::new(SIG_OK), shown, given),
    ensures
        compiled == vm,
        r == (ImportStep::Run { path, code }),
        given.0 == SignalBits::new(SIG_OK),
        run.fiber.signal matches Some((_, v)) ==> given.1 == v,
        run.fiber.signal is None ==> given.1 == Value::nil(),
        after.fiber.signal is None,
        !under_way(after, path@),
        other != path@ ==> under_way(after, other) == under_way(run, other),
        after.heap == run.heap,
{
    assert(crate::vm::loading(after.loading_modules@).contains(path@) == under_way(after, path@));
    assert(crate::vm::loading(after.loading_modules@).contains(other) == under_way(after, other));
    assert(crate::vm::loading(run.loading_modules@).contains(other) == under_way(run, other));
}

/// A module that fails to compile, or fails as it runs, ends the import with an error,
/// and leaves none under way under its path.
pub proof fn lemma_failed_import_is_over(
    ctx: Alloc,
    vm: VM,
    a: VM,
    b: VM,
    c: VM,
    d: VM,
    path: String,
    why: String,
    failure: ReadFailure,
    ra: ImportStep,
    rb: (SignalBits, Value),
    rc: ImportStep,
    rd: (SignalBits, Value),
    bits: SignalBits,
)
    requires
        source_compiled(ctx, vm, a, path, Err(why), ra),
        module_ran(ctx, vm, b, path, bits, why, rb),
        bits.bits != SIG_OK,
        source_read(ctx, vm, c, path, Err(failure), rc),
        !failure.invalid_data,
        plugin_settled(ctx, vm, d, path, None, Err(why), rd),
    ensures
        ra is Done && (ra->Done_0).0 == SignalBits::new(SIG_ERROR),
        rb.0 == SignalBits::new(SIG_ERROR),
        rc is Done && (rc->Done_0).0 == SignalBits::new(SIG_ERROR),
        rd.0 == SignalBits::new(SIG_ERROR),
        !under_way(a, path@),
        !under_way(b, path@),
        !under_way(c, path@),
        !under_way(d, path@),
{
    assert(crate::vm::loading(a.loading_modules@).contains(path@) == under_way(a, path@));
    assert(crate::vm::loading(b.loading_modules@).contains(path@) == under_way(b, path@));
    assert(crate::vm::loading(c.loading_modules@).contains(path@) == under_way(c, path@));
    assert(crate::vm::loading(d.loading_modules@).contains(path@) == under_way(d, path@));
}

/// A file that cannot be read as text is tried as a native library, with the reason kept.
pub proof fn lemma_unreadable_text_is_tried_as_a_library(
    ctx: Alloc,
    vm: VM,
    after: VM,
    path: String,
    failure: ReadFailure,
    r: ImportStep,
)
    requires
        source_read(ctx, vm, after, path, Err(failure), r),
        failure.invalid_data,
    ensures
        after == vm,
        r matches ImportStep::LoadPlugin { path: p, reason } && p@ == path@ && reason == Some(failure.text),
{
}

/// A module that is being imported already cannot be imported from within: that is an
/// error, and changes nothing of what is under way. So is a specifier that no file was
/// found for.
pub proof fn lemma_circular_and_missing_imports_fail(
    ctx: Alloc,
    vm: VM,
    a: VM,
    b: VM,
    mounts: Mounts,
    spec: String,
    path: String,
    has_symbols: bool,
    circular: ImportStep,
    missing: ImportStep,
)
    requires
        import_settled(ctx, vm, a, mounts, spec, Some(path), has_symbols, circular),
        under_way(vm, path@),
        import_settled(ctx, vm, b, mounts, spec, None, has_symbols, missing),
    ensures
        circular is Done && (circular->Done_0).0 == SignalBits::new(SIG_ERROR),
        a.loading_modules == vm.loading_modules,
        missing is Done && (missing->Done_0).0 == SignalBits::new(SIG_ERROR),
        b.loading_modules == vm.loading_modules,
{
    assert(crate::vm::loading(vm.loading_modules@).contains(path@) == under_way(vm, path@));
}

/// A native library is loaded the first time, and what it gave is what every later import
/// of it gives, without loading it again.
pub proof fn lemma_library_is_loaded_once(
    ctx: Alloc,
    vm: VM,
    begun: VM,
    mounts: Mounts,
    spec: String,
    path: String,
    first: ImportStep,
    run: VM,
    loaded: VM,
    v: Value,
    given: (SignalBits, Value),
    later: VM,
    again: VM,
    second: ImportStep,
)
    requires
        native(path@),
        !under_way(vm, path@),
        plugin_of(vm.loaded_plugins@, path@) is None,
        import_settled(ctx, vm, begun, mounts, spec, Some(path), true, first),
        plugin_settled(ctx, run, loaded, path, None, Ok(v), given),
        later.loaded_plugins == loaded.loaded_plugins,
        !under_way(later, path@),
        import_settled(ctx, later, again, mounts, spec, Some(path), true, second),
    ensures
        first matches ImportStep::LoadPlugin { path: p, reason } && p@ == path@ && reason is None,
        given == (SignalBits::new(SIG_OK), v),
        second == ImportStep::Done((SignalBits::new(SIG_OK), v)),
        !under_way(loaded, path@),
{
    assert(crate::vm::loading(vm.loading_modules@).contains(path@) == under_way(vm, path@));
    assert(crate::vm::loading(later.loading_modules@).contains(path@) == under_way(later, path@));
    assert(crate::vm::loading(loaded.loading_modules@).contains(path@) == under_way(loaded, path@));
}

/// The environment of a call: what the closure captured, then the arguments in order,
/// nil for those that are missing, then nil for each further local.
pub proof fn lemma_call_env_lays_out_the_arguments(closure: Closure, args: Vec<Value>, r: Vec<Value>)
    requires
        call_ensures(build_closure_call_env, (&closure, &args), r),
        closure.template.num_locals >= closure.template.num_params,
    ensures
        r@.len() == closure.env@.len() + closure.template.num_locals,
        forall|i: int| 0 <= i < closure.env@.len() ==> #[trigger] r@[i] == closure.env@[i],
        forall|i: int|
            0 <= i < closure.template.num_params && i < args@.len() ==> r@[closure.env@.len() + i]
                == #[trigger] args@[i],
        forall|j: int|
            closure.env@.len() + args@.len() <= j < r@.len() ==> #[trigger] r@[j] == Value::nil(),
        forall|j: int|
            closure.env@.len() + closure.template.num_params <= j < r@.len() ==> #[trigger] r@[j] == Value::nil(),
{
}

/// A closure that is entered without arguments is the one that runs next, in an
/// environment of its captures and nil.
pub proof fn lemma_entered_closure_runs_next(vm: VM, after: VM, v: Value, r: Vec<Value>, c: Closure)
    requires
        closure_entered(vm, after, v, r),
        closure_at(vm.heap@, v) == Some(c),
    ensures
        after.pending_entry_closure == v,
        after.heap == vm.heap,
        after.fiber == vm.fiber,
        forall|i: int| 0 <= i < c.env@.len() ==> #[trigger] r@[i] == c.env@[i],
        forall|j: int| c.env@.len() <= j < r@.len() ==> #[trigger] r@[j] == Value::nil(),
{
}

/// The standard library is run from the cache where it is there, and compiled where not;
/// it is stored only where the cache had nothing at all.
pub proof fn lemma_stdlib_comes_from_the_cache(
    reply: Option<Result<(), String>>,
    first: StdlibStep,
    origin: StdlibSource,
    store: bool,
    second: StdlibStep,
)
    requires
        call_ensures(init_stdlib, (&reply,), first),
        call_ensures(stdlib_origin, (&reply,), origin),
        call_ensures(stdlib_compiled, (store,), second),
    ensures
        reply matches Some(Ok(_)) ==> first == StdlibStep::Execute && origin == StdlibSource::Cached,
        reply matches Some(Err(_)) ==> first == (StdlibStep::Compile { store: false }) && origin
            == StdlibSource::Compiled,
        reply is None ==> first == (StdlibStep::Compile { store: true }) && origin == StdlibSource::Compiled,
        store ==> second == StdlibStep::Store,
        !store ==> second == StdlibStep::Execute,
{
}

/// Entry `i` names an export.
pub open spec fn names_export(entries: Seq<(TableKey, Value)>, i: int, name: Seq<char>) -> bool {
    0 <= i < entries.len() && (entries[i].0 matches TableKey::Keyword(k) && k@ == name)
}

/// Every keyword of the exported struct becomes an export of its value, under the symbol
/// of that name, with what the closure may signal; and nothing else is exported.
pub proof fn lemma_exports_are_the_keywords(
    heap: FiberHeap,
    v: Value,
    symbols: SymbolTable,
    after: SymbolTable,
    r: Vec<Export>,
    i: int,
    name: Seq<char>,
)
    requires
        exports_extracted(heap, v, symbols, after, r),
        v.tag == TAG_STRUCT,
        heap@.target(v) is Some,
        heap@.object(v) is LStruct,
        symbols@.no_duplicates(),
        symbols@.len() + heap@.object(v)->LStruct_data@.len() <= u32::MAX,
    ensures
        names_export(heap@.object(v)->LStruct_data@, i, name) ==> exists|j: int|
            0 <= j < r@.len() && (#[trigger] r@[j]).symbol < after@.len() && after@[r@[j].symbol as int] == name
                && r@[j].value == heap@.object(v)->LStruct_data@[i].1 && (match closure_at(heap@, r@[j].value) {
                Some(c) => r@[j].signal == c.template.signal,
                None => r@[j].signal == crate::signals::plain(0),
            }),
        r@.len() <= heap@.object(v)->LStruct_data@.len(),
        forall|k: int| 0 <= k < symbols@.len() ==> k < after@.len() && #[trigger] after@[k] == symbols@[k],
{
    let entries = heap@.object(v)->LStruct_data@;
    lemma_names_kept(symbols@, entries);
    lemma_exports_bounded(heap@, symbols@, entries);
    if names_export(entries, i, name) {
        lemma_export_there(heap@, symbols@, entries, i, name);
    }
}

proof fn lemma_names_kept(names: Seq<Seq<char>>, entries: Seq<(TableKey, Value)>)
    ensures
        names.len() <= crate::moduleinit::export_names(names, entries).len() <= names.len() + entries.len(),
        forall|k: int|
            0 <= k < names.len() ==> #[trigger] crate::moduleinit::export_names(names, entries)[k] == names[k],
    decreases entries.len(),
{
    if entries.len() > 0 {
        lemma_names_kept(names, entries.drop_last());
    }
}

proof fn lemma_exports_bounded(s: HeapState, names: Seq<Seq<char>>, entries: Seq<(TableKey, Value)>)
    ensures
        crate::moduleinit::exports_of(s, names, entries).len() <= entries.len(),
    decreases entries.len(),
{
    if entries.len() > 0 {
        lemma_exports_bounded(s, names, entries.drop_last());
    }
}

proof fn lemma_export_there(
    s: HeapState,
    names: Seq<Seq<char>>,
    entries: Seq<(TableKey, Value)>,
    i: int,
    name: Seq<char>,
)
    requires
        names_export(entries, i, name),
        names.len() + entries.len() <= u32::MAX,
    ensures
        exists|j: int|
            0 <= j < crate::moduleinit::exports_of(s, names, entries).len() && (
            #[trigger] crate::moduleinit::exports_of(s, names, entries)[j]).symbol < crate::moduleinit::export_names(
                names,
                entries,
            ).len() && crate::moduleinit::export_names(names, entries)[crate::moduleinit::exports_of(
                s,
                names,
                entries,
            )[j].symbol as int] == name && crate::moduleinit::exports_of(s, names, entries)[j].value == entries[i].1
                && (match closure_at(s, entries[i].1) {
                Some(c) => crate::moduleinit::exports_of(s, names, entries)[j].signal == c.template.signal,
                None => crate::moduleinit::exports_of(s, names, entries)[j].signal == crate::signals::plain(0),
            }),
    decreases entries.len(),
{
    let rest = entries.drop_last();
    let had = crate::moduleinit::export_names(names, rest);
    let all = crate::moduleinit::export_names(names, entries);
    let before = crate::moduleinit::exports_of(s, names, rest);
    let now = crate::moduleinit::exports_of(s, names, entries);
    lemma_names_kept(names, rest);
    lemma_names_kept(names, entries);
    if i == entries.len() - 1 {
        assert(had.contains(name) || all.last() == name);
        assert(all.contains(name));
        assert(all[all.index_of(name)] == name);
        assert(now[now.len() - 1].symbol < all.len());
    } else {
        assert(names_export(rest, i, name));
        lemma_export_there(s, names, rest, i, name);
        let j = choose|j: int|
            0 <= j < before.len() && (#[trigger] before[j]).symbol < had.len() && had[before[j].symbol as int] == name
                && before[j].value == rest[i].1 && (match closure_at(s, rest[i].1) {
                Some(c) => before[j].signal == c.template.signal,
                None => before[j].signal == crate::signals::plain(0),
            });
        assert(now[j] == before[j]);
        assert(all[before[j].symbol as int] == had[before[j].symbol as int]);
    }
}

/// Registering the exports keeps the module and its exports alive for as long as the
/// heap: their regions become roots.
pub proof fn lemma_registered_exports_stay_alive(
    heap: FiberHeap,
    after: FiberHeap,
    symbols: SymbolTable,
    symbols_after: SymbolTable,
    cctx: CompileCtx,
    cctx_after: CompileCtx,
    closure: Value,
    exports: Value,
)
    requires
        exports_registered(heap, after, symbols, symbols_after, cctx, cctx_after, closure, exports),
    ensures
        heap@.region_of(closure) matches Some(r) ==> after@.roots.contains(r.0),
        heap@.region_of(exports) matches Some(r) ==> after@.roots.contains(r.0),
        forall|i: int| 0 <= i < heap@.roots.len() ==> i < after@.roots.len() && #[trigger] after@.roots[i]
            == heap@.roots[i],
        after@.objects == heap@.objects,
        after@.counts == heap@.counts,
        cctx_after.transformers == cctx.transformers,
{
    let mid = crate::moduleinit::root_registered(heap@, closure);
    if let Some(r) = heap@.region_of(closure) {
        assert(mid.roots.last() == r.0);
        assert(after@.roots[mid.roots.len() - 1] == r.0);
    }
    if let Some(r) = heap@.region_of(exports) {
        assert(mid.region_of(exports) == Some(r));
        assert(after@.roots.last() == r.0);
    }
}

} // verus!
