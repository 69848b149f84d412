//! Importing modules.
//!
//! An import goes through outside work at every turn: looking for files, reading,
//! loading a library, compiling, running. Each step below takes what the outside
//! returned and says what is to be done next.

use vstd::prelude::*;

use crate::ctx::Alloc;
use crate::fiber::{Code, Fiber};
use crate::heap::{EscapeSite, FiberHeap};
use crate::prim::{
    as_string, fail, fail_with, failed, failed_with, returned, string_at, type_error, type_error_text,
};
use crate::searchpath::{is_library, is_native_library};
use crate::signalbits::SignalBits;
use crate::signals::{SIG_ERROR, SIG_OK};
use crate::text::{digits, push_hex};
use crate::value::Value;
use crate::vfs::{read, Mounts};
use crate::vm::{loading, once_each, VM};

verus! {

/// What an import needs next.
pub enum ImportStep {
    /// The import is over.
    Done((SignalBits, Value)),
    /// Find the file of this specifier.
    Resolve(String),
    /// Load the native library at this path. Where reading it as source failed
    /// before, `reason` says how.
    LoadPlugin { path: String, reason: Option<String> },
    /// Read the file at this path.
    ReadFile(String),
    /// Compile this source.
    Compile { path: String, contents: String },
    /// Run the compiled module to completion.
    Run { path: String, code: Code },
}

/// Why a file could not be read as text.
pub struct ReadFailure {
    /// The file is there, but it is no text.
    pub invalid_data: bool,
    pub text: String,
}

/// What a loaded plugin returned, if it is loaded.
pub open spec fn plugin_of(plugins: Seq<(String, Value)>, path: Seq<char>) -> Option<Value>
    decreases plugins.len(),
{
    if plugins.len() == 0 {
        None
    } else if plugins.last().0@ == path {
        Some(plugins.last().1)
    } else {
        plugin_of(plugins.drop_last(), path)
    }
}

fn find_plugin(plugins: &Vec<(String, Value)>, path: &String) -> (r: Option<Value>)
    ensures
        r == plugin_of(plugins@, path@),
{
    let mut i: usize = plugins.len();
    assert(plugins@.take(i as int) =~= plugins@);
    while i > 0
        invariant
            i <= plugins@.len(),
            plugin_of(plugins@.take(i as int), path@) == plugin_of(plugins@, path@),
        decreases i,
    {
        assert(plugins@.take(i as int).drop_last() =~= plugins@.take(i - 1));
        if plugins[i - 1].0 == *path {
            return Some(plugins[i - 1].1);
        }
        i = i - 1;
    }
    None
}

/// The same plugins, but for the one at `path`, which returned `v`.
pub open spec fn plugin_put(
    before: Seq<(String, Value)>,
    after: Seq<(String, Value)>,
    path: Seq<char>,
    v: Value,
) -> bool {
    forall|p: Seq<char>| #[trigger]
        plugin_of(after, p) == if p == path {
            Some(v)
        } else {
            plugin_of(before, p)
        }
}

fn put_plugin(plugins: &mut Vec<(String, Value)>, path: String, v: Value)
    ensures
        plugin_put(old(plugins)@, final(plugins)@, path@, v),
{
    let ghost before = plugins@;
    let ghost key = path@;
    plugins.push((path, v));
    assert(plugins@.drop_last() =~= before);
}

/// Loading a plugin where nothing can be loaded at run time: it always fails.
pub fn load_plugin(path: &String) -> (r: Result<Value, String>)
    ensures
        r is Err,
        r->Err_0@ == "cannot load "@ + path@ + ": this build has no dynamic plugin support"@,
{
    let mut msg = "cannot load ".to_string();
    msg.append(path.as_str());
    msg.append(": this build has no dynamic plugin support");
    Err(msg)
}

/// Take the caller's own reference to a value that a plugin returned. No call made
/// that value, so none owes a reference to it yet.
fn retain_plugin_result(heap: &mut FiberHeap, value: Value)
    requires
        old(heap)@.valid(),
        old(heap)@.room(1),
    ensures
        final(heap)@ == old(heap)@.retained_opt(old(heap)@.region_of(value)),
        final(heap)@.valid(),
{
    let region = heap.region_of(value);
    heap.incref_for_escape(region, EscapeSite::NativeCallResult);
}

/// Only the heap differs.
pub open spec fn heap_only(before: VM, after: VM) -> bool {
    after == (VM { heap: after.heap, ..before })
}

/// An import is over: its module is no longer marked.
pub open spec fn ended(before: VM, after: VM, path: Seq<char>) -> bool {
    loading(after.loading_modules@) == loading(before.loading_modules@).remove(path)
}

/// An import has begun: its module, which was not marked, now is.
pub open spec fn begun(before: VM, after: VM, path: Seq<char>) -> bool {
    &&& !loading(before.loading_modules@).contains(path)
    &&& loading(after.loading_modules@) == loading(before.loading_modules@).insert(path)
}

/// How an import begins.
pub open spec fn import_asked(
    ctx: Alloc,
    vm: VM,
    vm_after: VM,
    args: Vec<Value>,
    kinds: Vec<String>,
    r: ImportStep,
) -> bool {
    &&& heap_only(vm, vm_after)
    &&& match string_at(vm.heap@, args@[0]) {
            Some(spec) => vm_after == vm && match r {
                ImportStep::Resolve(s) => s@ == spec,
                _ => false,
            },
            None => match r {
                ImportStep::Done(e) => failed(
                    vm.heap@,
                    vm_after.heap@,
                    ctx.home(),
                    "type-error"@,
                    type_error_text("import"@, "string"@, kinds@[0]@),
                    e,
                ),
                _ => false,
            },
        }
}

/// Begin an import: the specifier must be a string.
pub fn prim_import_file(
    ctx: &Alloc,
    vm: &mut VM,
    args: &Vec<Value>,
    kinds: &Vec<String>,
) -> (r: ImportStep)
    requires
        kinds@.len() == args@.len(),
        args@.len() == 1,
        ctx.ready(old(vm).heap@, 8),
    ensures
        import_asked(
            *ctx,
            *old(vm),
            *final(vm),
            *args,
            *kinds,
            r,
        ),
{
    match as_string(&vm.heap, args[0]) {
        Some(spec) => ImportStep::Resolve(spec),
        None => ImportStep::Done(type_error(ctx, &mut vm.heap, &kinds[0], "import", "string")),
    }
}

/// The specifier named no file.
pub open spec fn not_found_text(spec: Seq<char>) -> Seq<char> {
    "import: module '"@ + spec + "' not found"@
}

/// The module imports itself.
pub open spec fn circular_text(path: Seq<char>) -> Seq<char> {
    "import: circular dependency detected for '"@ + path + "'"@
}

/// What to do with the file that a specifier was resolved to, once it is marked as
/// being loaded.
pub open spec fn module_step(
    before: VM,
    after: VM,
    mounts: Map<Seq<char>, Seq<char>>,
    path: Seq<char>,
    r: ImportStep,
) -> bool {
    if is_library(path) {
        match plugin_of(before.loaded_plugins@, path) {
            Some(cached) => {
                &&& r == ImportStep::Done(returned(cached))
                &&& after.heap@ == before.heap@.retained_opt(before.heap@.region_of(cached))
                &&& ended(before, after, path)
            },
            None => {
                &&& after.heap == before.heap
                &&& begun(before, after, path)
                &&& match r {
                    ImportStep::LoadPlugin { path: p, reason } => p@ == path && reason is None,
                    _ => false,
                }
            },
        }
    } else {
        &&& after.heap == before.heap
        &&& begun(before, after, path)
        &&& match r {
            ImportStep::Compile { path: p, contents } => mounts.contains_key(path) && p@ == path
                && contents@ == mounts[path],
            ImportStep::ReadFile(p) => !mounts.contains_key(path) && p@ == path,
            _ => false,
        }
    }
}

/// What an import does once its specifier is resolved.
pub open spec fn import_settled(
    ctx: Alloc,
    vm: VM,
    vm_after: VM,
    mounts: Mounts,
    spec: String,
    resolved: Option<String>,
    has_symbols: bool,
    r: ImportStep,
) -> bool {
    &&& once_each(vm_after.loading_modules@)
    &&& vm_after == (VM {
            heap: vm_after.heap,
            loading_modules: vm_after.loading_modules,
            ..vm
        })
    &&& match resolved {
            None => vm_after.loading_modules == vm.loading_modules && match r {
                ImportStep::Done(e) => failed_with(
                    vm.heap@,
                    vm_after.heap@,
                    ctx.home(),
                    "io-error"@,
                    not_found_text(spec@),
                    "spec"@,
                    spec@,
                    e,
                ),
                _ => false,
            },
            Some(path) => if loading(vm.loading_modules@).contains(path@) {
                vm_after.loading_modules == vm.loading_modules && match r {
                    ImportStep::Done(e) => failed_with(
                        vm.heap@,
                        vm_after.heap@,
                        ctx.home(),
                        "io-error"@,
                        circular_text(path@),
                        "path"@,
                        path@,
                        e,
                    ),
                    _ => false,
                }
            } else if !has_symbols {
                loading(vm_after.loading_modules@) == loading(vm.loading_modules@) && match r {
                    ImportStep::Done(e) => failed(
                        vm.heap@,
                        vm_after.heap@,
                        ctx.home(),
                        "internal-error"@,
                        "import: symbol table context not initialized"@,
                        e,
                    ),
                    _ => false,
                }
            } else {
                module_step(vm, vm_after, mounts@, path@, r)
            },
        }
}

/// Go on with the file that the specifier was resolved to, if there is one. A
/// module that is being loaded already is refused; any other is marked as being
/// loaded until the import is over.
pub fn import_resolved(
    ctx: &Alloc,
    vm: &mut VM,
    mounts: &Mounts,
    spec: &String,
    resolved: Option<String>,
    has_symbols: bool,
) -> (r: ImportStep)
    requires
        once_each(old(vm).loading_modules@),
        ctx.ready(old(vm).heap@, 11),
    ensures
        import_settled(
            *ctx,
            *old(vm),
            *final(vm),
            *mounts,
            *spec,
            resolved,
            has_symbols,
            r,
        ),
{
    let ghost start = vm.heap@;
    let path = match resolved {
        Some(path) => path,
        None => {
            let mut msg = "import: module '".to_string();
            msg.append(spec.as_str());
            msg.append("' not found");
            return ImportStep::Done(fail_with(ctx, &mut vm.heap, "io-error", &msg, "spec", spec));
        },
    };
    if vm.is_module_loading(&path) {
        let mut msg = "import: circular dependency detected for '".to_string();
        msg.append(path.as_str());
        msg.append("'");
        return ImportStep::Done(fail_with(ctx, &mut vm.heap, "io-error", &msg, "path", &path));
    }
    if !has_symbols {
        proof {
            crate::materialize::lemma_room_less(start, 11, 8);
        }
        return ImportStep::Done(
            fail(
                ctx,
                &mut vm.heap,
                "internal-error",
                &"import: symbol table context not initialized".to_string(),
            ),
        );
    }
    let ghost marks = loading(vm.loading_modules@);
    vm.mark_module_loading(path.clone());
    if is_native_library(path.as_str()) {
        if let Some(cached) = find_plugin(&vm.loaded_plugins, &path) {
            vm.unmark_module_loading(&path);
            proof {
                assert(marks.insert(path@).remove(path@) =~= marks.remove(path@));
                crate::materialize::lemma_room_less(start, 11, 1);
            }
            retain_plugin_result(&mut vm.heap, cached);
            return ImportStep::Done((SignalBits::new(SIG_OK), cached));
        }
        return ImportStep::LoadPlugin { path, reason: None };
    }
    match read(mounts, &path) {
        Some(contents) => ImportStep::Compile { path, contents },
        None => ImportStep::ReadFile(path),
    }
}

/// How a plugin that could not be loaded is reported.
pub open spec fn plugin_text(path: Seq<char>, reason: Option<String>, why: Seq<char>) -> Seq<char> {
    match reason {
        None => "import: "@ + why,
        Some(reason) => "import: '"@ + path + "' is not valid Elle source ("@ + reason@
            + "), and plugin loading also failed: "@ + why,
    }
}

/// What an import does once a plugin was loaded, or not.
pub open spec fn plugin_settled(
    ctx: Alloc,
    vm: VM,
    vm_after: VM,
    path: String,
    reason: Option<String>,
    loaded: Result<Value, String>,
    r: (SignalBits, Value),
) -> bool {
    &&& once_each(vm_after.loading_modules@)
    &&& ended(vm, vm_after, path@)
    &&& vm_after == (VM {
            heap: vm_after.heap,
            loading_modules: vm_after.loading_modules,
            loaded_plugins: vm_after.loaded_plugins,
            ..vm
        })
    &&& match loaded {
            Ok(value) => {
                &&& r == returned(value)
                &&& plugin_put(vm.loaded_plugins@, vm_after.loaded_plugins@, path@, value)
                &&& vm_after.heap@ == vm.heap@.retained_opt(vm.heap@.region_of(value))
            },
            Err(why) => {
                &&& vm_after.loaded_plugins == vm.loaded_plugins
                &&& failed_with(
                    vm.heap@,
                    vm_after.heap@,
                    ctx.home(),
                    "io-error"@,
                    plugin_text(path@, reason, why@),
                    "path"@,
                    path@,
                    r,
                )
            },
        }
}

/// End an import with what loading the library gave: its value, from now on kept,
/// or an error.
pub fn import_plugin_loaded(
    ctx: &Alloc,
    vm: &mut VM,
    path: &String,
    reason: Option<String>,
    loaded: Result<Value, String>,
) -> (r: (SignalBits, Value))
    requires
        once_each(old(vm).loading_modules@),
        ctx.ready(old(vm).heap@, 11),
    ensures
        plugin_settled(
            *ctx,
            *old(vm),
            *final(vm),
            *path,
            reason,
            loaded,
            r,
        ),
{
    let ghost start = vm.heap@;
    let result = match loaded {
        Ok(value) => {
            put_plugin(&mut vm.loaded_plugins, path.clone(), value);
            proof {
                crate::materialize::lemma_room_less(start, 11, 1);
            }
            retain_plugin_result(&mut vm.heap, value);
            (SignalBits::new(SIG_OK), value)
        },
        Err(why) => {
            let mut msg = "import: ".to_string();
            if let Some(reason) = &reason {
                msg = "import: '".to_string();
                msg.append(path.as_str());
                msg.append("' is not valid Elle source (");
                msg.append(reason.as_str());
                msg.append("), and plugin loading also failed: ");
            }
            msg.append(why.as_str());
            fail_with(ctx, &mut vm.heap, "io-error", &msg, "path", path)
        },
    };
    vm.unmark_module_loading(path);
    result
}

/// The file could not be read.
pub open spec fn unreadable_text(path: Seq<char>, why: Seq<char>) -> Seq<char> {
    "import: failed to read '"@ + path + "': "@ + why
}

/// What an import does once a file was read, or not.
pub open spec fn source_read(
    ctx: Alloc,
    vm: VM,
    vm_after: VM,
    path: String,
    contents: Result<String, ReadFailure>,
    r: ImportStep,
) -> bool {
    &&& once_each(vm_after.loading_modules@)
    &&& vm_after == (VM {
            heap: vm_after.heap,
            loading_modules: vm_after.loading_modules,
            ..vm
        })
    &&& match contents {
            Ok(text) => vm_after == vm && match r {
                ImportStep::Compile { path: p, contents: c } => p@ == path@ && c@ == text@,
                _ => false,
            },
            Err(e) => if e.invalid_data {
                vm_after == vm && match r {
                    ImportStep::LoadPlugin { path: p, reason } => p@ == path@ && reason == Some(e.text),
                    _ => false,
                }
            } else {
                ended(vm, vm_after, path@) && match r {
                    ImportStep::Done(f) => failed_with(
                        vm.heap@,
                        vm_after.heap@,
                        ctx.home(),
                        "io-error"@,
                        unreadable_text(path@, e.text@),
                        "path"@,
                        path@,
                        f,
                    ),
                    _ => false,
                }
            },
        }
}

/// Go on with what reading the file gave. A file that is no text is tried as a
/// library.
pub fn import_read(
    ctx: &Alloc,
    vm: &mut VM,
    path: String,
    contents: Result<String, ReadFailure>,
) -> (r: ImportStep)
    requires
        once_each(old(vm).loading_modules@),
        ctx.ready(old(vm).heap@, 11),
    ensures
        source_read(
            *ctx,
            *old(vm),
            *final(vm),
            path,
            contents,
            r,
        ),
{
    match contents {
        Ok(contents) => ImportStep::Compile { path, contents },
        Err(e) => {
            if e.invalid_data {
                return ImportStep::LoadPlugin { path, reason: Some(e.text) };
            }
            vm.unmark_module_loading(&path);
            let mut msg = "import: failed to read '".to_string();
            msg.append(path.as_str());
            msg.append("': ");
            msg.append(e.text.as_str());
            ImportStep::Done(fail_with(ctx, &mut vm.heap, "io-error", &msg, "path", &path))
        },
    }
}

/// The module did not compile.
pub open spec fn uncompiled_text(path: Seq<char>, why: Seq<char>) -> Seq<char> {
    "import: compilation error in "@ + path + ": "@ + why
}

/// What an import does once a module was compiled, or not.
pub open spec fn source_compiled(
    ctx: Alloc,
    vm: VM,
    vm_after: VM,
    path: String,
    compiled: Result<Code, String>,
    r: ImportStep,
) -> bool {
    &&& once_each(vm_after.loading_modules@)
    &&& vm_after == (VM {
            heap: vm_after.heap,
            loading_modules: vm_after.loading_modules,
            ..vm
        })
    &&& match compiled {
            Ok(code) => vm_after == vm && r == (ImportStep::Run { path, code }),
            Err(why) => ended(vm, vm_after, path@) && match r {
                ImportStep::Done(e) => failed_with(
                    vm.heap@,
                    vm_after.heap@,
                    ctx.home(),
                    "eval-error"@,
                    uncompiled_text(path@, why@),
                    "path"@,
                    path@,
                    e,
                ),
                _ => false,
            },
        }
}

/// Go on with what compiling the module gave. A module that did not compile is no
/// longer marked: the corrected file can be imported.
pub fn import_compiled(ctx: &Alloc, vm: &mut VM, path: String, compiled: Result<Code, String>) -> (r:
    ImportStep)
    requires
        once_each(old(vm).loading_modules@),
        ctx.ready(old(vm).heap@, 11),
    ensures
        source_compiled(
            *ctx,
            *old(vm),
            *final(vm),
            path,
            compiled,
            r,
        ),
{
    match compiled {
        Ok(code) => ImportStep::Run { path, code },
        Err(why) => {
            vm.unmark_module_loading(&path);
            let mut msg = "import: compilation error in ".to_string();
            msg.append(path.as_str());
            msg.append(": ");
            msg.append(why.as_str());
            ImportStep::Done(fail_with(ctx, &mut vm.heap, "eval-error", &msg, "path", &path))
        },
    }
}

/// The module raised an error.
pub open spec fn raised_text(path: Seq<char>, why: Seq<char>) -> Seq<char> {
    "import: runtime error in "@ + path + ": "@ + why
}

/// The module ended with a signal of another kind.
pub open spec fn unexpected_text(path: Seq<char>, bits: SignalBits) -> Seq<char> {
    "import: unexpected signal 0x"@ + digits(bits.bits as nat, 16) + " in "@ + path
}

/// The value of the running fiber's signal, nil where there is none.
pub open spec fn signal_or_nil(f: Fiber) -> Value {
    match f.signal {
        Some((_, v)) => v,
        None => Value::nil(),
    }
}

/// What an import does once a module has run.
pub open spec fn module_ran(
    ctx: Alloc,
    vm: VM,
    vm_after: VM,
    path: String,
    bits: SignalBits,
    shown: String,
    r: (SignalBits, Value),
) -> bool {
    &&& once_each(vm_after.loading_modules@)
    &&& ended(vm, vm_after, path@)
    &&& vm_after == (VM {
            heap: vm_after.heap,
            loading_modules: vm_after.loading_modules,
            fiber: Fiber { signal: vm_after.fiber.signal, ..vm.fiber },
            ..vm
        })
    &&& if bits.bits == SIG_OK {
            &&& r == returned(signal_or_nil(vm.fiber))
            &&& vm_after.fiber.signal is None
            &&& vm_after.heap == vm.heap
        } else if bits.bits == SIG_ERROR {
            &&& vm_after.fiber.signal is None
            &&& failed_with(
                vm.heap@,
                vm_after.heap@,
                ctx.home(),
                "eval-error"@,
                raised_text(path@, shown@),
                "path"@,
                path@,
                r,
            )
        } else {
            &&& vm_after.fiber.signal == vm.fiber.signal
            &&& failed_with(
                vm.heap@,
                vm_after.heap@,
                ctx.home(),
                "eval-error"@,
                unexpected_text(path@, bits),
                "path"@,
                path@,
                r,
            )
        }
}

/// End an import once the module has run. `shown` is how its error value reads,
/// with its place. The module's value already carries the reference that the
/// caller is owed.
pub fn import_ran(ctx: &Alloc, vm: &mut VM, path: &String, bits: SignalBits, shown: &String) -> (r: (
    SignalBits,
    Value,
))
    requires
        once_each(old(vm).loading_modules@),
        ctx.ready(old(vm).heap@, 11),
    ensures
        module_ran(
            *ctx,
            *old(vm),
            *final(vm),
            *path,
            bits,
            *shown,
            r,
        ),
{
    vm.unmark_module_loading(path);
    if bits.bits == SIG_OK {
        let value = match vm.fiber.signal.take() {
            Some((_, v)) => v,
            None => Value::nil(),
        };
        return (SignalBits::new(SIG_OK), value);
    }
    if bits.bits == SIG_ERROR {
        vm.fiber.signal = None;
        let mut msg = "import: runtime error in ".to_string();
        msg.append(path.as_str());
        msg.append(": ");
        msg.append(shown.as_str());
        return fail_with(ctx, &mut vm.heap, "eval-error", &msg, "path", path);
    }
    let mut msg = "import: unexpected signal 0x".to_string();
    push_hex(&mut msg, bits.bits);
    msg.append(" in ");
    msg.append(path.as_str());
    fail_with(ctx, &mut vm.heap, "eval-error", &msg, "path", path)
}

/// A module is marked while it is imported and no longer. `begun` is what
/// `import_resolved` ensures of the machines before and after it where the import goes
/// on, and `ended` what every function that ends an import ensures; in between, what
/// the module itself imports comes and goes. The marks are then those from before.
pub proof fn lemma_import_leaves_no_mark(before: VM, marked: VM, ran: VM, after: VM, path: Seq<char>)
    requires
        begun(before, marked, path),
        loading(ran.loading_modules@) == loading(marked.loading_modules@),
        ended(ran, after, path),
    ensures
        loading(marked.loading_modules@).contains(path),
        loading(after.loading_modules@) == loading(before.loading_modules@),
        !loading(after.loading_modules@).contains(path),
{
    assert(loading(after.loading_modules@) =~= loading(before.loading_modules@));
}

} // verus!
