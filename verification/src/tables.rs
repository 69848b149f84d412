//! The primitives that this library declares, table by table.
//!
//! Every definition of a primitive that can run says what its region effect is: one
//! that was left unexamined would be treated as storing all of its arguments.

use vstd::prelude::*;

use crate::def::{literals, PrimitiveDef, RegionEffect, RetType};
use crate::object::Arity;
use crate::signalbits::SignalBits;
use crate::signals::{
    plain, Signal, IO_ROUND_TRIP, SIG_ABORT, SIG_ERROR, SIG_FFI, SIG_FS, SIG_PROPAGATE, SIG_QUERY, SIG_RESUME,
    SIG_TERMINAL, SIG_YIELD,
};

verus! {

/// What is declared of a primitive, beside its documentation and its effect.
pub open spec fn declares(
    d: PrimitiveDef,
    name: Seq<char>,
    aliases: Seq<Seq<char>>,
    signal: Signal,
    arity: Arity,
    ret: RetType,
    result_minted: bool,
) -> bool {
    &&& d.name@ == name
    &&& literals(d.aliases@) =~= aliases
    &&& d.signal == signal
    &&& d.arity == arity
    &&& d.ret == ret
    &&& d.result_minted == result_minted
    &&& d.embeds@.len() == 0
    &&& !d.moves_out
}

/// The documentation of a primitive.
pub open spec fn explains(
    d: PrimitiveDef,
    doc: Seq<char>,
    params: Seq<Seq<char>>,
    category: Seq<char>,
    example: Seq<char>,
) -> bool {
    d.doc@ == doc && literals(d.params@) =~= params && d.category@ == category && d.example@ == example
}

/// No definition was left unexamined.
pub open spec fn examined(defs: Seq<PrimitiveDef>) -> bool {
    forall|i: int| 0 <= i < defs.len() ==> !((#[trigger] defs[i]).effect is Unknown)
}

/// A definition without documentation.
fn entry(
    name: &'static str,
    aliases: Vec<&'static str>,
    signal: Signal,
    arity: Arity,
    effect: RegionEffect,
) -> (r: PrimitiveDef)
    ensures
        r.name == name,
        r.aliases == aliases,
        r.signal == signal,
        r.arity == arity,
        r.effect == effect,
        !r.result_minted,
        r.ret is Unknown,
        r.embeds@.len() == 0,
        !r.moves_out,
{
    let mut d = PrimitiveDef::blank();
    d.name = name;
    d.aliases = aliases;
    d.signal = signal;
    d.arity = arity;
    d.effect = effect;
    d
}

/// The definition with its documentation.
fn described(
    def: PrimitiveDef,
    doc: &'static str,
    params: Vec<&'static str>,
    category: &'static str,
    example: &'static str,
) -> (r: PrimitiveDef)
    ensures
        r == (PrimitiveDef { doc, params, category, example, ..def }),
{
    PrimitiveDef { doc, params, category, example, ..def }
}

/// Foreign memory and types.
pub fn memory_defs() -> (r: Vec<PrimitiveDef>)
    ensures
        r@.len() == 13,
        examined(r@),
        declares(r@[0], "ffi/size"@, Seq::empty(), plain(SIG_ERROR), Arity::Exact(1), RetType::Unknown, false),
        r@[0].effect is Immediate,
        explains(
            r@[0],
            "Get the size of a C type in bytes."@,
            seq!["type"@],
            "ffi"@,
            "(ffi/size :i32) #=> 4"@,
        ),
        declares(r@[1], "ffi/align"@, Seq::empty(), plain(SIG_ERROR), Arity::Exact(1), RetType::Unknown, false),
        r@[1].effect is Immediate,
        explains(
            r@[1],
            "Get the alignment of a C type in bytes."@,
            seq!["type"@],
            "ffi"@,
            "(ffi/align :double) #=> 8"@,
        ),
        declares(
            r@[2],
            "ffi/malloc"@,
            Seq::empty(),
            plain(SIG_FFI | SIG_ERROR),
            Arity::Exact(1),
            RetType::Unknown,
            false,
        ),
        r@[2].effect is Fresh,
        explains(
            r@[2],
            "Allocate C memory."@,
            seq!["size"@],
            "ffi"@,
            "(ffi/malloc 100)"@,
        ),
        declares(
            r@[3],
            "ffi/free"@,
            Seq::empty(),
            plain(SIG_FFI | SIG_ERROR),
            Arity::Exact(1),
            RetType::Unknown,
            false,
        ),
        r@[3].effect is Immediate,
        explains(
            r@[3],
            "Free C memory."@,
            seq!["ptr"@],
            "ffi"@,
            "(ffi/free ptr)"@,
        ),
        declares(
            r@[4],
            "ffi/read"@,
            Seq::empty(),
            plain(SIG_FFI | SIG_ERROR),
            Arity::Exact(2),
            RetType::Unknown,
            false,
        ),
        r@[4].effect is Fresh,
        explains(
            r@[4],
            "Read a typed value from C memory."@,
            seq!["ptr"@, "type"@],
            "ffi"@,
            "(ffi/read ptr :i32)"@,
        ),
        declares(
            r@[5],
            "ffi/write"@,
            Seq::empty(),
            plain(SIG_FFI | SIG_ERROR),
            Arity::Exact(3),
            RetType::Unknown,
            false,
        ),
        r@[5].effect is Immediate,
        explains(
            r@[5],
            "Write a typed value to C memory."@,
            seq!["ptr"@, "type"@, "value"@],
            "ffi"@,
            "(ffi/write ptr :i32 42)"@,
        ),
        declares(
            r@[6],
            "ffi/string"@,
            Seq::empty(),
            plain(SIG_FFI | SIG_ERROR),
            Arity::Range(1, 2),
            RetType::Unknown,
            false,
        ),
        r@[6].effect is Fresh,
        explains(
            r@[6],
            "Read a null-terminated C string from a pointer."@,
            seq!["ptr"@, "max-len"@],
            "ffi"@,
            "(ffi/string ptr)"@,
        ),
        declares(
            r@[7],
            "ffi/struct"@,
            Seq::empty(),
            plain(SIG_ERROR),
            Arity::Exact(1),
            RetType::Unknown,
            false,
        ),
        r@[7].effect is Fresh,
        explains(
            r@[7],
            "Create a struct type descriptor from field types."@,
            seq!["fields"@],
            "ffi"@,
            "(ffi/struct [:i32 :double :ptr])"@,
        ),
        declares(r@[8], "ffi/array"@, Seq::empty(), plain(SIG_ERROR), Arity::Exact(2), RetType::Unknown, false),
        r@[8].effect is Fresh,
        explains(
            r@[8],
            "Create an array type descriptor from element type and count."@,
            seq!["elem-type"@, "count"@],
            "ffi"@,
            "(ffi/array :i32 10)"@,
        ),
        declares(r@[9], "ptr/add"@, Seq::empty(), plain(SIG_ERROR), Arity::Exact(2), RetType::Unknown, false),
        r@[9].effect is Immediate,
        explains(
            r@[9],
            "Offset a pointer by a byte count. Returns a raw pointer. Offset may be negative."@,
            seq!["pointer"@, "offset"@],
            "ptr"@,
            "(ptr/add buf 16)"@,
        ),
        declares(r@[10], "ptr/diff"@, Seq::empty(), plain(SIG_ERROR), Arity::Exact(2), RetType::Unknown, false),
        r@[10].effect is Immediate,
        explains(
            r@[10],
            "Compute the signed byte distance between two pointers (a - b)."@,
            seq!["pointer-a"@, "pointer-b"@],
            "ptr"@,
            "(ptr/diff p2 p1)"@,
        ),
        declares(
            r@[11],
            "ptr/to-int"@,
            Seq::empty(),
            plain(SIG_ERROR),
            Arity::Exact(1),
            RetType::Unknown,
            false,
        ),
        r@[11].effect is Immediate,
        explains(
            r@[11],
            "Extract the raw address of a pointer as an integer."@,
            seq!["pointer"@],
            "ptr"@,
            "(ptr/to-int buf)"@,
        ),
        declares(
            r@[12],
            "ptr/from-int"@,
            Seq::empty(),
            plain(SIG_ERROR),
            Arity::Exact(1),
            RetType::Unknown,
            false,
        ),
        r@[12].effect is Immediate,
        explains(
            r@[12],
            "Construct a raw C pointer from an integer address. Returns nil if address is 0."@,
            seq!["integer"@],
            "ptr"@,
            "(ptr/from-int addr)"@,
        ),
{
    let mut out: Vec<PrimitiveDef> = Vec::new();
    out.push(
        described(
            entry("ffi/size", Vec::new(), Signal::errors(), Arity::Exact(1), RegionEffect::Immediate),
            "Get the size of a C type in bytes.",
            vec!["type"],
            "ffi",
            "(ffi/size :i32) #=> 4",
        ),
    );
    out.push(
        described(
            entry("ffi/align", Vec::new(), Signal::errors(), Arity::Exact(1), RegionEffect::Immediate),
            "Get the alignment of a C type in bytes.",
            vec!["type"],
            "ffi",
            "(ffi/align :double) #=> 8",
        ),
    );
    out.push(
        described(
            entry("ffi/malloc", Vec::new(), Signal::ffi_errors(), Arity::Exact(1), RegionEffect::Fresh),
            "Allocate C memory.",
            vec!["size"],
            "ffi",
            "(ffi/malloc 100)",
        ),
    );
    out.push(
        described(
            entry("ffi/free", Vec::new(), Signal::ffi_errors(), Arity::Exact(1), RegionEffect::Immediate),
            "Free C memory.",
            vec!["ptr"],
            "ffi",
            "(ffi/free ptr)",
        ),
    );
    out.push(
        described(
            entry("ffi/read", Vec::new(), Signal::ffi_errors(), Arity::Exact(2), RegionEffect::Fresh),
            "Read a typed value from C memory.",
            vec!["ptr", "type"],
            "ffi",
            "(ffi/read ptr :i32)",
        ),
    );
    out.push(
        described(
            entry("ffi/write", Vec::new(), Signal::ffi_errors(), Arity::Exact(3), RegionEffect::Immediate),
            "Write a typed value to C memory.",
            vec!["ptr", "type", "value"],
            "ffi",
            "(ffi/write ptr :i32 42)",
        ),
    );
    out.push(
        described(
            entry("ffi/string", Vec::new(), Signal::ffi_errors(), Arity::Range(1, 2), RegionEffect::Fresh),
            "Read a null-terminated C string from a pointer.",
            vec!["ptr", "max-len"],
            "ffi",
            "(ffi/string ptr)",
        ),
    );
    out.push(
        described(
            entry("ffi/struct", Vec::new(), Signal::errors(), Arity::Exact(1), RegionEffect::Fresh),
            "Create a struct type descriptor from field types.",
            vec!["fields"],
            "ffi",
            "(ffi/struct [:i32 :double :ptr])",
        ),
    );
    out.push(
        described(
            entry("ffi/array", Vec::new(), Signal::errors(), Arity::Exact(2), RegionEffect::Fresh),
            "Create an array type descriptor from element type and count.",
            vec!["elem-type", "count"],
            "ffi",
            "(ffi/array :i32 10)",
        ),
    );
    out.push(
        described(
            entry("ptr/add", Vec::new(), Signal::errors(), Arity::Exact(2), RegionEffect::Immediate),
            "Offset a pointer by a byte count. Returns a raw pointer. Offset may be negative.",
            vec!["pointer", "offset"],
            "ptr",
            "(ptr/add buf 16)",
        ),
    );
    out.push(
        described(
            entry("ptr/diff", Vec::new(), Signal::errors(), Arity::Exact(2), RegionEffect::Immediate),
            "Compute the signed byte distance between two pointers (a - b).",
            vec!["pointer-a", "pointer-b"],
            "ptr",
            "(ptr/diff p2 p1)",
        ),
    );
    out.push(
        described(
            entry("ptr/to-int", Vec::new(), Signal::errors(), Arity::Exact(1), RegionEffect::Immediate),
            "Extract the raw address of a pointer as an integer.",
            vec!["pointer"],
            "ptr",
            "(ptr/to-int buf)",
        ),
    );
    out.push(
        described(
            entry("ptr/from-int", Vec::new(), Signal::errors(), Arity::Exact(1), RegionEffect::Immediate),
            "Construct a raw C pointer from an integer address. Returns nil if address is 0.",
            vec!["integer"],
            "ptr",
            "(ptr/from-int addr)",
        ),
    );
    out
}

/// Foreign libraries and signatures.
pub fn loading_defs() -> (r: Vec<PrimitiveDef>)
    ensures
        r@.len() == 5,
        examined(r@),
        declares(
            r@[0],
            "ffi/native"@,
            Seq::empty(),
            plain(SIG_FFI | SIG_ERROR),
            Arity::Exact(1),
            RetType::Unknown,
            false,
        ),
        r@[0].effect is Fresh,
        explains(
            r@[0],
            "Load a shared library by Linux-style name (resolved to the host's .dylib/.dll). Pass nil for the current process."@,
            seq!["path"@],
            "ffi"@,
            "(ffi/native \"libm.so.6\")"@,
        ),
        declares(
            r@[1],
            "ffi/lookup"@,
            Seq::empty(),
            plain(SIG_FFI | SIG_ERROR),
            Arity::Exact(2),
            RetType::Unknown,
            false,
        ),
        r@[1].effect is Immediate,
        explains(
            r@[1],
            "Look up a symbol in a loaded library."@,
            seq!["lib"@, "name"@],
            "ffi"@,
            "(ffi/lookup lib \"strlen\")"@,
        ),
        declares(
            r@[2],
            "ffi/on-unload"@,
            Seq::empty(),
            plain(SIG_FFI | SIG_ERROR),
            Arity::Exact(2),
            RetType::Unknown,
            false,
        ),
        r@[2].effect is Immediate,
        explains(
            r@[2],
            "Register a teardown C symbol (zero-arg) to run for a library at an explicit (ffi/run-teardowns). The library mapping is never unloaded, so this is optional graceful cleanup — never required to avoid a crash, never run automatically."@,
            seq!["lib"@, "symbol"@],
            "ffi"@,
            "(ffi/on-unload git-lib \"git_libgit2_shutdown\")"@,
        ),
        declares(
            r@[3],
            "ffi/run-teardowns"@,
            Seq::empty(),
            plain(SIG_ERROR),
            Arity::Exact(0),
            RetType::Unknown,
            false,
        ),
        r@[3].effect is Immediate,
        explains(
            r@[3],
            "Run all registered FFI library teardowns (ffi/on-unload), in reverse load order. Explicit-only; never unloads the libraries. Call only when workers that used the libraries have quiesced."@,
            Seq::empty(),
            "ffi"@,
            "(ffi/run-teardowns)"@,
        ),
        declares(
            r@[4],
            "ffi/signature"@,
            Seq::empty(),
            plain(SIG_ERROR),
            Arity::Range(2, 3),
            RetType::Unknown,
            false,
        ),
        r@[4].effect is Fresh,
        explains(
            r@[4],
            "Create a reified function signature. Optional third arg for variadic functions."@,
            seq!["return-type"@, "arg-types"@, "fixed-args"@],
            "ffi"@,
            "(ffi/signature :int [:ptr :size :ptr :int] 3)"@,
        ),
{
    let mut out: Vec<PrimitiveDef> = Vec::new();
    out.push(
        described(
            entry("ffi/native", Vec::new(), Signal::ffi_errors(), Arity::Exact(1), RegionEffect::Fresh),
            "Load a shared library by Linux-style name (resolved to the host's .dylib/.dll). Pass nil for the current process.",
            vec!["path"],
            "ffi",
            "(ffi/native \"libm.so.6\")",
        ),
    );
    out.push(
        described(
            entry("ffi/lookup", Vec::new(), Signal::ffi_errors(), Arity::Exact(2), RegionEffect::Immediate),
            "Look up a symbol in a loaded library.",
            vec!["lib", "name"],
            "ffi",
            "(ffi/lookup lib \"strlen\")",
        ),
    );
    out.push(
        described(
            entry("ffi/on-unload", Vec::new(), Signal::ffi_errors(), Arity::Exact(2), RegionEffect::Immediate),
            "Register a teardown C symbol (zero-arg) to run for a library at an explicit (ffi/run-teardowns). The library mapping is never unloaded, so this is optional graceful cleanup — never required to avoid a crash, never run automatically.",
            vec!["lib", "symbol"],
            "ffi",
            "(ffi/on-unload git-lib \"git_libgit2_shutdown\")",
        ),
    );
    out.push(
        described(
            entry("ffi/run-teardowns", Vec::new(), Signal::errors(), Arity::Exact(0), RegionEffect::Immediate),
            "Run all registered FFI library teardowns (ffi/on-unload), in reverse load order. Explicit-only; never unloads the libraries. Call only when workers that used the libraries have quiesced.",
            Vec::new(),
            "ffi",
            "(ffi/run-teardowns)",
        ),
    );
    out.push(
        described(
            entry("ffi/signature", Vec::new(), Signal::errors(), Arity::Range(2, 3), RegionEffect::Fresh),
            "Create a reified function signature. Optional third arg for variadic functions.",
            vec!["return-type", "arg-types", "fixed-args"],
            "ffi",
            "(ffi/signature :int [:ptr :size :ptr :int] 3)",
        ),
    );
    out
}

/// Foreign calls and callbacks.
pub fn callback_defs() -> (r: Vec<PrimitiveDef>)
    ensures
        r@.len() == 3,
        examined(r@),
        declares(
            r@[0],
            "ffi/call"@,
            Seq::empty(),
            plain(SIG_FFI | SIG_ERROR),
            Arity::AtLeast(2),
            RetType::Unknown,
            false,
        ),
        r@[0].effect is Fresh,
        explains(
            r@[0],
            "Call a C function through libffi."@,
            seq!["fn-ptr"@, "sig"@],
            "ffi"@,
            "(ffi/call sqrt-ptr sig 2.0)"@,
        ),
        declares(
            r@[1],
            "ffi/callback"@,
            Seq::empty(),
            plain(SIG_FFI | SIG_ERROR),
            Arity::Exact(2),
            RetType::Unknown,
            false,
        ),
        r@[1].effect is Stores && r@[1].effect->Stores_args@ == seq![1usize],
        explains(
            r@[1],
            "Create a C function pointer from an Elle closure. Returns a pointer."@,
            seq!["sig"@, "closure"@],
            "ffi"@,
            "(ffi/callback (ffi/signature :int [:ptr :ptr]) (fn (a b) 0))"@,
        ),
        declares(
            r@[2],
            "ffi/callback-free"@,
            Seq::empty(),
            plain(SIG_FFI | SIG_ERROR),
            Arity::Exact(1),
            RetType::Unknown,
            false,
        ),
        r@[2].effect is Immediate,
        explains(
            r@[2],
            "Free a callback created by ffi/callback."@,
            seq!["ptr"@],
            "ffi"@,
            "(ffi/callback-free cb-ptr)"@,
        ),
{
    let mut out: Vec<PrimitiveDef> = Vec::new();
    out.push(
        described(
            entry("ffi/call", Vec::new(), Signal::ffi_errors(), Arity::AtLeast(2), RegionEffect::Fresh),
            "Call a C function through libffi.",
            vec!["fn-ptr", "sig"],
            "ffi",
            "(ffi/call sqrt-ptr sig 2.0)",
        ),
    );
    out.push(
        described(
            entry(
                "ffi/callback",
                Vec::new(),
                Signal::ffi_errors(),
                Arity::Exact(2),
                RegionEffect::Stores { args: vec![1] },
            ),
            "Create a C function pointer from an Elle closure. Returns a pointer.",
            vec!["sig", "closure"],
            "ffi",
            "(ffi/callback (ffi/signature :int [:ptr :ptr]) (fn (a b) 0))",
        ),
    );
    out.push(
        described(
            entry(
                "ffi/callback-free",
                Vec::new(),
                Signal::ffi_errors(),
                Arity::Exact(1),
                RegionEffect::Immediate,
            ),
            "Free a callback created by ffi/callback.",
            vec!["ptr"],
            "ffi",
            "(ffi/callback-free cb-ptr)",
        ),
    );
    out
}

/// Closures on other devices.
pub fn mlir_defs() -> (r: Vec<PrimitiveDef>)
    ensures
        r@.len() == 1,
        examined(r@),
        declares(
            r@[0],
            "mlir/compile-spirv"@,
            Seq::empty(),
            plain(SIG_QUERY | SIG_ERROR),
            Arity::Range(1, 2),
            RetType::Unknown,
            false,
        ),
        r@[0].effect is Fresh,
        explains(
            r@[0],
            "Compile a GPU-eligible closure to SPIR-V bytes."@,
            seq!["closure"@, "workgroup-size"@],
            "mlir"@,
            "(mlir/compile-spirv (fn [a b] (+ a b)))"@,
        ),
{
    let mut out: Vec<PrimitiveDef> = Vec::new();
    out.push(
        described(
            entry(
                "mlir/compile-spirv",
                Vec::new(),
                Signal::query_errors(),
                Arity::Range(1, 2),
                RegionEffect::Fresh,
            ),
            "Compile a GPU-eligible closure to SPIR-V bytes.",
            vec!["closure", "workgroup-size"],
            "mlir",
            "(mlir/compile-spirv (fn [a b] (+ a b)))",
        ),
    );
    out
}

/// The standard streams, where a host drains what is written.
pub fn stdio_defs() -> (r: Vec<PrimitiveDef>)
    ensures
        r@.len() == 5,
        examined(r@),
        declares(r@[0], "port/stdin"@, Seq::empty(), plain(0), Arity::Exact(0), RetType::Unknown, false),
        r@[0].effect is Fresh,
        explains(
            r@[0],
            "Return a port for standard input."@,
            Seq::empty(),
            "port"@,
            "(port/stdin)"@,
        ),
        declares(r@[1], "port/stdout"@, Seq::empty(), plain(0), Arity::Exact(0), RetType::Unknown, false),
        r@[1].effect is Fresh,
        explains(
            r@[1],
            "Return a port for standard output."@,
            Seq::empty(),
            "port"@,
            "(port/stdout)"@,
        ),
        declares(r@[2], "port/stderr"@, Seq::empty(), plain(0), Arity::Exact(0), RetType::Unknown, false),
        r@[2].effect is Fresh,
        explains(
            r@[2],
            "Return a port for standard error."@,
            Seq::empty(),
            "port"@,
            "(port/stderr)"@,
        ),
        declares(
            r@[3],
            "port/write"@,
            seq!["stream/write"@],
            plain(IO_ROUND_TRIP),
            Arity::AtLeast(2),
            RetType::Unknown,
            false,
        ),
        r@[3].effect is Immediate,
        explains(
            r@[3],
            "Write all of data to port, looping over short writes. Returns the number of bytes written, which equals the length of data — a caller never loops on the count. Errors if the fd fails part-way, since an unknown prefix reached the peer."@,
            seq!["port"@, "data"@],
            "port"@,
            "(port/write (port/stdout) \"hello\")"@,
        ),
        declares(
            r@[4],
            "port/flush"@,
            seq!["stream/flush"@],
            plain(IO_ROUND_TRIP),
            Arity::AtLeast(1),
            RetType::Unknown,
            false,
        ),
        r@[4].effect is Immediate,
        explains(
            r@[4],
            "Flush port's write buffer."@,
            seq!["port"@],
            "port"@,
            "(port/flush (port/stdout))"@,
        ),
{
    let mut out: Vec<PrimitiveDef> = Vec::new();
    out.push(
        described(
            entry("port/stdin", Vec::new(), Signal::silent(), Arity::Exact(0), RegionEffect::Fresh),
            "Return a port for standard input.",
            Vec::new(),
            "port",
            "(port/stdin)",
        ),
    );
    out.push(
        described(
            entry("port/stdout", Vec::new(), Signal::silent(), Arity::Exact(0), RegionEffect::Fresh),
            "Return a port for standard output.",
            Vec::new(),
            "port",
            "(port/stdout)",
        ),
    );
    out.push(
        described(
            entry("port/stderr", Vec::new(), Signal::silent(), Arity::Exact(0), RegionEffect::Fresh),
            "Return a port for standard error.",
            Vec::new(),
            "port",
            "(port/stderr)",
        ),
    );
    out.push(
        described(
            entry(
                "port/write",
                vec!["stream/write"],
                Signal::io_yields_errors(),
                Arity::AtLeast(2),
                RegionEffect::Immediate,
            ),
            "Write all of data to port, looping over short writes. Returns the number of bytes written, which equals the length of data — a caller never loops on the count. Errors if the fd fails part-way, since an unknown prefix reached the peer.",
            vec!["port", "data"],
            "port",
            "(port/write (port/stdout) \"hello\")",
        ),
    );
    out.push(
        described(
            entry(
                "port/flush",
                vec!["stream/flush"],
                Signal::io_yields_errors(),
                Arity::AtLeast(1),
                RegionEffect::Immediate,
            ),
            "Flush port's write buffer.",
            vec!["port"],
            "port",
            "(port/flush (port/stdout))",
        ),
    );
    out
}

/// Looking into closures.
pub fn introspection_defs() -> (r: Vec<PrimitiveDef>)
    ensures
        r@.len() == 15,
        examined(r@),
        declares(
            r@[0],
            "jit?"@,
            Seq::empty(),
            plain(SIG_QUERY | SIG_ERROR),
            Arity::Exact(1),
            RetType::Unknown,
            false,
        ),
        r@[0].effect is Immediate,
        explains(
            r@[0],
            "Returns true if closure has JIT-compiled code"@,
            seq!["value"@],
            "predicate"@,
            "(jit? (fn (x) x))"@,
        ),
        declares(r@[1], "silent?"@, Seq::empty(), plain(SIG_ERROR), Arity::Exact(1), RetType::Unknown, false),
        r@[1].effect is Immediate,
        explains(
            r@[1],
            "Returns true if closure is silent (does not suspend: no yield, debug, or polymorphic signal). False for non-closures."@,
            seq!["value"@],
            "predicate"@,
            "(silent? (fn (x) x))"@,
        ),
        declares(r@[2], "fiber?"@, Seq::empty(), plain(0), Arity::Exact(1), RetType::Unknown, false),
        r@[2].effect is Immediate,
        explains(
            r@[2],
            "Returns true if value is a fiber"@,
            seq!["value"@],
            "predicate"@,
            "(fiber? (fiber/new (fn () 42) |:yield|))"@,
        ),
        declares(
            r@[3],
            "fn/mutates-params?"@,
            seq!["mutates-params?"@],
            plain(SIG_ERROR),
            Arity::Exact(1),
            RetType::Unknown,
            false,
        ),
        r@[3].effect is Immediate,
        explains(
            r@[3],
            "Returns true if closure mutates any parameters"@,
            seq!["value"@],
            "fn"@,
            "(fn/mutates-params? (fn (x) (assign x 1)))"@,
        ),
        declares(
            r@[4],
            "fn/gpu-eligible?"@,
            Seq::empty(),
            plain(SIG_ERROR),
            Arity::Exact(1),
            RetType::Unknown,
            false,
        ),
        r@[4].effect is Immediate,
        explains(
            r@[4],
            "Returns true if closure passes signal and structural checks for GPU compilation"@,
            seq!["value"@],
            "fn"@,
            "(fn/gpu-eligible? (fn [a b] (+ a b)))"@,
        ),
        declares(
            r@[5],
            "fn/errors?"@,
            Seq::empty(),
            plain(SIG_ERROR),
            Arity::Exact(1),
            RetType::Unknown,
            false,
        ),
        r@[5].effect is Immediate,
        explains(
            r@[5],
            "Returns true if closure may error"@,
            seq!["value"@],
            "fn"@,
            "(fn/errors? (fn (x) (/ 1 x)))"@,
        ),
        declares(
            r@[6],
            "fn/arity"@,
            seq!["arity"@],
            plain(SIG_ERROR),
            Arity::Exact(1),
            RetType::Unknown,
            false,
        ),
        r@[6].effect is Fresh,
        explains(
            r@[6],
            "Returns closure arity as int, pair, or nil"@,
            seq!["value"@],
            "fn"@,
            "(fn/arity (fn (x y) x))"@,
        ),
        declares(
            r@[7],
            "fn/captures"@,
            seq!["captures"@],
            plain(SIG_ERROR),
            Arity::Exact(1),
            RetType::Unknown,
            false,
        ),
        r@[7].effect is Immediate,
        explains(
            r@[7],
            "Returns number of captured variables, or nil"@,
            seq!["value"@],
            "fn"@,
            "(fn/captures (let [x 1] (fn () x)))"@,
        ),
        declares(
            r@[8],
            "fn/bytecode-size"@,
            seq!["bytecode-size"@],
            plain(SIG_ERROR),
            Arity::Exact(1),
            RetType::Unknown,
            false,
        ),
        r@[8].effect is Immediate,
        explains(
            r@[8],
            "Returns size of bytecode in bytes, or nil"@,
            seq!["value"@],
            "fn"@,
            "(fn/bytecode-size (fn (x) x))"@,
        ),
        declares(
            r@[9],
            "doc"@,
            Seq::empty(),
            plain(SIG_QUERY | SIG_ERROR),
            Arity::Exact(1),
            RetType::Unknown,
            false,
        ),
        r@[9].effect is Fresh,
        explains(
            r@[9],
            "Look up documentation for a value or builtin. Pass a closure (user-defined or stdlib) to extract its docstring. Pass a string or keyword to look up a native primitive or special form by name. Note: (doc name) works for closures and native primitives; (doc \"name\") only works for native primitives and special forms."@,
            seq!["target"@],
            "meta"@,
            "(doc inc)"@,
        ),
        declares(
            r@[10],
            "vm/query"@,
            Seq::empty(),
            plain(SIG_QUERY | SIG_ERROR),
            Arity::Exact(2),
            RetType::Unknown,
            false,
        ),
        r@[10].effect is Opaque,
        explains(
            r@[10],
            "Query VM state (call-count, doc, global?, fiber/self)"@,
            seq!["op"@, "arg"@],
            "meta"@,
            "(vm/query \"call-count\" some-fn)"@,
        ),
        declares(r@[11], "signals"@, Seq::empty(), plain(SIG_ERROR), Arity::Exact(0), RetType::Unknown, false),
        r@[11].effect is Fresh,
        explains(
            r@[11],
            "Return the signal registry as a struct mapping keywords to bit positions."@,
            Seq::empty(),
            "meta"@,
            "(signals)"@,
        ),
        declares(
            r@[12],
            "jit/rejections"@,
            Seq::empty(),
            plain(SIG_QUERY | SIG_ERROR),
            Arity::Exact(0),
            RetType::Unknown,
            false,
        ),
        r@[12].effect is Fresh,
        explains(
            r@[12],
            "List closures rejected from JIT compilation. Returns list of {:name :reason :calls} structs sorted by call count ascending."@,
            Seq::empty(),
            "meta"@,
            "(jit/rejections)"@,
        ),
        declares(
            r@[13],
            "lir/closure-value-const-count"@,
            Seq::empty(),
            plain(0),
            Arity::Exact(0),
            RetType::Unknown,
            false,
        ),
        r@[13].effect is Immediate,
        explains(
            r@[13],
            "Number of closure-valued ValueConst instructions converted to ClosureRef by the LIR cross-thread serializer. Used by regression tests to assert the ClosureRef LIR-transfer fix fires."@,
            Seq::empty(),
            "meta"@,
            "(lir/closure-value-const-count)"@,
        ),
        declares(
            r@[14],
            "keyword"@,
            seq!["string->keyword"@],
            plain(SIG_ERROR),
            Arity::Exact(1),
            RetType::Unknown,
            false,
        ),
        r@[14].effect is Immediate,
        explains(
            r@[14],
            "Convert a string to a keyword."@,
            seq!["str"@],
            "conversion"@,
            "(keyword \"foo\")"@,
        ),
{
    let mut out: Vec<PrimitiveDef> = Vec::new();
    out.push(
        described(
            entry("jit?", Vec::new(), Signal::query_errors(), Arity::Exact(1), RegionEffect::Immediate),
            "Returns true if closure has JIT-compiled code",
            vec!["value"],
            "predicate",
            "(jit? (fn (x) x))",
        ),
    );
    out.push(
        described(
            entry("silent?", Vec::new(), Signal::errors(), Arity::Exact(1), RegionEffect::Immediate),
            "Returns true if closure is silent (does not suspend: no yield, debug, or polymorphic signal). False for non-closures.",
            vec!["value"],
            "predicate",
            "(silent? (fn (x) x))",
        ),
    );
    out.push(
        described(
            entry("fiber?", Vec::new(), Signal::silent(), Arity::Exact(1), RegionEffect::Immediate),
            "Returns true if value is a fiber",
            vec!["value"],
            "predicate",
            "(fiber? (fiber/new (fn () 42) |:yield|))",
        ),
    );
    out.push(
        described(
            entry(
                "fn/mutates-params?",
                vec!["mutates-params?"],
                Signal::errors(),
                Arity::Exact(1),
                RegionEffect::Immediate,
            ),
            "Returns true if closure mutates any parameters",
            vec!["value"],
            "fn",
            "(fn/mutates-params? (fn (x) (assign x 1)))",
        ),
    );
    out.push(
        described(
            entry("fn/gpu-eligible?", Vec::new(), Signal::errors(), Arity::Exact(1), RegionEffect::Immediate),
            "Returns true if closure passes signal and structural checks for GPU compilation",
            vec!["value"],
            "fn",
            "(fn/gpu-eligible? (fn [a b] (+ a b)))",
        ),
    );
    out.push(
        described(
            entry("fn/errors?", Vec::new(), Signal::errors(), Arity::Exact(1), RegionEffect::Immediate),
            "Returns true if closure may error",
            vec!["value"],
            "fn",
            "(fn/errors? (fn (x) (/ 1 x)))",
        ),
    );
    out.push(
        described(
            entry("fn/arity", vec!["arity"], Signal::errors(), Arity::Exact(1), RegionEffect::Fresh),
            "Returns closure arity as int, pair, or nil",
            vec!["value"],
            "fn",
            "(fn/arity (fn (x y) x))",
        ),
    );
    out.push(
        described(
            entry("fn/captures", vec!["captures"], Signal::errors(), Arity::Exact(1), RegionEffect::Immediate),
            "Returns number of captured variables, or nil",
            vec!["value"],
            "fn",
            "(fn/captures (let [x 1] (fn () x)))",
        ),
    );
    out.push(
        described(
            entry(
                "fn/bytecode-size",
                vec!["bytecode-size"],
                Signal::errors(),
                Arity::Exact(1),
                RegionEffect::Immediate,
            ),
            "Returns size of bytecode in bytes, or nil",
            vec!["value"],
            "fn",
            "(fn/bytecode-size (fn (x) x))",
        ),
    );
    out.push(
        described(
            entry("doc", Vec::new(), Signal::query_errors(), Arity::Exact(1), RegionEffect::Fresh),
            "Look up documentation for a value or builtin. Pass a closure (user-defined or stdlib) to extract its docstring. Pass a string or keyword to look up a native primitive or special form by name. Note: (doc name) works for closures and native primitives; (doc \"name\") only works for native primitives and special forms.",
            vec!["target"],
            "meta",
            "(doc inc)",
        ),
    );
    out.push(
        described(
            entry("vm/query", Vec::new(), Signal::query_errors(), Arity::Exact(2), RegionEffect::Opaque),
            "Query VM state (call-count, doc, global?, fiber/self)",
            vec!["op", "arg"],
            "meta",
            "(vm/query \"call-count\" some-fn)",
        ),
    );
    out.push(
        described(
            entry("signals", Vec::new(), Signal::errors(), Arity::Exact(0), RegionEffect::Fresh),
            "Return the signal registry as a struct mapping keywords to bit positions.",
            Vec::new(),
            "meta",
            "(signals)",
        ),
    );
    out.push(
        described(
            entry("jit/rejections", Vec::new(), Signal::query_errors(), Arity::Exact(0), RegionEffect::Fresh),
            "List closures rejected from JIT compilation. Returns list of {:name :reason :calls} structs sorted by call count ascending.",
            Vec::new(),
            "meta",
            "(jit/rejections)",
        ),
    );
    out.push(
        described(
            entry(
                "lir/closure-value-const-count",
                Vec::new(),
                Signal::silent(),
                Arity::Exact(0),
                RegionEffect::Immediate,
            ),
            "Number of closure-valued ValueConst instructions converted to ClosureRef by the LIR cross-thread serializer. Used by regression tests to assert the ClosureRef LIR-transfer fix fires.",
            Vec::new(),
            "meta",
            "(lir/closure-value-const-count)",
        ),
    );
    out.push(
        described(
            entry(
                "keyword",
                vec!["string->keyword"],
                Signal::errors(),
                Arity::Exact(1),
                RegionEffect::Immediate,
            ),
            "Convert a string to a keyword.",
            vec!["str"],
            "conversion",
            "(keyword \"foo\")",
        ),
    );
    out
}

/// Importing modules.
pub fn module_defs() -> (r: Vec<PrimitiveDef>)
    ensures
        r@.len() == 1,
        examined(r@),
        declares(
            r@[0],
            "import"@,
            seq!["import-file"@, "module/import"@],
            plain(SIG_FS | SIG_ERROR),
            Arity::Exact(1),
            RetType::Unknown,
            true,
        ),
        r@[0].effect is Opaque,
        explains(
            r@[0],
            "Import a module by specifier. Resolves via search paths (CWD, --path, --home) with extension probing (.lisp, native plugins). Binary files that fail UTF-8 reading are automatically tried as plugins."@,
            seq!["spec"@],
            ""@,
            "(import \"std/http\")"@,
        ),
{
    let mut out: Vec<PrimitiveDef> = Vec::new();
    let mut d = described(
        entry(
            "import",
            vec!["import-file", "module/import"],
            Signal::fs_errors(),
            Arity::Exact(1),
            RegionEffect::Opaque,
        ),
        "Import a module by specifier. Resolves via search paths (CWD, --path, --home) with extension probing (.lisp, native plugins). Binary files that fail UTF-8 reading are automatically tried as plugins.",
        vec!["spec"],
        "",
        "(import \"std/http\")",
    );
    d.result_minted = true;
    out.push(d);
    out
}

/// Threads.
pub fn thread_defs() -> (r: Vec<PrimitiveDef>)
    ensures
        r@.len() == 4,
        examined(r@),
        declares(
            r@[0],
            "sys/spawn"@,
            seq!["os/spawn"@],
            plain(SIG_ERROR),
            Arity::Exact(1),
            RetType::Unknown,
            false,
        ),
        r@[0].effect is Fresh,
        explains(
            r@[0],
            "Spawn a thread running a deep-copied closure in a fresh VM with the standard library loaded (so eval/read in the worker resolve stdlib). Heavier than sys/spawn-vm (init_stdlib per spawn)."@,
            seq!["closure"@],
            "sys"@,
            "(sys/spawn (fn [] (+ 1 2)))"@,
        ),
        declares(
            r@[1],
            "sys/spawn-vm"@,
            seq!["os/spawn-vm"@],
            plain(SIG_ERROR),
            Arity::Exact(1),
            RetType::Unknown,
            false,
        ),
        r@[1].effect is Fresh,
        explains(
            r@[1],
            "Spawn a thread running a deep-copied closure in a fresh VM with primitives only (no stdlib). The cheap path; eval in the worker resolves primitives/intrinsics but not stdlib."@,
            seq!["closure"@],
            "sys"@,
            "(sys/spawn-vm (fn [] (+ 1 2)))"@,
        ),
        declares(
            r@[2],
            "sys/thread-state"@,
            seq!["os/thread-state"@],
            plain(SIG_ERROR),
            Arity::Exact(1),
            RetType::Unknown,
            false,
        ),
        r@[2].effect is Fresh,
        explains(
            r@[2],
            "Inspect a thread handle without blocking (a single check, never a loop): [:ready value], [:failed message], or [:pending receiver]. Building block for sys/join (which adds the scheduler-cooperative wait + timeout)."@,
            seq!["thread-handle"@],
            "sys"@,
            "(sys/thread-state thread-handle)"@,
        ),
        declares(
            r@[3],
            "sys/thread-id"@,
            seq!["current-thread-id"@, "os/thread-id"@],
            plain(0),
            Arity::Exact(0),
            RetType::Unknown,
            false,
        ),
        r@[3].effect is Immediate,
        explains(
            r@[3],
            "Return the ID of the current thread"@,
            Seq::empty(),
            "sys"@,
            "(sys/thread-id)"@,
        ),
{
    let mut out: Vec<PrimitiveDef> = Vec::new();
    out.push(
        described(
            entry("sys/spawn", vec!["os/spawn"], Signal::errors(), Arity::Exact(1), RegionEffect::Fresh),
            "Spawn a thread running a deep-copied closure in a fresh VM with the standard library loaded (so eval/read in the worker resolve stdlib). Heavier than sys/spawn-vm (init_stdlib per spawn).",
            vec!["closure"],
            "sys",
            "(sys/spawn (fn [] (+ 1 2)))",
        ),
    );
    out.push(
        described(
            entry("sys/spawn-vm", vec!["os/spawn-vm"], Signal::errors(), Arity::Exact(1), RegionEffect::Fresh),
            "Spawn a thread running a deep-copied closure in a fresh VM with primitives only (no stdlib). The cheap path; eval in the worker resolves primitives/intrinsics but not stdlib.",
            vec!["closure"],
            "sys",
            "(sys/spawn-vm (fn [] (+ 1 2)))",
        ),
    );
    out.push(
        described(
            entry(
                "sys/thread-state",
                vec!["os/thread-state"],
                Signal::errors(),
                Arity::Exact(1),
                RegionEffect::Fresh,
            ),
            "Inspect a thread handle without blocking (a single check, never a loop): [:ready value], [:failed message], or [:pending receiver]. Building block for sys/join (which adds the scheduler-cooperative wait + timeout).",
            vec!["thread-handle"],
            "sys",
            "(sys/thread-state thread-handle)",
        ),
    );
    out.push(
        described(
            entry(
                "sys/thread-id",
                vec!["current-thread-id", "os/thread-id"],
                Signal::silent(),
                Arity::Exact(0),
                RegionEffect::Immediate,
            ),
            "Return the ID of the current thread",
            Vec::new(),
            "sys",
            "(sys/thread-id)",
        ),
    );
    out
}

/// Channels.
pub fn chan_defs() -> (r: Vec<PrimitiveDef>)
    ensures
        r@.len() == 8,
        examined(r@),
        declares(
            r@[0],
            "chan"@,
            seq!["chan/new"@],
            plain(SIG_ERROR),
            Arity::Range(0, 1),
            RetType::Unknown,
            false,
        ),
        r@[0].effect is Fresh,
        explains(
            r@[0],
            "Create a channel. Returns [sender receiver]. Optional capacity for bounded channel."@,
            seq!["&opt capacity"@],
            "chan"@,
            "(chan)"@,
        ),
        declares(r@[1], "chan/send"@, Seq::empty(), plain(SIG_ERROR), Arity::Exact(2), RetType::Unknown, false),
        r@[1].effect is Sends && r@[1].effect->Sends_args@ == seq![1usize],
        explains(
            r@[1],
            "Non-blocking send. Returns [:ok], [:full], or [:disconnected]."@,
            seq!["sender"@, "msg"@],
            "chan"@,
            "(chan/send sender 42)"@,
        ),
        declares(r@[2], "chan/recv"@, Seq::empty(), plain(SIG_ERROR), Arity::Exact(1), RetType::Unknown, false),
        r@[2].effect is Fresh,
        explains(
            r@[2],
            "Non-blocking receive. Returns [:ok msg], [:empty], or [:disconnected]."@,
            seq!["receiver"@],
            "chan"@,
            "(chan/recv receiver)"@,
        ),
        declares(
            r@[3],
            "chan/clone"@,
            Seq::empty(),
            plain(SIG_ERROR),
            Arity::Exact(1),
            RetType::Unknown,
            false,
        ),
        r@[3].effect is Fresh,
        explains(
            r@[3],
            "Clone a sender. Multiple senders can feed the same channel."@,
            seq!["sender"@],
            "chan"@,
            "(chan/clone sender)"@,
        ),
        declares(
            r@[4],
            "chan/close"@,
            Seq::empty(),
            plain(SIG_ERROR),
            Arity::Exact(1),
            RetType::Unknown,
            false,
        ),
        r@[4].effect is Immediate,
        explains(
            r@[4],
            "Close a sender. Receivers will get :disconnected after buffered messages drain."@,
            seq!["sender"@],
            "chan"@,
            "(chan/close sender)"@,
        ),
        declares(
            r@[5],
            "chan/close-recv"@,
            Seq::empty(),
            plain(SIG_ERROR),
            Arity::Exact(1),
            RetType::Unknown,
            false,
        ),
        r@[5].effect is Immediate,
        explains(
            r@[5],
            "Close a receiver. Senders will get :disconnected on next send."@,
            seq!["receiver"@],
            "chan"@,
            "(chan/close-recv receiver)"@,
        ),
        declares(
            r@[6],
            "chan/try-select"@,
            Seq::empty(),
            plain(SIG_ERROR),
            Arity::Exact(1),
            RetType::Unknown,
            false,
        ),
        r@[6].effect is Fresh,
        explains(
            r@[6],
            "Non-blocking poll over receivers. Returns [index msg], [:empty], or [:disconnected]."@,
            seq!["receivers"@],
            "chan"@,
            "(chan/try-select @[r1 r2])"@,
        ),
        declares(
            r@[7],
            "chan/wait-ready"@,
            Seq::empty(),
            plain(IO_ROUND_TRIP),
            Arity::Range(1, 2),
            RetType::Unknown,
            false,
        ),
        r@[7].effect is Fresh,
        explains(
            r@[7],
            "Park the current fiber until a receiver is ready, a sender closes, or timeout-ms elapses. Returns nil; caller re-checks with chan/try-select."@,
            seq!["receivers"@, "&opt timeout-ms"@],
            "chan"@,
            "(chan/wait-ready @[r1 r2] 1000)"@,
        ),
{
    let mut out: Vec<PrimitiveDef> = Vec::new();
    out.push(
        described(
            entry("chan", vec!["chan/new"], Signal::errors(), Arity::Range(0, 1), RegionEffect::Fresh),
            "Create a channel. Returns [sender receiver]. Optional capacity for bounded channel.",
            vec!["&opt capacity"],
            "chan",
            "(chan)",
        ),
    );
    out.push(
        described(
            entry(
                "chan/send",
                Vec::new(),
                Signal::errors(),
                Arity::Exact(2),
                RegionEffect::Sends { args: vec![1] },
            ),
            "Non-blocking send. Returns [:ok], [:full], or [:disconnected].",
            vec!["sender", "msg"],
            "chan",
            "(chan/send sender 42)",
        ),
    );
    out.push(
        described(
            entry("chan/recv", Vec::new(), Signal::errors(), Arity::Exact(1), RegionEffect::Fresh),
            "Non-blocking receive. Returns [:ok msg], [:empty], or [:disconnected].",
            vec!["receiver"],
            "chan",
            "(chan/recv receiver)",
        ),
    );
    out.push(
        described(
            entry("chan/clone", Vec::new(), Signal::errors(), Arity::Exact(1), RegionEffect::Fresh),
            "Clone a sender. Multiple senders can feed the same channel.",
            vec!["sender"],
            "chan",
            "(chan/clone sender)",
        ),
    );
    out.push(
        described(
            entry("chan/close", Vec::new(), Signal::errors(), Arity::Exact(1), RegionEffect::Immediate),
            "Close a sender. Receivers will get :disconnected after buffered messages drain.",
            vec!["sender"],
            "chan",
            "(chan/close sender)",
        ),
    );
    out.push(
        described(
            entry("chan/close-recv", Vec::new(), Signal::errors(), Arity::Exact(1), RegionEffect::Immediate),
            "Close a receiver. Senders will get :disconnected on next send.",
            vec!["receiver"],
            "chan",
            "(chan/close-recv receiver)",
        ),
    );
    out.push(
        described(
            entry("chan/try-select", Vec::new(), Signal::errors(), Arity::Exact(1), RegionEffect::Fresh),
            "Non-blocking poll over receivers. Returns [index msg], [:empty], or [:disconnected].",
            vec!["receivers"],
            "chan",
            "(chan/try-select @[r1 r2])",
        ),
    );
    out.push(
        described(
            entry(
                "chan/wait-ready",
                Vec::new(),
                Signal::io_yields_errors(),
                Arity::Range(1, 2),
                RegionEffect::Fresh,
            ),
            "Park the current fiber until a receiver is ready, a sender closes, or timeout-ms elapses. Returns nil; caller re-checks with chan/try-select.",
            vec!["receivers", "&opt timeout-ms"],
            "chan",
            "(chan/wait-ready @[r1 r2] 1000)",
        ),
    );
    out
}

/// Fibers.
pub fn fiber_defs() -> (r: Vec<PrimitiveDef>)
    ensures
        r@.len() == 8,
        examined(r@),
        declares(
            r@[0],
            "fiber/new"@,
            seq!["fiber"@],
            plain(SIG_ERROR),
            Arity::AtLeast(2),
            RetType::Fiber,
            false,
        ),
        r@[0].effect is Fresh,
        explains(
            r@[0],
            "Create a fiber with a signal mask. Optional :deny withholds capabilities."@,
            seq!["closure"@, "mask"@],
            "fiber"@,
            "(fiber/new (fn [] 42) |:error| :deny |:io|)"@,
        ),
        declares(
            r@[1],
            "fiber/resume"@,
            seq!["resume"@],
            plain(SIG_ERROR | SIG_YIELD | SIG_RESUME),
            Arity::Range(1, 2),
            RetType::Unknown,
            false,
        ),
        r@[1].effect is Delivers && r@[1].effect->Delivers_args@ == seq![1usize],
        explains(
            r@[1],
            "Resume a fiber, optionally delivering a value"@,
            seq!["fiber"@, "value"@],
            "fiber"@,
            "(fiber/resume f)"@,
        ),
        declares(
            r@[2],
            "fiber/emit"@,
            seq!["emit"@],
            plain(SIG_YIELD | SIG_ERROR),
            Arity::Exact(2),
            RetType::Unknown,
            false,
        ),
        r@[2].effect is Delivers && r@[2].effect->Delivers_args@ == seq![1usize],
        explains(
            r@[2],
            "Emit a signal from the current fiber"@,
            seq!["bits"@, "value"@],
            "fiber"@,
            "(emit 2 42)"@,
        ),
        declares(
            r@[3],
            "fiber/status"@,
            Seq::empty(),
            plain(SIG_ERROR),
            Arity::Exact(1),
            RetType::Unknown,
            false,
        ),
        r@[3].effect is Immediate,
        explains(
            r@[3],
            "Get the fiber's lifecycle status (:new, :alive, :paused, :dead, :error)"@,
            seq!["fiber"@],
            "fiber"@,
            "(fiber/status f)"@,
        ),
        declares(
            r@[4],
            "fiber/value"@,
            Seq::empty(),
            plain(SIG_ERROR),
            Arity::Exact(1),
            RetType::Unknown,
            false,
        ),
        r@[4].effect is PassThrough,
        explains(
            r@[4],
            "Get the signal payload from the fiber's last signal"@,
            seq!["fiber"@],
            "fiber"@,
            "(fiber/value f)"@,
        ),
        declares(
            r@[5],
            "fiber/set-fuel"@,
            Seq::empty(),
            plain(SIG_ERROR),
            Arity::Exact(2),
            RetType::Unknown,
            false,
        ),
        r@[5].effect is Immediate,
        explains(
            r@[5],
            "Set the instruction budget on a fiber. n is a non-negative integer."@,
            seq!["fiber"@, "n"@],
            "fiber"@,
            "(fiber/set-fuel f 10000)"@,
        ),
        declares(
            r@[6],
            "fiber/fuel"@,
            Seq::empty(),
            plain(SIG_ERROR),
            Arity::Exact(1),
            RetType::Unknown,
            false,
        ),
        r@[6].effect is Immediate,
        explains(
            r@[6],
            "Read remaining fuel. Returns integer or nil if unlimited."@,
            seq!["fiber"@],
            "fiber"@,
            "(fiber/fuel f)"@,
        ),
        declares(
            r@[7],
            "fiber/clear-fuel"@,
            Seq::empty(),
            plain(SIG_ERROR),
            Arity::Exact(1),
            RetType::Unknown,
            false,
        ),
        r@[7].effect is Immediate,
        explains(
            r@[7],
            "Remove the instruction budget, restoring unlimited execution."@,
            seq!["fiber"@],
            "fiber"@,
            "(fiber/clear-fuel f)"@,
        ),
{
    let mut out: Vec<PrimitiveDef> = Vec::new();
    let mut d = described(
        entry("fiber/new", vec!["fiber"], Signal::errors(), Arity::AtLeast(2), RegionEffect::Fresh),
        "Create a fiber with a signal mask. Optional :deny withholds capabilities.",
        vec!["closure", "mask"],
        "fiber",
        "(fiber/new (fn [] 42) |:error| :deny |:io|)",
    );
    d.ret = RetType::Fiber;
    out.push(d);
    out.push(
        described(
            entry(
                "fiber/resume",
                vec!["resume"],
                Signal::of(SignalBits::new(SIG_ERROR | SIG_YIELD | SIG_RESUME)),
                Arity::Range(1, 2),
                RegionEffect::Delivers { args: vec![1] },
            ),
            "Resume a fiber, optionally delivering a value",
            vec!["fiber", "value"],
            "fiber",
            "(fiber/resume f)",
        ),
    );
    out.push(
        described(
            entry(
                "fiber/emit",
                vec!["emit"],
                Signal::yields_errors(),
                Arity::Exact(2),
                RegionEffect::Delivers { args: vec![1] },
            ),
            "Emit a signal from the current fiber",
            vec!["bits", "value"],
            "fiber",
            "(emit 2 42)",
        ),
    );
    out.push(
        described(
            entry("fiber/status", Vec::new(), Signal::errors(), Arity::Exact(1), RegionEffect::Immediate),
            "Get the fiber's lifecycle status (:new, :alive, :paused, :dead, :error)",
            vec!["fiber"],
            "fiber",
            "(fiber/status f)",
        ),
    );
    out.push(
        described(
            entry("fiber/value", Vec::new(), Signal::errors(), Arity::Exact(1), RegionEffect::PassThrough),
            "Get the signal payload from the fiber's last signal",
            vec!["fiber"],
            "fiber",
            "(fiber/value f)",
        ),
    );
    out.push(
        described(
            entry("fiber/set-fuel", Vec::new(), Signal::errors(), Arity::Exact(2), RegionEffect::Immediate),
            "Set the instruction budget on a fiber. n is a non-negative integer.",
            vec!["fiber", "n"],
            "fiber",
            "(fiber/set-fuel f 10000)",
        ),
    );
    out.push(
        described(
            entry("fiber/fuel", Vec::new(), Signal::errors(), Arity::Exact(1), RegionEffect::Immediate),
            "Read remaining fuel. Returns integer or nil if unlimited.",
            vec!["fiber"],
            "fiber",
            "(fiber/fuel f)",
        ),
    );
    out.push(
        described(
            entry("fiber/clear-fuel", Vec::new(), Signal::errors(), Arity::Exact(1), RegionEffect::Immediate),
            "Remove the instruction budget, restoring unlimited execution.",
            vec!["fiber"],
            "fiber",
            "(fiber/clear-fuel f)",
        ),
    );
    out
}

/// Looking into fibers, and ending them.
pub fn fiber_introspection_defs() -> (r: Vec<PrimitiveDef>)
    ensures
        r@.len() == 9,
        examined(r@),
        declares(
            r@[0],
            "fiber/bits"@,
            Seq::empty(),
            plain(SIG_ERROR),
            Arity::Exact(1),
            RetType::Unknown,
            false,
        ),
        r@[0].effect is Immediate,
        explains(
            r@[0],
            "Get the signal bits from the fiber's last signal"@,
            seq!["fiber"@],
            "fiber"@,
            "(fiber/bits f)"@,
        ),
        declares(
            r@[1],
            "fiber/mask"@,
            Seq::empty(),
            plain(SIG_ERROR),
            Arity::Exact(1),
            RetType::Unknown,
            false,
        ),
        r@[1].effect is Immediate,
        explains(
            r@[1],
            "Get the fiber's signal mask"@,
            seq!["fiber"@],
            "fiber"@,
            "(fiber/mask f)"@,
        ),
        declares(
            r@[2],
            "fiber/cancel"@,
            seq!["cancel"@],
            plain(SIG_ERROR | SIG_TERMINAL),
            Arity::Range(1, 2),
            RetType::Unknown,
            false,
        ),
        r@[2].effect is Delivers && r@[2].effect->Delivers_args@ == seq![1usize],
        explains(
            r@[2],
            "Hard-kill a fiber. Sets it to :error without unwinding. No defer/protect runs. Supports self-cancel."@,
            seq!["fiber"@, "error?"@],
            "fiber"@,
            "(fiber/cancel f)\n(fiber/cancel f :reason)"@,
        ),
        declares(
            r@[3],
            "fiber/child"@,
            Seq::empty(),
            plain(SIG_ERROR),
            Arity::Exact(1),
            RetType::Unknown,
            false,
        ),
        r@[3].effect is Opaque,
        explains(
            r@[3],
            "Get the most recently resumed child fiber, or nil if none"@,
            seq!["fiber"@],
            "fiber"@,
            "(fiber/child f)"@,
        ),
        declares(r@[4], "fiber/parent"@, Seq::empty(), plain(0), Arity::Exact(1), RetType::Unknown, false),
        r@[4].effect is Fresh,
        explains(
            r@[4],
            "Get the parent fiber, or nil if this is a top-level fiber"@,
            seq!["fiber"@],
            "fiber"@,
            "(fiber/parent f)"@,
        ),
        declares(
            r@[5],
            "fiber/propagate"@,
            Seq::empty(),
            plain(SIG_ERROR | SIG_PROPAGATE),
            Arity::Exact(1),
            RetType::Unknown,
            false,
        ),
        r@[5].effect is Opaque,
        explains(
            r@[5],
            "Propagate a caught signal from a child fiber, preserving the child chain"@,
            seq!["fiber"@],
            "fiber"@,
            ""@,
        ),
        declares(
            r@[6],
            "fiber/caps"@,
            Seq::empty(),
            plain(SIG_QUERY | SIG_ERROR),
            Arity::Range(0, 1),
            RetType::Unknown,
            false,
        ),
        r@[6].effect is Fresh,
        explains(
            r@[6],
            "Get the fiber's active capabilities as a keyword set"@,
            seq!["fiber?"@],
            "fiber"@,
            "(fiber/caps)\n(fiber/caps f)"@,
        ),
        declares(
            r@[7],
            "fiber/abort"@,
            seq!["abort"@],
            plain(SIG_ERROR | SIG_ABORT),
            Arity::Range(1, 2),
            RetType::Unknown,
            false,
        ),
        r@[7].effect is Delivers && r@[7].effect->Delivers_args@ == seq![1usize],
        explains(
            r@[7],
            "Gracefully terminate a fiber by injecting an error and resuming it. Defer/protect blocks run."@,
            seq!["fiber"@, "error?"@],
            "fiber"@,
            "(fiber/abort f)\n(fiber/abort f :reason)"@,
        ),
        declares(
            r@[8],
            "fiber/refuse"@,
            Seq::empty(),
            plain(SIG_ERROR | SIG_ABORT),
            Arity::Range(1, 2),
            RetType::Unknown,
            false,
        ),
        r@[8].effect is Delivers && r@[8].effect->Delivers_args@ == seq![1usize],
        explains(
            r@[8],
            "Refuse the call a paused fiber is suspended on: raise the error at the fiber's own call site, where its protect catches it. The fiber stays alive and runs on."@,
            seq!["fiber"@, "error?"@],
            "fiber"@,
            "(fiber/refuse f)\n(fiber/refuse f :not-permitted)"@,
        ),
{
    let mut out: Vec<PrimitiveDef> = Vec::new();
    out.push(
        described(
            entry("fiber/bits", Vec::new(), Signal::errors(), Arity::Exact(1), RegionEffect::Immediate),
            "Get the signal bits from the fiber's last signal",
            vec!["fiber"],
            "fiber",
            "(fiber/bits f)",
        ),
    );
    out.push(
        described(
            entry("fiber/mask", Vec::new(), Signal::errors(), Arity::Exact(1), RegionEffect::Immediate),
            "Get the fiber's signal mask",
            vec!["fiber"],
            "fiber",
            "(fiber/mask f)",
        ),
    );
    out.push(
        described(
            entry(
                "fiber/cancel",
                vec!["cancel"],
                Signal::of(SignalBits::new(SIG_ERROR | SIG_TERMINAL)),
                Arity::Range(1, 2),
                RegionEffect::Delivers { args: vec![1] },
            ),
            "Hard-kill a fiber. Sets it to :error without unwinding. No defer/protect runs. Supports self-cancel.",
            vec!["fiber", "error?"],
            "fiber",
            "(fiber/cancel f)\n(fiber/cancel f :reason)",
        ),
    );
    out.push(
        described(
            entry("fiber/child", Vec::new(), Signal::errors(), Arity::Exact(1), RegionEffect::Opaque),
            "Get the most recently resumed child fiber, or nil if none",
            vec!["fiber"],
            "fiber",
            "(fiber/child f)",
        ),
    );
    out.push(
        described(
            entry("fiber/parent", Vec::new(), Signal::silent(), Arity::Exact(1), RegionEffect::Fresh),
            "Get the parent fiber, or nil if this is a top-level fiber",
            vec!["fiber"],
            "fiber",
            "(fiber/parent f)",
        ),
    );
    out.push(
        described(
            entry(
                "fiber/propagate",
                Vec::new(),
                Signal::of(SignalBits::new(SIG_ERROR | SIG_PROPAGATE)),
                Arity::Exact(1),
                RegionEffect::Opaque,
            ),
            "Propagate a caught signal from a child fiber, preserving the child chain",
            vec!["fiber"],
            "fiber",
            "",
        ),
    );
    out.push(
        described(
            entry("fiber/caps", Vec::new(), Signal::query_errors(), Arity::Range(0, 1), RegionEffect::Fresh),
            "Get the fiber's active capabilities as a keyword set",
            vec!["fiber?"],
            "fiber",
            "(fiber/caps)\n(fiber/caps f)",
        ),
    );
    out.push(
        described(
            entry(
                "fiber/abort",
                vec!["abort"],
                Signal::of(SignalBits::new(SIG_ERROR | SIG_ABORT)),
                Arity::Range(1, 2),
                RegionEffect::Delivers { args: vec![1] },
            ),
            "Gracefully terminate a fiber by injecting an error and resuming it. Defer/protect blocks run.",
            vec!["fiber", "error?"],
            "fiber",
            "(fiber/abort f)\n(fiber/abort f :reason)",
        ),
    );
    out.push(
        described(
            entry(
                "fiber/refuse",
                Vec::new(),
                Signal::of(SignalBits::new(SIG_ERROR | SIG_ABORT)),
                Arity::Range(1, 2),
                RegionEffect::Delivers { args: vec![1] },
            ),
            "Refuse the call a paused fiber is suspended on: raise the error at the fiber's own call site, where its protect catches it. The fiber stays alive and runs on.",
            vec!["fiber", "error?"],
            "fiber",
            "(fiber/refuse f)\n(fiber/refuse f :not-permitted)",
        ),
    );
    out
}

/// Clocks.
pub fn time_defs() -> (r: Vec<PrimitiveDef>)
    ensures
        r@.len() == 4,
        examined(r@),
        declares(
            r@[0],
            "clock/monotonic"@,
            Seq::empty(),
            plain(SIG_ERROR),
            Arity::Exact(0),
            RetType::Unknown,
            false,
        ),
        r@[0].effect is Immediate,
        explains(
            r@[0],
            "Return seconds elapsed since process start (monotonic clock)"@,
            Seq::empty(),
            "clock"@,
            "(clock/monotonic)"@,
        ),
        declares(
            r@[1],
            "clock/realtime"@,
            Seq::empty(),
            plain(SIG_ERROR),
            Arity::Exact(0),
            RetType::Unknown,
            false,
        ),
        r@[1].effect is Immediate,
        explains(
            r@[1],
            "Return seconds since Unix epoch (wall clock)"@,
            Seq::empty(),
            "clock"@,
            "(clock/realtime)"@,
        ),
        declares(r@[2], "clock/cpu"@, Seq::empty(), plain(SIG_ERROR), Arity::Exact(0), RetType::Unknown, false),
        r@[2].effect is Immediate,
        explains(
            r@[2],
            "Return thread CPU time in seconds"@,
            Seq::empty(),
            "clock"@,
            "(clock/cpu)"@,
        ),
        declares(
            r@[3],
            "time/sleep"@,
            Seq::empty(),
            plain(SIG_ERROR),
            Arity::Exact(1),
            RetType::Unknown,
            false,
        ),
        r@[3].effect is Immediate,
        explains(
            r@[3],
            "Sleep for the specified number of seconds (blocks the thread)"@,
            seq!["seconds"@],
            "time"@,
            "(time/sleep 1.5)"@,
        ),
{
    let mut out: Vec<PrimitiveDef> = Vec::new();
    out.push(
        described(
            entry("clock/monotonic", Vec::new(), Signal::errors(), Arity::Exact(0), RegionEffect::Immediate),
            "Return seconds elapsed since process start (monotonic clock)",
            Vec::new(),
            "clock",
            "(clock/monotonic)",
        ),
    );
    out.push(
        described(
            entry("clock/realtime", Vec::new(), Signal::errors(), Arity::Exact(0), RegionEffect::Immediate),
            "Return seconds since Unix epoch (wall clock)",
            Vec::new(),
            "clock",
            "(clock/realtime)",
        ),
    );
    out.push(
        described(
            entry("clock/cpu", Vec::new(), Signal::errors(), Arity::Exact(0), RegionEffect::Immediate),
            "Return thread CPU time in seconds",
            Vec::new(),
            "clock",
            "(clock/cpu)",
        ),
    );
    out.push(
        described(
            entry("time/sleep", Vec::new(), Signal::errors(), Arity::Exact(1), RegionEffect::Immediate),
            "Sleep for the specified number of seconds (blocks the thread)",
            vec!["seconds"],
            "time",
            "(time/sleep 1.5)",
        ),
    );
    out
}

/// A primitive whose name is bound, and which cannot run here.
pub open spec fn stands_in(d: PrimitiveDef, name: Seq<char>) -> bool {
    &&& declares(d, name, Seq::empty(), plain(SIG_ERROR), Arity::AtLeast(0), RetType::Unknown, false)
    &&& explains(d, ""@, Seq::empty(), "unsupported"@, ""@)
    &&& d.effect is Unknown
}

/// The definition of a name that is bound, and cannot run here. It takes any
/// arguments: a caller is told that the operation is unavailable, not that it
/// passed the wrong number of them.
fn unsupported(name: &'static str) -> (r: PrimitiveDef)
    ensures
        stands_in(r, name@),
{
    let mut d = PrimitiveDef::blank();
    d.name = name;
    d.signal = Signal::errors();
    d.arity = Arity::AtLeast(0);
    d.category = "unsupported";
    d
}

/// The names that stay bound where the operating system has nothing to offer.
pub open spec fn unsupported_list() -> Seq<Seq<char>> {
    seq![
        "chan"@,
        "chan/clone"@,
        "chan/close"@,
        "chan/close-recv"@,
        "chan/new"@,
        "chan/recv"@,
        "chan/send"@,
        "chan/try-select"@,
        "chan/wait-ready"@,
        "current-thread-id"@,
        "ev/poll-fd"@,
        "ev/sleep"@,
        "exit"@,
        "halt"@,
        "io-backend?"@,
        "io-request?"@,
        "io/backend"@,
        "io/cancel"@,
        "io/reap"@,
        "io/submit"@,
        "io/wait"@,
        "io/workers"@,
        "os/exit"@,
        "os/halt"@,
        "os/sig-close"@,
        "os/sig-mask"@,
        "os/sig-next"@,
        "os/sig-pending"@,
        "os/sig-raise"@,
        "os/sig-send"@,
        "os/sig-watch"@,
        "os/sig-watching"@,
        "os/spawn"@,
        "os/spawn-vm"@,
        "os/thread-id"@,
        "os/thread-state"@,
        "port?"@,
        "port/close"@,
        "port/encoding"@,
        "port/open"@,
        "port/open-bytes"@,
        "port/open?"@,
        "port/path"@,
        "port/read"@,
        "port/read-all"@,
        "port/read-exact"@,
        "port/read-line"@,
        "port/seek"@,
        "port/set-options"@,
        "port/tell"@,
        "stream/read"@,
        "subprocess/exec"@,
        "subprocess/kill"@,
        "subprocess/pid"@,
        "subprocess/wait"@,
        "sys/args"@,
        "sys/argv"@,
        "sys/env"@,
        "sys/exit"@,
        "sys/halt"@,
        "sys/ip?"@,
        "sys/pid"@,
        "sys/resolve"@,
        "sys/spawn"@,
        "sys/spawn-vm"@,
        "sys/thread-id"@,
        "sys/thread-state"@,
        "sys/trap-exit!"@,
        "tcp/accept"@,
        "tcp/connect-ip"@,
        "tcp/listen"@,
        "tcp/shutdown"@,
        "udp/bind"@,
        "udp/recv-from"@,
        "udp/send-to"@,
        "unix/accept"@,
        "unix/connect"@,
        "unix/listen"@,
        "unix/shutdown"@,
        "watch"@,
        "watch-add"@,
        "watch-close"@,
        "watch-next"@,
        "watch-remove"@,
    ]
}

/// The names that stay bound where the operating system has nothing to offer.
fn unsupported_names() -> (r: Vec<&'static str>)
    ensures
        literals(r@) == unsupported_list(),
{
    let names = vec![
        "chan",
        "chan/clone",
        "chan/close",
        "chan/close-recv",
        "chan/new",
        "chan/recv",
        "chan/send",
        "chan/try-select",
        "chan/wait-ready",
        "current-thread-id",
        "ev/poll-fd",
        "ev/sleep",
        "exit",
        "halt",
        "io-backend?",
        "io-request?",
        "io/backend",
        "io/cancel",
        "io/reap",
        "io/submit",
        "io/wait",
        "io/workers",
        "os/exit",
        "os/halt",
        "os/sig-close",
        "os/sig-mask",
        "os/sig-next",
        "os/sig-pending",
        "os/sig-raise",
        "os/sig-send",
        "os/sig-watch",
        "os/sig-watching",
        "os/spawn",
        "os/spawn-vm",
        "os/thread-id",
        "os/thread-state",
        "port?",
        "port/close",
        "port/encoding",
        "port/open",
        "port/open-bytes",
        "port/open?",
        "port/path",
        "port/read",
        "port/read-all",
        "port/read-exact",
        "port/read-line",
        "port/seek",
        "port/set-options",
        "port/tell",
        "stream/read",
        "subprocess/exec",
        "subprocess/kill",
        "subprocess/pid",
        "subprocess/wait",
        "sys/args",
        "sys/argv",
        "sys/env",
        "sys/exit",
        "sys/halt",
        "sys/ip?",
        "sys/pid",
        "sys/resolve",
        "sys/spawn",
        "sys/spawn-vm",
        "sys/thread-id",
        "sys/thread-state",
        "sys/trap-exit!",
        "tcp/accept",
        "tcp/connect-ip",
        "tcp/listen",
        "tcp/shutdown",
        "udp/bind",
        "udp/recv-from",
        "udp/send-to",
        "unix/accept",
        "unix/connect",
        "unix/listen",
        "unix/shutdown",
        "watch",
        "watch-add",
        "watch-close",
        "watch-next",
        "watch-remove",
    ];
    assert(literals(names@) =~= unsupported_list());
    names
}

/// A definition for each of the names that stay bound.
pub fn unsupported_defs() -> (r: Vec<PrimitiveDef>)
    ensures
        r@.len() == unsupported_list().len(),
        forall|i: int| 0 <= i < r@.len() ==> stands_in(#[trigger] r@[i], unsupported_list()[i]),
{
    let names = unsupported_names();
    let mut out: Vec<PrimitiveDef> = Vec::new();
    let mut i: usize = 0;
    while i < names.len()
        invariant
            i <= names@.len(),
            out@.len() == i,
            forall|k: int| 0 <= k < i ==> stands_in(#[trigger] out@[k], names@[k]@),
        decreases names.len() - i,
    {
        out.push(unsupported(names[i]));
        i = i + 1;
    }
    proof {
        assert(literals(names@).len() == unsupported_list().len());
        assert forall|k: int| 0 <= k < out@.len() implies stands_in(
            #[trigger] out@[k],
            unsupported_list()[k],
        ) by {
            assert(literals(names@)[k] == names@[k]@);
        }
    }
    out
}

} // verus!
