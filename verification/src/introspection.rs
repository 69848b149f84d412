//! Looking into closures, and asking the VM.

use vstd::prelude::*;

use crate::ctx::{birth, born, is_string, with_keyword, Alloc};
use crate::fields::{field_is, keys_sorted, put_field};
use crate::heap::{keyword_value, FiberHeap, HeapState, RuntimeRegion};
use crate::materialize::lemma_room_less;
use crate::object::{Arity, HeapObject, HeapTag, Pair, TableKey};
use crate::prim::{
    as_closure, as_string, closure_at, fail, failed, returned, string_at, type_error, type_error_text,
};
use crate::registry::SignalRegistry;
use crate::signalbits::SignalBits;
use crate::signals::{SIG_ERROR, SIG_OK, SIG_QUERY};
use crate::text::{decimal, push_decimal};
use crate::value::{Value, TAG_FIBER, TAG_INT, TAG_KEYWORD, TAG_STRING};

verus! {

/// `r` is a fresh pair of `first` and `rest`.
pub open spec fn paired(
    before: HeapState,
    after: HeapState,
    home: RuntimeRegion,
    first: Value,
    rest: Value,
    r: Value,
) -> bool {
    born(before, after, home, r) && birth(after) == HeapObject::Pair(
        Pair { first, rest, traits: before.traits[HeapTag::Pair.slot()] },
    )
}

/// The VM is asked for `op` of `arg`.
pub open spec fn asked(
    before: HeapState,
    after: HeapState,
    home: RuntimeRegion,
    op: Seq<char>,
    arg: Value,
    r: (SignalBits, Value),
) -> bool {
    let named = with_keyword(before, op);
    r.0 == SignalBits::new(SIG_QUERY) && paired(
        named,
        after,
        home,
        keyword_value(named.keywords, op),
        arg,
        r.1,
    )
}

/// Ask the VM for an operation on a value.
fn ask(ctx: &Alloc, heap: &mut FiberHeap, op: &str, arg: Value) -> (r: (SignalBits, Value))
    requires
        ctx.ready(old(heap)@, 5),
    ensures
        asked(old(heap)@, final(heap)@, ctx.home(), op@, arg, r),
{
    let name = heap.keyword(&op.to_string());
    let v = ctx.pair(heap, name, arg);
    (SignalBits::new(SIG_QUERY), v)
}

/// What `jit?` asks.
pub open spec fn jit_asked(
    ctx: Alloc,
    heap: FiberHeap,
    heap_after: FiberHeap,
    args: Vec<Value>,
    r: (SignalBits, Value),
) -> bool {
    &&& asked(heap@, heap_after@, ctx.home(), "jit?"@, args@[0], r)
}

/// `(jit? value)`: the VM knows which closures have machine code.
pub fn prim_is_jit(ctx: &Alloc, heap: &mut FiberHeap, args: &Vec<Value>) -> (r: (SignalBits, Value))
    requires
        ctx.ready(old(heap)@, 5),
        args@.len() == 1,
    ensures
        jit_asked(
            *ctx,
            *old(heap),
            *final(heap),
            *args,
            r,
        ),
{
    ask(ctx, heap, "jit?", args[0])
}

/// `(silent? value)`: whether the value is a closure that does not suspend.
pub fn prim_is_silent(heap: &FiberHeap, args: &Vec<Value>) -> (r: (SignalBits, Value))
    requires
        args@.len() == 1,
    ensures
        r == returned(
            Value::bool(
                match closure_at(heap@, args@[0]) {
                    Some(c) => c.code().signal.bits == SignalBits::empty() && c.code().signal.propagates == 0,
                    None => false,
                },
            ),
        ),
{
    match as_closure(heap, args[0]) {
        Some(c) => (SignalBits::new(SIG_OK), Value::bool(!c.template.signal.may_suspend())),
        None => (SignalBits::new(SIG_OK), Value::bool(false)),
    }
}

/// `(mutates-params? value)`: whether the value is a closure that assigns to a
/// parameter.
pub fn prim_mutates_params(heap: &FiberHeap, args: &Vec<Value>) -> (r: (SignalBits, Value))
    requires
        args@.len() == 1,
    ensures
        r == returned(
            Value::bool(
                match closure_at(heap@, args@[0]) {
                    Some(c) => c.code().capture_params_mask != 0,
                    None => false,
                },
            ),
        ),
{
    match as_closure(heap, args[0]) {
        Some(c) => (SignalBits::new(SIG_OK), Value::bool(c.template.capture_params_mask != 0)),
        None => (SignalBits::new(SIG_OK), Value::bool(false)),
    }
}

/// `(fn/gpu-eligible? value)`: whether the value is a closure that can run on a
/// GPU. `lowered` is what its lowered code says of that, `candidate` what its
/// template says where it has none.
pub fn prim_gpu_eligible(heap: &FiberHeap, args: &Vec<Value>, lowered: bool, candidate: bool) -> (r: (
    SignalBits,
    Value,
))
    requires
        args@.len() == 1,
    ensures
        r == returned(
            Value::bool(
                match closure_at(heap@, args@[0]) {
                    Some(c) => if c.code().lir_function is Some {
                        lowered
                    } else {
                        candidate
                    },
                    None => false,
                },
            ),
        ),
{
    match as_closure(heap, args[0]) {
        Some(c) => {
            let eligible = match &c.template.lir_function {
                Some(_) => lowered,
                None => candidate,
            };
            (SignalBits::new(SIG_OK), Value::bool(eligible))
        },
        None => (SignalBits::new(SIG_OK), Value::bool(false)),
    }
}

/// `(fn/errors? value)`: whether the value is a closure that may error.
pub fn prim_errors(heap: &FiberHeap, args: &Vec<Value>) -> (r: (SignalBits, Value))
    requires
        args@.len() == 1,
    ensures
        r == returned(
            Value::bool(
                match closure_at(heap@, args@[0]) {
                    Some(c) => c.code().signal.bits.meets(SignalBits::new(SIG_ERROR)),
                    None => false,
                },
            ),
        ),
{
    match as_closure(heap, args[0]) {
        Some(c) => (SignalBits::new(SIG_OK), Value::bool(c.template.signal.may_error())),
        None => (SignalBits::new(SIG_OK), Value::bool(false)),
    }
}

/// `(fiber? value)`: whether the value is a fiber.
pub fn prim_is_fiber(args: &Vec<Value>) -> (r: (SignalBits, Value))
    requires
        args@.len() == 1,
    ensures
        r == returned(Value::bool(args@[0].tag == TAG_FIBER)),
{
    (SignalBits::new(SIG_OK), Value::bool(args[0].tag == TAG_FIBER))
}

/// What `fn/arity` gives.
pub open spec fn arity_told(
    ctx: Alloc,
    heap: FiberHeap,
    heap_after: FiberHeap,
    args: Vec<Value>,
    r: (SignalBits, Value),
) -> bool {
    &&& ({
            let s = heap@;
            let t = heap_after@;
            match closure_at(s, args@[0]) {
                None => r == returned(Value::nil()) && t == s,
                Some(c) => match c.code().arity {
                    Arity::Exact(n) => r == returned(Value::integer(n as i64)) && t == s,
                    Arity::AtLeast(n) => r.0 == SignalBits::new(SIG_OK) && paired(
                        s,
                        t,
                        ctx.home(),
                        Value::integer(n as i64),
                        Value::nil(),
                        r.1,
                    ),
                    Arity::Range(lo, hi) => r.0 == SignalBits::new(SIG_OK) && paired(
                        s,
                        t,
                        ctx.home(),
                        Value::integer(lo as i64),
                        Value::integer(hi as i64),
                        r.1,
                    ),
                },
            }
        })
}

/// `(arity value)`: a closure's arity, an integer where it is exact, else a pair
/// of the least and the most, nil where there is no most; nil of anything else.
pub fn prim_arity(ctx: &Alloc, heap: &mut FiberHeap, args: &Vec<Value>) -> (r: (SignalBits, Value))
    requires
        ctx.ready(old(heap)@, 4),
        args@.len() == 1,
    ensures
        arity_told(
            *ctx,
            *old(heap),
            *final(heap),
            *args,
            r,
        ),
{
    let arity = match as_closure(heap, args[0]) {
        Some(c) => c.template.arity,
        None => {
            return (SignalBits::new(SIG_OK), Value::nil());
        },
    };
    let v = match arity {
        Arity::Exact(n) => Value::integer(n as i64),
        Arity::AtLeast(n) => ctx.pair(heap, Value::integer(n as i64), Value::nil()),
        Arity::Range(lo, hi) => ctx.pair(heap, Value::integer(lo as i64), Value::integer(hi as i64)),
    };
    (SignalBits::new(SIG_OK), v)
}

/// `(captures value)`: how many values a closure captured, nil of anything else.
pub fn prim_captures(heap: &FiberHeap, args: &Vec<Value>) -> (r: (SignalBits, Value))
    requires
        args@.len() == 1,
    ensures
        r == returned(
            match closure_at(heap@, args@[0]) {
                Some(c) => Value::integer(c.env@.len() as i64),
                None => Value::nil(),
            },
        ),
{
    match as_closure(heap, args[0]) {
        Some(c) => (SignalBits::new(SIG_OK), Value::integer(c.env.len() as i64)),
        None => (SignalBits::new(SIG_OK), Value::nil()),
    }
}

/// `(bytecode-size value)`: the size of a closure's code in bytes, nil of
/// anything else.
pub fn prim_bytecode_size(heap: &FiberHeap, args: &Vec<Value>) -> (r: (SignalBits, Value))
    requires
        args@.len() == 1,
    ensures
        r == returned(
            match closure_at(heap@, args@[0]) {
                Some(c) => Value::integer(c.code().bytecode@.len() as i64),
                None => Value::nil(),
            },
        ),
{
    match as_closure(heap, args[0]) {
        Some(c) => (SignalBits::new(SIG_OK), Value::integer(c.template.bytecode.len() as i64)),
        None => (SignalBits::new(SIG_OK), Value::nil()),
    }
}

/// What `doc` says of a closure: its docstring, or that there is none.
pub open spec fn doc_text(doc: Option<String>, name: Option<String>) -> Seq<char> {
    match doc {
        Some(d) => d@,
        None => "No documentation found for '"@ + (match name {
            Some(n) => n@,
            None => "<anonymous>"@,
        }) + "'"@,
    }
}

/// What `doc` gives.
pub open spec fn doc_told(
    ctx: Alloc,
    heap: FiberHeap,
    heap_after: FiberHeap,
    args: Vec<Value>,
    r: (SignalBits, Value),
) -> bool {
    &&& match closure_at(heap@, args@[0]) {
            Some(c) => {
                &&& r.0 == SignalBits::new(SIG_OK)
                &&& born(heap@, heap_after@, ctx.home(), r.1)
                &&& is_string(heap@, birth(heap_after@), doc_text(c.code().doc, c.code().name))
            },
            None => asked(heap@, heap_after@, ctx.home(), "doc"@, args@[0], r),
        }
}

/// `(doc target)`: a closure's docstring as a fresh string; for a name the VM is
/// asked.
pub fn prim_doc(ctx: &Alloc, heap: &mut FiberHeap, args: &Vec<Value>) -> (r: (SignalBits, Value))
    requires
        ctx.ready(old(heap)@, 5),
        args@.len() == 1,
    ensures
        doc_told(
            *ctx,
            *old(heap),
            *final(heap),
            *args,
            r,
        ),
{
    let text = match as_closure(heap, args[0]) {
        Some(c) => match &c.template.doc {
            Some(doc) => doc.clone(),
            None => {
                let mut msg = "No documentation found for '".to_string();
                match &c.template.name {
                    Some(name) => msg.append(name.as_str()),
                    None => msg.append("<anonymous>"),
                }
                msg.append("'");
                msg
            },
        },
        None => {
            return ask(ctx, heap, "doc", args[0]);
        },
    };
    proof {
        lemma_room_less(heap@, 5, 2);
    }
    let v = ctx.string(heap, &text);
    (SignalBits::new(SIG_OK), v)
}

/// The value is a string or a keyword of this heap.
pub open spec fn names_operation(s: HeapState, v: Value) -> bool {
    v.tag == TAG_STRING || (v.tag == TAG_KEYWORD && v.payload < s.keywords.len() && v.payload <= u32::MAX)
}

/// What `vm/query` asks.
pub open spec fn query_made(
    ctx: Alloc,
    heap: FiberHeap,
    heap_after: FiberHeap,
    args: Vec<Value>,
    kinds: Vec<String>,
    r: (SignalBits, Value),
) -> bool {
    &&& if names_operation(heap@, args@[0]) {
            r.0 == SignalBits::new(SIG_QUERY) && paired(
                heap@,
                heap_after@,
                ctx.home(),
                args@[0],
                args@[1],
                r.1,
            )
        } else {
            failed(
                heap@,
                heap_after@,
                ctx.home(),
                "type-error"@,
                "vm/query: operation must be a string or keyword, got "@ + kinds@[0]@,
                r,
            )
        }
}

/// `(vm/query op arg)`: ask the VM; the operation is a string or a keyword.
pub fn prim_vm_query(
    ctx: &Alloc,
    heap: &mut FiberHeap,
    args: &Vec<Value>,
    kinds: &Vec<String>,
) -> (r: (SignalBits, Value))
    requires
        kinds@.len() == args@.len(),
        ctx.ready(old(heap)@, 8),
        args@.len() == 2,
    ensures
        query_made(
            *ctx,
            *old(heap),
            *final(heap),
            *args,
            *kinds,
            r,
        ),
{
    if args[0].tag != TAG_STRING && heap.keyword_spelling(args[0]).is_none() {
        let mut msg = "vm/query: operation must be a string or keyword, got ".to_string();
        msg.append(kinds[0].as_str());
        return fail(ctx, heap, "type-error", &msg);
    }
    proof {
        lemma_room_less(heap@, 8, 4);
    }
    let v = ctx.pair(heap, args[0], args[1]);
    (SignalBits::new(SIG_QUERY), v)
}

/// The bit of the last entry of a name.
pub open spec fn last_bit(entries: Seq<(u32, String)>, name: Seq<char>) -> Option<u32>
    decreases entries.len(),
{
    if entries.len() == 0 {
        None
    } else if entries.last().1@ == name {
        Some(entries.last().0)
    } else {
        last_bit(entries.drop_last(), name)
    }
}

/// The fields map each registered name to its bit, and nothing else.
pub open spec fn maps_bits(fields: Seq<(TableKey, Value)>, entries: Seq<(u32, String)>) -> bool {
    forall|name: Seq<char>, v: Value|
        #[trigger] field_is(fields, name, v) <==> (last_bit(entries, name) is Some && v == Value::integer(
            last_bit(entries, name)->0 as i64,
        ))
}

/// What `signals` gives.
pub open spec fn signals_told(
    ctx: Alloc,
    heap: FiberHeap,
    heap_after: FiberHeap,
    registry: SignalRegistry,
    r: (SignalBits, Value),
) -> bool {
    &&& r.0 == SignalBits::new(SIG_OK)
    &&& born(heap@, heap_after@, ctx.home(), r.1)
    &&& birth(heap_after@) is LStruct
    &&& keys_sorted(birth(heap_after@)->LStruct_data@)
    &&& maps_bits(birth(heap_after@)->LStruct_data@, registry.entries@)
    &&& birth(heap_after@)->LStruct_traits == heap@.traits[HeapTag::LStruct.slot()]
}

/// `(signals)`: the registered signals as a struct from name to bit.
pub fn prim_signals(ctx: &Alloc, heap: &mut FiberHeap, registry: &SignalRegistry) -> (r: (
    SignalBits,
    Value,
))
    requires
        ctx.ready(old(heap)@, registry.entries@.len() + 2),
    ensures
        signals_told(
            *ctx,
            *old(heap),
            *final(heap),
            *registry,
            r,
        ),
{
    let mut fields: Vec<(TableKey, Value)> = Vec::new();
    let mut i: usize = 0;
    let ghost all = registry.entries@;
    assert(maps_bits(fields@, all.take(0)));
    while i < registry.entries.len()
        invariant
            i <= all.len(),
            all == registry.entries@,
            fields@.len() <= i,
            keys_sorted(fields@),
            maps_bits(fields@, all.take(i as int)),
        decreases registry.entries.len() - i,
    {
        let bit = registry.entries[i].0;
        let name = registry.entries[i].1.clone();
        let ghost before = fields@;
        put_field(&mut fields, name, Value::integer(bit as i64));
        proof {
            let done = all.take(i as int);
            let next = all.take(i + 1);
            assert(next.drop_last() =~= done);
            assert(next.last() == all[i as int]);
            assert forall|n: Seq<char>, v: Value| #[trigger] field_is(fields@, n, v) <==> (last_bit(
                next,
                n,
            ) is Some && v == Value::integer(last_bit(next, n)->0 as i64)) by {
                if n == name@ {
                    if field_is(fields@, n, v) {
                        crate::fields::lemma_field_unique(fields@, n, v, Value::integer(bit as i64));
                    }
                } else {
                    assert(field_is(fields@, n, v) == field_is(before, n, v));
                }
            }
        }
        i = i + 1;
    }
    assert(all.take(i as int) =~= all);
    proof {
        lemma_room_less(heap@, (all.len() + 2) as nat, (fields@.len() + 2) as nat);
    }
    let v = ctx.struct_from_sorted(heap, fields);
    (SignalBits::new(SIG_OK), v)
}

/// What `keyword` gives.
pub open spec fn keyword_made(
    ctx: Alloc,
    heap: FiberHeap,
    heap_after: FiberHeap,
    args: Vec<Value>,
    kinds: Vec<String>,
    r: (SignalBits, Value),
) -> bool {
    &&& match string_at(heap@, args@[0]) {
            Some(name) => {
                &&& heap_after@ == with_keyword(heap@, name)
                &&& r == returned(keyword_value(heap_after@.keywords, name))
            },
            None => failed(
                heap@,
                heap_after@,
                ctx.home(),
                "type-error"@,
                type_error_text("keyword"@, "string"@, kinds@[0]@),
                r,
            ),
        }
}

/// `(keyword str)`: the keyword of a string's text.
pub fn prim_keyword(
    ctx: &Alloc,
    heap: &mut FiberHeap,
    args: &Vec<Value>,
    kinds: &Vec<String>,
) -> (r: (SignalBits, Value))
    requires
        kinds@.len() == args@.len(),
        ctx.ready(old(heap)@, 8),
        args@.len() == 1,
    ensures
        keyword_made(
            *ctx,
            *old(heap),
            *final(heap),
            *args,
            *kinds,
            r,
        ),
{
    match as_string(heap, args[0]) {
        Some(name) => {
            let v = heap.keyword(&name);
            (SignalBits::new(SIG_OK), v)
        },
        None => type_error(ctx, heap, &kinds[0], "keyword", "string"),
    }
}

/// `(lir/closure-value-const-count)`: how many closure constants were turned into
/// references for sending.
pub fn prim_closure_value_const_count(count: u64) -> (r: (SignalBits, Value))
    ensures
        r == returned(Value::integer(count as i64)),
{
    (SignalBits::new(SIG_OK), Value::integer(count as i64))
}

/// What `jit/rejections` asks.
pub open spec fn rejections_asked(
    ctx: Alloc,
    heap: FiberHeap,
    heap_after: FiberHeap,
    r: (SignalBits, Value),
) -> bool {
    &&& asked(heap@, heap_after@, ctx.home(), "jit/rejections"@, Value::nil(), r)
}

/// `(jit/rejections)`: the VM keeps the closures that were not compiled.
pub fn prim_jit_rejections(ctx: &Alloc, heap: &mut FiberHeap) -> (r: (SignalBits, Value))
    requires
        ctx.ready(old(heap)@, 5),
    ensures
        rejections_asked(
            *ctx,
            *old(heap),
            *final(heap),
            r,
        ),
{
    ask(ctx, heap, "jit/rejections", Value::nil())
}

/// The workgroup size that a call asks for.
pub open spec fn workgroup(args: Seq<Value>) -> u32 {
    if args.len() == 2 && args[1].tag == TAG_INT {
        (args[1].payload as i64) as u32
    } else {
        256
    }
}

/// What `mlir/compile-spirv` asks.
pub open spec fn spirv_asked(
    ctx: Alloc,
    heap: FiberHeap,
    heap_after: FiberHeap,
    args: Vec<Value>,
    kinds: Vec<String>,
    eligible: bool,
    r: (SignalBits, Value),
) -> bool {
    &&& ({
            let s = heap@;
            let t = heap_after@;
            let h = ctx.home();
            if args@.len() == 0 || args@.len() > 2 {
                let msg = "mlir/compile-spirv: expected 1-2 arguments, got "@ + decimal(args@.len());
                failed(s, t, h, "arity-error"@, msg, r)
            } else {
                match closure_at(s, args@[0]) {
                    None => {
                        let msg = type_error_text("mlir/compile-spirv"@, "closure"@, kinds@[0]@);
                        failed(s, t, h, "type-error"@, msg, r)
                    },
                    Some(c) => if c.code().lir_function is None {
                        failed(s, t, h, "mlir-error"@, "mlir/compile-spirv: closure has no LIR"@, r)
                    } else if !eligible {
                        let msg = "mlir/compile-spirv: closure is not GPU-eligible"@;
                        failed(s, t, h, "mlir-error"@, msg, r)
                    } else {
                        exists|mid: HeapState, payload: Value|
                            paired(
                                s,
                                mid,
                                h,
                                args@[0],
                                Value::integer(workgroup(args@) as i64),
                                payload,
                            ) && #[trigger] asked(mid, t, h, "mlir/compile-spirv"@, payload, r)
                    },
                }
            }
        })
}

/// `(mlir/compile-spirv closure [workgroup-size])`: the VM compiles a closure
/// whose lowered code can run on a GPU. `eligible` is what that code says.
pub fn prim_compile_spirv(
    ctx: &Alloc,
    heap: &mut FiberHeap,
    args: &Vec<Value>,
    kinds: &Vec<String>,
    eligible: bool,
) -> (r: (SignalBits, Value))
    requires
        kinds@.len() == args@.len(),
        ctx.ready(old(heap)@, 9),
    ensures
        spirv_asked(
            *ctx,
            *old(heap),
            *final(heap),
            *args,
            *kinds,
            eligible,
            r,
        ),
{
    proof {
        lemma_room_less(heap@, 9, 8);
    }
    if args.len() == 0 || args.len() > 2 {
        let mut msg = "mlir/compile-spirv: expected 1-2 arguments, got ".to_string();
        push_decimal(&mut msg, args.len() as u64);
        return fail(ctx, heap, "arity-error", &msg);
    }
    let has_lir = match as_closure(heap, args[0]) {
        Some(c) => match &c.template.lir_function {
            Some(_) => true,
            None => false,
        },
        None => {
            return type_error(ctx, heap, &kinds[0], "mlir/compile-spirv", "closure");
        },
    };
    if !has_lir {
        let msg = "mlir/compile-spirv: closure has no LIR".to_string();
        return fail(ctx, heap, "mlir-error", &msg);
    }
    if !eligible {
        let msg = "mlir/compile-spirv: closure is not GPU-eligible".to_string();
        return fail(ctx, heap, "mlir-error", &msg);
    }
    let size: u32 = if args.len() == 2 {
        match args[1].as_int() {
            Some(n) => n as u32,
            None => 256,
        }
    } else {
        256
    };
    let ghost start = heap@;
    let payload = ctx.pair(heap, args[0], Value::integer(size as i64));
    let ghost mid = heap@;
    proof {
        crate::heap::lemma_allocated(start, birth(mid), ctx.home().0);
        assert(birth(mid).children().len() == 3);
        assert(mid.room((9 - 1 - 3) as nat));
    }
    let r = ask(ctx, heap, "mlir/compile-spirv", payload);
    assert(paired(start, mid, ctx.home(), args@[0], Value::integer(workgroup(args@) as i64), payload));
    r
}

} // verus!
