//! What primitives tell of closures, signals, clocks and streams.

use vstd::prelude::*;
use vstd::utf8::encode_utf8;

use crate::clock::{cpu_time_told, phase, prim_clock_monotonic, real_time_told, sleep_asked, slept, SleepStep};
use crate::ctx::{with_keyword, Alloc};
use crate::fibers::keyword_text;
use crate::fields::field_is;
use crate::heap::{FiberHeap, HeapState};
use crate::introspection::{
    arity_told, doc_told, jit_asked, keyword_made, last_bit, prim_bytecode_size, prim_captures,
    prim_closure_value_const_count, prim_errors, prim_gpu_eligible, prim_is_fiber, prim_is_silent,
    prim_mutates_params, query_made, rejections_asked, signals_told, spirv_asked,
};
use crate::laws::collections::lemma_newborn_reads_back;
use crate::laws::failing::{lemma_failure_reads_back, raises};
use crate::laws::words::{lemma_masked_bits, lemma_signed_and_back};
use crate::object::PortKind;
use crate::object::{Arity, Closure, HeapObject};
use crate::prim::{closure_at, string_at};
use crate::registry::SignalRegistry;
use crate::signalbits::SignalBits;
use crate::signals::{SIG_OK, SIG_QUERY};
use crate::stdio::{flush_asked, port_given, stream_of, write_asked, Stream};
use crate::value::{Value, TAG_CONS, TAG_FALSE, TAG_FIBER, TAG_FLOAT, TAG_INT, TAG_KEYWORD, TAG_STRING, TAG_TRUE};

verus! {

/// The value says yes.
pub open spec fn yes(r: (SignalBits, Value)) -> bool {
    r.0 == SignalBits::new(SIG_OK) && r.1.tag == TAG_TRUE
}

/// The value says no.
pub open spec fn no(r: (SignalBits, Value)) -> bool {
    r.0 == SignalBits::new(SIG_OK) && r.1.tag == TAG_FALSE
}

/// What is told of a closure is what its code says: silent where it raises nothing and
/// passes nothing on, erroring where it may raise an error, mutating where a parameter
/// is captured, and its captures and code by their length. Of anything else the answer
/// is no, or nil.
pub proof fn lemma_closure_is_told_as_it_is(
    heap: FiberHeap,
    args: Vec<Value>,
    silent: (SignalBits, Value),
    mutates: (SignalBits, Value),
    errors: (SignalBits, Value),
    captures: (SignalBits, Value),
    size: (SignalBits, Value),
    c: Closure,
)
    requires
        call_ensures(prim_is_silent, (&heap, &args), silent),
        call_ensures(prim_mutates_params, (&heap, &args), mutates),
        call_ensures(prim_errors, (&heap, &args), errors),
        call_ensures(prim_captures, (&heap, &args), captures),
        call_ensures(prim_bytecode_size, (&heap, &args), size),
        args@.len() == 1,
        closure_at(heap@, args@[0]) == Some(c),
        c.env@.len() <= i64::MAX,
        c.template.bytecode@.len() <= i64::MAX,
    ensures
        yes(silent) <==> (forall|i: int| !#[trigger] c.template.signal.bits.has(i)) && c.template.signal.propagates
            == 0,
        yes(silent) || no(silent),
        yes(mutates) <==> c.template.capture_params_mask != 0,
        yes(mutates) || no(mutates),
        yes(errors) <==> c.template.signal.bits.has(0),
        yes(errors) || no(errors),
        captures.1.tag == TAG_INT && captures.1.payload == c.env@.len(),
        size.1.tag == TAG_INT && size.1.payload == c.template.bytecode@.len(),
{
    let bits = c.template.signal.bits;
    if bits.bits != 0 {
        let i = crate::bits::lemma_nonzero_has_bit(bits.bits);
        assert(bits.has(i));
    } else {
        assert forall|i: int| !#[trigger] bits.has(i) by {
            crate::bits::lemma_bit_zero(i);
        }
    }
    let b = bits.bits;
    lemma_masked_bits(b);
    lemma_length_as_payload(c.env@.len());
    lemma_length_as_payload(c.template.bytecode@.len());
}

proof fn lemma_length_as_payload(n: nat)
    requires
        n <= i64::MAX,
    ensures
        ((n as i64) as u64) == n,
{
    lemma_signed_and_back(0, n as i64);
}

/// Of a value that is no closure there is nothing to tell.
pub proof fn lemma_nothing_is_told_of_others(
    heap: FiberHeap,
    args: Vec<Value>,
    silent: (SignalBits, Value),
    mutates: (SignalBits, Value),
    errors: (SignalBits, Value),
    captures: (SignalBits, Value),
    size: (SignalBits, Value),
    gpu: (SignalBits, Value),
    lowered: bool,
    candidate: bool,
)
    requires
        call_ensures(prim_is_silent, (&heap, &args), silent),
        call_ensures(prim_mutates_params, (&heap, &args), mutates),
        call_ensures(prim_errors, (&heap, &args), errors),
        call_ensures(prim_captures, (&heap, &args), captures),
        call_ensures(prim_bytecode_size, (&heap, &args), size),
        call_ensures(prim_gpu_eligible, (&heap, &args, lowered, candidate), gpu),
        args@.len() == 1,
        closure_at(heap@, args@[0]) is None,
    ensures
        no(silent),
        no(mutates),
        no(errors),
        no(gpu),
        captures == (SignalBits::new(SIG_OK), Value::nil()),
        size == (SignalBits::new(SIG_OK), Value::nil()),
{
}

/// A closure with its code in the intermediate form is eligible by that form, one without
/// it by its instructions.
pub proof fn lemma_gpu_eligibility_goes_by_the_code(
    heap: FiberHeap,
    args: Vec<Value>,
    lowered: bool,
    candidate: bool,
    r: (SignalBits, Value),
    c: Closure,
)
    requires
        call_ensures(prim_gpu_eligible, (&heap, &args, lowered, candidate), r),
        args@.len() == 1,
        closure_at(heap@, args@[0]) == Some(c),
    ensures
        c.template.lir_function is Some ==> (yes(r) <==> lowered),
        c.template.lir_function is None ==> (yes(r) <==> candidate),
        yes(r) || no(r),
{
}

/// `fiber?` says yes of fibers and of nothing else; a count is told as it is.
pub proof fn lemma_fibers_and_counts_are_told(
    args: Vec<Value>,
    fiber: (SignalBits, Value),
    count: u64,
    told: (SignalBits, Value),
)
    requires
        args@.len() == 1,
        call_ensures(prim_is_fiber, (&args,), fiber),
        count <= i64::MAX,
        call_ensures(prim_closure_value_const_count, (count,), told),
    ensures
        yes(fiber) <==> args@[0].tag == TAG_FIBER,
        yes(fiber) || no(fiber),
        told.0 == SignalBits::new(SIG_OK),
        told.1.tag == TAG_INT && told.1.payload == count,
{
    lemma_length_as_payload(count as nat);
}

/// The arity of a closure: the number where it is exact, a pair of its bounds where not,
/// and nil in place of a bound that is not there.
pub proof fn lemma_arity_is_told(
    ctx: Alloc,
    heap: FiberHeap,
    after: FiberHeap,
    args: Vec<Value>,
    r: (SignalBits, Value),
    c: Closure,
)
    requires
        ctx.ready(heap@, 8),
        arity_told(ctx, heap, after, args, r),
        args@.len() == 1,
        closure_at(heap@, args@[0]) == Some(c),
    ensures
        r.0 == SignalBits::new(SIG_OK),
        c.template.arity matches Arity::Exact(n) ==> r.1 == Value::integer(n as i64) && after@ == heap@,
        c.template.arity matches Arity::AtLeast(n) ==> r.1.tag == TAG_CONS && (after@.object(r.1) matches HeapObject::Pair(p)
            && p.first == Value::integer(n as i64) && p.rest == Value::nil()),
        c.template.arity matches Arity::Range(lo, hi) ==> r.1.tag == TAG_CONS && (after@.object(r.1) matches HeapObject::Pair(p)
            && p.first == Value::integer(lo as i64) && p.rest == Value::integer(hi as i64)),
{
    if !(c.template.arity is Exact) {
        lemma_newborn_reads_back(heap@, after@, ctx.home(), r.1);
    }
}

/// The documentation of a closure is the text it was given; without one it is a line that
/// names the closure.
pub proof fn lemma_documentation_is_told(
    ctx: Alloc,
    heap: FiberHeap,
    after: FiberHeap,
    args: Vec<Value>,
    r: (SignalBits, Value),
    c: Closure,
)
    requires
        ctx.ready(heap@, 8),
        doc_told(ctx, heap, after, args, r),
        args@.len() == 1,
        closure_at(heap@, args@[0]) == Some(c),
    ensures
        r.0 == SignalBits::new(SIG_OK),
        c.template.doc matches Some(d) ==> string_at(after@, r.1) == Some(d@),
        c.template.doc is None ==> (c.template.name matches Some(n) ==> string_at(after@, r.1) == Some(
            "No documentation found for '"@ + n@ + "'"@,
        )),
        c.template.doc is None && c.template.name is None ==> string_at(after@, r.1) == Some(
            "No documentation found for '"@ + "<anonymous>"@ + "'"@,
        ),
{
    lemma_newborn_reads_back(heap@, after@, ctx.home(), r.1);
}

/// The outcome is a query to the machine: a pair of the operation's name and its
/// argument.
pub open spec fn asks(s: HeapState, r: (SignalBits, Value), op: Seq<char>, arg: Value) -> bool {
    &&& r.0 == SignalBits::new(SIG_QUERY)
    &&& r.1.tag == TAG_CONS
    &&& s.target(r.1) is Some
    &&& s.object(r.1) matches HeapObject::Pair(p) && keyword_text(s.keywords, p.first) == Some(op) && p.rest == arg
}

proof fn lemma_named_query(
    before: HeapState,
    after: HeapState,
    home: crate::heap::RuntimeRegion,
    op: Seq<char>,
    arg: Value,
    r: (SignalBits, Value),
)
    requires
        before.valid(),
        home.0 < before.counts.len(),
        before.room(4),
        crate::introspection::asked(before, after, home, op, arg, r),
    ensures
        asks(after, r, op, arg),
{
    let named = with_keyword(before, op);
    assert(named.valid());
    assert(before.keywords.contains(op) || named.keywords.last() == op);
    assert(named.keywords.contains(op));
    assert(named.keywords[named.keywords.index_of(op)] == op);
    assert(named.room(1)) by {
        assert forall|i: int| 0 <= i < named.counts.len() implies #[trigger] named.counts[i] + 1 <= u32::MAX by {
            assert(before.counts[i] + 4 <= u32::MAX);
        }
    }
    lemma_newborn_reads_back(named, after, home, r.1);
    crate::heap::lemma_allocated(named, after.objects.last(), home.0);
}

/// What only the machine knows is asked of it by name, with the argument.
pub proof fn lemma_machine_is_asked(
    ctx: Alloc,
    heap: FiberHeap,
    ha: FiberHeap,
    hb: FiberHeap,
    hc: FiberHeap,
    args: Vec<Value>,
    jit: (SignalBits, Value),
    rejections: (SignalBits, Value),
    doc: (SignalBits, Value),
)
    requires
        ctx.ready(heap@, 8),
        args@.len() == 1,
        jit_asked(ctx, heap, ha, args, jit),
        rejections_asked(ctx, heap, hb, rejections),
        doc_told(ctx, heap, hc, args, doc),
        closure_at(heap@, args@[0]) is None,
    ensures
        asks(ha@, jit, "jit?"@, args@[0]),
        asks(hb@, rejections, "jit/rejections"@, Value::nil()),
        asks(hc@, doc, "doc"@, args@[0]),
{
    lemma_named_query(heap@, ha@, ctx.home(), "jit?"@, args@[0], jit);
    lemma_named_query(heap@, hb@, ctx.home(), "jit/rejections"@, Value::nil(), rejections);
    lemma_named_query(heap@, hc@, ctx.home(), "doc"@, args@[0], doc);
}

/// `vm/query` hands the machine the operation and the argument as they are; an operation
/// that is neither a string nor a keyword is refused.
pub proof fn lemma_query_is_handed_on(
    ctx: Alloc,
    heap: FiberHeap,
    after: FiberHeap,
    args: Vec<Value>,
    kinds: Vec<String>,
    r: (SignalBits, Value),
)
    requires
        ctx.ready(heap@, 8),
        args@.len() == 2,
        kinds@.len() == 2,
        query_made(ctx, heap, after, args, kinds, r),
    ensures
        args@[0].tag == TAG_STRING || keyword_text(heap@.keywords, args@[0]) is Some ==> r.0 == SignalBits::new(
            SIG_QUERY,
        ) && (after@.object(r.1) matches HeapObject::Pair(p) && p.first == args@[0] && p.rest == args@[1]),
        args@[0].tag != TAG_STRING && args@[0].tag != TAG_KEYWORD ==> raises(
            after@,
            r,
            "type-error"@,
            "vm/query: operation must be a string or keyword, got "@ + kinds@[0]@,
        ),
{
    if args@[0].tag == TAG_STRING || keyword_text(heap@.keywords, args@[0]) is Some {
        lemma_newborn_reads_back(heap@, after@, ctx.home(), r.1);
    } else if args@[0].tag != TAG_KEYWORD {
        lemma_failure_reads_back(
            heap@,
            after@,
            ctx.home(),
            "type-error"@,
            "vm/query: operation must be a string or keyword, got "@ + kinds@[0]@,
            r,
        );
    }
}

/// `keyword` gives the keyword that the string spells, the same one for the same string,
/// and loses none that was there.
pub proof fn lemma_keyword_spells_its_string(
    ctx: Alloc,
    heap: FiberHeap,
    after: FiberHeap,
    again: FiberHeap,
    args: Vec<Value>,
    kinds: Vec<String>,
    name: Seq<char>,
    r: (SignalBits, Value),
    twice: (SignalBits, Value),
    v: Value,
)
    requires
        ctx.ready(heap@, 8),
        args@.len() == 1,
        string_at(heap@, args@[0]) == Some(name),
        string_at(after@, args@[0]) == Some(name),
        keyword_made(ctx, heap, after, args, kinds, r),
        keyword_made(ctx, after, again, args, kinds, twice),
    ensures
        r.0 == SignalBits::new(SIG_OK),
        keyword_text(after@.keywords, r.1) == Some(name),
        twice == r,
        again@ == after@,
        keyword_text(heap@.keywords, v) is Some ==> keyword_text(after@.keywords, v) == keyword_text(heap@.keywords, v),
{
    assert(heap@.keywords.contains(name) || after@.keywords.last() == name);
    assert(after@.keywords.contains(name));
    assert(after@.keywords[after@.keywords.index_of(name)] == name);
}

/// `signals` maps each registered name to its bit; a name that was never registered is
/// not there.
pub proof fn lemma_signals_map_names_to_bits(
    ctx: Alloc,
    heap: FiberHeap,
    after: FiberHeap,
    registry: SignalRegistry,
    r: (SignalBits, Value),
    i: int,
    name: Seq<char>,
    v: Value,
)
    requires
        ctx.ready(heap@, 8),
        signals_told(ctx, heap, after, registry, r),
    ensures
        r.0 == SignalBits::new(SIG_OK),
        after@.object(r.1) is LStruct,
        0 <= i < registry.entries@.len() && (forall|j: int|
            i < j < registry.entries@.len() ==> (#[trigger] registry.entries@[j]).1@ != registry.entries@[i].1@)
            ==> field_is(
            after@.object(r.1)->LStruct_data@,
            registry.entries@[i].1@,
            Value::integer(registry.entries@[i].0 as i64),
        ),
        (forall|j: int| 0 <= j < registry.entries@.len() ==> (#[trigger] registry.entries@[j]).1@ != name)
            ==> !field_is(after@.object(r.1)->LStruct_data@, name, v),
{
    lemma_newborn_reads_back(heap@, after@, ctx.home(), r.1);
    let entries = registry.entries@;
    if 0 <= i < entries.len() && (forall|j: int| i < j < entries.len() ==> (#[trigger] entries[j]).1@ != entries[i].1@) {
        lemma_last_bit_found(entries, i);
    }
    if forall|j: int| 0 <= j < entries.len() ==> (#[trigger] entries[j]).1@ != name {
        lemma_last_bit_absent(entries, name);
    }
}

proof fn lemma_last_bit_found(entries: Seq<(u32, String)>, i: int)
    requires
        0 <= i < entries.len(),
        forall|j: int| i < j < entries.len() ==> (#[trigger] entries[j]).1@ != entries[i].1@,
    ensures
        last_bit(entries, entries[i].1@) == Some(entries[i].0),
    decreases entries.len(),
{
    if i < entries.len() - 1 {
        assert(entries[entries.len() - 1].1@ != entries[i].1@);
        assert forall|j: int| i < j < entries.drop_last().len() implies (#[trigger] entries.drop_last()[j]).1@
            != entries.drop_last()[i].1@ by {
            assert(entries[j].1@ != entries[i].1@);
        }
        lemma_last_bit_found(entries.drop_last(), i);
    }
}

proof fn lemma_last_bit_absent(entries: Seq<(u32, String)>, name: Seq<char>)
    requires
        forall|j: int| 0 <= j < entries.len() ==> (#[trigger] entries[j]).1@ != name,
    ensures
        last_bit(entries, name) is None,
    decreases entries.len(),
{
    if entries.len() > 0 {
        assert(entries[entries.len() - 1].1@ != name);
        assert forall|j: int| 0 <= j < entries.drop_last().len() implies (#[trigger] entries.drop_last()[j]).1@
            != name by {
            assert(entries[j].1@ != name);
        }
        lemma_last_bit_absent(entries.drop_last(), name);
    }
}

/// A closure is compiled for the GPU with the workgroup size that was passed, or with 256
/// where none was; only an eligible one with its code at hand is.
pub proof fn lemma_spirv_is_asked_for(
    ctx: Alloc,
    heap: FiberHeap,
    after: FiberHeap,
    args: Vec<Value>,
    kinds: Vec<String>,
    eligible: bool,
    r: (SignalBits, Value),
    c: Closure,
)
    requires
        ctx.ready(heap@, 12),
        args@.len() == 1,
        spirv_asked(ctx, heap, after, args, kinds, eligible, r),
        closure_at(heap@, args@[0]) == Some(c),
    ensures
        c.template.lir_function is None ==> raises(
            after@,
            r,
            "mlir-error"@,
            "mlir/compile-spirv: closure has no LIR"@,
        ),
        c.template.lir_function is Some && !eligible ==> raises(
            after@,
            r,
            "mlir-error"@,
            "mlir/compile-spirv: closure is not GPU-eligible"@,
        ),
        c.template.lir_function is Some && eligible ==> r.0 == SignalBits::new(SIG_QUERY),
{
    crate::materialize::lemma_room_less(heap@, 12, 8);
    let bare = c.code().lir_function is None;
    if bare {
        lemma_failure_reads_back(heap@, after@, ctx.home(), "mlir-error"@, "mlir/compile-spirv: closure has no LIR"@, r);
    } else if !eligible {
        lemma_failure_reads_back(
            heap@,
            after@,
            ctx.home(),
            "mlir-error"@,
            "mlir/compile-spirv: closure is not GPU-eligible"@,
            r,
        );
    }
}

/// A clock that could be read gives its seconds as a float, bit for bit; one that could
/// not is an error.
pub proof fn lemma_clocks_give_their_seconds(
    ctx: Alloc,
    heap: FiberHeap,
    ha: FiberHeap,
    hb: FiberHeap,
    hc: FiberHeap,
    hd: FiberHeap,
    bits: u64,
    mono: (SignalBits, Value),
    cpu: (SignalBits, Value),
    wall: (SignalBits, Value),
    no_cpu: (SignalBits, Value),
    no_real: (SignalBits, Value),
)
    requires
        ctx.ready(heap@, 8),
        call_ensures(prim_clock_monotonic, (bits,), mono),
        cpu_time_told(ctx, heap, ha, Some(bits), cpu),
        real_time_told(ctx, heap, hb, Some(bits), wall),
        cpu_time_told(ctx, heap, hc, None, no_cpu),
        real_time_told(ctx, heap, hd, None, no_real),
    ensures
        mono == (SignalBits::new(SIG_OK), Value { tag: TAG_FLOAT, payload: bits }),
        cpu == mono,
        wall == mono,
        ha@ == heap@,
        hb@ == heap@,
        raises(hc@, no_cpu, "io-error"@, "clock/cpu: clock_gettime failed"@),
        raises(hd@, no_real, "io-error"@, "clock/realtime: system clock is before Unix epoch"@),
{
    lemma_failure_reads_back(heap@, hc@, ctx.home(), "io-error"@, "clock/cpu: clock_gettime failed"@, no_cpu);
    lemma_failure_reads_back(
        heap@,
        hd@,
        ctx.home(),
        "io-error"@,
        "clock/realtime: system clock is before Unix epoch"@,
        no_real,
    );
}

/// A sleep lasts as long as was asked: whole seconds for an integer, the float itself for
/// a finite one that is not negative. Nothing else is slept for, and a sleep gives nil.
pub proof fn lemma_sleep_lasts_as_asked(
    ctx: Alloc,
    heap: FiberHeap,
    after: FiberHeap,
    args: Vec<Value>,
    r: SleepStep,
    done: (SignalBits, Value),
)
    requires
        ctx.ready(heap@, 8),
        args@.len() == 1,
        sleep_asked(ctx, heap, after, args, r),
        call_ensures(slept, (), done),
    ensures
        args@[0].tag == TAG_INT && (args@[0].payload as i64) >= 0 ==> r is Seconds && r->Seconds_0 == (
        args@[0].payload as i64) && after@ == heap@,
        args@[0].tag == TAG_INT && (args@[0].payload as i64) < 0 ==> r is Done && raises(
            after@,
            r->Done_0,
            "argument-error"@,
            "time/sleep: duration must be non-negative"@,
        ),
        args@[0].tag == TAG_FLOAT && args@[0].payload < 0x7ff0_0000_0000_0000 ==> r == SleepStep::Fraction(
            args@[0].payload,
        ) && after@ == heap@,
        args@[0].tag == TAG_FLOAT && args@[0].payload == 0x8000_0000_0000_0000 ==> r == SleepStep::Fraction(
            args@[0].payload,
        ),
        args@[0].tag == TAG_FLOAT && args@[0].payload >= 0x7ff0_0000_0000_0000 && args@[0].payload
            != 0x8000_0000_0000_0000 ==> r is Done && raises(
            after@,
            r->Done_0,
            "argument-error"@,
            "time/sleep: duration must be a finite non-negative number"@,
        ),
        args@[0].tag != TAG_INT && args@[0].tag != TAG_FLOAT ==> r is Done && raises(
            after@,
            r->Done_0,
            "type-error"@,
            "time/sleep: argument must be a number"@,
        ),
        done == (SignalBits::new(SIG_OK), Value::nil()),
{
    let p = args@[0].payload;
    let n = p as i64;
    lemma_signed_and_back(p, n);
    assert(p < 0x7ff0_0000_0000_0000u64 ==> (p >> 52u64) & 0x7ffu64 != 0x7ffu64) by (bit_vector);
    assert(0x7ff0_0000_0000_0000u64 <= p < 0x8000_0000_0000_0000u64 ==> (p >> 52u64) & 0x7ffu64 == 0x7ffu64)
        by (bit_vector);
    assert(p == 0x8000_0000_0000_0000u64 ==> (p >> 52u64) & 0x7ffu64 != 0x7ffu64) by (bit_vector);
    let h = ctx.home();
    if args@[0].tag == TAG_INT {
        if n < 0 {
            lemma_failure_reads_back(
                heap@,
                after@,
                h,
                "argument-error"@,
                "time/sleep: duration must be non-negative"@,
                r->Done_0,
            );
        }
    } else if args@[0].tag == TAG_FLOAT {
        if p >= 0x7ff0_0000_0000_0000 && p != 0x8000_0000_0000_0000 {
            lemma_failure_reads_back(
                heap@,
                after@,
                h,
                "argument-error"@,
                "time/sleep: duration must be a finite non-negative number"@,
                r->Done_0,
            );
        }
    } else {
        lemma_failure_reads_back(heap@, after@, h, "type-error"@, "time/sleep: argument must be a number"@, r->Done_0);
    }
}

/// A traced phase is one line that names the subsystem, the label and the time; where
/// tracing is off there is none.
pub proof fn lemma_phase_is_one_line(
    enabled: bool,
    subsystem: &str,
    label: &str,
    elapsed: &str,
    r: Option<String>,
)
    requires
        call_ensures(phase, (enabled, subsystem, label, elapsed), r),
    ensures
        r is Some == enabled,
        r matches Some(line) ==> line@ == "[trace:"@ + subsystem@ + "] "@ + label@ + " "@ + elapsed@,
{
}

/// A standard port is the stream it was asked for: standard output and standard error can
/// be written to, standard input cannot.
pub proof fn lemma_port_is_its_stream(
    ctx: Alloc,
    heap: FiberHeap,
    after: FiberHeap,
    kind: PortKind,
    r: (SignalBits, Value),
    stream: Option<Stream>,
)
    requires
        ctx.ready(heap@, 8),
        port_given(heap@, after@, ctx.home(), kind, r),
        call_ensures(stream_of, (&after, r.1), stream),
    ensures
        r.0 == SignalBits::new(SIG_OK),
        kind == PortKind::Stdout ==> stream == Some(Stream::Output),
        kind == PortKind::Stderr ==> stream == Some(Stream::Error),
        kind != PortKind::Stdout && kind != PortKind::Stderr ==> stream is None,
{
    lemma_newborn_reads_back(heap@, after@, ctx.home(), r.1);
}

/// What is written to a port is the text that was passed, to the port's stream; the
/// answer is its length in bytes. Nothing else is written.
pub proof fn lemma_write_hands_the_text_on(
    ctx: Alloc,
    heap: FiberHeap,
    after: FiberHeap,
    args: Vec<Value>,
    kinds: Vec<String>,
    r: (Option<(Stream, String)>, (SignalBits, Value)),
    stream: Option<Stream>,
    flushed_heap: FiberHeap,
    flushed: (SignalBits, Value),
)
    requires
        ctx.ready(heap@, 8),
        args@.len() == 2,
        kinds@.len() == 2,
        write_asked(ctx, heap, after, args, kinds, r),
        call_ensures(stream_of, (&heap, args@[0]), stream),
        flush_asked(ctx, heap, flushed_heap, args, flushed),
    ensures
        stream matches Some(s) ==> (string_at(heap@, args@[1]) matches Some(text) ==> {
            &&& r.0 is Some && (r.0->0).0 == s && (r.0->0).1@ == text
            &&& r.1 == (SignalBits::new(SIG_OK), Value::integer(encode_utf8(text).len() as i64))
            &&& after@ == heap@
        }),
        stream is Some && string_at(heap@, args@[1]) is None ==> r.0 is None && raises(
            after@,
            r.1,
            "type-error"@,
            "port/write: expected string, got "@ + kinds@[1]@,
        ),
        stream is None ==> r.0 is None && raises(
            after@,
            r.1,
            "unsupported"@,
            "port/write: wasm32 can only write to stdout or stderr"@,
        ),
        stream is Some ==> flushed == (SignalBits::new(SIG_OK), Value::nil()) && flushed_heap@ == heap@,
        stream is None ==> raises(
            flushed_heap@,
            flushed,
            "unsupported"@,
            "port/flush: wasm32 can only flush stdout or stderr"@,
        ),
{
    let h = ctx.home();
    if stream is None {
        lemma_failure_reads_back(
            heap@,
            after@,
            h,
            "unsupported"@,
            "port/write: wasm32 can only write to stdout or stderr"@,
            r.1,
        );
        lemma_failure_reads_back(
            heap@,
            flushed_heap@,
            h,
            "unsupported"@,
            "port/flush: wasm32 can only flush stdout or stderr"@,
            flushed,
        );
    } else if string_at(heap@, args@[1]) is None {
        lemma_failure_reads_back(
            heap@,
            after@,
            h,
            "type-error"@,
            "port/write: expected string, got "@ + kinds@[1]@,
            r.1,
        );
    }
}

} // verus!
