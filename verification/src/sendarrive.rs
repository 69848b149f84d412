//! What a rebuilt value has to do with the value in transit it was made from.

use vstd::prelude::*;

use crate::fibers::keyword_text;
use crate::heap::{with_cell, HeapState};
use crate::lir::{BasicBlock, LirConst, LirFunction, LirInstr};
use crate::materialize::{extends, fresh_at, grown, is_local, lemma_grown_trans};
use crate::object::{Closure, ClosureTemplate, ExternalData, HeapObject, HeapTag, PortKind, TableKey};
use crate::sendmirror::begins;
use crate::sendvalue::{carries, SendBundle, SendValue, SendableClosure};
use crate::value::{
    Value, TAG_ARRAY, TAG_ARRAY_MUT, TAG_BYTES, TAG_BYTES_MUT, TAG_CAPTURE_CELL, TAG_CLOSURE, TAG_CONS,
    TAG_EXTERNAL, TAG_FFI_TYPE, TAG_FLOAT, TAG_HEAP_START, TAG_LBOX, TAG_NIL, TAG_PARAMETER, TAG_SET,
    TAG_SET_MUT, TAG_STRING, TAG_STRING_MUT, TAG_STRUCT, TAG_STRUCT_MUT, TAG_SYMBOL, TAG_SYNTAX,
};

verus! {

/// How far a bundle has been rebuilt.
pub struct Arrival {
    pub heap: HeapState,
    pub symbols: Seq<Seq<char>>,
    /// The closures that are rebuilt, by index.
    pub done: Map<int, Value>,
    /// The cells that wait for a closure, and its index.
    pub fixups: Seq<(Value, usize)>,
    /// The waiting cells were given their closures.
    pub fixed: bool,
    /// Where the first rebuilt object lies.
    pub lo: int,
    /// The region that everything is born in.
    pub region: u32,
}

/// An object of this tag, born for the bundle.
pub open spec fn node(w: Arrival, v: Value, tag: u64) -> bool {
    v.tag == tag && fresh_at(w.heap, w.lo, w.region, v)
}

/// The cell waits for closure `idx`.
pub open spec fn waits(fixups: Seq<(Value, usize)>, cell: Value, idx: int) -> bool {
    exists|k: int| 0 <= k < fixups.len() && (#[trigger] fixups[k]).0 == cell && fixups[k].1 == idx
}

/// The cell waits for nothing.
pub open spec fn waits_not(fixups: Seq<(Value, usize)>, cell: Value) -> bool {
    forall|k: int| 0 <= k < fixups.len() ==> (#[trigger] fixups[k]).0 != cell
}

/// A rebuilt traits field: traits that were left out are the receiver's default.
pub open spec fn traits_rebuilt(
    w: Arrival,
    open: Set<int>,
    traits: Value,
    tag: HeapTag,
    sv: SendValue,
) -> bool
    decreases sv, 1int,
{
    if comes_as_nil(open, sv) {
        traits == w.heap.traits[tag.slot()]
    } else {
        rebuilt(w, open, traits, sv)
    }
}

/// What is rebuilt as nil.
pub open spec fn comes_as_nil(open: Set<int>, sv: SendValue) -> bool {
    match sv {
        SendValue::Immediate(v) => v.tag == TAG_NIL,
        SendValue::Ref(idx) => open.contains(idx as int),
        _ => false,
    }
}

/// The rebuilt contents of a cell. A cell whose contents is a closure that is
/// still being rebuilt holds nothing until that closure is done.
pub open spec fn cell_rebuilt(
    w: Arrival,
    open: Set<int>,
    cell: Value,
    contents: Value,
    sv: SendValue,
) -> bool
    decreases sv, 1int,
{
    match sv {
        SendValue::Ref(idx) if open.contains(idx as int) => if w.fixed {
            w.done.contains_key(idx as int) && contents == w.done[idx as int]
        } else {
            contents == Value::nil() && waits(w.fixups, cell, idx as int)
        },
        _ => rebuilt(w, open, contents, sv) && (!w.fixed ==> waits_not(w.fixups, cell)),
    }
}

/// A float that is an object.
pub open spec fn boxed_float(w: Arrival, v: Value, bits: u64) -> bool {
    exists|i: int|
        0 <= i < w.heap.objects.len() && w.lo <= i && v.payload == crate::heap::address(i)
            && #[trigger] w.heap.objects[i] == HeapObject::Float(bits)
}

/// `v` is rebuilt from `sv` while the closures in `open` were still being
/// rebuilt: a copy of the data, every object of it newly born. A reference to
/// one of those is nil, but in a cell.
pub open spec fn rebuilt(w: Arrival, open: Set<int>, v: Value, sv: SendValue) -> bool
    decreases sv, 0int,
{
    match sv {
        SendValue::Immediate(x) => v == x && v.tag < TAG_HEAP_START,
        SendValue::Keyword(name) => keyword_text(w.heap.keywords, v) == Some(name@),
        SendValue::Symbol { name, .. } => v.tag == TAG_SYMBOL && v.payload < w.symbols.len() && v.payload
            <= u32::MAX && w.symbols[v.payload as int] == name@,
        SendValue::Str(text) => node(w, v, TAG_STRING) && match w.heap.object(v) {
            HeapObject::LString { s, traits } => s@ == text@ && traits
                == w.heap.traits[HeapTag::LString.slot()],
            _ => false,
        },
        SendValue::Syntax(a) => node(w, v, TAG_SYNTAX) && match w.heap.object(v) {
            HeapObject::Syntax { syntax, traits } => syntax.same(*a) && traits == Value::nil(),
            _ => false,
        },
        SendValue::Pair(a, b, t) => node(w, v, TAG_CONS) && match w.heap.object(v) {
            HeapObject::Pair(p) => {
                &&& rebuilt(w, open, p.first, *a)
                &&& rebuilt(w, open, p.rest, *b)
                &&& traits_rebuilt(w, open, p.traits, HeapTag::Pair, *t)
            },
            _ => false,
        },
        SendValue::Array(items, t) => node(w, v, TAG_ARRAY_MUT) && match w.heap.object(v) {
            HeapObject::LArrayMut { data, traits } => {
                &&& data@.len() == items@.len()
                &&& forall|i: int|
                    0 <= i < items@.len() ==> rebuilt(w, open, data@[i], #[trigger] items@[i])
                &&& traits_rebuilt(w, open, traits, HeapTag::LArrayMut, *t)
            },
            _ => false,
        },
        SendValue::Tuple(items, t) => node(w, v, TAG_ARRAY) && match w.heap.object(v) {
            HeapObject::LArray { elements, traits } => {
                &&& elements@.len() == items@.len()
                &&& forall|i: int|
                    0 <= i < items@.len() ==> rebuilt(w, open, elements@[i], #[trigger] items@[i])
                &&& traits_rebuilt(w, open, traits, HeapTag::LArray, *t)
            },
            _ => false,
        },
        SendValue::Struct(entries, t) => node(w, v, TAG_STRUCT) && match w.heap.object(v) {
            HeapObject::LStruct { data, traits } => {
                &&& data@.len() == entries@.len()
                &&& forall|i: int|
                    0 <= i < entries@.len() ==> data@[i].0.same((#[trigger] entries@[i]).0) && rebuilt(
                        w,
                        open,
                        data@[i].1,
                        entries@[i].1,
                    )
                &&& traits_rebuilt(w, open, traits, HeapTag::LStruct, *t)
            },
            _ => false,
        },
        SendValue::StructMut(entries, t) => node(w, v, TAG_STRUCT_MUT) && match w.heap.object(v) {
            HeapObject::LStructMut { data, traits } => {
                &&& data@.len() == entries@.len()
                &&& forall|i: int|
                    0 <= i < entries@.len() ==> data@[i].0.same((#[trigger] entries@[i]).0) && rebuilt(
                        w,
                        open,
                        data@[i].1,
                        entries@[i].1,
                    )
                &&& traits_rebuilt(w, open, traits, HeapTag::LStructMut, *t)
            },
            _ => false,
        },
        SendValue::Buffer(bytes, t) => node(w, v, TAG_STRING_MUT) && match w.heap.object(v) {
            HeapObject::LStringMut { data, traits } => data@ == bytes@ && traits_rebuilt(
                w,
                open,
                traits,
                HeapTag::LStringMut,
                *t,
            ),
            _ => false,
        },
        SendValue::Bytes(bytes, t) => node(w, v, TAG_BYTES) && match w.heap.object(v) {
            HeapObject::LBytes { data, traits } => data@ == bytes@ && traits_rebuilt(
                w,
                open,
                traits,
                HeapTag::LBytes,
                *t,
            ),
            _ => false,
        },
        SendValue::Blob(bytes, t) => node(w, v, TAG_BYTES_MUT) && match w.heap.object(v) {
            HeapObject::LBytesMut { data, traits } => data@ == bytes@ && traits_rebuilt(
                w,
                open,
                traits,
                HeapTag::LBytesMut,
                *t,
            ),
            _ => false,
        },
        SendValue::LBox(c, t) => node(w, v, TAG_LBOX) && match w.heap.object(v) {
            HeapObject::LBox { cell, traits } => cell_rebuilt(w, open, v, cell, *c) && rebuilt(
                w,
                open,
                traits,
                *t,
            ),
            _ => false,
        },
        SendValue::CaptureCell(c, t) => node(w, v, TAG_CAPTURE_CELL) && match w.heap.object(v) {
            HeapObject::CaptureCell { cell, traits } => cell_rebuilt(w, open, v, cell, *c) && rebuilt(
                w,
                open,
                traits,
                *t,
            ),
            _ => false,
        },
        SendValue::Float(f) => v.tag == TAG_FLOAT && boxed_float(w, v, f),
        SendValue::FFIType(desc) => node(w, v, TAG_FFI_TYPE) && match w.heap.object(v) {
            HeapObject::FFIType(d) => d.same(desc),
            _ => false,
        },
        SendValue::LSet(items, t) => node(w, v, TAG_SET) && match w.heap.object(v) {
            HeapObject::LSet { data, traits } => {
                &&& data@.len() == items@.len()
                &&& forall|i: int|
                    0 <= i < items@.len() ==> rebuilt(w, open, data@[i], #[trigger] items@[i])
                &&& traits_rebuilt(w, open, traits, HeapTag::LSet, *t)
            },
            _ => false,
        },
        SendValue::LSetMut(items, t) => node(w, v, TAG_SET_MUT) && match w.heap.object(v) {
            HeapObject::LSetMut { data, traits } => {
                &&& data@.len() == items@.len()
                &&& forall|i: int|
                    0 <= i < items@.len() ==> rebuilt(w, open, data@[i], #[trigger] items@[i])
                &&& traits_rebuilt(w, open, traits, HeapTag::LSetMut, *t)
            },
            _ => false,
        },
        SendValue::ChanSender(end) => node(w, v, TAG_EXTERNAL) && match w.heap.object(v) {
            HeapObject::External { obj, traits } => {
                &&& obj.kind_name@ == "chan/sender"@
                &&& obj.data == ExternalData::Channel(end)
                &&& traits == Value::nil()
            },
            _ => false,
        },
        SendValue::ChanReceiver(end) => node(w, v, TAG_EXTERNAL) && match w.heap.object(v) {
            HeapObject::External { obj, traits } => {
                &&& obj.kind_name@ == "chan/receiver"@
                &&& obj.data == ExternalData::Channel(end)
                &&& traits == Value::nil()
            },
            _ => false,
        },
        SendValue::StdioPort(kind) => node(w, v, TAG_EXTERNAL) && match w.heap.object(v) {
            HeapObject::External { obj, traits } => {
                &&& obj.kind_name@ == "port"@
                &&& obj.data == ExternalData::Port(stdio_kind(kind))
                &&& traits == Value::nil()
            },
            _ => false,
        },
        SendValue::Parameter { id, default, traits } => node(w, v, TAG_PARAMETER) && match w.heap.object(v) {
            HeapObject::Parameter { id: n, default: d, traits: t } => n == id && rebuilt(
                w,
                open,
                d,
                *default,
            ) && rebuilt(w, open, t, *traits),
            _ => false,
        },
        SendValue::Ref(idx) => if open.contains(idx as int) {
            v == Value::nil()
        } else {
            node(w, v, TAG_CLOSURE) && w.done.contains_key(idx as int) && w.done[idx as int] == v
        },
    }
}

/// The standard stream of a kind; any other kind is standard output.
pub open spec fn stdio_kind(kind: PortKind) -> PortKind {
    match kind {
        PortKind::Stdin => PortKind::Stdin,
        PortKind::Stderr => PortKind::Stderr,
        _ => PortKind::Stdout,
    }
}

/// Some rebuilt values.
pub open spec fn all_rebuilt(w: Arrival, open: Set<int>, values: Seq<Value>, items: Seq<SendValue>) -> bool {
    values.len() == items.len() && forall|i: int|
        0 <= i < items.len() ==> rebuilt(w, open, values[i], #[trigger] items[i])
}

/// Some rebuilt entries.
pub open spec fn entries_rebuilt(
    w: Arrival,
    open: Set<int>,
    data: Seq<(TableKey, Value)>,
    entries: Seq<(TableKey, SendValue)>,
) -> bool {
    data.len() == entries.len() && forall|i: int|
        0 <= i < entries.len() ==> data[i].0.same((#[trigger] entries[i]).0) && rebuilt(
            w,
            open,
            data[i].1,
            entries[i].1,
        )
}

/// An instruction with its constants put back.
pub open spec fn instr_rebuilt(
    w: Arrival,
    open: Set<int>,
    pool: Seq<SendValue>,
    a: LirInstr,
    b: LirInstr,
) -> bool {
    match a {
        LirInstr::Const { dst, value: LirConst::ClosureRef(k) } => match b {
            LirInstr::ValueConst { dst: d, value } => d == dst && rebuilt(w, open, value, SendValue::Ref(k)),
            _ => false,
        },
        LirInstr::Const { dst, value: LirConst::ValueRef(k) } => match b {
            LirInstr::ValueConst { dst: d, value } => d == dst && k < pool.len() && rebuilt(
                w,
                open,
                value,
                pool[k as int],
            ),
            _ => false,
        },
        _ => b == a,
    }
}

/// A block with its constants put back.
pub open spec fn block_rebuilt(
    w: Arrival,
    open: Set<int>,
    pool: Seq<SendValue>,
    a: BasicBlock,
    b: BasicBlock,
) -> bool {
    &&& b.label == a.label
    &&& b.terminator == a.terminator
    &&& b.instructions@.len() == a.instructions@.len()
    &&& forall|i: int|
        0 <= i < a.instructions@.len() ==> instr_rebuilt(
            w,
            open,
            pool,
            a.instructions@[i],
            #[trigger] b.instructions@[i],
        )
}

/// Code with its constants put back, without documentation.
pub open spec fn lir_rebuilt(
    w: Arrival,
    open: Set<int>,
    pool: Seq<SendValue>,
    a: LirFunction,
    b: LirFunction,
) -> bool {
    &&& b.framed_as(a)
    &&& b.doc == a.doc
    &&& b.blocks@.len() == a.blocks@.len()
    &&& forall|i: int|
        0 <= i < a.blocks@.len() ==> block_rebuilt(w, open, pool, a.blocks@[i], #[trigger] b.blocks@[i])
}

/// A rebuilt template with its nested ones.
pub open spec fn template_rebuilt(
    w: Arrival,
    open: Set<int>,
    t: ClosureTemplate,
    sc: SendableClosure,
) -> bool
    decreases sc,
{
    &&& carries(sc, t)
    &&& all_rebuilt(w, open, t.constants@, sc.constants@)
    &&& match sc.lir_function {
        Some(lir) => t.lir_function is Some && lir_rebuilt(
            w,
            open,
            sc.lir_value_pool@,
            lir,
            t.lir_function->0,
        ),
        None => t.lir_function is None,
    }
    &&& t.child_protos@.len() == sc.child_protos@.len()
    &&& forall|i: int|
        0 <= i < sc.child_protos@.len() ==> template_rebuilt(
            w,
            open,
            t.proto(i),
            #[trigger] sc.child_protos@[i],
        )
}

/// A rebuilt closure.
pub open spec fn closure_rebuilt(w: Arrival, open: Set<int>, v: Value, sc: SendableClosure) -> bool {
    &&& node(w, v, TAG_CLOSURE)
    &&& match w.heap.object(v) {
        HeapObject::Closure { closure, traits } => {
            &&& template_rebuilt(w, open, closure.code(), sc)
            &&& closure.squelch_mask == sc.squelch_mask
            &&& all_rebuilt(w, open, closure.env@, sc.env@)
            &&& traits == Value::nil()
        },
        _ => false,
    }
}

/// More was rebuilt, in the same region.
pub open spec fn further(a: Arrival, b: Arrival) -> bool {
    &&& grown(a.heap, b.heap, a.region)
    &&& extends(a.symbols, b.symbols)
    &&& forall|k: int| #[trigger]
        a.done.contains_key(k) ==> b.done.contains_key(k) && b.done[k] == a.done[k]
    &&& begins(a.fixups, b.fixups)
    &&& forall|k: int|
        a.fixups.len() <= k < b.fixups.len() ==> b.heap.target((#[trigger] b.fixups[k]).0) is Some
            && b.heap.target(b.fixups[k].0)->0 >= a.heap.objects.len()
    &&& b.fixed == a.fixed
    &&& b.lo == a.lo
    &&& b.region == a.region
}

pub(crate) proof fn lemma_further_trans(a: Arrival, b: Arrival, c: Arrival)
    requires
        further(a, b),
        further(b, c),
    ensures
        further(a, c),
{
    lemma_grown_trans(a.heap, b.heap, c.heap, a.region);
    assert forall|i: int| 0 <= i < a.symbols.len() implies #[trigger] c.symbols[i] == a.symbols[i] by {
        assert(b.symbols[i] == a.symbols[i]);
    }
    assert forall|k: int| #[trigger] a.done.contains_key(k) implies c.done.contains_key(k) && c.done[k]
        == a.done[k] by {
        assert(b.done.contains_key(k));
    }
    assert forall|i: int| 0 <= i < a.fixups.len() implies #[trigger] c.fixups[i] == a.fixups[i] by {
        assert(b.fixups[i] == a.fixups[i]);
    }
    assert forall|k: int| a.fixups.len() <= k < c.fixups.len() implies c.heap.target(
        (#[trigger] c.fixups[k]).0,
    ) is Some && c.heap.target(c.fixups[k].0)->0 >= a.heap.objects.len() by {
        if k < b.fixups.len() {
            assert(c.fixups[k] == b.fixups[k]);
            assert(b.heap.target(b.fixups[k].0) is Some);
        }
    }
}

pub(crate) proof fn lemma_traits_further(
    a: Arrival,
    b: Arrival,
    open: Set<int>,
    traits: Value,
    tag: HeapTag,
    sv: SendValue,
)
    requires
        further(a, b),
        traits_rebuilt(a, open, traits, tag, sv),
    ensures
        traits_rebuilt(b, open, traits, tag, sv),
    decreases sv, 1int,
{
    if !comes_as_nil(open, sv) {
        lemma_rebuilt_further(a, b, open, traits, sv);
    }
}

pub(crate) proof fn lemma_cell_further(
    a: Arrival,
    b: Arrival,
    open: Set<int>,
    v: Value,
    contents: Value,
    sv: SendValue,
)
    requires
        further(a, b),
        a.heap.target(v) is Some,
        cell_rebuilt(a, open, v, contents, sv),
    ensures
        cell_rebuilt(b, open, v, contents, sv),
    decreases sv, 1int,
{
    match sv {
        SendValue::Ref(idx) if open.contains(idx as int) => {
            if !a.fixed {
                assert(waits(a.fixups, v, idx as int));
                let k = choose|k: int|
                    0 <= k < a.fixups.len() && (#[trigger] a.fixups[k]).0 == v && a.fixups[k].1
                        == idx as int;
                assert(b.fixups[k] == a.fixups[k]);
            }
        },
        _ => {
            lemma_rebuilt_further(a, b, open, contents, sv);
            if !b.fixed {
                assert forall|k: int| 0 <= k < b.fixups.len() implies (#[trigger] b.fixups[k]).0 != v by {
                    if k < a.fixups.len() {
                        assert(b.fixups[k] == a.fixups[k]);
                    }
                }
            }
        },
    }
}

pub(crate) proof fn lemma_rebuilt_further(a: Arrival, b: Arrival, open: Set<int>, v: Value, sv: SendValue)
    requires
        further(a, b),
        rebuilt(a, open, v, sv),
    ensures
        rebuilt(b, open, v, sv),
    decreases sv, 0int,
{
    if v.tag >= TAG_HEAP_START && a.heap.target(v) is Some {
        let i = a.heap.target(v)->0;
        assert(b.heap.target(v) == a.heap.target(v));
        assert(b.heap.objects[i] == a.heap.objects[i]);
        assert(b.heap.owners[i] == a.heap.owners[i]);
    }
    match sv {
        SendValue::Keyword(_) => {
            assert(b.heap.keywords[v.payload as int] == a.heap.keywords[v.payload as int]);
        },
        SendValue::Symbol { .. } => {
            assert(b.symbols[v.payload as int] == a.symbols[v.payload as int]);
        },
        SendValue::Pair(x, y, t) => {
            let p = a.heap.object(v)->Pair_0;
            lemma_rebuilt_further(a, b, open, p.first, *x);
            lemma_rebuilt_further(a, b, open, p.rest, *y);
            lemma_traits_further(a, b, open, p.traits, HeapTag::Pair, *t);
        },
        SendValue::Array(items, t) => {
            let data = a.heap.object(v)->LArrayMut_data@;
            assert forall|i: int| 0 <= i < items@.len() implies rebuilt(
                b,
                open,
                data[i],
                #[trigger] items@[i],
            ) by {
                lemma_rebuilt_further(a, b, open, data[i], items@[i]);
            }
            lemma_traits_further(a, b, open, a.heap.object(v)->LArrayMut_traits, HeapTag::LArrayMut, *t);
        },
        SendValue::Tuple(items, t) => {
            let data = a.heap.object(v)->LArray_elements@;
            assert forall|i: int| 0 <= i < items@.len() implies rebuilt(
                b,
                open,
                data[i],
                #[trigger] items@[i],
            ) by {
                lemma_rebuilt_further(a, b, open, data[i], items@[i]);
            }
            lemma_traits_further(a, b, open, a.heap.object(v)->LArray_traits, HeapTag::LArray, *t);
        },
        SendValue::Struct(entries, t) => {
            let data = a.heap.object(v)->LStruct_data@;
            assert forall|i: int| 0 <= i < entries@.len() implies data[i].0.same(
                (#[trigger] entries@[i]).0,
            ) && rebuilt(b, open, data[i].1, entries@[i].1) by {
                lemma_rebuilt_further(a, b, open, data[i].1, entries@[i].1);
            }
            lemma_traits_further(a, b, open, a.heap.object(v)->LStruct_traits, HeapTag::LStruct, *t);
        },
        SendValue::StructMut(entries, t) => {
            let data = a.heap.object(v)->LStructMut_data@;
            assert forall|i: int| 0 <= i < entries@.len() implies data[i].0.same(
                (#[trigger] entries@[i]).0,
            ) && rebuilt(b, open, data[i].1, entries@[i].1) by {
                lemma_rebuilt_further(a, b, open, data[i].1, entries@[i].1);
            }
            lemma_traits_further(a, b, open, a.heap.object(v)->LStructMut_traits, HeapTag::LStructMut, *t);
        },
        SendValue::Buffer(_, t) => lemma_traits_further(
            a,
            b,
            open,
            a.heap.object(v)->LStringMut_traits,
            HeapTag::LStringMut,
            *t,
        ),
        SendValue::Bytes(_, t) => lemma_traits_further(
            a,
            b,
            open,
            a.heap.object(v)->LBytes_traits,
            HeapTag::LBytes,
            *t,
        ),
        SendValue::Blob(_, t) => lemma_traits_further(
            a,
            b,
            open,
            a.heap.object(v)->LBytesMut_traits,
            HeapTag::LBytesMut,
            *t,
        ),
        SendValue::LBox(c, t) => {
            lemma_cell_further(a, b, open, v, a.heap.object(v)->LBox_cell, *c);
            lemma_rebuilt_further(a, b, open, a.heap.object(v)->LBox_traits, *t);
        },
        SendValue::CaptureCell(c, t) => {
            lemma_cell_further(a, b, open, v, a.heap.object(v)->CaptureCell_cell, *c);
            lemma_rebuilt_further(a, b, open, a.heap.object(v)->CaptureCell_traits, *t);
        },
        SendValue::Float(f) => {
            assert(boxed_float(a, v, f));
            let i = choose|i: int|
                0 <= i < a.heap.objects.len() && a.lo <= i && v.payload == crate::heap::address(i)
                    && #[trigger] a.heap.objects[i] == HeapObject::Float(f);
            assert(b.heap.objects[i] == a.heap.objects[i]);
        },
        SendValue::LSet(items, t) => {
            let data = a.heap.object(v)->LSet_data@;
            assert forall|i: int| 0 <= i < items@.len() implies rebuilt(
                b,
                open,
                data[i],
                #[trigger] items@[i],
            ) by {
                lemma_rebuilt_further(a, b, open, data[i], items@[i]);
            }
            lemma_traits_further(a, b, open, a.heap.object(v)->LSet_traits, HeapTag::LSet, *t);
        },
        SendValue::LSetMut(items, t) => {
            let data = a.heap.object(v)->LSetMut_data@;
            assert forall|i: int| 0 <= i < items@.len() implies rebuilt(
                b,
                open,
                data[i],
                #[trigger] items@[i],
            ) by {
                lemma_rebuilt_further(a, b, open, data[i], items@[i]);
            }
            lemma_traits_further(a, b, open, a.heap.object(v)->LSetMut_traits, HeapTag::LSetMut, *t);
        },
        SendValue::Parameter { default, traits, .. } => {
            lemma_rebuilt_further(a, b, open, a.heap.object(v)->Parameter_default, *default);
            lemma_rebuilt_further(a, b, open, a.heap.object(v)->Parameter_traits, *traits);
        },
        SendValue::Ref(idx) => {
            assert(!open.contains(idx as int) ==> a.done.contains_key(idx as int));
        },
        _ => {},
    }
}

pub(crate) proof fn lemma_all_further(
    a: Arrival,
    b: Arrival,
    open: Set<int>,
    values: Seq<Value>,
    items: Seq<SendValue>,
)
    requires
        further(a, b),
        all_rebuilt(a, open, values, items),
    ensures
        all_rebuilt(b, open, values, items),
{
    assert forall|i: int| 0 <= i < items.len() implies rebuilt(b, open, values[i], #[trigger] items[i]) by {
        lemma_rebuilt_further(a, b, open, values[i], items[i]);
    }
}

pub(crate) proof fn lemma_entries_further(
    a: Arrival,
    b: Arrival,
    open: Set<int>,
    data: Seq<(TableKey, Value)>,
    entries: Seq<(TableKey, SendValue)>,
)
    requires
        further(a, b),
        entries_rebuilt(a, open, data, entries),
    ensures
        entries_rebuilt(b, open, data, entries),
{
    assert forall|i: int| 0 <= i < entries.len() implies data[i].0.same((#[trigger] entries[i]).0)
        && rebuilt(b, open, data[i].1, entries[i].1) by {
        lemma_rebuilt_further(a, b, open, data[i].1, entries[i].1);
    }
}

pub(crate) proof fn lemma_lir_further(
    a: Arrival,
    b: Arrival,
    open: Set<int>,
    pool: Seq<SendValue>,
    x: LirFunction,
    y: LirFunction,
)
    requires
        further(a, b),
        lir_rebuilt(a, open, pool, x, y),
    ensures
        lir_rebuilt(b, open, pool, x, y),
{
    assert forall|n: int| 0 <= n < x.blocks@.len() implies block_rebuilt(
        b,
        open,
        pool,
        x.blocks@[n],
        #[trigger] y.blocks@[n],
    ) by {
        let (p, q) = (x.blocks@[n], y.blocks@[n]);
        assert(block_rebuilt(a, open, pool, p, q));
        assert forall|i: int| 0 <= i < p.instructions@.len() implies instr_rebuilt(
            b,
            open,
            pool,
            p.instructions@[i],
            #[trigger] q.instructions@[i],
        ) by {
            assert(instr_rebuilt(a, open, pool, p.instructions@[i], q.instructions@[i]));
            match (p.instructions@[i], q.instructions@[i]) {
                (
                    LirInstr::Const { value: LirConst::ClosureRef(k), .. },
                    LirInstr::ValueConst { value, .. },
                ) => lemma_rebuilt_further(a, b, open, value, SendValue::Ref(k)),
                (
                    LirInstr::Const { value: LirConst::ValueRef(k), .. },
                    LirInstr::ValueConst { value, .. },
                ) => lemma_rebuilt_further(a, b, open, value, pool[k as int]),
                _ => {},
            }
        }
    }
}

pub(crate) proof fn lemma_template_further(
    a: Arrival,
    b: Arrival,
    open: Set<int>,
    t: ClosureTemplate,
    sc: SendableClosure,
)
    requires
        further(a, b),
        template_rebuilt(a, open, t, sc),
    ensures
        template_rebuilt(b, open, t, sc),
    decreases sc,
{
    lemma_all_further(a, b, open, t.constants@, sc.constants@);
    if sc.lir_function is Some {
        lemma_lir_further(a, b, open, sc.lir_value_pool@, sc.lir_function->0, t.lir_function->0);
    }
    assert forall|i: int| 0 <= i < sc.child_protos@.len() implies template_rebuilt(
        b,
        open,
        t.proto(i),
        #[trigger] sc.child_protos@[i],
    ) by {
        lemma_template_further(a, b, open, t.proto(i), sc.child_protos@[i]);
    }
}

pub(crate) proof fn lemma_closure_further(
    a: Arrival,
    b: Arrival,
    open: Set<int>,
    v: Value,
    sc: SendableClosure,
)
    requires
        further(a, b),
        closure_rebuilt(a, open, v, sc),
    ensures
        closure_rebuilt(b, open, v, sc),
{
    let i = a.heap.target(v)->0;
    assert(b.heap.objects[i] == a.heap.objects[i]);
    assert(b.heap.owners[i] == a.heap.owners[i]);
    let c = a.heap.object(v)->Closure_closure;
    lemma_template_further(a, b, open, c.code(), sc);
    lemma_all_further(a, b, open, c.env@, sc.env@);
}

/// What is rebuilt is an immediate, or lives in the bundle's region.
pub(crate) proof fn lemma_rebuilt_local(w: Arrival, open: Set<int>, v: Value, sv: SendValue)
    requires
        rebuilt(w, open, v, sv),
    ensures
        is_local(w.heap, w.region, v),
{
}

/// The waiting cells were given their closures, and nothing else was touched.
pub open spec fn fixed_up(a: Arrival, b: Arrival) -> bool {
    &&& b == (Arrival { heap: b.heap, fixed: true, ..a })
    &&& b.heap == (HeapState { objects: b.heap.objects, ..a.heap })
    &&& b.heap.objects.len() == a.heap.objects.len()
    &&& forall|k: int|
        0 <= k < a.fixups.len() ==> {
            &&& a.heap.resolves((#[trigger] a.fixups[k]).0)
            &&& (a.heap.object(a.fixups[k].0) is LBox || a.heap.object(a.fixups[k].0) is CaptureCell)
            &&& a.done.contains_key(a.fixups[k].1 as int)
            &&& b.heap.object(a.fixups[k].0) == with_cell(
                a.heap.object(a.fixups[k].0),
                a.done[a.fixups[k].1 as int],
            )
        }
    &&& forall|i: int|
        0 <= i < a.heap.objects.len() && !is_waiting(a, i) ==> #[trigger] b.heap.objects[i]
            == a.heap.objects[i]
}

/// A waiting cell lies at place `i`.
pub open spec fn is_waiting(w: Arrival, i: int) -> bool {
    exists|k: int| 0 <= k < w.fixups.len() && w.heap.target((#[trigger] w.fixups[k]).0) == Some(i)
}

proof fn lemma_not_waiting(a: Arrival, b: Arrival, v: Value)
    requires
        fixed_up(a, b),
        a.heap.resolves(v),
        waits_not(a.fixups, v) || !(a.heap.object(v) is LBox || a.heap.object(v) is CaptureCell),
    ensures
        b.heap.object(v) == a.heap.object(v),
        b.heap.target(v) == a.heap.target(v),
{
    let i = a.heap.target(v)->0;
    if is_waiting(a, i) {
        let k = choose|k: int|
            0 <= k < a.fixups.len() && a.heap.target((#[trigger] a.fixups[k]).0) == Some(i);
        let c = a.fixups[k].0;
        assert(a.heap.resolves(c));
        assert(c.payload == v.payload);
        assert(c == v);
        assert(false);
    }
}

proof fn lemma_traits_fixed(
    a: Arrival,
    b: Arrival,
    open: Set<int>,
    traits: Value,
    tag: HeapTag,
    sv: SendValue,
)
    requires
        fixed_up(a, b),
        !a.fixed,
        traits_rebuilt(a, open, traits, tag, sv),
    ensures
        traits_rebuilt(b, open, traits, tag, sv),
    decreases sv, 1int,
{
    if !comes_as_nil(open, sv) {
        lemma_rebuilt_fixed(a, b, open, traits, sv);
    }
}

proof fn lemma_rebuilt_fixed(a: Arrival, b: Arrival, open: Set<int>, v: Value, sv: SendValue)
    requires
        fixed_up(a, b),
        !a.fixed,
        rebuilt(a, open, v, sv),
    ensures
        rebuilt(b, open, v, sv),
    decreases sv, 0int,
{
    if v.tag >= TAG_HEAP_START && a.heap.resolves(v) && !(a.heap.object(v) is LBox || a.heap.object(
        v,
    ) is CaptureCell) {
        lemma_not_waiting(a, b, v);
    }
    match sv {
        SendValue::Pair(x, y, t) => {
            let p = a.heap.object(v)->Pair_0;
            lemma_rebuilt_fixed(a, b, open, p.first, *x);
            lemma_rebuilt_fixed(a, b, open, p.rest, *y);
            lemma_traits_fixed(a, b, open, p.traits, HeapTag::Pair, *t);
        },
        SendValue::Array(items, t) => {
            let data = a.heap.object(v)->LArrayMut_data@;
            assert forall|i: int| 0 <= i < items@.len() implies rebuilt(
                b,
                open,
                data[i],
                #[trigger] items@[i],
            ) by {
                lemma_rebuilt_fixed(a, b, open, data[i], items@[i]);
            }
            lemma_traits_fixed(a, b, open, a.heap.object(v)->LArrayMut_traits, HeapTag::LArrayMut, *t);
        },
        SendValue::Tuple(items, t) => {
            let data = a.heap.object(v)->LArray_elements@;
            assert forall|i: int| 0 <= i < items@.len() implies rebuilt(
                b,
                open,
                data[i],
                #[trigger] items@[i],
            ) by {
                lemma_rebuilt_fixed(a, b, open, data[i], items@[i]);
            }
            lemma_traits_fixed(a, b, open, a.heap.object(v)->LArray_traits, HeapTag::LArray, *t);
        },
        SendValue::Struct(entries, t) => {
            let data = a.heap.object(v)->LStruct_data@;
            assert forall|i: int| 0 <= i < entries@.len() implies data[i].0.same(
                (#[trigger] entries@[i]).0,
            ) && rebuilt(b, open, data[i].1, entries@[i].1) by {
                lemma_rebuilt_fixed(a, b, open, data[i].1, entries@[i].1);
            }
            lemma_traits_fixed(a, b, open, a.heap.object(v)->LStruct_traits, HeapTag::LStruct, *t);
        },
        SendValue::StructMut(entries, t) => {
            let data = a.heap.object(v)->LStructMut_data@;
            assert forall|i: int| 0 <= i < entries@.len() implies data[i].0.same(
                (#[trigger] entries@[i]).0,
            ) && rebuilt(b, open, data[i].1, entries@[i].1) by {
                lemma_rebuilt_fixed(a, b, open, data[i].1, entries@[i].1);
            }
            lemma_traits_fixed(a, b, open, a.heap.object(v)->LStructMut_traits, HeapTag::LStructMut, *t);
        },
        SendValue::Buffer(_, t) => lemma_traits_fixed(
            a,
            b,
            open,
            a.heap.object(v)->LStringMut_traits,
            HeapTag::LStringMut,
            *t,
        ),
        SendValue::Bytes(_, t) => lemma_traits_fixed(
            a,
            b,
            open,
            a.heap.object(v)->LBytes_traits,
            HeapTag::LBytes,
            *t,
        ),
        SendValue::Blob(_, t) => lemma_traits_fixed(
            a,
            b,
            open,
            a.heap.object(v)->LBytesMut_traits,
            HeapTag::LBytesMut,
            *t,
        ),
        SendValue::LBox(c, t) => {
            let cell = a.heap.object(v)->LBox_cell;
            assert(cell_rebuilt(a, open, v, cell, *c));
            lemma_rebuilt_fixed(a, b, open, a.heap.object(v)->LBox_traits, *t);
            match *c {
                SendValue::Ref(idx) if open.contains(idx as int) => {
                    let k = choose|k: int|
                        0 <= k < a.fixups.len() && (#[trigger] a.fixups[k]).0 == v && a.fixups[k].1
                            == idx as int;
                    assert(b.heap.object(a.fixups[k].0) == with_cell(
                        a.heap.object(a.fixups[k].0),
                        a.done[a.fixups[k].1 as int],
                    ));
                    assert(cell_rebuilt(b, open, v, b.heap.object(v)->LBox_cell, *c));
                },
                _ => {
                    lemma_rebuilt_fixed(a, b, open, cell, *c);
                    lemma_not_waiting(a, b, v);
                    assert(cell_rebuilt(b, open, v, cell, *c));
                },
            }
        },
        SendValue::CaptureCell(c, t) => {
            let cell = a.heap.object(v)->CaptureCell_cell;
            assert(cell_rebuilt(a, open, v, cell, *c));
            lemma_rebuilt_fixed(a, b, open, a.heap.object(v)->CaptureCell_traits, *t);
            match *c {
                SendValue::Ref(idx) if open.contains(idx as int) => {
                    let k = choose|k: int|
                        0 <= k < a.fixups.len() && (#[trigger] a.fixups[k]).0 == v && a.fixups[k].1
                            == idx as int;
                    assert(b.heap.object(a.fixups[k].0) == with_cell(
                        a.heap.object(a.fixups[k].0),
                        a.done[a.fixups[k].1 as int],
                    ));
                    assert(cell_rebuilt(b, open, v, b.heap.object(v)->CaptureCell_cell, *c));
                },
                _ => {
                    lemma_rebuilt_fixed(a, b, open, cell, *c);
                    lemma_not_waiting(a, b, v);
                    assert(cell_rebuilt(b, open, v, cell, *c));
                },
            }
        },
        SendValue::Float(f) => {
            assert(boxed_float(a, v, f));
            let i = choose|i: int|
                0 <= i < a.heap.objects.len() && a.lo <= i && v.payload == crate::heap::address(i)
                    && #[trigger] a.heap.objects[i] == HeapObject::Float(f);
            assert(!is_waiting(a, i)) by {
                if is_waiting(a, i) {
                    let k = choose|k: int|
                        0 <= k < a.fixups.len() && a.heap.target((#[trigger] a.fixups[k]).0) == Some(i);
                    assert(a.heap.object(a.fixups[k].0) is LBox || a.heap.object(
                        a.fixups[k].0,
                    ) is CaptureCell);
                }
            }
            assert(b.heap.objects[i] == a.heap.objects[i]);
        },
        SendValue::LSet(items, t) => {
            let data = a.heap.object(v)->LSet_data@;
            assert forall|i: int| 0 <= i < items@.len() implies rebuilt(
                b,
                open,
                data[i],
                #[trigger] items@[i],
            ) by {
                lemma_rebuilt_fixed(a, b, open, data[i], items@[i]);
            }
            lemma_traits_fixed(a, b, open, a.heap.object(v)->LSet_traits, HeapTag::LSet, *t);
        },
        SendValue::LSetMut(items, t) => {
            let data = a.heap.object(v)->LSetMut_data@;
            assert forall|i: int| 0 <= i < items@.len() implies rebuilt(
                b,
                open,
                data[i],
                #[trigger] items@[i],
            ) by {
                lemma_rebuilt_fixed(a, b, open, data[i], items@[i]);
            }
            lemma_traits_fixed(a, b, open, a.heap.object(v)->LSetMut_traits, HeapTag::LSetMut, *t);
        },
        SendValue::Parameter { default, traits, .. } => {
            lemma_rebuilt_fixed(a, b, open, a.heap.object(v)->Parameter_default, *default);
            lemma_rebuilt_fixed(a, b, open, a.heap.object(v)->Parameter_traits, *traits);
        },
        _ => {},
    }
}

proof fn lemma_all_fixed(
    a: Arrival,
    b: Arrival,
    open: Set<int>,
    values: Seq<Value>,
    items: Seq<SendValue>,
)
    requires
        fixed_up(a, b),
        !a.fixed,
        all_rebuilt(a, open, values, items),
    ensures
        all_rebuilt(b, open, values, items),
{
    assert forall|i: int| 0 <= i < items.len() implies rebuilt(b, open, values[i], #[trigger] items[i]) by {
        lemma_rebuilt_fixed(a, b, open, values[i], items[i]);
    }
}

proof fn lemma_template_fixed(
    a: Arrival,
    b: Arrival,
    open: Set<int>,
    t: ClosureTemplate,
    sc: SendableClosure,
)
    requires
        fixed_up(a, b),
        !a.fixed,
        template_rebuilt(a, open, t, sc),
    ensures
        template_rebuilt(b, open, t, sc),
    decreases sc,
{
    lemma_all_fixed(a, b, open, t.constants@, sc.constants@);
    if sc.lir_function is Some {
        let (x, y) = (sc.lir_function->0, t.lir_function->0);
        let pool = sc.lir_value_pool@;
        assert forall|n: int| 0 <= n < x.blocks@.len() implies block_rebuilt(
            b,
            open,
            pool,
            x.blocks@[n],
            #[trigger] y.blocks@[n],
        ) by {
            let (p, q) = (x.blocks@[n], y.blocks@[n]);
            assert(block_rebuilt(a, open, pool, p, q));
            assert forall|i: int| 0 <= i < p.instructions@.len() implies instr_rebuilt(
                b,
                open,
                pool,
                p.instructions@[i],
                #[trigger] q.instructions@[i],
            ) by {
                assert(instr_rebuilt(a, open, pool, p.instructions@[i], q.instructions@[i]));
                match (p.instructions@[i], q.instructions@[i]) {
                    (
                        LirInstr::Const { value: LirConst::ClosureRef(k), .. },
                        LirInstr::ValueConst { value, .. },
                    ) => lemma_rebuilt_fixed(a, b, open, value, SendValue::Ref(k)),
                    (
                        LirInstr::Const { value: LirConst::ValueRef(k), .. },
                        LirInstr::ValueConst { value, .. },
                    ) => lemma_rebuilt_fixed(a, b, open, value, pool[k as int]),
                    _ => {},
                }
            }
        }
    }
    assert forall|i: int| 0 <= i < sc.child_protos@.len() implies template_rebuilt(
        b,
        open,
        t.proto(i),
        #[trigger] sc.child_protos@[i],
    ) by {
        lemma_template_fixed(a, b, open, t.proto(i), sc.child_protos@[i]);
    }
}

/// Giving the waiting cells their closures leaves everything rebuilt.
pub(crate) proof fn lemma_closure_fixed(
    a: Arrival,
    b: Arrival,
    open: Set<int>,
    v: Value,
    sc: SendableClosure,
)
    requires
        fixed_up(a, b),
        !a.fixed,
        closure_rebuilt(a, open, v, sc),
    ensures
        closure_rebuilt(b, open, v, sc),
{
    lemma_not_waiting(a, b, v);
    let c = a.heap.object(v)->Closure_closure;
    lemma_template_fixed(a, b, open, c.code(), sc);
    lemma_all_fixed(a, b, open, c.env@, sc.env@);
}

/// Giving the waiting cells their closures leaves the value rebuilt.
pub(crate) proof fn lemma_value_fixed(a: Arrival, b: Arrival, open: Set<int>, v: Value, sv: SendValue)
    requires
        fixed_up(a, b),
        !a.fixed,
        rebuilt(a, open, v, sv),
    ensures
        rebuilt(b, open, v, sv),
{
    lemma_rebuilt_fixed(a, b, open, v, sv);
}

/// Some value refers to closure `k`.
pub open spec fn all_mention(items: Seq<SendValue>, k: int) -> bool {
    exists|i: int| 0 <= i < items.len() && mentions(#[trigger] items[i], k)
}

/// The value refers to closure `k`.
pub open spec fn mentions(sv: SendValue, k: int) -> bool
    decreases sv,
{
    match sv {
        SendValue::Pair(a, b, t) => mentions(*a, k) || mentions(*b, k) || mentions(*t, k),
        SendValue::Array(items, t) => mentions(*t, k) || exists|i: int|
            0 <= i < items@.len() && mentions(#[trigger] items@[i], k),
        SendValue::Tuple(items, t) => mentions(*t, k) || exists|i: int|
            0 <= i < items@.len() && mentions(#[trigger] items@[i], k),
        SendValue::Struct(entries, t) => mentions(*t, k) || exists|i: int|
            0 <= i < entries@.len() && mentions((#[trigger] entries@[i]).1, k),
        SendValue::StructMut(entries, t) => mentions(*t, k) || exists|i: int|
            0 <= i < entries@.len() && mentions((#[trigger] entries@[i]).1, k),
        SendValue::Buffer(_, t) => mentions(*t, k),
        SendValue::Bytes(_, t) => mentions(*t, k),
        SendValue::Blob(_, t) => mentions(*t, k),
        SendValue::LBox(c, t) => mentions(*c, k) || mentions(*t, k),
        SendValue::CaptureCell(c, t) => mentions(*c, k) || mentions(*t, k),
        SendValue::LSet(items, t) => mentions(*t, k) || exists|i: int|
            0 <= i < items@.len() && mentions(#[trigger] items@[i], k),
        SendValue::LSetMut(items, t) => mentions(*t, k) || exists|i: int|
            0 <= i < items@.len() && mentions(#[trigger] items@[i], k),
        SendValue::Parameter { default, traits, .. } => mentions(*default, k) || mentions(*traits, k),
        SendValue::Ref(idx) => idx == k,
        _ => false,
    }
}

/// The code refers to closure `k`.
pub open spec fn lir_mentions(lir: LirFunction, k: int) -> bool {
    exists|b: int, i: int|
        0 <= b < lir.blocks@.len() && 0 <= i < lir.blocks@[b].instructions@.len() && names_closure(
            #[trigger] lir.blocks@[b].instructions@[i],
            k,
        )
}

/// The instruction loads closure `k`.
pub open spec fn names_closure(instr: LirInstr, k: int) -> bool {
    match instr {
        LirInstr::Const { value: LirConst::ClosureRef(n), .. } => n == k,
        _ => false,
    }
}

/// A template refers to closure `k`.
pub open spec fn template_mentions(sc: SendableClosure, k: int) -> bool
    decreases sc,
{
    ||| all_mention(sc.constants@, k)
    ||| all_mention(sc.lir_value_pool@, k)
    ||| sc.lir_function is Some && lir_mentions(sc.lir_function->0, k)
    ||| exists|i: int|
        0 <= i < sc.child_protos@.len() && template_mentions(#[trigger] sc.child_protos@[i], k)
}

/// A closure refers to closure `k`.
pub open spec fn closure_mentions(sc: SendableClosure, k: int) -> bool {
    template_mentions(sc, k) || all_mention(sc.env@, k)
}

/// What rebuilding a value costs a heap and a symbol table at most, the closures
/// it refers to not counted.
pub open spec fn weight(sv: SendValue) -> nat
    decreases sv,
{
    match sv {
        SendValue::Keyword(_) => 1,
        SendValue::Symbol { .. } => 1,
        SendValue::Str(_) => 2,
        SendValue::Syntax(_) => 2,
        SendValue::Pair(a, b, t) => weight(*a) + weight(*b) + weight(*t) + 4,
        SendValue::Array(items, t) => weights(items@) + weight(*t) + items@.len() + 2,
        SendValue::Tuple(items, t) => weights(items@) + weight(*t) + items@.len() + 2,
        SendValue::Struct(entries, t) => entry_weights(entries@) + weight(*t) + entries@.len() + 2,
        SendValue::StructMut(entries, t) => entry_weights(entries@) + weight(*t) + entries@.len() + 2,
        SendValue::Buffer(_, t) => weight(*t) + 2,
        SendValue::Bytes(_, t) => weight(*t) + 2,
        SendValue::Blob(_, t) => weight(*t) + 2,
        SendValue::LBox(c, t) => weight(*c) + weight(*t) + 3,
        SendValue::CaptureCell(c, t) => weight(*c) + weight(*t) + 3,
        SendValue::Float(_) => 1,
        SendValue::FFIType(_) => 1,
        SendValue::LSet(items, t) => weights(items@) + weight(*t) + items@.len() + 2,
        SendValue::LSetMut(items, t) => weights(items@) + weight(*t) + items@.len() + 2,
        SendValue::ChanSender(_) => 2,
        SendValue::ChanReceiver(_) => 2,
        SendValue::StdioPort(_) => 2,
        SendValue::Parameter { default, traits, .. } => weight(*default) + weight(*traits) + 3,
        SendValue::Immediate(_) => 0,
        SendValue::Ref(_) => 0,
    }
}

/// What rebuilding some values costs.
pub open spec fn weights(items: Seq<SendValue>) -> nat
    decreases items,
{
    if items.len() == 0 {
        0
    } else {
        weights(items.drop_last()) + weight(items.last())
    }
}

/// What rebuilding some entries costs.
pub open spec fn entry_weights(entries: Seq<(TableKey, SendValue)>) -> nat
    decreases entries,
{
    if entries.len() == 0 {
        0
    } else {
        entry_weights(entries.drop_last()) + weight(entries.last().1)
    }
}

/// What rebuilding a template costs.
pub open spec fn template_weight(sc: SendableClosure) -> nat
    decreases sc, 0int,
{
    weights(sc.constants@) + weights(sc.lir_value_pool@) + template_weights(sc.child_protos@)
}

/// What rebuilding some templates costs.
pub open spec fn template_weights(s: Seq<SendableClosure>) -> nat
    decreases s, 1int,
{
    if s.len() == 0 {
        0
    } else {
        template_weights(s.drop_last()) + template_weight(s.last())
    }
}

/// What rebuilding a closure costs, those it refers to not counted.
pub open spec fn closure_weight(sc: SendableClosure) -> nat {
    template_weight(sc) + weights(sc.env@) + sc.env@.len() + sc.constants@.len() + 2
}

/// What rebuilding a table of closures costs.
pub open spec fn closure_weights(s: Seq<SendableClosure>) -> nat
    decreases s.len(),
{
    if s.len() == 0 {
        0
    } else {
        closure_weights(s.drop_last()) + closure_weight(s.last())
    }
}

impl SendBundle {
    /// What rebuilding the bundle costs a heap and a symbol table at most.
    pub open spec fn total_weight(self) -> nat {
        weight(self.root) + closure_weights(self.closures@)
    }
}

/// Closure `i` was met among the parts of the root, or of a closure that was
/// being rebuilt; `paths` has, for each closure met, those that were being rebuilt
/// then, itself among them.
pub open spec fn led(
    root: SendValue,
    table: Seq<SendableClosure>,
    paths: Map<int, Set<int>>,
    i: int,
) -> bool {
    ||| paths[i] == set![i] && mentions(root, i)
    ||| exists|j: int| #[trigger]
        paths.contains_key(j) && 0 <= j < table.len() && !paths[j].contains(i) && paths[i]
            == paths[j].insert(i) && closure_mentions(table[j], i)
}

/// A whole bundle is rebuilt, with `v` at its root: the value is a copy of what was
/// sent, and every closure met is rebuilt once.
pub open spec fn arrived_as(w: Arrival, paths: Map<int, Set<int>>, b: SendBundle, v: Value) -> bool {
    &&& w.fixed
    &&& rebuilt(w, Set::empty(), v, b.root)
    &&& forall|i: int| #[trigger]
        w.done.contains_key(i) <==> paths.contains_key(i)
    &&& forall|i: int| #[trigger]
        paths.contains_key(i) ==> {
            &&& 0 <= i < b.closures@.len()
            &&& paths[i].contains(i)
            &&& led(b.root, b.closures@, paths, i)
            &&& closure_rebuilt(w, paths[i], w.done[i], b.closures@[i])
        }
    &&& forall|i: int, j: int|
        paths.contains_key(i) && #[trigger] paths[i].contains(j) ==> paths.contains_key(j)
    &&& forall|i: int, j: int|
        w.done.contains_key(i) && w.done.contains_key(j) && i != j ==> #[trigger] w.done[i]
            != #[trigger] w.done[j]
}

/// A whole bundle is rebuilt in `region`, from place `lo` on.
pub open spec fn arrived(
    h: HeapState,
    symbols: Seq<Seq<char>>,
    lo: int,
    region: u32,
    b: SendBundle,
    v: Value,
) -> bool {
    exists|w: Arrival, paths: Map<int, Set<int>>|
        #[trigger] arrived_as(w, paths, b, v) && w.heap == h && w.symbols == symbols && w.lo == lo && w.region
            == region
}

} // verus!
