//! What a value in transit has to do with the value it was made from.

use vstd::prelude::*;

use crate::fibers::keyword_text;
use crate::heap::HeapState;
use crate::lir::{BasicBlock, LirConst, LirFunction, LirInstr};
use crate::object::{
    Closure, ClosureTemplate, ExternalData, ExternalObject, HeapObject, HeapTag, PortKind, TableKey,
};
use crate::prim::closure_at;
use crate::sendvalue::{
    all_fit, carries, closure_fits, fits, instr_fits, lir_fits, SendBundle, SendValue, SendableClosure,
};
use crate::value::{Value, TAG_CLOSURE, TAG_HEAP_START, TAG_KEYWORD, TAG_NIL, TAG_SYMBOL};

verus! {

/// The symbol names that values go by. Where symbols are `numbered`, one in transit
/// carries the number it has in this table.
pub struct Names {
    pub table: Seq<Seq<char>>,
    pub numbered: bool,
}

/// The sender's own names.
pub open spec fn own(table: Seq<Seq<char>>) -> Names {
    Names { table, numbered: true }
}

/// Traits that travel: neither absent nor the sending heap's default for the
/// object's type, which the receiving heap has its own of.
pub open spec fn traits_travel(s: HeapState, traits: Value, tag: HeapTag) -> bool {
    let default = s.traits[tag.slot()];
    traits.tag != TAG_NIL && !(default.tag != TAG_NIL && traits.payload == default.payload)
}

/// `v` is one of the traits that travel.
pub open spec fn is_traits(s: HeapState, traits: Value, tag: HeapTag, v: Value) -> bool {
    traits_travel(s, traits, tag) && v == traits
}

/// The code carries `v` as a constant.
pub open spec fn lir_holds(lir: LirFunction, v: Value) -> bool {
    exists|b: int, i: int|
        0 <= b < lir.blocks@.len() && 0 <= i < lir.blocks@[b].instructions@.len() && is_constant(
            #[trigger] lir.blocks@[b].instructions@[i],
            v,
        )
}

/// The instruction loads `v`.
pub open spec fn is_constant(instr: LirInstr, v: Value) -> bool {
    match instr {
        LirInstr::ValueConst { value, .. } => value == v,
        _ => false,
    }
}

/// A template carries `v`: among its constants, in its code, or in a nested one.
pub open spec fn template_holds(t: ClosureTemplate, v: Value) -> bool
    decreases t,
{
    ||| t.constants@.contains(v)
    ||| t.lir_function is Some && lir_holds(t.lir_function->0, v)
    ||| exists|i: int| 0 <= i < t.child_protos@.len() && template_holds(*#[trigger] t.child_protos@[i], v)
}

/// `v` travels with an object, as one of its parts.
pub open spec fn is_part(s: HeapState, obj: HeapObject, v: Value) -> bool {
    match obj {
        HeapObject::Pair(p) => v == p.first || v == p.rest || is_traits(s, p.traits, HeapTag::Pair, v),
        HeapObject::LArrayMut { data, traits } => data@.contains(v) || is_traits(
            s,
            traits,
            HeapTag::LArrayMut,
            v,
        ),
        HeapObject::LArray { elements, traits } => elements@.contains(v) || is_traits(
            s,
            traits,
            HeapTag::LArray,
            v,
        ),
        HeapObject::LStruct { data, traits } => (exists|i: int|
            0 <= i < data@.len() && (#[trigger] data@[i]).1 == v) || is_traits(
            s,
            traits,
            HeapTag::LStruct,
            v,
        ),
        HeapObject::LStructMut { data, traits } => (exists|i: int|
            0 <= i < data@.len() && (#[trigger] data@[i]).1 == v) || is_traits(
            s,
            traits,
            HeapTag::LStructMut,
            v,
        ),
        HeapObject::LStringMut { traits, .. } => is_traits(s, traits, HeapTag::LStringMut, v),
        HeapObject::LBytes { traits, .. } => is_traits(s, traits, HeapTag::LBytes, v),
        HeapObject::LBytesMut { traits, .. } => is_traits(s, traits, HeapTag::LBytesMut, v),
        HeapObject::LBox { cell, traits } => v == cell || is_traits(s, traits, HeapTag::LBox, v),
        HeapObject::CaptureCell { cell, traits } => v == cell || is_traits(
            s,
            traits,
            HeapTag::CaptureCell,
            v,
        ),
        HeapObject::LSet { data, traits } => data@.contains(v) || is_traits(
            s,
            traits,
            HeapTag::LSet,
            v,
        ),
        HeapObject::LSetMut { data, traits } => data@.contains(v) || is_traits(
            s,
            traits,
            HeapTag::LSetMut,
            v,
        ),
        HeapObject::Parameter { default, traits, .. } => v == default || v == traits,
        HeapObject::Closure { closure, .. } => closure.env@.contains(v) || template_holds(
            closure.code(),
            v,
        ),
        _ => false,
    }
}

/// A key that means an object, and so nothing elsewhere.
pub open spec fn has_identity_key<T>(data: Seq<(TableKey, T)>) -> bool {
    exists|i: int| 0 <= i < data.len() && (#[trigger] data[i]).0 is Identity
}

/// Why an external object cannot be sent.
pub open spec fn external_refusal(obj: ExternalObject) -> Option<Seq<char>> {
    if obj.kind_name@ == "chan/sender"@ {
        match obj.data {
            ExternalData::Channel(end) if end.open => None,
            _ => Some("Cannot send closed channel sender"@),
        }
    } else if obj.kind_name@ == "chan/receiver"@ {
        match obj.data {
            ExternalData::Channel(end) if end.open => None,
            _ => Some("Cannot send closed channel receiver"@),
        }
    } else if obj.kind_name@ == "port"@ {
        match obj.data {
            ExternalData::Port(kind) => if is_stdio(kind) {
                None
            } else {
                Some("Cannot send a file or socket port (only stdin/stdout/stderr)"@)
            },
            _ => Some("Cannot send port: not a port object"@),
        }
    } else {
        Some("Cannot send external object: "@ + obj.kind_name@)
    }
}

/// A standard stream.
pub open spec fn is_stdio(kind: PortKind) -> bool {
    kind == PortKind::Stdin || kind == PortKind::Stdout || kind == PortKind::Stderr
}

/// Why an object itself cannot be sent, whatever its parts are.
pub open spec fn object_refusal(obj: HeapObject) -> Option<Seq<char>> {
    match obj {
        HeapObject::LStruct { data, .. } => if has_identity_key(data@) {
            Some("Cannot send struct with identity keys"@)
        } else {
            None
        },
        HeapObject::LStructMut { data, .. } => if has_identity_key(data@) {
            Some("Cannot send @struct with identity keys"@)
        } else {
            None
        },
        HeapObject::LibHandle(_) => Some("Cannot send library handle"@),
        HeapObject::ThreadHandle { .. } => Some("Cannot send thread handle"@),
        HeapObject::Fiber { .. } => Some("Cannot send fiber"@),
        HeapObject::FFISignature(_) => Some("Cannot send FFI signature"@),
        HeapObject::ManagedPointer { .. } => Some("Cannot send managed pointer"@),
        HeapObject::External { obj, .. } => external_refusal(obj),
        HeapObject::ClosureTemplate(_) => Some("Cannot send a bare closure template"@),
        _ => None,
    }
}

/// Within `depth` steps from `v`, from object to part, something cannot be sent
/// for this reason.
pub open spec fn refuses_within(s: HeapState, v: Value, depth: nat, why: Seq<char>) -> bool
    decreases depth,
{
    v.tag >= TAG_HEAP_START && s.target(v) is Some && (object_refusal(s.object(v)) == Some(why) || (depth
        > 0 && exists|p: Value|
        #[trigger] is_part(s, s.object(v), p) && refuses_within(s, p, (depth - 1) as nat, why)))
}

/// Something reachable from `v` cannot be sent for this reason.
pub open spec fn refuses(s: HeapState, v: Value, why: Seq<char>) -> bool {
    exists|depth: nat| refuses_within(s, v, depth, why)
}

/// `p` is a part of the object that `q` points to.
pub open spec fn leads(s: HeapState, q: Value, p: Value) -> bool {
    q.tag >= TAG_HEAP_START && s.target(q) is Some && is_part(s, s.object(q), p)
}

/// Within `depth` steps from `v`, from object to part, there is `p`.
pub open spec fn reached_within(s: HeapState, v: Value, p: Value, depth: nat) -> bool
    decreases depth,
{
    p == v || (depth > 0 && exists|q: Value| #[trigger]
        leads(s, q, p) && reached_within(s, v, q, (depth - 1) as nat))
}

/// `p` can be reached from `v`, itself included, from object to part.
pub open spec fn reached(s: HeapState, v: Value, p: Value) -> bool {
    exists|depth: nat| reached_within(s, v, p, depth)
}

/// Everything that can be reached from `v` is an immediate, or points to an object
/// of its tag.
pub open spec fn linked(s: HeapState, v: Value) -> bool {
    forall|p: Value| #[trigger] reached(s, v, p) ==> points_right(s, p)
}

/// A value is an immediate, or points to an object of its tag.
pub open spec fn points_right(s: HeapState, v: Value) -> bool {
    v.tag >= TAG_HEAP_START ==> s.resolves(v)
}

/// Ranks of objects, below a bound, and the objects they are given to.
pub struct Ranks {
    pub rank: spec_fn(int) -> nat,
    pub top: nat,
    pub live: Set<int>,
}

/// The rank of a value: above all that its object refers to.
pub open spec fn value_rank(s: HeapState, g: Ranks, v: Value) -> nat {
    match s.target(v) {
        Some(i) => (g.rank)(i) + 1,
        None => 0,
    }
}

/// Every rank is below the bound.
pub open spec fn bounded(s: HeapState, g: Ranks) -> bool {
    forall|i: int| 0 <= i < s.objects.len() ==> #[trigger] (g.rank)(i) < g.top
}

/// An immediate, or a pointer to one of the objects that have a rank.
pub open spec fn lives(s: HeapState, g: Ranks, v: Value) -> bool {
    points_right(s, v) && (v.tag >= TAG_HEAP_START ==> g.live.contains(s.target(v)->0))
}

/// The objects that have a rank refer to such objects only, and to those of lower
/// rank, but for what closures refer to.
pub open spec fn ranked(s: HeapState, g: Ranks) -> bool {
    &&& bounded(s, g)
    &&& forall|i: int, p: Value|
        0 <= i < s.objects.len() && g.live.contains(i) && #[trigger] is_part(s, s.objects[i], p) ==> lives(
            s,
            g,
            p,
        ) && (!(s.objects[i] is Closure) ==> value_rank(s, g, p) <= (g.rank)(i))
}

/// An object that can be reached from `v` refers to objects of lower rank, unless it
/// is a closure.
pub open spec fn descends(s: HeapState, g: Ranks, v: Value) -> bool {
    forall|q: Value, p: Value|
        #![trigger reached(s, v, q), is_part(s, s.object(q), p)]
        reached(s, v, q) && q.tag >= TAG_HEAP_START && s.target(q) is Some && !(s.object(q) is Closure)
            && is_part(s, s.object(q), p) ==> value_rank(s, g, p) < value_rank(s, g, q)
}

/// Every cycle of references that can be reached from `v` goes through a closure.
pub open spec fn cycles_through_closures(s: HeapState, v: Value) -> bool {
    exists|g: Ranks| bounded(s, g) && #[trigger] descends(s, g, v)
}

/// What a value reaches can be ranked.
pub proof fn lemma_reach_ranked(s: HeapState, v: Value)
    requires
        linked(s, v),
        cycles_through_closures(s, v),
    ensures
        exists|g: Ranks| #[trigger] ranked(s, g) && lives(s, g, v),
{
    let f = choose|g: Ranks| bounded(s, g) && #[trigger] descends(s, g, v);
    let g = Ranks {
        rank: f.rank,
        top: f.top,
        live: Set::new(
            |i: int|
                exists|q: Value| #[trigger]
                    reached(s, v, q) && q.tag >= TAG_HEAP_START && s.target(q) == Some(i),
        ),
    };
    assert forall|p: Value| value_rank(s, g, p) == value_rank(s, f, p) by {}
    assert(bounded(s, g)) by {
        assert forall|i: int| 0 <= i < s.objects.len() implies #[trigger] (g.rank)(i) < g.top by {
            assert((f.rank)(i) < f.top);
        }
    }
    assert forall|p: Value| reached(s, v, p) implies lives(s, g, p) by {
        assert(points_right(s, p));
    }
    assert forall|i: int, p: Value|
        0 <= i < s.objects.len() && g.live.contains(i) && #[trigger] is_part(
            s,
            s.objects[i],
            p,
        ) implies lives(s, g, p) && (!(s.objects[i] is Closure) ==> value_rank(s, g, p) <= (g.rank)(i)) by {
        let q = choose|q: Value| #[trigger]
            reached(s, v, q) && q.tag >= TAG_HEAP_START && s.target(q) == Some(i);
        assert(s.object(q) == s.objects[i]);
        lemma_part_reached(s, v, q, p);
        assert(value_rank(s, f, q) == (f.rank)(i) + 1);
    }
    lemma_reaches_itself(s, v);
    assert(ranked(s, g) && lives(s, g, v));
}

/// A value reaches itself.
pub(crate) proof fn lemma_reaches_itself(s: HeapState, v: Value)
    ensures
        reached(s, v, v),
{
    assert(reached_within(s, v, v, 0));
}

/// What is a part of something reached is reached.
pub(crate) proof fn lemma_part_reached(s: HeapState, v: Value, q: Value, p: Value)
    requires
        reached(s, v, q),
        q.tag >= TAG_HEAP_START,
        s.target(q) is Some,
        is_part(s, s.object(q), p),
    ensures
        reached(s, v, p),
{
    let depth = choose|depth: nat| reached_within(s, v, q, depth);
    let next = (depth + 1) as nat;
    assert((next - 1) as nat == depth);
    assert(leads(s, q, p) && reached_within(s, v, q, (next - 1) as nat));
    assert(reached_within(s, v, p, next));
}

/// The closure value at an address.
pub open spec fn closure_value(key: u64) -> Value {
    Value { tag: TAG_CLOSURE, payload: key }
}

/// A traits field in transit.
pub open spec fn traits_mirror(
    s: HeapState,
    names: Names,
    keys: Seq<u64>,
    traits: Value,
    tag: HeapTag,
    sv: SendValue,
) -> bool
    decreases sv, 1int,
{
    if traits_travel(s, traits, tag) {
        mirrors(s, names, keys, traits, sv)
    } else {
        sv == SendValue::Immediate(Value::nil())
    }
}

/// `sv` is `v` in transit: the same data, part by part. A closure is named by the
/// place of its address among `keys`.
pub open spec fn mirrors(
    s: HeapState,
    names: Names,
    keys: Seq<u64>,
    v: Value,
    sv: SendValue,
) -> bool
    decreases sv, 0int,
{
    match sv {
        SendValue::Immediate(w) => {
            &&& w == v
            &&& v.tag < TAG_HEAP_START
            &&& keyword_text(s.keywords, v) is None
            &&& v.tag == TAG_SYMBOL ==> (v.payload as u32) >= names.table.len()
        },
        SendValue::Keyword(name) => keyword_text(s.keywords, v) == Some(name@),
        SendValue::Symbol { name, id } => {
            &&& v.tag == TAG_SYMBOL
            &&& (v.payload as u32) < names.table.len()
            &&& names.table[(v.payload as u32) as int] == name@
            &&& names.numbered ==> id == v.payload as u32
        },
        _ => v.tag >= TAG_HEAP_START && s.resolves(v) && object_refusal(s.object(v)) is None && match (
            sv,
            s.object(v),
        ) {
            (SendValue::Str(text), HeapObject::LString { s: str, .. }) => text@ == str@,
            (SendValue::Syntax(a), HeapObject::Syntax { syntax, .. }) => a.same(syntax),
            (SendValue::Pair(a, b, t), HeapObject::Pair(p)) => {
                &&& mirrors(s, names, keys, p.first, *a)
                &&& mirrors(s, names, keys, p.rest, *b)
                &&& traits_mirror(s, names, keys, p.traits, HeapTag::Pair, *t)
            },
            (SendValue::Array(items, t), HeapObject::LArrayMut { data, traits }) => {
                &&& items@.len() == data@.len()
                &&& forall|i: int|
                    0 <= i < items@.len() ==> mirrors(s, names, keys, data@[i], #[trigger] items@[i])
                &&& traits_mirror(s, names, keys, traits, HeapTag::LArrayMut, *t)
            },
            (SendValue::Tuple(items, t), HeapObject::LArray { elements, traits }) => {
                &&& items@.len() == elements@.len()
                &&& forall|i: int|
                    0 <= i < items@.len() ==> mirrors(
                        s,
                        names,
                        keys,
                        elements@[i],
                        #[trigger] items@[i],
                    )
                &&& traits_mirror(s, names, keys, traits, HeapTag::LArray, *t)
            },
            (SendValue::Struct(entries, t), HeapObject::LStruct { data, traits }) => {
                &&& entries@.len() == data@.len()
                &&& forall|i: int|
                    0 <= i < entries@.len() ==> (#[trigger] entries@[i]).0.same(data@[i].0) && mirrors(
                        s,
                        names,
                        keys,
                        data@[i].1,
                        entries@[i].1,
                    )
                &&& traits_mirror(s, names, keys, traits, HeapTag::LStruct, *t)
            },
            (SendValue::StructMut(entries, t), HeapObject::LStructMut { data, traits }) => {
                &&& entries@.len() == data@.len()
                &&& forall|i: int|
                    0 <= i < entries@.len() ==> (#[trigger] entries@[i]).0.same(data@[i].0) && mirrors(
                        s,
                        names,
                        keys,
                        data@[i].1,
                        entries@[i].1,
                    )
                &&& traits_mirror(s, names, keys, traits, HeapTag::LStructMut, *t)
            },
            (SendValue::Buffer(bytes, t), HeapObject::LStringMut { data, traits }) => bytes@ == data@
                && traits_mirror(s, names, keys, traits, HeapTag::LStringMut, *t),
            (SendValue::Bytes(bytes, t), HeapObject::LBytes { data, traits }) => bytes@ == data@
                && traits_mirror(s, names, keys, traits, HeapTag::LBytes, *t),
            (SendValue::Blob(bytes, t), HeapObject::LBytesMut { data, traits }) => bytes@ == data@
                && traits_mirror(s, names, keys, traits, HeapTag::LBytesMut, *t),
            (SendValue::LBox(c, t), HeapObject::LBox { cell, traits }) => mirrors(
                s,
                names,
                keys,
                cell,
                *c,
            ) && traits_mirror(s, names, keys, traits, HeapTag::LBox, *t),
            (SendValue::CaptureCell(c, t), HeapObject::CaptureCell { cell, traits }) => mirrors(
                s,
                names,
                keys,
                cell,
                *c,
            ) && traits_mirror(s, names, keys, traits, HeapTag::CaptureCell, *t),
            (SendValue::Float(f), HeapObject::Float(g)) => f == g,
            (SendValue::FFIType(a), HeapObject::FFIType(b)) => a.same(b),
            (SendValue::LSet(items, t), HeapObject::LSet { data, traits }) => {
                &&& items@.len() == data@.len()
                &&& forall|i: int|
                    0 <= i < items@.len() ==> mirrors(s, names, keys, data@[i], #[trigger] items@[i])
                &&& traits_mirror(s, names, keys, traits, HeapTag::LSet, *t)
            },
            (SendValue::LSetMut(items, t), HeapObject::LSetMut { data, traits }) => {
                &&& items@.len() == data@.len()
                &&& forall|i: int|
                    0 <= i < items@.len() ==> mirrors(s, names, keys, data@[i], #[trigger] items@[i])
                &&& traits_mirror(s, names, keys, traits, HeapTag::LSetMut, *t)
            },
            (SendValue::ChanSender(end), HeapObject::External { obj, .. }) => obj.kind_name@
                == "chan/sender"@ && obj.data == ExternalData::Channel(end),
            (SendValue::ChanReceiver(end), HeapObject::External { obj, .. }) => obj.kind_name@
                == "chan/receiver"@ && obj.data == ExternalData::Channel(end),
            (SendValue::StdioPort(kind), HeapObject::External { obj, .. }) => obj.kind_name@ == "port"@
                && obj.data == ExternalData::Port(kind) && is_stdio(kind),
            (
                SendValue::Parameter { id, default, traits },
                HeapObject::Parameter { id: n, default: d, traits: t },
            ) => id == n && mirrors(s, names, keys, d, *default) && mirrors(
                s,
                names,
                keys,
                t,
                *traits,
            ),
            (SendValue::Ref(idx), HeapObject::Closure { .. }) => idx < keys.len() && keys[idx as int]
                == v.payload,
            _ => false,
        },
    }
}

/// A constant that means the same everywhere.
pub open spec fn stays_inline(v: Value) -> bool {
    v.tag < TAG_HEAP_START && v.tag != TAG_KEYWORD && v.tag != TAG_SYMBOL
}

/// An instruction in transit: a closure constant is named by its index, any other
/// constant that means nothing elsewhere is lifted into the pool.
pub open spec fn instr_mirrors(
    s: HeapState,
    names: Names,
    keys: Seq<u64>,
    pool: Seq<SendValue>,
    a: LirInstr,
    b: LirInstr,
) -> bool {
    match a {
        LirInstr::ValueConst { dst, value } => if stays_inline(value) {
            b == a
        } else if closure_at(s, value) is Some {
            match b {
                LirInstr::Const { dst: d, value: LirConst::ClosureRef(k) } => d == dst && k < keys.len()
                    && keys[k as int] == value.payload,
                _ => false,
            }
        } else {
            match b {
                LirInstr::Const { dst: d, value: LirConst::ValueRef(k) } => d == dst && k < pool.len()
                    && mirrors(s, names, keys, value, pool[k as int]),
                _ => false,
            }
        },
        _ => b == a,
    }
}

/// A block in transit.
pub open spec fn block_mirrors(
    s: HeapState,
    names: Names,
    keys: Seq<u64>,
    pool: Seq<SendValue>,
    a: BasicBlock,
    b: BasicBlock,
) -> bool {
    &&& b.label == a.label
    &&& b.terminator == a.terminator
    &&& b.instructions@.len() == a.instructions@.len()
    &&& forall|i: int|
        0 <= i < a.instructions@.len() ==> instr_mirrors(
            s,
            names,
            keys,
            pool,
            a.instructions@[i],
            #[trigger] b.instructions@[i],
        )
}

/// Some instruction loads entry `k` of a pool.
pub open spec fn loads(blocks: Seq<BasicBlock>, k: int) -> bool {
    exists|b: int, i: int|
        0 <= b < blocks.len() && 0 <= i < blocks[b].instructions@.len() && is_load(
            #[trigger] blocks[b].instructions@[i],
            k,
        )
}

/// The instruction loads entry `k` of a pool.
pub open spec fn is_load(instr: LirInstr, k: int) -> bool {
    match instr {
        LirInstr::Const { value: LirConst::ValueRef(n), .. } => n == k,
        _ => false,
    }
}

/// Code in transit, without its documentation.
pub open spec fn lir_mirrors(
    s: HeapState,
    names: Names,
    keys: Seq<u64>,
    pool: Seq<SendValue>,
    a: LirFunction,
    b: LirFunction,
) -> bool {
    &&& b.framed_as(a)
    &&& b.doc is None
    &&& forall|k: int| 0 <= k < pool.len() ==> #[trigger] loads(b.blocks@, k)
    &&& b.blocks@.len() == a.blocks@.len()
    &&& forall|i: int|
        0 <= i < a.blocks@.len() ==> block_mirrors(
            s,
            names,
            keys,
            pool,
            a.blocks@[i],
            #[trigger] b.blocks@[i],
        )
}

/// Some values in transit.
pub open spec fn all_mirror(
    s: HeapState,
    names: Names,
    keys: Seq<u64>,
    values: Seq<Value>,
    items: Seq<SendValue>,
) -> bool {
    items.len() == values.len() && forall|i: int|
        0 <= i < items.len() ==> mirrors(s, names, keys, values[i], #[trigger] items[i])
}

/// A template in transit.
pub open spec fn template_mirrors(
    s: HeapState,
    names: Names,
    keys: Seq<u64>,
    t: ClosureTemplate,
    sc: SendableClosure,
) -> bool
    decreases sc,
{
    &&& carries(sc, t)
    &&& all_mirror(s, names, keys, t.constants@, sc.constants@)
    &&& match t.lir_function {
        Some(lir) => sc.lir_function is Some && lir_mirrors(
            s,
            names,
            keys,
            sc.lir_value_pool@,
            lir,
            sc.lir_function->0,
        ),
        None => sc.lir_function is None && sc.lir_value_pool@.len() == 0,
    }
    &&& sc.child_protos@.len() == t.child_protos@.len()
    &&& forall|i: int|
        0 <= i < sc.child_protos@.len() ==> template_mirrors(
            s,
            names,
            keys,
            *t.child_protos@[i],
            #[trigger] sc.child_protos@[i],
        ) && sc.child_protos@[i].squelch_mask.bits == 0 && sc.child_protos@[i].env@.len() == 0
}

/// A closure in transit.
pub open spec fn closure_mirrors(
    s: HeapState,
    names: Names,
    keys: Seq<u64>,
    c: Closure,
    sc: SendableClosure,
) -> bool {
    &&& template_mirrors(s, names, keys, c.code(), sc)
    &&& sc.squelch_mask == c.squelch_mask
    &&& all_mirror(s, names, keys, c.env@, sc.env@)
}

/// One list begins with another.
pub open spec fn begins<T>(a: Seq<T>, b: Seq<T>) -> bool {
    a.len() <= b.len() && forall|i: int| 0 <= i < a.len() ==> #[trigger] b[i] == a[i]
}

pub(crate) proof fn lemma_mirrors_keys(
    s: HeapState,
    names: Names,
    a: Seq<u64>,
    b: Seq<u64>,
    v: Value,
    sv: SendValue,
)
    requires
        begins(a, b),
        mirrors(s, names, a, v, sv),
    ensures
        mirrors(s, names, b, v, sv),
    decreases sv, 0int,
{
    match sv {
        SendValue::Pair(x, y, t) => {
            let p = s.object(v)->Pair_0;
            lemma_mirrors_keys(s, names, a, b, p.first, *x);
            lemma_mirrors_keys(s, names, a, b, p.rest, *y);
            lemma_traits_keys(s, names, a, b, p.traits, HeapTag::Pair, *t);
        },
        SendValue::Array(items, t) => {
            let data = s.object(v)->LArrayMut_data@;
            assert forall|i: int| 0 <= i < items@.len() implies mirrors(
                s,
                names,
                b,
                data[i],
                #[trigger] items@[i],
            ) by {
                lemma_mirrors_keys(s, names, a, b, data[i], items@[i]);
            }
            lemma_traits_keys(
                s,
                names,
                a,
                b,
                s.object(v)->LArrayMut_traits,
                HeapTag::LArrayMut,
                *t,
            );
        },
        SendValue::Tuple(items, t) => {
            let data = s.object(v)->LArray_elements@;
            assert forall|i: int| 0 <= i < items@.len() implies mirrors(
                s,
                names,
                b,
                data[i],
                #[trigger] items@[i],
            ) by {
                lemma_mirrors_keys(s, names, a, b, data[i], items@[i]);
            }
            lemma_traits_keys(s, names, a, b, s.object(v)->LArray_traits, HeapTag::LArray, *t);
        },
        SendValue::Struct(entries, t) => {
            let data = s.object(v)->LStruct_data@;
            assert forall|i: int| 0 <= i < entries@.len() implies (#[trigger] entries@[i]).0.same(
                data[i].0,
            ) && mirrors(s, names, b, data[i].1, entries@[i].1) by {
                lemma_mirrors_keys(s, names, a, b, data[i].1, entries@[i].1);
            }
            lemma_traits_keys(s, names, a, b, s.object(v)->LStruct_traits, HeapTag::LStruct, *t);
        },
        SendValue::StructMut(entries, t) => {
            let data = s.object(v)->LStructMut_data@;
            assert forall|i: int| 0 <= i < entries@.len() implies (#[trigger] entries@[i]).0.same(
                data[i].0,
            ) && mirrors(s, names, b, data[i].1, entries@[i].1) by {
                lemma_mirrors_keys(s, names, a, b, data[i].1, entries@[i].1);
            }
            lemma_traits_keys(
                s,
                names,
                a,
                b,
                s.object(v)->LStructMut_traits,
                HeapTag::LStructMut,
                *t,
            );
        },
        SendValue::Buffer(_, t) => lemma_traits_keys(
            s,
            names,
            a,
            b,
            s.object(v)->LStringMut_traits,
            HeapTag::LStringMut,
            *t,
        ),
        SendValue::Bytes(_, t) => lemma_traits_keys(
            s,
            names,
            a,
            b,
            s.object(v)->LBytes_traits,
            HeapTag::LBytes,
            *t,
        ),
        SendValue::Blob(_, t) => lemma_traits_keys(
            s,
            names,
            a,
            b,
            s.object(v)->LBytesMut_traits,
            HeapTag::LBytesMut,
            *t,
        ),
        SendValue::LBox(c, t) => {
            lemma_mirrors_keys(s, names, a, b, s.object(v)->LBox_cell, *c);
            lemma_traits_keys(s, names, a, b, s.object(v)->LBox_traits, HeapTag::LBox, *t);
        },
        SendValue::CaptureCell(c, t) => {
            lemma_mirrors_keys(s, names, a, b, s.object(v)->CaptureCell_cell, *c);
            lemma_traits_keys(
                s,
                names,
                a,
                b,
                s.object(v)->CaptureCell_traits,
                HeapTag::CaptureCell,
                *t,
            );
        },
        SendValue::LSet(items, t) => {
            let data = s.object(v)->LSet_data@;
            assert forall|i: int| 0 <= i < items@.len() implies mirrors(
                s,
                names,
                b,
                data[i],
                #[trigger] items@[i],
            ) by {
                lemma_mirrors_keys(s, names, a, b, data[i], items@[i]);
            }
            lemma_traits_keys(s, names, a, b, s.object(v)->LSet_traits, HeapTag::LSet, *t);
        },
        SendValue::LSetMut(items, t) => {
            let data = s.object(v)->LSetMut_data@;
            assert forall|i: int| 0 <= i < items@.len() implies mirrors(
                s,
                names,
                b,
                data[i],
                #[trigger] items@[i],
            ) by {
                lemma_mirrors_keys(s, names, a, b, data[i], items@[i]);
            }
            lemma_traits_keys(s, names, a, b, s.object(v)->LSetMut_traits, HeapTag::LSetMut, *t);
        },
        SendValue::Parameter { default, traits, .. } => {
            lemma_mirrors_keys(s, names, a, b, s.object(v)->Parameter_default, *default);
            lemma_mirrors_keys(s, names, a, b, s.object(v)->Parameter_traits, *traits);
        },
        SendValue::Ref(idx) => {
            assert(b[idx as int] == a[idx as int]);
        },
        _ => {},
    }
}

pub(crate) proof fn lemma_traits_keys(
    s: HeapState,
    names: Names,
    a: Seq<u64>,
    b: Seq<u64>,
    traits: Value,
    tag: HeapTag,
    sv: SendValue,
)
    requires
        begins(a, b),
        traits_mirror(s, names, a, traits, tag, sv),
    ensures
        traits_mirror(s, names, b, traits, tag, sv),
    decreases sv, 1int,
{
    if traits_travel(s, traits, tag) {
        lemma_mirrors_keys(s, names, a, b, traits, sv);
    }
}

pub(crate) proof fn lemma_all_keys(
    s: HeapState,
    names: Names,
    a: Seq<u64>,
    b: Seq<u64>,
    values: Seq<Value>,
    items: Seq<SendValue>,
)
    requires
        begins(a, b),
        all_mirror(s, names, a, values, items),
    ensures
        all_mirror(s, names, b, values, items),
{
    assert forall|i: int| 0 <= i < items.len() implies mirrors(
        s,
        names,
        b,
        values[i],
        #[trigger] items[i],
    ) by {
        lemma_mirrors_keys(s, names, a, b, values[i], items[i]);
    }
}

pub(crate) proof fn lemma_instr_keys(
    s: HeapState,
    names: Names,
    a: Seq<u64>,
    b: Seq<u64>,
    p: Seq<SendValue>,
    q: Seq<SendValue>,
    x: LirInstr,
    y: LirInstr,
)
    requires
        begins(a, b),
        begins(p, q),
        instr_mirrors(s, names, a, p, x, y),
    ensures
        instr_mirrors(s, names, b, q, x, y),
{
    match (x, y) {
        (
            LirInstr::ValueConst { dst, value },
            LirInstr::Const { dst: d, value: LirConst::ClosureRef(k) },
        ) => if !stays_inline(value) {
            assert(b[k as int] == a[k as int]);
        },
        (
            LirInstr::ValueConst { dst, value },
            LirInstr::Const { dst: d, value: LirConst::ValueRef(k) },
        ) => if !stays_inline(value) && closure_at(s, value) is None {
            assert(q[k as int] == p[k as int]);
            lemma_mirrors_keys(s, names, a, b, value, p[k as int]);
        },
        _ => {},
    }
}

pub(crate) proof fn lemma_block_keys(
    s: HeapState,
    names: Names,
    a: Seq<u64>,
    b: Seq<u64>,
    p: Seq<SendValue>,
    q: Seq<SendValue>,
    x: BasicBlock,
    y: BasicBlock,
)
    requires
        begins(a, b),
        begins(p, q),
        block_mirrors(s, names, a, p, x, y),
    ensures
        block_mirrors(s, names, b, q, x, y),
{
    assert forall|i: int| 0 <= i < x.instructions@.len() implies instr_mirrors(
        s,
        names,
        b,
        q,
        x.instructions@[i],
        #[trigger] y.instructions@[i],
    ) by {
        lemma_instr_keys(s, names, a, b, p, q, x.instructions@[i], y.instructions@[i]);
    }
}

pub(crate) proof fn lemma_lir_keys(
    s: HeapState,
    names: Names,
    a: Seq<u64>,
    b: Seq<u64>,
    p: Seq<SendValue>,
    x: LirFunction,
    y: LirFunction,
)
    requires
        begins(a, b),
        lir_mirrors(s, names, a, p, x, y),
    ensures
        lir_mirrors(s, names, b, p, x, y),
{
    assert forall|i: int| 0 <= i < x.blocks@.len() implies block_mirrors(
        s,
        names,
        b,
        p,
        x.blocks@[i],
        #[trigger] y.blocks@[i],
    ) by {
        lemma_block_keys(s, names, a, b, p, p, x.blocks@[i], y.blocks@[i]);
    }
}

pub(crate) proof fn lemma_template_keys(
    s: HeapState,
    names: Names,
    a: Seq<u64>,
    b: Seq<u64>,
    t: ClosureTemplate,
    sc: SendableClosure,
)
    requires
        begins(a, b),
        template_mirrors(s, names, a, t, sc),
    ensures
        template_mirrors(s, names, b, t, sc),
    decreases sc,
{
    lemma_all_keys(s, names, a, b, t.constants@, sc.constants@);
    if let Some(lir) = t.lir_function {
        lemma_lir_keys(s, names, a, b, sc.lir_value_pool@, lir, sc.lir_function->0);
    }
    assert forall|i: int| 0 <= i < sc.child_protos@.len() implies template_mirrors(
        s,
        names,
        b,
        *t.child_protos@[i],
        #[trigger] sc.child_protos@[i],
    ) && sc.child_protos@[i].squelch_mask.bits == 0 && sc.child_protos@[i].env@.len() == 0 by {
        lemma_template_keys(s, names, a, b, *t.child_protos@[i], sc.child_protos@[i]);
    }
}

pub(crate) proof fn lemma_closure_keys(
    s: HeapState,
    names: Names,
    a: Seq<u64>,
    b: Seq<u64>,
    c: Closure,
    sc: SendableClosure,
)
    requires
        begins(a, b),
        closure_mirrors(s, names, a, c, sc),
    ensures
        closure_mirrors(s, names, b, c, sc),
{
    lemma_template_keys(s, names, a, b, c.code(), sc);
    lemma_all_keys(s, names, a, b, c.env@, sc.env@);
}

/// Key-value entries in transit.
pub open spec fn entries_mirror(
    s: HeapState,
    names: Names,
    keys: Seq<u64>,
    data: Seq<(TableKey, Value)>,
    entries: Seq<(TableKey, SendValue)>,
) -> bool {
    entries.len() == data.len() && forall|i: int|
        0 <= i < entries.len() ==> (#[trigger] entries[i]).0.same(data[i].0) && mirrors(
            s,
            names,
            keys,
            data[i].1,
            entries[i].1,
        )
}

pub(crate) proof fn lemma_entries_keys(
    s: HeapState,
    names: Names,
    a: Seq<u64>,
    b: Seq<u64>,
    data: Seq<(TableKey, Value)>,
    entries: Seq<(TableKey, SendValue)>,
)
    requires
        begins(a, b),
        entries_mirror(s, names, a, data, entries),
    ensures
        entries_mirror(s, names, b, data, entries),
{
    assert forall|i: int| 0 <= i < entries.len() implies (#[trigger] entries[i]).0.same(data[i].0)
        && mirrors(s, names, b, data[i].1, entries[i].1) by {
        lemma_mirrors_keys(s, names, a, b, data[i].1, entries[i].1);
    }
}

/// A bundle holds a value and every closure that it reaches, whose addresses
/// are `keys`.
pub open spec fn sent_as(
    s: HeapState,
    names: Names,
    value: Value,
    b: SendBundle,
    keys: Seq<u64>,
) -> bool {
    &&& keys.len() == b.closures@.len()
    &&& keys.no_duplicates()
    &&& mirrors(s, names, keys, value, b.root)
    &&& forall|i: int|
        0 <= i < keys.len() ==> closure_at(s, closure_value(keys[i])) is Some && closure_mirrors(
            s,
            names,
            keys,
            closure_at(s, closure_value(keys[i]))->0,
            #[trigger] b.closures@[i],
        )
}

/// A bundle holds a value and every closure that it reaches.
pub open spec fn sent(s: HeapState, names: Names, value: Value, b: SendBundle) -> bool {
    exists|keys: Seq<u64>| sent_as(s, names, value, b, keys)
}

/// The code names no entry of a bundle.
pub open spec fn lir_settled(lir: LirFunction) -> bool {
    lir_fits(lir, 0, 0)
}

/// The code of a template and its nested ones names no entry of a bundle.
pub open spec fn template_settled(t: ClosureTemplate) -> bool
    decreases t,
{
    &&& t.lir_function is Some ==> lir_settled(t.lir_function->0)
    &&& forall|i: int| 0 <= i < t.child_protos@.len() ==> template_settled(*#[trigger] t.child_protos@[i])
}

/// The code of the closures at these addresses names no entry of a bundle.
pub open spec fn settled(s: HeapState, keys: Seq<u64>) -> bool {
    forall|i: int|
        0 <= i < keys.len() ==> (closure_at(s, closure_value(#[trigger] keys[i])) matches Some(c)
            ==> template_settled(c.code()))
}

pub(crate) proof fn lemma_traits_fit(
    s: HeapState,
    names: Names,
    keys: Seq<u64>,
    traits: Value,
    tag: HeapTag,
    sv: SendValue,
)
    requires
        traits_mirror(s, names, keys, traits, tag, sv),
    ensures
        fits(sv, keys.len()),
    decreases sv, 1int,
{
    if traits_travel(s, traits, tag) {
        lemma_mirrors_fit(s, names, keys, traits, sv);
    }
}

pub(crate) proof fn lemma_mirrors_fit(
    s: HeapState,
    names: Names,
    keys: Seq<u64>,
    v: Value,
    sv: SendValue,
)
    requires
        mirrors(s, names, keys, v, sv),
    ensures
        fits(sv, keys.len()),
    decreases sv, 0int,
{
    match sv {
        SendValue::Pair(x, y, t) => {
            let p = s.object(v)->Pair_0;
            lemma_mirrors_fit(s, names, keys, p.first, *x);
            lemma_mirrors_fit(s, names, keys, p.rest, *y);
            lemma_traits_fit(s, names, keys, p.traits, HeapTag::Pair, *t);
        },
        SendValue::Array(items, t) => {
            let data = s.object(v)->LArrayMut_data@;
            assert forall|i: int| 0 <= i < items@.len() implies fits(#[trigger] items@[i], keys.len()) by {
                lemma_mirrors_fit(s, names, keys, data[i], items@[i]);
            }
            lemma_traits_fit(s, names, keys, s.object(v)->LArrayMut_traits, HeapTag::LArrayMut, *t);
        },
        SendValue::Tuple(items, t) => {
            let data = s.object(v)->LArray_elements@;
            assert forall|i: int| 0 <= i < items@.len() implies fits(#[trigger] items@[i], keys.len()) by {
                lemma_mirrors_fit(s, names, keys, data[i], items@[i]);
            }
            lemma_traits_fit(s, names, keys, s.object(v)->LArray_traits, HeapTag::LArray, *t);
        },
        SendValue::Struct(entries, t) => {
            let data = s.object(v)->LStruct_data@;
            assert forall|i: int| 0 <= i < entries@.len() implies fits(
                (#[trigger] entries@[i]).1,
                keys.len(),
            ) by {
                lemma_mirrors_fit(s, names, keys, data[i].1, entries@[i].1);
            }
            lemma_traits_fit(s, names, keys, s.object(v)->LStruct_traits, HeapTag::LStruct, *t);
        },
        SendValue::StructMut(entries, t) => {
            let data = s.object(v)->LStructMut_data@;
            assert forall|i: int| 0 <= i < entries@.len() implies fits(
                (#[trigger] entries@[i]).1,
                keys.len(),
            ) by {
                lemma_mirrors_fit(s, names, keys, data[i].1, entries@[i].1);
            }
            lemma_traits_fit(s, names, keys, s.object(v)->LStructMut_traits, HeapTag::LStructMut, *t);
        },
        SendValue::Buffer(_, t) => lemma_traits_fit(
            s,
            names,
            keys,
            s.object(v)->LStringMut_traits,
            HeapTag::LStringMut,
            *t,
        ),
        SendValue::Bytes(_, t) => lemma_traits_fit(
            s,
            names,
            keys,
            s.object(v)->LBytes_traits,
            HeapTag::LBytes,
            *t,
        ),
        SendValue::Blob(_, t) => lemma_traits_fit(
            s,
            names,
            keys,
            s.object(v)->LBytesMut_traits,
            HeapTag::LBytesMut,
            *t,
        ),
        SendValue::LBox(c, t) => {
            lemma_mirrors_fit(s, names, keys, s.object(v)->LBox_cell, *c);
            lemma_traits_fit(s, names, keys, s.object(v)->LBox_traits, HeapTag::LBox, *t);
        },
        SendValue::CaptureCell(c, t) => {
            lemma_mirrors_fit(s, names, keys, s.object(v)->CaptureCell_cell, *c);
            lemma_traits_fit(s, names, keys, s.object(v)->CaptureCell_traits, HeapTag::CaptureCell, *t);
        },
        SendValue::LSet(items, t) => {
            let data = s.object(v)->LSet_data@;
            assert forall|i: int| 0 <= i < items@.len() implies fits(#[trigger] items@[i], keys.len()) by {
                lemma_mirrors_fit(s, names, keys, data[i], items@[i]);
            }
            lemma_traits_fit(s, names, keys, s.object(v)->LSet_traits, HeapTag::LSet, *t);
        },
        SendValue::LSetMut(items, t) => {
            let data = s.object(v)->LSetMut_data@;
            assert forall|i: int| 0 <= i < items@.len() implies fits(#[trigger] items@[i], keys.len()) by {
                lemma_mirrors_fit(s, names, keys, data[i], items@[i]);
            }
            lemma_traits_fit(s, names, keys, s.object(v)->LSetMut_traits, HeapTag::LSetMut, *t);
        },
        SendValue::Parameter { default, traits, .. } => {
            lemma_mirrors_fit(s, names, keys, s.object(v)->Parameter_default, *default);
            lemma_mirrors_fit(s, names, keys, s.object(v)->Parameter_traits, *traits);
        },
        _ => {},
    }
}

pub(crate) proof fn lemma_all_fit(
    s: HeapState,
    names: Names,
    keys: Seq<u64>,
    values: Seq<Value>,
    items: Seq<SendValue>,
)
    requires
        all_mirror(s, names, keys, values, items),
    ensures
        all_fit(items, keys.len()),
{
    assert forall|i: int| 0 <= i < items.len() implies fits(#[trigger] items[i], keys.len()) by {
        lemma_mirrors_fit(s, names, keys, values[i], items[i]);
    }
}

pub(crate) proof fn lemma_lir_fits(
    s: HeapState,
    names: Names,
    keys: Seq<u64>,
    pool: Seq<SendValue>,
    a: LirFunction,
    b: LirFunction,
)
    requires
        lir_mirrors(s, names, keys, pool, a, b),
        lir_settled(a),
    ensures
        lir_fits(b, keys.len(), pool.len()),
        all_fit(pool, keys.len()),
{
    assert forall|n: int, i: int|
        0 <= n < b.blocks@.len() && 0 <= i < b.blocks@[n].instructions@.len() implies instr_fits(
        #[trigger] b.blocks@[n].instructions@[i],
        keys.len(),
        pool.len(),
    ) by {
        assert(block_mirrors(s, names, keys, pool, a.blocks@[n], b.blocks@[n]));
        assert(instr_fits(a.blocks@[n].instructions@[i], 0, 0));
    }
    assert forall|k: int| 0 <= k < pool.len() implies fits(#[trigger] pool[k], keys.len()) by {
        assert(loads(b.blocks@, k));
        let (n, i) = choose|n: int, i: int|
            0 <= n < b.blocks@.len() && 0 <= i < b.blocks@[n].instructions@.len() && is_load(
                #[trigger] b.blocks@[n].instructions@[i],
                k,
            );
        assert(block_mirrors(s, names, keys, pool, a.blocks@[n], b.blocks@[n]));
        assert(instr_mirrors(
            s,
            names,
            keys,
            pool,
            a.blocks@[n].instructions@[i],
            b.blocks@[n].instructions@[i],
        ));
        assert(instr_fits(a.blocks@[n].instructions@[i], 0, 0));
        let v = a.blocks@[n].instructions@[i]->ValueConst_value;
        lemma_mirrors_fit(s, names, keys, v, pool[k]);
    }
}

pub(crate) proof fn lemma_template_fits(
    s: HeapState,
    names: Names,
    keys: Seq<u64>,
    t: ClosureTemplate,
    sc: SendableClosure,
    env: Seq<Value>,
)
    requires
        template_mirrors(s, names, keys, t, sc),
        template_settled(t),
        all_mirror(s, names, keys, env, sc.env@),
    ensures
        closure_fits(sc, keys.len()),
    decreases sc,
{
    lemma_all_fit(s, names, keys, t.constants@, sc.constants@);
    lemma_all_fit(s, names, keys, env, sc.env@);
    if t.lir_function is Some {
        lemma_lir_fits(
            s,
            names,
            keys,
            sc.lir_value_pool@,
            t.lir_function->0,
            sc.lir_function->0,
        );
    }
    assert forall|i: int| 0 <= i < sc.child_protos@.len() implies closure_fits(
        #[trigger] sc.child_protos@[i],
        keys.len(),
    ) by {
        lemma_template_fits(
            s,
            names,
            keys,
            *t.child_protos@[i],
            sc.child_protos@[i],
            Seq::empty(),
        );
    }
}

/// Every part of a mirrored object is an immediate or mirrored in turn.
pub(crate) proof fn lemma_part_mirrored(
    s: HeapState,
    names: Names,
    value: Value,
    b: SendBundle,
    keys: Seq<u64>,
    v: Value,
    sv: SendValue,
    p: Value,
)
    requires
        sent_as(s, names, value, b, keys),
        v.tag >= TAG_HEAP_START,
        mirrors(s, names, keys, v, sv),
        is_part(s, s.object(v), p),
    ensures
        p.tag < TAG_HEAP_START || exists|q: SendValue| mirrors(s, names, keys, p, q),
{
    if p.tag >= TAG_HEAP_START {
        match sv {
            SendValue::Array(items, t) => {
                let data = s.object(v)->LArrayMut_data@;
                if data.contains(p) {
                    let i = choose|i: int| 0 <= i < data.len() && data[i] == p;
                    assert(mirrors(s, names, keys, data[i], items@[i]));
                } else {
                    assert(traits_mirror(s, names, keys, p, HeapTag::LArrayMut, *t));
                    assert(mirrors(s, names, keys, p, *t));
                }
            },
            SendValue::Tuple(items, t) => {
                let data = s.object(v)->LArray_elements@;
                if data.contains(p) {
                    let i = choose|i: int| 0 <= i < data.len() && data[i] == p;
                    assert(mirrors(s, names, keys, data[i], items@[i]));
                } else {
                    assert(traits_mirror(s, names, keys, p, HeapTag::LArray, *t));
                    assert(mirrors(s, names, keys, p, *t));
                }
            },
            SendValue::LSet(items, t) => {
                let data = s.object(v)->LSet_data@;
                if data.contains(p) {
                    let i = choose|i: int| 0 <= i < data.len() && data[i] == p;
                    assert(mirrors(s, names, keys, data[i], items@[i]));
                } else {
                    assert(traits_mirror(s, names, keys, p, HeapTag::LSet, *t));
                    assert(mirrors(s, names, keys, p, *t));
                }
            },
            SendValue::LSetMut(items, t) => {
                let data = s.object(v)->LSetMut_data@;
                if data.contains(p) {
                    let i = choose|i: int| 0 <= i < data.len() && data[i] == p;
                    assert(mirrors(s, names, keys, data[i], items@[i]));
                } else {
                    assert(traits_mirror(s, names, keys, p, HeapTag::LSetMut, *t));
                    assert(mirrors(s, names, keys, p, *t));
                }
            },
            SendValue::Struct(entries, t) => {
                let data = s.object(v)->LStruct_data@;
                if exists|i: int| 0 <= i < data.len() && (#[trigger] data[i]).1 == p {
                    let i = choose|i: int| 0 <= i < data.len() && (#[trigger] data[i]).1 == p;
                    assert(mirrors(s, names, keys, data[i].1, entries@[i].1));
                } else {
                    assert(traits_mirror(s, names, keys, p, HeapTag::LStruct, *t));
                    assert(mirrors(s, names, keys, p, *t));
                }
            },
            SendValue::StructMut(entries, t) => {
                let data = s.object(v)->LStructMut_data@;
                if exists|i: int| 0 <= i < data.len() && (#[trigger] data[i]).1 == p {
                    let i = choose|i: int| 0 <= i < data.len() && (#[trigger] data[i]).1 == p;
                    assert(mirrors(s, names, keys, data[i].1, entries@[i].1));
                } else {
                    assert(traits_mirror(s, names, keys, p, HeapTag::LStructMut, *t));
                    assert(mirrors(s, names, keys, p, *t));
                }
            },
            SendValue::Ref(idx) => {
                assert(closure_value(keys[idx as int]) == v);
                let c = closure_at(s, v)->0;
                let sc = b.closures@[idx as int];
                assert(closure_mirrors(s, names, keys, c, sc));
                if c.env@.contains(p) {
                    let i = choose|i: int| 0 <= i < c.env@.len() && c.env@[i] == p;
                    assert(mirrors(s, names, keys, c.env@[i], sc.env@[i]));
                } else {
                    lemma_template_part(s, names, keys, c.code(), sc, p);
                }
            },
            SendValue::Pair(x, y, t) => {
                let c = s.object(v)->Pair_0;
                assert(mirrors(s, names, keys, c.first, *x));
                assert(mirrors(s, names, keys, c.rest, *y));
                assert(traits_mirror(s, names, keys, c.traits, HeapTag::Pair, *t));
                assert(p != c.first && p != c.rest ==> mirrors(s, names, keys, c.traits, *t));
            },
            SendValue::Buffer(_, t) => {
                assert(traits_mirror(s, names, keys, p, HeapTag::LStringMut, *t));
                assert(mirrors(s, names, keys, p, *t));
            },
            SendValue::Bytes(_, t) => {
                assert(traits_mirror(s, names, keys, p, HeapTag::LBytes, *t));
                assert(mirrors(s, names, keys, p, *t));
            },
            SendValue::Blob(_, t) => {
                assert(traits_mirror(s, names, keys, p, HeapTag::LBytesMut, *t));
                assert(mirrors(s, names, keys, p, *t));
            },
            SendValue::LBox(c, t) => {
                assert(mirrors(s, names, keys, s.object(v)->LBox_cell, *c));
                assert(traits_mirror(
                    s,
                    names,
                    keys,
                    s.object(v)->LBox_traits,
                    HeapTag::LBox,
                    *t,
                ));
                assert(p != s.object(v)->LBox_cell ==> mirrors(s, names, keys, p, *t));
            },
            SendValue::CaptureCell(c, t) => {
                assert(mirrors(s, names, keys, s.object(v)->CaptureCell_cell, *c));
                assert(traits_mirror(
                    s,
                    names,
                    keys,
                    s.object(v)->CaptureCell_traits,
                    HeapTag::CaptureCell,
                    *t,
                ));
                assert(p != s.object(v)->CaptureCell_cell ==> mirrors(s, names, keys, p, *t));
            },
            SendValue::Parameter { default, traits, .. } => {
                assert(mirrors(s, names, keys, s.object(v)->Parameter_default, *default));
                assert(mirrors(s, names, keys, s.object(v)->Parameter_traits, *traits));
            },
            _ => {},
        }
    }
}

pub(crate) proof fn lemma_template_part(
    s: HeapState,
    names: Names,
    keys: Seq<u64>,
    t: ClosureTemplate,
    sc: SendableClosure,
    p: Value,
)
    requires
        template_mirrors(s, names, keys, t, sc),
        template_holds(t, p),
        p.tag >= TAG_HEAP_START,
    ensures
        exists|q: SendValue| mirrors(s, names, keys, p, q),
    decreases sc,
{
    if t.constants@.contains(p) {
        let i = choose|i: int| 0 <= i < t.constants@.len() && t.constants@[i] == p;
        assert(mirrors(s, names, keys, t.constants@[i], sc.constants@[i]));
    } else if t.lir_function is Some && lir_holds(t.lir_function->0, p) {
        let a = t.lir_function->0;
        let b = sc.lir_function->0;
        let (n, i) = choose|n: int, i: int|
            0 <= n < a.blocks@.len() && 0 <= i < a.blocks@[n].instructions@.len() && is_constant(
                #[trigger] a.blocks@[n].instructions@[i],
                p,
            );
        assert(block_mirrors(s, names, keys, sc.lir_value_pool@, a.blocks@[n], b.blocks@[n]));
        assert(instr_mirrors(
            s,
            names,
            keys,
            sc.lir_value_pool@,
            a.blocks@[n].instructions@[i],
            b.blocks@[n].instructions@[i],
        ));
        if closure_at(s, p) is Some {
            let k = b.blocks@[n].instructions@[i]->Const_value->ClosureRef_0;
            assert(mirrors(s, names, keys, p, SendValue::Ref(k)));
        }
    } else {
        let i = choose|i: int|
            0 <= i < t.child_protos@.len() && template_holds(*#[trigger] t.child_protos@[i], p);
        lemma_template_part(s, names, keys, t.proto(i), sc.child_protos@[i], p);
    }
}

pub(crate) proof fn lemma_mirrored_not_refused(
    s: HeapState,
    names: Names,
    value: Value,
    b: SendBundle,
    keys: Seq<u64>,
    v: Value,
    sv: SendValue,
    depth: nat,
    why: Seq<char>,
)
    requires
        sent_as(s, names, value, b, keys),
        mirrors(s, names, keys, v, sv),
    ensures
        !refuses_within(s, v, depth, why),
    decreases depth,
{
    if refuses_within(s, v, depth, why) {
        assert(object_refusal(s.object(v)) is None);
        let p = choose|p: Value| #[trigger]
            is_part(s, s.object(v), p) && refuses_within(s, p, (depth - 1) as nat, why);
        lemma_part_mirrored(s, names, value, b, keys, v, sv, p);
        let q = choose|q: SendValue| mirrors(s, names, keys, p, q);
        lemma_mirrored_not_refused(s, names, value, b, keys, p, q, (depth - 1) as nat, why);
    }
}

/// A value is refused exactly where something it reaches cannot be sent: what
/// was sent reaches nothing of that kind.
pub proof fn lemma_sent_reaches_only_sendable(
    s: HeapState,
    names: Names,
    value: Value,
    b: SendBundle,
    why: Seq<char>,
)
    requires
        sent(s, names, value, b),
    ensures
        !refuses(s, value, why),
{
    let keys = choose|keys: Seq<u64>| sent_as(s, names, value, b, keys);
    if refuses(s, value, why) {
        let depth = choose|depth: nat| refuses_within(s, value, depth, why);
        lemma_mirrored_not_refused(s, names, value, b, keys, value, b.root, depth, why);
    }
}

} // verus!
