//! What arrives is what was sent.

use vstd::prelude::*;

use crate::ffi::lemma_same_type_symmetric;
use crate::heap::HeapState;
use crate::lir::{LirConst, LirFunction, LirInstr};
use crate::object::{ClosureTemplate, HeapTag};
use crate::prim::closure_at;
use crate::sendarrive::{
    all_rebuilt, arrived_as, block_rebuilt, cell_rebuilt, closure_rebuilt, instr_rebuilt, lir_rebuilt, node,
    rebuilt, template_rebuilt, traits_rebuilt, Arrival,
};
use crate::sendmirror::{
    all_mirror, block_mirrors, closure_mirrors, closure_value, has_identity_key, instr_mirrors, lir_mirrors,
    lir_settled, mirrors, own, sent_as, settled, stays_inline, template_mirrors, template_settled,
    traits_mirror, traits_travel, Names,
};
use crate::sendvalue::{instr_fits, SendBundle, SendValue, SendableClosure};
use crate::value::{Value, TAG_CLOSURE, TAG_KEYWORD, TAG_NIL, TAG_SYMBOL};

verus! {

/// The names that a rebuilt value goes by. A symbol keeps its name, not its number.
pub open spec fn again(w: Arrival) -> Names {
    Names { table: w.symbols, numbered: false }
}

/// An object, as far as the value in transit shows.
pub open spec fn is_object(sv: SendValue) -> bool {
    !(sv is Immediate || sv is Keyword || sv is Symbol || sv is Float)
}

/// Traits that were left out, or are an object that arrives whole.
pub open spec fn traits_portable(open: Set<int>, sv: SendValue) -> bool
    decreases sv, 1int,
{
    match sv {
        SendValue::Immediate(x) => x.tag == TAG_NIL,
        _ => is_object(sv) && portable(open, sv),
    }
}

/// Nothing is lost on the way while the closures in `open` are being rebuilt: only
/// cells refer to one of those, and every keyword and symbol has a name.
pub open spec fn portable(open: Set<int>, sv: SendValue) -> bool
    decreases sv, 0int,
{
    match sv {
        SendValue::Immediate(x) => x.tag != TAG_KEYWORD && x.tag != TAG_SYMBOL,
        SendValue::Ref(idx) => !open.contains(idx as int),
        SendValue::Pair(a, b, t) => portable(open, *a) && portable(open, *b) && traits_portable(open, *t),
        SendValue::Array(items, t) => traits_portable(open, *t) && forall|i: int|
            0 <= i < items@.len() ==> portable(open, #[trigger] items@[i]),
        SendValue::Tuple(items, t) => traits_portable(open, *t) && forall|i: int|
            0 <= i < items@.len() ==> portable(open, #[trigger] items@[i]),
        SendValue::Struct(entries, t) => traits_portable(open, *t) && forall|i: int|
            0 <= i < entries@.len() ==> portable(open, (#[trigger] entries@[i]).1),
        SendValue::StructMut(entries, t) => traits_portable(open, *t) && forall|i: int|
            0 <= i < entries@.len() ==> portable(open, (#[trigger] entries@[i]).1),
        SendValue::Buffer(_, t) => traits_portable(open, *t),
        SendValue::Bytes(_, t) => traits_portable(open, *t),
        SendValue::Blob(_, t) => traits_portable(open, *t),
        SendValue::LBox(c, t) => (*c is Ref || portable(open, *c)) && traits_portable(open, *t),
        SendValue::CaptureCell(c, t) => (*c is Ref || portable(open, *c)) && traits_portable(open, *t),
        SendValue::LSet(items, t) => traits_portable(open, *t) && forall|i: int|
            0 <= i < items@.len() ==> portable(open, #[trigger] items@[i]),
        SendValue::LSetMut(items, t) => traits_portable(open, *t) && forall|i: int|
            0 <= i < items@.len() ==> portable(open, #[trigger] items@[i]),
        SendValue::Parameter { default, traits, .. } => portable(open, *default) && portable(open, *traits),
        _ => true,
    }
}

/// Nothing of these values is lost on the way.
pub open spec fn all_portable(open: Set<int>, items: Seq<SendValue>) -> bool {
    forall|i: int| 0 <= i < items.len() ==> portable(open, #[trigger] items[i])
}

/// The instruction names no closure that is being rebuilt.
pub open spec fn instr_portable(open: Set<int>, instr: LirInstr) -> bool {
    match instr {
        LirInstr::Const { value: LirConst::ClosureRef(k), .. } => !open.contains(k as int),
        _ => true,
    }
}

/// Nothing of a template is lost on the way.
pub open spec fn template_portable(open: Set<int>, sc: SendableClosure) -> bool
    decreases sc,
{
    &&& all_portable(open, sc.constants@)
    &&& all_portable(open, sc.lir_value_pool@)
    &&& sc.lir_function is Some ==> forall|b: int, i: int|
        0 <= b < sc.lir_function->0.blocks@.len() && 0 <= i
            < sc.lir_function->0.blocks@[b].instructions@.len() ==> instr_portable(
            open,
            #[trigger] sc.lir_function->0.blocks@[b].instructions@[i],
        )
    &&& forall|i: int|
        0 <= i < sc.child_protos@.len() ==> template_portable(open, #[trigger] sc.child_protos@[i])
}

/// Nothing of a closure is lost on the way.
pub open spec fn closure_portable(open: Set<int>, sc: SendableClosure) -> bool {
    template_portable(open, sc) && all_portable(open, sc.env@)
}

/// The receiver's default traits were there before the bundle.
pub open spec fn defaults_older(w: Arrival) -> bool {
    forall|i: int|
        0 <= i < w.heap.traits.len() ==> (#[trigger] w.heap.traits[i]).tag == TAG_NIL || (w.heap.target(
            w.heap.traits[i],
        ) is Some && w.heap.target(w.heap.traits[i])->0 < w.lo)
}

/// The addresses of the rebuilt closures, by index.
pub open spec fn rebuilt_at(w: Arrival, kept: Seq<u64>) -> bool {
    &&& w.fixed
    &&& w.heap.valid()
    &&& defaults_older(w)
    &&& forall|i: int| #[trigger]
        w.done.contains_key(i) ==> 0 <= i < kept.len() && node(w, w.done[i], TAG_CLOSURE) && w.heap.object(
            w.done[i],
        ) is Closure && kept[i] == w.done[i].payload
}

proof fn lemma_ref_trip(w: Arrival, kept: Seq<u64>, idx: usize, v: Value)
    requires
        rebuilt_at(w, kept),
        w.done.contains_key(idx as int),
        w.done[idx as int] == v,
    ensures
        mirrors(w.heap, again(w), kept, v, SendValue::Ref(idx)),
{
}

proof fn lemma_traits_trip(
    s: HeapState,
    names: Names,
    keys: Seq<u64>,
    w: Arrival,
    kept: Seq<u64>,
    open: Set<int>,
    a: Value,
    b: Value,
    tag: HeapTag,
    sv: SendValue,
)
    requires
        rebuilt_at(w, kept),
        traits_mirror(s, names, keys, a, tag, sv),
        traits_rebuilt(w, open, b, tag, sv),
        traits_portable(open, sv),
    ensures
        traits_mirror(w.heap, again(w), kept, b, tag, sv),
    decreases sv, 1int,
{
    let default = w.heap.traits[tag.slot()];
    if traits_travel(s, a, tag) {
        lemma_trip(s, names, keys, w, kept, open, a, b, sv);
        assert(default.tag == TAG_NIL || w.heap.target(default)->0 < w.lo);
    }
}

proof fn lemma_raw_traits_trip(
    s: HeapState,
    names: Names,
    keys: Seq<u64>,
    w: Arrival,
    kept: Seq<u64>,
    open: Set<int>,
    a: Value,
    b: Value,
    tag: HeapTag,
    sv: SendValue,
)
    requires
        rebuilt_at(w, kept),
        traits_mirror(s, names, keys, a, tag, sv),
        rebuilt(w, open, b, sv),
        traits_portable(open, sv),
    ensures
        traits_mirror(w.heap, again(w), kept, b, tag, sv),
    decreases sv, 1int,
{
    let default = w.heap.traits[tag.slot()];
    if traits_travel(s, a, tag) {
        lemma_trip(s, names, keys, w, kept, open, a, b, sv);
        assert(default.tag == TAG_NIL || w.heap.target(default)->0 < w.lo);
    }
}

/// A value that was sent as `sv` and one that was rebuilt from it are the same in
/// transit.
proof fn lemma_trip(
    s: HeapState,
    names: Names,
    keys: Seq<u64>,
    w: Arrival,
    kept: Seq<u64>,
    open: Set<int>,
    u: Value,
    v: Value,
    sv: SendValue,
)
    requires
        rebuilt_at(w, kept),
        mirrors(s, names, keys, u, sv),
        rebuilt(w, open, v, sv),
        portable(open, sv),
    ensures
        mirrors(w.heap, again(w), kept, v, sv),
    decreases sv, 0int,
{
    match sv {
        SendValue::Pair(x, y, t) => {
            let (p, q) = (s.object(u)->Pair_0, w.heap.object(v)->Pair_0);
            lemma_trip(s, names, keys, w, kept, open, p.first, q.first, *x);
            lemma_trip(s, names, keys, w, kept, open, p.rest, q.rest, *y);
            lemma_traits_trip(s, names, keys, w, kept, open, p.traits, q.traits, HeapTag::Pair, *t);
        },
        SendValue::Array(items, t) => {
            let data = w.heap.object(v)->LArrayMut_data@;
            let sent = s.object(u)->LArrayMut_data@;
            assert forall|i: int| 0 <= i < items@.len() implies mirrors(
                w.heap,
                again(w),
                kept,
                data[i],
                #[trigger] items@[i],
            ) by {
                lemma_trip(s, names, keys, w, kept, open, sent[i], data[i], items@[i]);
            }
            lemma_traits_trip(
                s,
                names,
                keys,
                w,
                kept,
                open,
                s.object(u)->LArrayMut_traits,
                w.heap.object(v)->LArrayMut_traits,
                HeapTag::LArrayMut,
                *t,
            );
        },
        SendValue::Tuple(items, t) => {
            let data = w.heap.object(v)->LArray_elements@;
            let sent = s.object(u)->LArray_elements@;
            assert forall|i: int| 0 <= i < items@.len() implies mirrors(
                w.heap,
                again(w),
                kept,
                data[i],
                #[trigger] items@[i],
            ) by {
                lemma_trip(s, names, keys, w, kept, open, sent[i], data[i], items@[i]);
            }
            lemma_traits_trip(
                s,
                names,
                keys,
                w,
                kept,
                open,
                s.object(u)->LArray_traits,
                w.heap.object(v)->LArray_traits,
                HeapTag::LArray,
                *t,
            );
        },
        SendValue::Struct(entries, t) => {
            let data = w.heap.object(v)->LStruct_data@;
            let sent = s.object(u)->LStruct_data@;
            assert forall|i: int| 0 <= i < entries@.len() implies (#[trigger] entries@[i]).0.same(data[i].0)
                && mirrors(w.heap, again(w), kept, data[i].1, entries@[i].1) && !(data[i].0 is Identity) by {
                lemma_trip(s, names, keys, w, kept, open, sent[i].1, data[i].1, entries@[i].1);
                assert(entries@[i].0.same(sent[i].0));
                assert(!(sent[i].0 is Identity));
            }
            assert(!has_identity_key(data)) by {
                if has_identity_key(data) {
                    let i = choose|i: int| 0 <= i < data.len() && (#[trigger] data[i]).0 is Identity;
                    assert(entries@[i].0.same(data[i].0));
                }
            }
            lemma_traits_trip(
                s,
                names,
                keys,
                w,
                kept,
                open,
                s.object(u)->LStruct_traits,
                w.heap.object(v)->LStruct_traits,
                HeapTag::LStruct,
                *t,
            );
        },
        SendValue::StructMut(entries, t) => {
            let data = w.heap.object(v)->LStructMut_data@;
            let sent = s.object(u)->LStructMut_data@;
            assert forall|i: int| 0 <= i < entries@.len() implies (#[trigger] entries@[i]).0.same(data[i].0)
                && mirrors(w.heap, again(w), kept, data[i].1, entries@[i].1) && !(data[i].0 is Identity) by {
                lemma_trip(s, names, keys, w, kept, open, sent[i].1, data[i].1, entries@[i].1);
                assert(entries@[i].0.same(sent[i].0));
                assert(!(sent[i].0 is Identity));
            }
            assert(!has_identity_key(data)) by {
                if has_identity_key(data) {
                    let i = choose|i: int| 0 <= i < data.len() && (#[trigger] data[i]).0 is Identity;
                    assert(entries@[i].0.same(data[i].0));
                }
            }
            lemma_traits_trip(
                s,
                names,
                keys,
                w,
                kept,
                open,
                s.object(u)->LStructMut_traits,
                w.heap.object(v)->LStructMut_traits,
                HeapTag::LStructMut,
                *t,
            );
        },
        SendValue::Buffer(_, t) => lemma_traits_trip(
            s,
            names,
            keys,
            w,
            kept,
            open,
            s.object(u)->LStringMut_traits,
            w.heap.object(v)->LStringMut_traits,
            HeapTag::LStringMut,
            *t,
        ),
        SendValue::Bytes(_, t) => lemma_traits_trip(
            s,
            names,
            keys,
            w,
            kept,
            open,
            s.object(u)->LBytes_traits,
            w.heap.object(v)->LBytes_traits,
            HeapTag::LBytes,
            *t,
        ),
        SendValue::Blob(_, t) => lemma_traits_trip(
            s,
            names,
            keys,
            w,
            kept,
            open,
            s.object(u)->LBytesMut_traits,
            w.heap.object(v)->LBytesMut_traits,
            HeapTag::LBytesMut,
            *t,
        ),
        SendValue::LBox(c, t) => {
            let cell = w.heap.object(v)->LBox_cell;
            assert(cell_rebuilt(w, open, v, cell, *c));
            if *c is Ref && open.contains((*c)->Ref_0 as int) {
                lemma_ref_trip(w, kept, (*c)->Ref_0, cell);
            } else {
                lemma_trip(s, names, keys, w, kept, open, s.object(u)->LBox_cell, cell, *c);
            }
            lemma_raw_traits_trip(
                s,
                names,
                keys,
                w,
                kept,
                open,
                s.object(u)->LBox_traits,
                w.heap.object(v)->LBox_traits,
                HeapTag::LBox,
                *t,
            );
        },
        SendValue::CaptureCell(c, t) => {
            let cell = w.heap.object(v)->CaptureCell_cell;
            assert(cell_rebuilt(w, open, v, cell, *c));
            if *c is Ref && open.contains((*c)->Ref_0 as int) {
                lemma_ref_trip(w, kept, (*c)->Ref_0, cell);
            } else {
                lemma_trip(s, names, keys, w, kept, open, s.object(u)->CaptureCell_cell, cell, *c);
            }
            lemma_raw_traits_trip(
                s,
                names,
                keys,
                w,
                kept,
                open,
                s.object(u)->CaptureCell_traits,
                w.heap.object(v)->CaptureCell_traits,
                HeapTag::CaptureCell,
                *t,
            );
        },
        SendValue::LSet(items, t) => {
            let data = w.heap.object(v)->LSet_data@;
            let sent = s.object(u)->LSet_data@;
            assert forall|i: int| 0 <= i < items@.len() implies mirrors(
                w.heap,
                again(w),
                kept,
                data[i],
                #[trigger] items@[i],
            ) by {
                lemma_trip(s, names, keys, w, kept, open, sent[i], data[i], items@[i]);
            }
            lemma_traits_trip(
                s,
                names,
                keys,
                w,
                kept,
                open,
                s.object(u)->LSet_traits,
                w.heap.object(v)->LSet_traits,
                HeapTag::LSet,
                *t,
            );
        },
        SendValue::LSetMut(items, t) => {
            let data = w.heap.object(v)->LSetMut_data@;
            let sent = s.object(u)->LSetMut_data@;
            assert forall|i: int| 0 <= i < items@.len() implies mirrors(
                w.heap,
                again(w),
                kept,
                data[i],
                #[trigger] items@[i],
            ) by {
                lemma_trip(s, names, keys, w, kept, open, sent[i], data[i], items@[i]);
            }
            lemma_traits_trip(
                s,
                names,
                keys,
                w,
                kept,
                open,
                s.object(u)->LSetMut_traits,
                w.heap.object(v)->LSetMut_traits,
                HeapTag::LSetMut,
                *t,
            );
        },
        SendValue::Parameter { default, traits, .. } => {
            lemma_trip(
                s,
                names,
                keys,
                w,
                kept,
                open,
                s.object(u)->Parameter_default,
                w.heap.object(v)->Parameter_default,
                *default,
            );
            lemma_trip(
                s,
                names,
                keys,
                w,
                kept,
                open,
                s.object(u)->Parameter_traits,
                w.heap.object(v)->Parameter_traits,
                *traits,
            );
        },
        SendValue::FFIType(desc) => lemma_same_type_symmetric(w.heap.object(v)->FFIType_0, desc),
        SendValue::Ref(idx) => lemma_ref_trip(w, kept, idx, v),
        _ => {},
    }
}

proof fn lemma_all_trip(
    s: HeapState,
    names: Names,
    keys: Seq<u64>,
    w: Arrival,
    kept: Seq<u64>,
    open: Set<int>,
    a: Seq<Value>,
    b: Seq<Value>,
    items: Seq<SendValue>,
)
    requires
        rebuilt_at(w, kept),
        all_mirror(s, names, keys, a, items),
        all_rebuilt(w, open, b, items),
        all_portable(open, items),
    ensures
        all_mirror(w.heap, again(w), kept, b, items),
{
    assert forall|i: int| 0 <= i < items.len() implies mirrors(
        w.heap,
        again(w),
        kept,
        b[i],
        #[trigger] items[i],
    ) by {
        lemma_trip(s, names, keys, w, kept, open, a[i], b[i], items[i]);
    }
}

proof fn lemma_instr_trip(
    s: HeapState,
    names: Names,
    keys: Seq<u64>,
    w: Arrival,
    kept: Seq<u64>,
    open: Set<int>,
    pool: Seq<SendValue>,
    a: LirInstr,
    sent: LirInstr,
    b: LirInstr,
)
    requires
        rebuilt_at(w, kept),
        keys.len() == kept.len(),
        instr_mirrors(s, names, keys, pool, a, sent),
        instr_rebuilt(w, open, pool, sent, b),
        instr_fits(a, 0, 0),
        instr_portable(open, sent),
        all_portable(open, pool),
    ensures
        instr_mirrors(w.heap, again(w), kept, pool, b, sent),
{
    if let LirInstr::ValueConst { value, .. } = a {
        if !stays_inline(value) {
            let back = b->ValueConst_value;
            if closure_at(s, value) is Some {
                let k = sent->Const_value->ClosureRef_0;
                assert(rebuilt(w, open, back, SendValue::Ref(k)));
                assert(w.done.contains_key(k as int));
            } else {
                let k = sent->Const_value->ValueRef_0;
                let sv = pool[k as int];
                assert(portable(open, sv));
                lemma_trip(s, names, keys, w, kept, open, value, back, sv);
                assert(mirrors(s, names, keys, value, sv));
                assert(rebuilt(w, open, back, sv));
            }
        }
    }
}

proof fn lemma_lir_trip(
    s: HeapState,
    names: Names,
    keys: Seq<u64>,
    w: Arrival,
    kept: Seq<u64>,
    open: Set<int>,
    pool: Seq<SendValue>,
    a: LirFunction,
    sent: LirFunction,
    b: LirFunction,
)
    requires
        rebuilt_at(w, kept),
        keys.len() == kept.len(),
        lir_mirrors(s, names, keys, pool, a, sent),
        lir_rebuilt(w, open, pool, sent, b),
        lir_settled(a),
        all_portable(open, pool),
        forall|n: int, i: int|
            0 <= n < sent.blocks@.len() && 0 <= i < sent.blocks@[n].instructions@.len() ==> instr_portable(
                open,
                #[trigger] sent.blocks@[n].instructions@[i],
            ),
    ensures
        lir_mirrors(w.heap, again(w), kept, pool, b, sent),
{
    assert forall|n: int| 0 <= n < b.blocks@.len() implies block_mirrors(
        w.heap,
        again(w),
        kept,
        pool,
        b.blocks@[n],
        #[trigger] sent.blocks@[n],
    ) by {
        let (p, q, r) = (a.blocks@[n], sent.blocks@[n], b.blocks@[n]);
        assert(block_mirrors(s, names, keys, pool, p, q));
        assert(block_rebuilt(w, open, pool, q, r));
        assert forall|i: int| 0 <= i < r.instructions@.len() implies instr_mirrors(
            w.heap,
            again(w),
            kept,
            pool,
            r.instructions@[i],
            #[trigger] q.instructions@[i],
        ) by {
            assert(instr_fits(a.blocks@[n].instructions@[i], 0, 0));
            assert(instr_portable(open, sent.blocks@[n].instructions@[i]));
            assert(instr_rebuilt(w, open, pool, q.instructions@[i], r.instructions@[i]));
            lemma_instr_trip(
                s,
                names,
                keys,
                w,
                kept,
                open,
                pool,
                p.instructions@[i],
                q.instructions@[i],
                r.instructions@[i],
            );
        }
    }
}

proof fn lemma_template_trip(
    s: HeapState,
    names: Names,
    keys: Seq<u64>,
    w: Arrival,
    kept: Seq<u64>,
    open: Set<int>,
    a: ClosureTemplate,
    sc: SendableClosure,
    b: ClosureTemplate,
)
    requires
        rebuilt_at(w, kept),
        keys.len() == kept.len(),
        template_mirrors(s, names, keys, a, sc),
        template_rebuilt(w, open, b, sc),
        template_settled(a),
        template_portable(open, sc),
    ensures
        template_mirrors(w.heap, again(w), kept, b, sc),
    decreases sc,
{
    lemma_all_trip(s, names, keys, w, kept, open, a.constants@, b.constants@, sc.constants@);
    if sc.lir_function is Some {
        lemma_lir_trip(
            s,
            names,
            keys,
            w,
            kept,
            open,
            sc.lir_value_pool@,
            a.lir_function->0,
            sc.lir_function->0,
            b.lir_function->0,
        );
    }
    assert forall|i: int| 0 <= i < sc.child_protos@.len() implies template_mirrors(
        w.heap,
        again(w),
        kept,
        *b.child_protos@[i],
        #[trigger] sc.child_protos@[i],
    ) && sc.child_protos@[i].squelch_mask.bits == 0 && sc.child_protos@[i].env@.len() == 0 by {
        assert(template_settled(*a.child_protos@[i]));
        lemma_template_trip(
            s,
            names,
            keys,
            w,
            kept,
            open,
            *a.child_protos@[i],
            sc.child_protos@[i],
            b.proto(i),
        );
    }
}

/// What arrives is what was sent: sent on from where it arrived, the value and every
/// closure that was met make the same bundle. A symbol arrives by its name. The
/// exceptions are what `portable` leaves out.
pub proof fn lemma_round_trip(
    s: HeapState,
    symbols: Seq<Seq<char>>,
    value: Value,
    b: SendBundle,
    keys: Seq<u64>,
    w: Arrival,
    paths: Map<int, Set<int>>,
    v: Value,
    kept: Seq<u64>,
)
    requires
        sent_as(s, own(symbols), value, b, keys),
        settled(s, keys),
        arrived_as(w, paths, b, v),
        w.heap.valid(),
        defaults_older(w),
        portable(Set::empty(), b.root),
        forall|i: int| #[trigger] paths.contains_key(i) ==> closure_portable(paths[i], b.closures@[i]),
        kept.len() == b.closures@.len(),
        forall|i: int| #[trigger] w.done.contains_key(i) ==> kept[i] == w.done[i].payload,
    ensures
        mirrors(w.heap, again(w), kept, v, b.root),
        forall|i: int| #[trigger]
            w.done.contains_key(i) ==> closure_at(w.heap, w.done[i]) is Some && closure_mirrors(
                w.heap,
                again(w),
                kept,
                closure_at(w.heap, w.done[i])->0,
                b.closures@[i],
            ),
{
    let names = own(symbols);
    assert forall|i: int| #[trigger] w.done.contains_key(i) implies 0 <= i < kept.len() && node(
        w,
        w.done[i],
        TAG_CLOSURE,
    ) && w.heap.object(w.done[i]) is Closure && kept[i] == w.done[i].payload by {
        assert(paths.contains_key(i));
        assert(closure_rebuilt(w, paths[i], w.done[i], b.closures@[i]));
    }
    assert(rebuilt_at(w, kept));
    lemma_trip(s, names, keys, w, kept, Set::empty(), value, v, b.root);
    assert forall|i: int| #[trigger] w.done.contains_key(i) implies closure_at(w.heap, w.done[i]) is Some
        && closure_mirrors(
        w.heap,
        again(w),
        kept,
        closure_at(w.heap, w.done[i])->0,
        b.closures@[i],
    ) by {
        assert(paths.contains_key(i));
        let sc = b.closures@[i];
        let c = closure_at(s, closure_value(keys[i]))->0;
        assert(closure_mirrors(s, names, keys, c, sc));
        assert(closure_at(s, closure_value(keys[i])) is Some);
        assert(closure_rebuilt(w, paths[i], w.done[i], sc));
        let d = closure_at(w.heap, w.done[i])->0;
        lemma_template_trip(s, names, keys, w, kept, paths[i], c.code(), sc, d.code());
        lemma_all_trip(s, names, keys, w, kept, paths[i], c.env@, d.env@, sc.env@);
    }
}

/// A message lands entirely in one region: where the receiver's default traits
/// are immediates or live in it too, rebuilding takes no reference to any region,
/// so giving that region up gives up the whole message.
pub proof fn lemma_message_lands_in_one_region(a: HeapState, b: HeapState, region: u32)
    requires
        crate::materialize::grown(a, b, region),
        crate::materialize::local_traits(a, region),
    ensures
        b.counts == a.counts,
        b.edges == a.edges,
        forall|i: int| a.objects.len() <= i < b.objects.len() ==> #[trigger] b.owners[i] == region,
{
}

} // verus!
