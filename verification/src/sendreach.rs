//! Whether a value can be walked to its end: everything it reaches is there, and every
//! cycle goes through a closure.

use vstd::prelude::*;

use crate::heap::{FiberHeap, HeapState};
use crate::lir::{BasicBlock, LirFunction, LirInstr};
use crate::object::{ClosureTemplate, HeapObject, HeapTag, TableKey};
use crate::sendmirror::{
    bounded, cycles_through_closures, descends, is_constant, is_part, is_traits, leads, lemma_part_reached,
    lemma_reaches_itself, linked, lir_holds, points_right, reached, reached_within, template_holds, value_rank,
    Ranks,
};
use crate::value::{Value, TAG_HEAP_START};

verus! {

/// One more element is one more element.
proof fn lemma_pushed(s: Seq<Value>, x: Value)
    ensures
        forall|p: Value| #[trigger] s.push(x).contains(p) <==> s.contains(p) || p == x,
{
    assert forall|p: Value| #[trigger] s.push(x).contains(p) <==> s.contains(p) || p == x by {
        if s.contains(p) {
            let i = choose|i: int| 0 <= i < s.len() && s[i] == p;
            assert(s.push(x)[i] == p);
        }
        if p == x {
            assert(s.push(x)[s.len() as int] == p);
        }
        if s.push(x).contains(p) {
            let i = choose|i: int| 0 <= i < s.push(x).len() && s.push(x)[i] == p;
            if i < s.len() {
                assert(s[i] == p);
            }
        }
    }
}

fn push_part(out: &mut Vec<Value>, v: Value)
    ensures
        forall|p: Value| #[trigger] final(out)@.contains(p) <==> old(out)@.contains(p) || p == v,
{
    proof {
        lemma_pushed(out@, v);
    }
    out.push(v);
}

fn push_all(out: &mut Vec<Value>, values: &Vec<Value>)
    ensures
        forall|p: Value| #[trigger] final(out)@.contains(p) <==> old(out)@.contains(p) || values@.contains(p),
{
    let ghost before = out@;
    let mut i: usize = 0;
    assert(values@.take(0) =~= Seq::empty());
    while i < values.len()
        invariant
            i <= values@.len(),
            forall|p: Value| #[trigger]
                out@.contains(p) <==> before.contains(p) || values@.take(i as int).contains(p),
        decreases values.len() - i,
    {
        proof {
            lemma_pushed(values@.take(i as int), values@[i as int]);
            assert(values@.take(i + 1) =~= values@.take(i as int).push(values@[i as int]));
        }
        push_part(out, values[i]);
        i = i + 1;
    }
    assert(values@.take(i as int) =~= values@);
}

/// One of the entries holds `v`.
spec fn entry_holds(data: Seq<(TableKey, Value)>, v: Value) -> bool {
    exists|i: int| 0 <= i < data.len() && (#[trigger] data[i]).1 == v
}

fn push_entries(out: &mut Vec<Value>, data: &Vec<(TableKey, Value)>)
    ensures
        forall|p: Value| #[trigger]
            final(out)@.contains(p) <==> old(out)@.contains(p) || entry_holds(data@, p),
{
    let ghost before = out@;
    let mut i: usize = 0;
    while i < data.len()
        invariant
            i <= data@.len(),
            forall|p: Value| #[trigger]
                out@.contains(p) <==> before.contains(p) || entry_holds(data@.take(i as int), p),
        decreases data.len() - i,
    {
        let ghost done = out@;
        push_part(out, data[i].1);
        proof {
            assert forall|p: Value| #[trigger] out@.contains(p) <==> before.contains(p) || entry_holds(
                data@.take(i + 1),
                p,
            ) by {
                if entry_holds(data@.take(i as int), p) {
                    let k = choose|k: int| 0 <= k < i && (#[trigger] data@.take(i as int)[k]).1 == p;
                    assert(data@.take(i + 1)[k].1 == p);
                }
                if p == data@[i as int].1 {
                    assert(data@.take(i + 1)[i as int].1 == p);
                }
                if entry_holds(data@.take(i + 1), p) {
                    let k = choose|k: int| 0 <= k < i + 1 && (#[trigger] data@.take(i + 1)[k]).1 == p;
                    if k < i {
                        assert(data@.take(i as int)[k].1 == p);
                    }
                }
                assert(done.contains(p) <==> before.contains(p) || entry_holds(data@.take(i as int), p));
            }
        }
        i = i + 1;
    }
    assert(data@.take(i as int) =~= data@);
}

fn push_traits(out: &mut Vec<Value>, heap: &FiberHeap, traits: Value, tag: HeapTag)
    requires
        heap@.valid(),
    ensures
        forall|p: Value| #[trigger]
            final(out)@.contains(p) <==> old(out)@.contains(p) || is_traits(heap@, traits, tag, p),
{
    if traits.is_nil() {
        return ;
    }
    let default = heap.default_traits_for(tag);
    if !default.is_nil() && traits.payload == default.payload {
        return ;
    }
    push_part(out, traits);
}

/// Some instruction loads `v`.
spec fn run_holds(instrs: Seq<LirInstr>, v: Value) -> bool {
    exists|i: int| 0 <= i < instrs.len() && is_constant(#[trigger] instrs[i], v)
}

fn push_run(out: &mut Vec<Value>, instrs: &Vec<LirInstr>)
    ensures
        forall|p: Value| #[trigger] final(out)@.contains(p) <==> old(out)@.contains(p) || run_holds(instrs@, p),
{
    let ghost before = out@;
    let mut i: usize = 0;
    while i < instrs.len()
        invariant
            i <= instrs@.len(),
            forall|p: Value| #[trigger]
                out@.contains(p) <==> before.contains(p) || run_holds(instrs@.take(i as int), p),
        decreases instrs.len() - i,
    {
        let ghost done = out@;
        match &instrs[i] {
            LirInstr::ValueConst { value, .. } => push_part(out, *value),
            _ => {},
        }
        proof {
            let a = instrs@.take(i as int);
            let b = instrs@.take(i + 1);
            assert forall|p: Value| #[trigger] out@.contains(p) <==> before.contains(p) || run_holds(b, p) by {
                assert(done.contains(p) <==> before.contains(p) || run_holds(a, p));
                if run_holds(a, p) {
                    let k = choose|k: int| 0 <= k < a.len() && is_constant(#[trigger] a[k], p);
                    assert(is_constant(b[k], p));
                }
                if is_constant(instrs@[i as int], p) {
                    assert(is_constant(b[i as int], p));
                }
                if run_holds(b, p) {
                    let k = choose|k: int| 0 <= k < b.len() && is_constant(#[trigger] b[k], p);
                    if k < i {
                        assert(is_constant(a[k], p));
                    }
                }
            }
        }
        i = i + 1;
    }
    assert(instrs@.take(i as int) =~= instrs@);
}

/// Some block loads `v`.
spec fn blocks_hold(blocks: Seq<BasicBlock>, v: Value) -> bool {
    exists|b: int| 0 <= b < blocks.len() && run_holds((#[trigger] blocks[b]).instructions@, v)
}

proof fn lemma_blocks_hold(lir: LirFunction, v: Value)
    ensures
        blocks_hold(lir.blocks@, v) == lir_holds(lir, v),
{
    if blocks_hold(lir.blocks@, v) {
        let b = choose|b: int|
            0 <= b < lir.blocks@.len() && run_holds((#[trigger] lir.blocks@[b]).instructions@, v);
        let run = lir.blocks@[b].instructions@;
        let i = choose|i: int| 0 <= i < run.len() && is_constant(#[trigger] run[i], v);
        assert(is_constant(lir.blocks@[b].instructions@[i], v));
    }
    if lir_holds(lir, v) {
        let (b, i) = choose|b: int, i: int|
            0 <= b < lir.blocks@.len() && 0 <= i < lir.blocks@[b].instructions@.len() && is_constant(
                #[trigger] lir.blocks@[b].instructions@[i],
                v,
            );
        let run = lir.blocks@[b].instructions@;
        assert(is_constant(run[i], v));
        assert(run_holds(lir.blocks@[b].instructions@, v));
    }
}

fn push_lir(out: &mut Vec<Value>, lir: &LirFunction)
    ensures
        forall|p: Value| #[trigger] final(out)@.contains(p) <==> old(out)@.contains(p) || lir_holds(*lir, p),
{
    let ghost before = out@;
    let ghost blocks = lir.blocks@;
    let mut b: usize = 0;
    while b < lir.blocks.len()
        invariant
            b <= lir.blocks@.len(),
            blocks == lir.blocks@,
            forall|p: Value| #[trigger]
                out@.contains(p) <==> before.contains(p) || blocks_hold(blocks.take(b as int), p),
        decreases lir.blocks.len() - b,
    {
        let ghost done = out@;
        push_run(out, &lir.blocks[b].instructions);
        proof {
            let x = blocks.take(b as int);
            let y = blocks.take(b + 1);
            assert forall|p: Value| #[trigger] out@.contains(p) <==> before.contains(p) || blocks_hold(y, p) by {
                assert(done.contains(p) <==> before.contains(p) || blocks_hold(x, p));
                if blocks_hold(x, p) {
                    let k = choose|k: int| 0 <= k < x.len() && run_holds((#[trigger] x[k]).instructions@, p);
                    assert(run_holds(y[k].instructions@, p));
                }
                if run_holds(blocks[b as int].instructions@, p) {
                    assert(run_holds(y[b as int].instructions@, p));
                }
                if blocks_hold(y, p) {
                    let k = choose|k: int| 0 <= k < y.len() && run_holds((#[trigger] y[k]).instructions@, p);
                    if k < b {
                        assert(run_holds(x[k].instructions@, p));
                    }
                }
            }
        }
        b = b + 1;
    }
    proof {
        assert(blocks.take(b as int) =~= blocks);
        assert forall|p: Value| #[trigger] out@.contains(p) <==> before.contains(p) || lir_holds(*lir, p) by {
            lemma_blocks_hold(*lir, p);
        }
    }
}

/// One of the first `n` nested templates carries `v`.
spec fn nested_hold(t: ClosureTemplate, n: int, v: Value) -> bool {
    exists|i: int| 0 <= i < n && template_holds(*#[trigger] t.child_protos@[i], v)
}

fn push_template(out: &mut Vec<Value>, t: &ClosureTemplate)
    ensures
        forall|p: Value| #[trigger] final(out)@.contains(p) <==> old(out)@.contains(p) || template_holds(*t, p),
    decreases *t,
{
    let ghost start = out@;
    push_all(out, &t.constants);
    if let Some(lir) = &t.lir_function {
        push_lir(out, lir);
    }
    let ghost before = out@;
    let mut i: usize = 0;
    while i < t.child_protos.len()
        invariant
            i <= t.child_protos@.len(),
            forall|p: Value| #[trigger]
                out@.contains(p) <==> before.contains(p) || nested_hold(*t, i as int, p),
        decreases t.child_protos.len() - i,
    {
        let ghost done = out@;
        push_template(out, &t.child_protos[i]);
        proof {
            assert forall|p: Value| #[trigger] out@.contains(p) <==> before.contains(p) || nested_hold(
                *t,
                i + 1,
                p,
            ) by {
                assert(done.contains(p) <==> before.contains(p) || nested_hold(*t, i as int, p));
                if nested_hold(*t, i as int, p) {
                    let k = choose|k: int| 0 <= k < i && template_holds(*#[trigger] t.child_protos@[k], p);
                    assert(template_holds(*t.child_protos@[k], p));
                }
                if template_holds(*t.child_protos@[i as int], p) {
                    assert(nested_hold(*t, i + 1, p));
                }
                if nested_hold(*t, i + 1, p) {
                    let k = choose|k: int| 0 <= k < i + 1 && template_holds(*#[trigger] t.child_protos@[k], p);
                    if k < i {
                        assert(nested_hold(*t, i as int, p));
                    }
                }
            }
        }
        i = i + 1;
    }
    proof {
        assert forall|p: Value| #[trigger] out@.contains(p) <==> start.contains(p) || template_holds(*t, p) by {
            assert(before.contains(p) <==> start.contains(p) || t.constants@.contains(p) || (
            t.lir_function is Some && lir_holds(t.lir_function->0, p)));
            assert(nested_hold(*t, t.child_protos@.len() as int, p) <==> exists|i: int|
                0 <= i < t.child_protos@.len() && template_holds(*#[trigger] t.child_protos@[i], p));
        }
    }
}

/// The parts of an object that travel with it.
fn parts_of(heap: &FiberHeap, obj: &HeapObject) -> (r: Vec<Value>)
    requires
        heap@.valid(),
    ensures
        forall|p: Value| #[trigger] r@.contains(p) <==> is_part(heap@, *obj, p),
{
    let mut out: Vec<Value> = Vec::new();
    assert(forall|p: Value| !out@.contains(p));
    match obj {
        HeapObject::Pair(p) => {
            push_part(&mut out, p.first);
            push_part(&mut out, p.rest);
            push_traits(&mut out, heap, p.traits, HeapTag::Pair);
        },
        HeapObject::LArrayMut { data, traits } => {
            push_all(&mut out, data);
            push_traits(&mut out, heap, *traits, HeapTag::LArrayMut);
        },
        HeapObject::LArray { elements, traits } => {
            push_all(&mut out, elements);
            push_traits(&mut out, heap, *traits, HeapTag::LArray);
        },
        HeapObject::LStruct { data, traits } => {
            push_entries(&mut out, data);
            push_traits(&mut out, heap, *traits, HeapTag::LStruct);
        },
        HeapObject::LStructMut { data, traits } => {
            push_entries(&mut out, data);
            push_traits(&mut out, heap, *traits, HeapTag::LStructMut);
        },
        HeapObject::LStringMut { traits, .. } => push_traits(&mut out, heap, *traits, HeapTag::LStringMut),
        HeapObject::LBytes { traits, .. } => push_traits(&mut out, heap, *traits, HeapTag::LBytes),
        HeapObject::LBytesMut { traits, .. } => push_traits(&mut out, heap, *traits, HeapTag::LBytesMut),
        HeapObject::LBox { cell, traits } => {
            push_part(&mut out, *cell);
            push_traits(&mut out, heap, *traits, HeapTag::LBox);
        },
        HeapObject::CaptureCell { cell, traits } => {
            push_part(&mut out, *cell);
            push_traits(&mut out, heap, *traits, HeapTag::CaptureCell);
        },
        HeapObject::LSet { data, traits } => {
            push_all(&mut out, data);
            push_traits(&mut out, heap, *traits, HeapTag::LSet);
        },
        HeapObject::LSetMut { data, traits } => {
            push_all(&mut out, data);
            push_traits(&mut out, heap, *traits, HeapTag::LSetMut);
        },
        HeapObject::Parameter { default, traits, .. } => {
            push_part(&mut out, *default);
            push_part(&mut out, *traits);
        },
        HeapObject::Closure { closure, .. } => {
            push_all(&mut out, &closure.env);
            push_template(&mut out, &closure.template);
        },
        _ => {},
    }
    out
}

/// Whether `v` points to an object of its tag.
fn points(heap: &FiberHeap, v: Value) -> (r: bool)
    ensures
        r == heap@.resolves(v),
{
    match heap.deref(v) {
        Some(obj) => obj.tag() == v.tag,
        None => false,
    }
}

/// Where `v` stands in a list.
fn place_of(list: &Vec<Value>, v: Value) -> (r: Option<usize>)
    ensures
        match r {
            Some(k) => k < list@.len() && list@[k as int] == v,
            None => !list@.contains(v),
        },
{
    let mut k: usize = 0;
    while k < list.len()
        invariant
            k <= list@.len(),
            forall|j: int| 0 <= j < k ==> list@[j] != v,
        decreases list.len() - k,
    {
        if list[k] == v {
            return Some(k);
        }
        k = k + 1;
    }
    None
}

/// The objects that `v` reaches, each by a word that points right, and none twice.
spec fn nodes(s: HeapState, v: Value, list: Seq<Value>) -> bool {
    &&& list.no_duplicates()
    &&& forall|k: int|
        0 <= k < list.len() ==> reached(s, v, #[trigger] list[k]) && list[k].tag >= TAG_HEAP_START
            && s.resolves(list[k])
}

/// Every object that `v` reaches is in the list.
spec fn all_nodes(s: HeapState, v: Value, list: Seq<Value>) -> bool {
    forall|p: Value| #[trigger] reached(s, v, p) && p.tag >= TAG_HEAP_START ==> list.contains(p)
}

/// A word that points right is told by its object.
proof fn lemma_same_word(s: HeapState, a: Value, b: Value)
    requires
        s.resolves(a),
        s.resolves(b),
        s.target(a) == s.target(b),
    ensures
        a == b,
{
    assert(a.payload / 8 == b.payload / 8);
    assert(a.payload == 8 * (a.payload / 8));
    assert(b.payload == 8 * (b.payload / 8));
}

/// There are no more nodes than objects.
proof fn lemma_few_nodes(s: HeapState, v: Value, list: Seq<Value>)
    requires
        nodes(s, v, list),
    ensures
        list.len() <= s.objects.len(),
{
    let places = Seq::new(list.len(), |i: int| s.target(list[i])->0);
    assert forall|i: int, j: int| 0 <= i < places.len() && 0 <= j < places.len() && i != j implies places[i]
        != places[j] by {
        assert(s.resolves(list[i]) && s.resolves(list[j]));
        if places[i] == places[j] {
            lemma_same_word(s, list[i], list[j]);
        }
    }
    let all = vstd::set_lib::set_int_range(0, s.objects.len() as int);
    vstd::set_lib::lemma_int_range(0, s.objects.len() as int);
    places.unique_seq_to_set();
    assert(places.to_set().subset_of(all)) by {
        assert forall|x: int| places.to_set().contains(x) implies all.contains(x) by {
            let i = choose|i: int| 0 <= i < places.len() && places[i] == x;
            assert(s.resolves(list[i]));
        }
    }
    vstd::set_lib::lemma_len_subset(places.to_set(), all);
}

proof fn lemma_closed(s: HeapState, v: Value, list: Seq<Value>, p: Value, depth: nat)
    requires
        v.tag >= TAG_HEAP_START ==> list.contains(v),
        forall|k: int, p: Value|
            0 <= k < list.len() && #[trigger] leads(s, list[k], p) && p.tag >= TAG_HEAP_START ==> list.contains(
                p,
            ),
        reached_within(s, v, p, depth),
        p.tag >= TAG_HEAP_START,
    ensures
        list.contains(p),
    decreases depth,
{
    if p != v {
        let q = choose|q: Value| #[trigger] leads(s, q, p) && reached_within(s, v, q, (depth - 1) as nat);
        lemma_closed(s, v, list, q, (depth - 1) as nat);
        let k = choose|k: int| 0 <= k < list.len() && list[k] == q;
        assert(leads(s, list[k], p));
    }
}

/// Everything that `v` reaches, or nothing where some of it is not there.
fn gather(heap: &FiberHeap, v: Value) -> (r: Option<Vec<Value>>)
    requires
        heap@.valid(),
    ensures
        match r {
            Some(list) => linked(heap@, v) && nodes(heap@, v, list@) && all_nodes(heap@, v, list@),
            None => !linked(heap@, v),
        },
{
    let ghost s = heap@;
    let mut list: Vec<Value> = Vec::new();
    proof {
        lemma_reaches_itself(s, v);
    }
    if v.is_heap() {
        if !points(heap, v) {
            assert(!points_right(s, v));
            return None;
        }
        list.push(v);
        assert(list@[0] == v);
    }
    let mut at: usize = 0;
    while at < list.len()
        invariant
            s == heap@,
            s.valid(),
            at <= list@.len(),
            nodes(s, v, list@),
            v.tag >= TAG_HEAP_START ==> list@.contains(v),
            forall|k: int, p: Value|
                0 <= k < at && #[trigger] leads(s, list@[k], p) && p.tag >= TAG_HEAP_START
                    ==> list@.contains(p),
        decreases s.objects.len() - at,
    {
        let here = list[at];
        proof {
            lemma_few_nodes(s, v, list@);
            assert(s.resolves(list@[at as int]));
        }
        let obj = match heap.deref(here) {
            Some(obj) => obj,
            None => {
                assert(false);
                return None;
            },
        };
        let parts = parts_of(heap, obj);
        let mut j: usize = 0;
        while j < parts.len()
            invariant
                s == heap@,
                s.valid(),
                j <= parts@.len(),
                at < list@.len(),
                here == list@[at as int],
                *obj == s.object(here),
                forall|p: Value| #[trigger] parts@.contains(p) <==> is_part(s, *obj, p),
                nodes(s, v, list@),
                v.tag >= TAG_HEAP_START ==> list@.contains(v),
                forall|k: int, p: Value|
                    0 <= k < at && #[trigger] leads(s, list@[k], p) && p.tag >= TAG_HEAP_START
                        ==> list@.contains(p),
                forall|i: int|
                    0 <= i < j && (#[trigger] parts@[i]).tag >= TAG_HEAP_START ==> list@.contains(parts@[i]),
            decreases parts.len() - j,
        {
            let p = parts[j];
            if p.is_heap() {
                proof {
                    assert(parts@.contains(parts@[j as int]));
                    assert(reached(s, v, list@[at as int]));
                    lemma_part_reached(s, v, here, p);
                }
                if !points(heap, p) {
                    assert(!points_right(s, p));
                    return None;
                }
                if place_of(&list, p).is_none() {
                    let ghost before = list@;
                    list.push(p);
                    proof {
                        lemma_pushed(before, p);
                        assert forall|k: int| 0 <= k < list@.len() implies reached(s, v, #[trigger] list@[k])
                            && list@[k].tag >= TAG_HEAP_START && s.resolves(list@[k]) by {
                            if k < before.len() {
                                assert(list@[k] == before[k]);
                            }
                        }
                        assert forall|a: int, b: int|
                            0 <= a < list@.len() && 0 <= b < list@.len() && a != b implies list@[a]
                            != list@[b] by {
                            if a == before.len() {
                                assert(before.contains(before[b]));
                            } else if b == before.len() {
                                assert(before.contains(before[a]));
                            }
                        }
                        assert forall|k: int, q: Value|
                            0 <= k < at && #[trigger] leads(s, list@[k], q) && q.tag
                                >= TAG_HEAP_START implies list@.contains(q) by {
                            assert(list@[k] == before[k]);
                            assert(leads(s, before[k], q));
                        }
                    }
                }
            }
            j = j + 1;
        }
        proof {
            assert forall|k: int, p: Value|
                0 <= k < at + 1 && #[trigger] leads(s, list@[k], p) && p.tag
                    >= TAG_HEAP_START implies list@.contains(p) by {
                if k == at {
                    assert(is_part(s, *obj, p));
                    assert(parts@.contains(p));
                    let i = choose|i: int| 0 <= i < parts@.len() && parts@[i] == p;
                    assert(list@.contains(parts@[i]));
                }
            }
        }
        at = at + 1;
        proof {
            lemma_few_nodes(s, v, list@);
        }
    }
    proof {
        assert forall|p: Value| #[trigger] reached(s, v, p) && p.tag >= TAG_HEAP_START implies list@.contains(
            p,
        ) by {
            let depth = choose|depth: nat| reached_within(s, v, p, depth);
            lemma_closed(s, v, list@, p, depth);
        }
        assert forall|p: Value| #[trigger] reached(s, v, p) implies points_right(s, p) by {
            if p.tag >= TAG_HEAP_START {
                let k = choose|k: int| 0 <= k < list@.len() && list@[k] == p;
                assert(s.resolves(list@[k]));
            }
        }
    }
    Some(list)
}

/// The object of the word is settled.
spec fn is_done(list: Seq<Value>, done: Seq<bool>, p: Value) -> bool {
    exists|j: int| 0 <= j < list.len() && #[trigger] list[j] == p && done[j]
}

/// An object can be settled: it is a closure, or all that it refers to is settled.
spec fn is_ready(s: HeapState, list: Seq<Value>, done: Seq<bool>, k: int) -> bool {
    s.object(list[k]) is Closure || forall|p: Value| #[trigger]
        leads(s, list[k], p) && p.tag >= TAG_HEAP_START ==> is_done(list, done, p)
}

fn ready(heap: &FiberHeap, list: &Vec<Value>, done: &Vec<bool>, k: usize) -> (r: bool)
    requires
        heap@.valid(),
        k < list@.len(),
        done@.len() == list@.len(),
        list@.no_duplicates(),
        list@[k as int].tag >= TAG_HEAP_START,
        heap@.resolves(list@[k as int]),
    ensures
        r == is_ready(heap@, list@, done@, k as int),
{
    let ghost s = heap@;
    let obj = match heap.deref(list[k]) {
        Some(obj) => obj,
        None => {
            assert(false);
            return false;
        },
    };
    if let HeapObject::Closure { .. } = obj {
        return true;
    }
    let parts = parts_of(heap, obj);
    let mut i: usize = 0;
    while i < parts.len()
        invariant
            s == heap@,
            i <= parts@.len(),
            k < list@.len(),
            done@.len() == list@.len(),
            list@.no_duplicates(),
            list@[k as int].tag >= TAG_HEAP_START,
            s.resolves(list@[k as int]),
            *obj == s.object(list@[k as int]),
            !(*obj is Closure),
            forall|p: Value| #[trigger] parts@.contains(p) <==> is_part(s, *obj, p),
            forall|j: int|
                0 <= j < i && (#[trigger] parts@[j]).tag >= TAG_HEAP_START ==> is_done(
                    list@,
                    done@,
                    parts@[j],
                ),
        decreases parts.len() - i,
    {
        let p = parts[i];
        if p.is_heap() {
            let settled = match place_of(list, p) {
                Some(j) => done[j],
                None => false,
            };
            proof {
                assert(settled == is_done(list@, done@, p)) by {
                    if is_done(list@, done@, p) {
                        let j = choose|j: int| 0 <= j < list@.len() && #[trigger] list@[j] == p && done@[j];
                        assert(list@.contains(list@[j]));
                    }
                }
            }
            if !settled {
                assert(parts@.contains(parts@[i as int]));
                assert(leads(s, list@[k as int], p));
                return false;
            }
        }
        i = i + 1;
    }
    proof {
        assert forall|p: Value| #[trigger]
            leads(s, list@[k as int], p) && p.tag >= TAG_HEAP_START implies is_done(list@, done@, p) by {
            assert(parts@.contains(p));
            let j = choose|j: int| 0 <= j < parts@.len() && parts@[j] == p;
            assert(is_done(list@, done@, parts@[j]));
        }
    }
    true
}

/// How many are left.
spec fn left(done: Seq<bool>) -> nat
    decreases done.len(),
{
    if done.len() == 0 {
        0
    } else {
        left(done.drop_last()) + if done.last() {
            0nat
        } else {
            1nat
        }
    }
}

proof fn lemma_one_less(done: Seq<bool>, k: int)
    requires
        0 <= k < done.len(),
        !done[k],
    ensures
        left(done.update(k, true)) + 1 == left(done),
    decreases done.len(),
{
    let after = done.update(k, true);
    if k == done.len() - 1 {
        assert(after.drop_last() =~= done.drop_last());
    } else {
        lemma_one_less(done.drop_last(), k);
        assert(after.drop_last() =~= done.drop_last().update(k, true));
    }
}

/// Where nothing more can be settled and something is left, no ranks descend.
proof fn lemma_stuck(s: HeapState, v: Value, list: Seq<Value>, done: Seq<bool>, g: Ranks, k: int)
    requires
        nodes(s, v, list),
        all_nodes(s, v, list),
        done.len() == list.len(),
        0 <= k < list.len(),
        !done[k],
        forall|k: int| 0 <= k < list.len() && !done[k] ==> !#[trigger] is_ready(s, list, done, k),
    ensures
        !descends(s, g, v),
    decreases value_rank(s, g, list[k]),
{
    if descends(s, g, v) {
        let q = list[k];
        assert(!is_ready(s, list, done, k));
        assert(reached(s, v, list[k]));
        let p = choose|p: Value| #[trigger]
            leads(s, list[k], p) && p.tag >= TAG_HEAP_START && !is_done(list, done, p);
        lemma_part_reached(s, v, q, p);
        let j = choose|j: int| 0 <= j < list.len() && list[j] == p;
        assert(list[j] == p);
        assert(!done[j]);
        assert(is_part(s, s.object(q), p));
        assert(value_rank(s, g, p) < value_rank(s, g, q));
        lemma_stuck(s, v, list, done, g, j);
    }
}

/// The rank of object `i`: that of the node that points to it.
spec fn rank_of(s: HeapState, list: Seq<Value>, ranks: Seq<nat>, i: int) -> nat {
    if exists|k: int| 0 <= k < list.len() && s.target(#[trigger] list[k]) == Some(i) {
        ranks[choose|k: int| 0 <= k < list.len() && s.target(#[trigger] list[k]) == Some(i)]
    } else {
        0
    }
}

proof fn lemma_rank_of(s: HeapState, v: Value, list: Seq<Value>, ranks: Seq<nat>, k: int)
    requires
        nodes(s, v, list),
        0 <= k < list.len(),
    ensures
        rank_of(s, list, ranks, s.target(list[k])->0) == ranks[k],
{
    let i = s.target(list[k])->0;
    assert(s.resolves(list[k]));
    assert(s.target(list[k]) == Some(i));
    let j = choose|j: int| 0 <= j < list.len() && s.target(#[trigger] list[j]) == Some(i);
    assert(s.resolves(list[j]));
    lemma_same_word(s, list[j], list[k]);
}

/// All that a settled object refers to is settled, and ranks below it.
spec fn below(s: HeapState, list: Seq<Value>, done: Seq<bool>, ranks: Seq<nat>, k: int) -> bool {
    s.object(list[k]) is Closure || forall|p: Value| #[trigger]
        leads(s, list[k], p) && p.tag >= TAG_HEAP_START ==> ranks_below(list, done, ranks, p, ranks[k])
}

/// The object of the word is settled, and ranks below the bound.
spec fn ranks_below(list: Seq<Value>, done: Seq<bool>, ranks: Seq<nat>, p: Value, bound: nat) -> bool {
    exists|j: int| 0 <= j < list.len() && #[trigger] list[j] == p && done[j] && ranks[j] < bound
}

proof fn lemma_all_settled(s: HeapState, v: Value, list: Seq<Value>, done: Seq<bool>, ranks: Seq<nat>, top: nat)
    requires
        nodes(s, v, list),
        all_nodes(s, v, list),
        done.len() == list.len(),
        ranks.len() == list.len(),
        forall|k: int| 0 <= k < list.len() ==> done[k],
        forall|k: int| 0 <= k < list.len() ==> #[trigger] ranks[k] < top,
        forall|k: int| 0 <= k < list.len() ==> #[trigger] below(s, list, done, ranks, k),
    ensures
        cycles_through_closures(s, v),
{
    let g = Ranks { rank: |i: int| rank_of(s, list, ranks, i), top: top + 1, live: Set::empty() };
    assert(bounded(s, g)) by {
        assert forall|i: int| 0 <= i < s.objects.len() implies #[trigger] (g.rank)(i) < g.top by {
            if exists|k: int| 0 <= k < list.len() && s.target(#[trigger] list[k]) == Some(i) {
                let k = choose|k: int| 0 <= k < list.len() && s.target(#[trigger] list[k]) == Some(i);
                assert(ranks[k] < top);
            }
        }
    }
    assert(descends(s, g, v)) by {
        assert forall|q: Value, p: Value|
            #![trigger reached(s, v, q), is_part(s, s.object(q), p)]
            reached(s, v, q) && q.tag >= TAG_HEAP_START && s.target(q) is Some && !(s.object(q) is Closure)
                && is_part(s, s.object(q), p) implies value_rank(s, g, p) < value_rank(s, g, q) by {
            assert(list.contains(q));
            let k = choose|k: int| 0 <= k < list.len() && list[k] == q;
            lemma_rank_of(s, v, list, ranks, k);
            assert(below(s, list, done, ranks, k));
            assert(leads(s, list[k], p));
            if p.tag >= TAG_HEAP_START {
                assert(ranks_below(list, done, ranks, p, ranks[k]));
                let j = choose|j: int| 0 <= j < list.len() && #[trigger] list[j] == p && done[j] && ranks[j]
                    < ranks[k];
                lemma_rank_of(s, v, list, ranks, j);
                assert(s.resolves(list[j]));
            } else {
                assert(s.target(p) is None);
            }
        }
    }
    assert(bounded(s, g) && descends(s, g, v));
}

/// The first object that can be settled and is not.
fn find_ready(heap: &FiberHeap, list: &Vec<Value>, done: &Vec<bool>, v: Ghost<Value>) -> (r: Option<usize>)
    requires
        heap@.valid(),
        nodes(heap@, v@, list@),
        done@.len() == list@.len(),
    ensures
        match r {
            Some(k) => k < list@.len() && !done@[k as int] && is_ready(heap@, list@, done@, k as int),
            None => forall|k: int|
                0 <= k < list@.len() && !done@[k] ==> !#[trigger] is_ready(heap@, list@, done@, k),
        },
{
    let mut k: usize = 0;
    while k < list.len()
        invariant
            heap@.valid(),
            nodes(heap@, v@, list@),
            done@.len() == list@.len(),
            k <= list@.len(),
            forall|j: int| 0 <= j < k && !done@[j] ==> !#[trigger] is_ready(heap@, list@, done@, j),
        decreases list.len() - k,
    {
        if !done[k] {
            assert(heap@.resolves(list@[k as int]));
            if ready(heap, list, done, k) {
                return Some(k);
            }
        }
        k = k + 1;
    }
    None
}

fn all_true(done: &Vec<bool>) -> (r: bool)
    ensures
        r == (forall|k: int| 0 <= k < done@.len() ==> done@[k]),
{
    let mut k: usize = 0;
    while k < done.len()
        invariant
            k <= done@.len(),
            forall|j: int| 0 <= j < k ==> done@[j],
        decreases done.len() - k,
    {
        if !done[k] {
            return false;
        }
        k = k + 1;
    }
    true
}

/// Whether `v` can be walked to its end, as sending it asks: everything that it reaches
/// points to an object of its tag, and every cycle goes through a closure. A host that
/// does not know this of a value asks here before it sends the value.
pub fn can_be_walked(heap: &FiberHeap, v: Value) -> (r: bool)
    requires
        heap@.valid(),
    ensures
        r == (linked(heap@, v) && cycles_through_closures(heap@, v)),
{
    let ghost s = heap@;
    let list = match gather(heap, v) {
        Some(list) => list,
        None => {
            return false;
        },
    };
    let mut done: Vec<bool> = Vec::new();
    while done.len() < list.len()
        invariant
            done@.len() <= list@.len(),
            forall|k: int| 0 <= k < done@.len() ==> !done@[k],
        decreases list.len() - done.len(),
    {
        done.push(false);
    }
    let ghost mut ranks: Seq<nat> = Seq::new(list@.len(), |k: int| 0nat);
    let ghost mut round: nat = 0;
    loop
        invariant
            s == heap@,
            s.valid(),
            linked(s, v),
            nodes(s, v, list@),
            all_nodes(s, v, list@),
            done@.len() == list@.len(),
            ranks.len() == list@.len(),
            forall|k: int| 0 <= k < list@.len() && done@[k] ==> #[trigger] ranks[k] < round,
            forall|k: int| 0 <= k < list@.len() && done@[k] ==> #[trigger] below(s, list@, done@, ranks, k),
        decreases left(done@),
    {
        match find_ready(heap, &list, &done, Ghost(v)) {
            Some(k) => {
                let ghost was = done@;
                let ghost old_ranks = ranks;
                done.set(k, true);
                proof {
                    lemma_one_less(was, k as int);
                    ranks = ranks.update(k as int, round);
                    round = round + 1;
                    assert(done@ =~= was.update(k as int, true));
                    assert forall|j: int| 0 <= j < list@.len() && done@[j] implies #[trigger] below(
                        s,
                        list@,
                        done@,
                        ranks,
                        j,
                    ) by {
                        if !(s.object(list@[j]) is Closure) {
                            assert forall|p: Value| #[trigger]
                                leads(s, list@[j], p) && p.tag >= TAG_HEAP_START implies ranks_below(
                                list@,
                                done@,
                                ranks,
                                p,
                                ranks[j],
                            ) by {
                                if j == k {
                                    assert(is_ready(s, list@, was, k as int));
                                    assert(is_done(list@, was, p));
                                    let m = choose|m: int|
                                        0 <= m < list@.len() && #[trigger] list@[m] == p && was[m];
                                    assert(old_ranks[m] < round - 1);
                                    assert(list@[m] == p && done@[m] && ranks[m] < ranks[j]);
                                } else {
                                    assert(below(s, list@, was, old_ranks, j));
                                    assert(ranks_below(list@, was, old_ranks, p, old_ranks[j]));
                                    let m = choose|m: int|
                                        0 <= m < list@.len() && #[trigger] list@[m] == p && was[m]
                                            && old_ranks[m] < old_ranks[j];
                                    assert(list@[m] == p && done@[m] && ranks[m] < ranks[j]);
                                }
                            }
                        }
                    }
                }
            },
            None => {
                let whole = all_true(&done);
                proof {
                    if whole {
                        lemma_all_settled(s, v, list@, done@, ranks, round);
                    } else if cycles_through_closures(s, v) {
                        let g = choose|g: Ranks| bounded(s, g) && #[trigger] descends(s, g, v);
                        let k = choose|k: int| 0 <= k < done@.len() && !done@[k];
                        lemma_stuck(s, v, list@, done@, g, k);
                    }
                }
                return whole;
            },
        }
    }
}

} // verus!
