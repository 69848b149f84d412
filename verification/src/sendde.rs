//! Rebuilding values in transit on another heap.

use std::rc::Rc;

use vstd::prelude::*;

use crate::ctx::{with_keyword, Alloc};
use crate::heap::{at_home, lemma_abroad_agree, with_cell, FiberHeap, HeapState};
use crate::lir::{BasicBlock, LirConst, LirFunction, LirInstr};
use crate::materialize::{
    extends, grown, is_local, lemma_grown_self, lemma_keyword_grows, lemma_local_grows, lemma_node_grows,
    lemma_room_less, lemma_same_counted, local_traits, place,
};
use crate::object::{
    Closure, ClosureTemplate, ExternalData, ExternalObject, HeapObject, HeapTag, Pair, PortKind, TableKey,
};
use crate::sendarrive::{
    all_mention, all_rebuilt, arrived, arrived_as, block_rebuilt, boxed_float, cell_rebuilt,
    closure_mentions, closure_rebuilt, closure_weight, closure_weights, comes_as_nil, entries_rebuilt,
    entry_weights, fixed_up, further, instr_rebuilt, lemma_all_further, lemma_closure_fixed,
    lemma_value_fixed, led, is_waiting, lemma_closure_further, lemma_entries_further,
    lemma_further_trans, lemma_rebuilt_further, lemma_lir_further, lemma_rebuilt_local,
    lemma_template_further, lemma_traits_further, lir_mentions, lir_rebuilt, mentions, names_closure,
    node, rebuilt, stdio_kind, template_mentions, template_rebuilt, template_weight, template_weights,
    traits_rebuilt, waits_not, weight, weights, Arrival,
};
use crate::sendscript::{
    block_deeds, carried_out, closure_deeds, code_deeds, deeds, deeds_all, entry_deeds, finish_deeds, instr_deeds,
    lemma_worked_closure, lemma_worked_keyword, lemma_worked_met, lemma_worked_nothing, lemma_worked_object,
    lemma_worked_symbol, lemma_worked_trans, one_instr_deeds, template_deeds_all, worked, Deed,
};
use crate::sendvalue::{
    all_fit, closure_fits, fits, instr_fits, template_with, SendBundle, SendValue, SendableClosure,
};
use crate::symbol::{id_in, interned, SymbolTable};
use crate::value::{Value, TAG_FLOAT, TAG_HEAP_START, TAG_NIL};

verus! {

/// Where the rebuilding of one closure stands.
#[derive(Clone, Copy, PartialEq, Eq, Structural, Debug)]
pub enum ReconState {
    NotStarted,
    InProgress,
    Done(Value),
}

/// The closures that are rebuilt.
pub open spec fn done_map(states: Seq<ReconState>) -> Map<int, Value> {
    Map::new(|i: int| 0 <= i < states.len() && states[i] is Done, |i: int| states[i]->Done_0)
}

/// The closures that are being rebuilt.
pub open spec fn opened(states: Seq<ReconState>) -> Set<int> {
    Set::new(|i: int| 0 <= i < states.len() && states[i] is InProgress)
}

/// How many closures were not started.
pub open spec fn unstarted(states: Seq<ReconState>) -> nat
    decreases states.len(),
{
    if states.len() == 0 {
        0
    } else {
        unstarted(states.drop_last()) + if states.last() is NotStarted {
            1nat
        } else {
            0nat
        }
    }
}

/// What rebuilding the closures that were not started costs.
pub open spec fn left(table: Seq<SendableClosure>, states: Seq<ReconState>) -> nat
    decreases states.len(),
{
    if states.len() == 0 {
        0
    } else {
        left(table, states.drop_last()) + if states.last() is NotStarted {
            closure_weight(table[states.len() - 1])
        } else {
            0nat
        }
    }
}

proof fn lemma_state_change(table: Seq<SendableClosure>, states: Seq<ReconState>, i: int, to: ReconState)
    requires
        0 <= i < states.len(),
        !(to is NotStarted),
    ensures
        states[i] is NotStarted ==> unstarted(states.update(i, to)) == unstarted(states) - 1 && left(
            table,
            states.update(i, to),
        ) == left(table, states) - closure_weight(table[i]),
        !(states[i] is NotStarted) ==> unstarted(states.update(i, to)) == unstarted(states) && left(
            table,
            states.update(i, to),
        ) == left(table, states),
    decreases states.len(),
{
    if i == states.len() - 1 {
        assert(states.update(i, to).drop_last() =~= states.drop_last());
    } else {
        lemma_state_change(table, states.drop_last(), i, to);
        assert(states.update(i, to).drop_last() =~= states.drop_last().update(i, to));
    }
}

/// What deserialization keeps track of.
pub struct DeserContext {
    /// The capability that every rebuilt object is born through.
    alloc: Alloc,
    states: Vec<ReconState>,
    /// Cells that hold nothing yet, and the closure each waits for.
    fixups: Vec<(Value, usize)>,
    /// The closures that were being rebuilt when each was met, itself among them.
    paths: Ghost<Map<int, Set<int>>>,
    /// What may be spent beyond the closures not started.
    spare: Ghost<nat>,
    /// The closure whose parts are being rebuilt.
    owner: Ghost<Option<int>>,
    root: Ghost<SendValue>,
    /// Where the first rebuilt object lies.
    lo: Ghost<int>,
}

impl DeserContext {
    spec fn world(self, h: HeapState, symbols: Seq<Seq<char>>) -> Arrival {
        Arrival {
            heap: h,
            symbols,
            done: done_map(self.states@),
            fixups: self.fixups@,
            fixed: false,
            lo: self.lo@,
            region: self.alloc.home().0,
        }
    }

    spec fn budget(self, table: Seq<SendableClosure>) -> nat {
        self.spare@ + left(table, self.states@)
    }

    spec fn ok(self, table: Seq<SendableClosure>, h: HeapState, symbols: Seq<Seq<char>>) -> bool {
        let w = self.world(h, symbols);
        &&& h.valid()
        &&& w.region < h.counts.len()
        &&& 0 <= w.lo <= h.objects.len()
        &&& h.room(self.budget(table))
        &&& symbols.len() + self.budget(table) <= u32::MAX
        &&& self.states@.len() == table.len()
        &&& forall|i: int|
            self.paths@.contains_key(i) <==> 0 <= i < table.len() && !(#[trigger] self.states@[i] is NotStarted)
        &&& forall|i: int| #[trigger]
            self.paths@.contains_key(i) ==> self.paths@[i].contains(i) && led(
                self.root@,
                table,
                self.paths@,
                i,
            )
        &&& forall|i: int, j: int|
            self.paths@.contains_key(i) && #[trigger] self.paths@[i].contains(j) ==> self.paths@.contains_key(j)
        &&& forall|i: int|
            0 <= i < table.len() && self.states@[i] is Done ==> closure_rebuilt(
                w,
                self.paths@[i],
                self.states@[i]->Done_0,
                #[trigger] table[i],
            )
        &&& forall|i: int, j: int|
            0 <= i < table.len() && 0 <= j < table.len() && i != j && self.states@[i] is Done
                && self.states@[j] is Done ==> #[trigger] self.states@[i] != #[trigger] self.states@[j]
        &&& forall|k: int|
            0 <= k < self.fixups@.len() ==> self.paths@.contains_key((#[trigger] self.fixups@[k]).1 as int)
                && waiting_cell(w, self.fixups@[k].0)
        &&& forall|k: int, l: int|
            0 <= k < l < self.fixups@.len() ==> (#[trigger] self.fixups@[k]).0 != (
            #[trigger] self.fixups@[l]).0
        &&& match self.owner@ {
            None => opened(self.states@) == Set::<int>::empty(),
            Some(j) => 0 <= j < table.len() && self.paths@.contains_key(j) && self.paths@[j] == opened(
                self.states@,
            ),
        }
    }

    /// Closure `k` is one that the parts at hand may refer to.
    spec fn may_meet(self, table: Seq<SendableClosure>, k: int) -> bool {
        match self.owner@ {
            None => mentions(self.root@, k),
            Some(j) => closure_mentions(table[j], k),
        }
    }

    /// What a step keeps of the context.
    spec fn went_on(self, before: DeserContext) -> bool {
        &&& self.alloc == before.alloc
        &&& self.root == before.root
        &&& self.lo == before.lo
        &&& self.owner == before.owner
        &&& opened(self.states@) == opened(before.states@)
        &&& self.states@.len() == before.states@.len()
        &&& unstarted(self.states@) <= unstarted(before.states@)
        &&& forall|i: int| #[trigger]
            before.paths@.contains_key(i) ==> self.paths@.contains_key(i) && self.paths@[i]
                == before.paths@[i]
    }
}

/// Every index of the table is in range.
pub open spec fn table_fits(table: Seq<SendableClosure>) -> bool {
    forall|i: int| 0 <= i < table.len() ==> closure_fits(#[trigger] table[i], table.len())
}

/// A step from one state to the next that rebuilt something.
spec fn stepped(
    table: Seq<SendableClosure>,
    a: DeserContext,
    ha: HeapState,
    sa: Seq<Seq<char>>,
    b: DeserContext,
    hb: HeapState,
    sb: Seq<Seq<char>>,
) -> bool {
    &&& b.ok(table, hb, sb)
    &&& b.went_on(a)
    &&& further(a.world(ha, sa), b.world(hb, sb))
}

/// The cell that a box or a capture holds.
spec fn held(obj: HeapObject) -> Value {
    match obj {
        HeapObject::LBox { cell, .. } => cell,
        HeapObject::CaptureCell { cell, .. } => cell,
        _ => Value::nil(),
    }
}

/// A rebuilt box or capture that holds nothing of another region yet.
spec fn waiting_cell(w: Arrival, v: Value) -> bool {
    &&& w.heap.resolves(v)
    &&& w.heap.target(v)->0 >= w.lo
    &&& w.heap.object(v) is LBox || w.heap.object(v) is CaptureCell
    &&& is_local(w.heap, w.region, held(w.heap.object(v)))
}

proof fn lemma_waiting_further(a: Arrival, b: Arrival, v: Value)
    requires
        further(a, b),
        waiting_cell(a, v),
    ensures
        waiting_cell(b, v),
{
    let i = a.heap.target(v)->0;
    assert(b.heap.objects[i] == a.heap.objects[i]);
    lemma_local_grows(a.heap, b.heap, a.region, held(a.heap.object(v)));
}

/// The closures that were met.
spec fn met(states: Seq<ReconState>) -> Seq<bool> {
    Seq::new(states.len(), |i: int| !(states[i] is NotStarted))
}

/// The work was carried out between two states.
spec fn told(
    table: Seq<SendableClosure>,
    a: DeserContext,
    ha: HeapState,
    sa: Seq<Seq<char>>,
    b: DeserContext,
    hb: HeapState,
    sb: Seq<Seq<char>>,
    work: Seq<Deed>,
) -> bool {
    worked(table, met(a.states@), ha, sa, met(b.states@), hb, sb, work)
}

proof fn lemma_told_trans(
    table: Seq<SendableClosure>,
    a: DeserContext,
    ha: HeapState,
    sa: Seq<Seq<char>>,
    b: DeserContext,
    hb: HeapState,
    sb: Seq<Seq<char>>,
    c: DeserContext,
    hc: HeapState,
    sc: Seq<Seq<char>>,
    x: Seq<Deed>,
    y: Seq<Deed>,
)
    requires
        told(table, a, ha, sa, b, hb, sb, x),
        told(table, b, hb, sb, c, hc, sc, y),
    ensures
        told(table, a, ha, sa, c, hc, sc, x + y),
{
    lemma_worked_trans(
        table,
        met(a.states@),
        ha,
        sa,
        met(b.states@),
        hb,
        sb,
        met(c.states@),
        hc,
        sc,
        x,
        y,
    );
}

proof fn lemma_stepped_trans(
    table: Seq<SendableClosure>,
    a: DeserContext,
    ha: HeapState,
    sa: Seq<Seq<char>>,
    b: DeserContext,
    hb: HeapState,
    sb: Seq<Seq<char>>,
    c: DeserContext,
    hc: HeapState,
    sc: Seq<Seq<char>>,
)
    requires
        stepped(table, a, ha, sa, b, hb, sb),
        stepped(table, b, hb, sb, c, hc, sc),
    ensures
        stepped(table, a, ha, sa, c, hc, sc),
{
    lemma_further_trans(a.world(ha, sa), b.world(hb, sb), c.world(hc, sc));
    assert forall|i: int| #[trigger] a.paths@.contains_key(i) implies c.paths@.contains_key(i)
        && c.paths@[i] == a.paths@[i] by {
        assert(b.paths@.contains_key(i));
    }
}

/// The context stays consistent where only the heap, the names and the budget
/// changed.
proof fn lemma_ok_grows(
    table: Seq<SendableClosure>,
    a: DeserContext,
    ha: HeapState,
    sa: Seq<Seq<char>>,
    b: DeserContext,
    hb: HeapState,
    sb: Seq<Seq<char>>,
)
    requires
        a.ok(table, ha, sa),
        b == (DeserContext { spare: b.spare, ..a }),
        hb.valid(),
        hb.room(b.budget(table)),
        sb.len() + b.budget(table) <= u32::MAX,
        grown(ha, hb, a.alloc.home().0),
        extends(sa, sb),
    ensures
        stepped(table, a, ha, sa, b, hb, sb),
{
    let (wa, wb) = (a.world(ha, sa), b.world(hb, sb));
    assert(further(wa, wb));
    assert forall|i: int| 0 <= i < table.len() && b.states@[i] is Done implies closure_rebuilt(
        wb,
        b.paths@[i],
        b.states@[i]->Done_0,
        #[trigger] table[i],
    ) by {
        lemma_closure_further(wa, wb, a.paths@[i], a.states@[i]->Done_0, table[i]);
    }
    assert forall|k: int| 0 <= k < b.fixups@.len() implies b.paths@.contains_key(
        (#[trigger] b.fixups@[k]).1 as int,
    ) && waiting_cell(wb, b.fixups@[k].0) by {
        lemma_waiting_further(wa, wb, a.fixups@[k].0);
    }
}

/// Allocate an object for the bundle.
fn settle(
    obj: HeapObject,
    heap: &mut FiberHeap,
    ctx: &mut DeserContext,
    symbols: Ghost<Seq<Seq<char>>>,
    table: Ghost<Seq<SendableClosure>>,
) -> (v: Value)
    requires
        old(ctx).ok(table@, old(heap)@, symbols@),
        obj.value_tag() >= TAG_HEAP_START,
        old(ctx).spare@ >= obj.children().len() + 1,
        local_traits(old(heap)@, old(ctx).alloc.home().0) ==> forall|i: int|
            0 <= i < obj.children().len() ==> is_local(
                old(heap)@,
                old(ctx).alloc.home().0,
                #[trigger] obj.children()[i],
            ),
    ensures
        stepped(table@, *old(ctx), old(heap)@, symbols@, *final(ctx), final(heap)@, symbols@),
        final(ctx).states == old(ctx).states,
        final(ctx).fixups == old(ctx).fixups,
        final(ctx).paths == old(ctx).paths,
        told(
            table@,
            *old(ctx),
            old(heap)@,
            symbols@,
            *final(ctx),
            final(heap)@,
            symbols@,
            seq![Deed::Object],
        ),
        final(ctx).spare@ == old(ctx).spare@ - obj.children().len() - 1,
        final(heap)@.target(v) == Some(old(heap)@.objects.len() as int),
        final(heap)@.object(v) == obj,
        node(final(ctx).world(final(heap)@, symbols@), v, obj.value_tag()),
{
    let ghost h1 = heap@;
    let ghost before = *ctx;
    let ghost cost = obj.children().len() + 1;
    proof {
        lemma_room_less(h1, ctx.budget(table@), cost);
    }
    let region = ctx.alloc.test_region();
    let v = place(heap, obj, region);
    let ghost rest = (ctx.spare@ - cost) as nat;
    ctx.spare = Ghost(rest);
    proof {
        assert(before.budget(table@) == ctx.budget(table@) + obj.children().len() + 1);
        assert(heap@.room(ctx.budget(table@)));
        lemma_ok_grows(table@, before, h1, symbols@, *ctx, heap@, symbols@);
        lemma_worked_object(table@, met(ctx.states@), h1, heap@, symbols@);
    }
    v
}

/// Everything the functions below ask of a value and the state.
spec fn can_take(
    table: Seq<SendableClosure>,
    ctx: DeserContext,
    h: HeapState,
    symbols: Seq<Seq<char>>,
    sv: SendValue,
) -> bool {
    &&& table_fits(table)
    &&& ctx.ok(table, h, symbols)
    &&& fits(sv, table.len())
    &&& forall|k: int| mentions(sv, k) ==> #[trigger] ctx.may_meet(table, k)
}

/// Resolve a received traits field: where it is nil, the receiver's default
/// traits for this type take its place.
pub fn recv_traits(heap: &FiberHeap, traits_val: Value, tag: HeapTag) -> (r: Value)
    requires
        heap@.valid(),
    ensures
        r == if traits_val.tag == TAG_NIL {
            heap@.traits[tag.slot()]
        } else {
            traits_val
        },
{
    if traits_val.is_nil() {
        heap.default_traits_for(tag)
    } else {
        traits_val
    }
}

/// The receiver's symbol of this name, interned where it is new.
pub fn recv_symbol(name: &String, symbols: &mut SymbolTable) -> (r: Value)
    requires
        old(symbols)@.len() < u32::MAX,
    ensures
        final(symbols)@ == interned(old(symbols)@, name@),
        r == Value::symbol(id_in(final(symbols)@, name@) as u32),
        final(symbols)@.contains(name@),
{
    let id = symbols.intern(name);
    Value::symbol(id.0)
}

/// A port on the standard stream of this kind; for any other kind on standard
/// output.
pub fn stdio_port_value(kind: PortKind) -> (r: ExternalObject)
    ensures
        r.kind_name@ == "port"@,
        r.data == ExternalData::Port(stdio_kind(kind)),
{
    let port = match kind {
        PortKind::Stdin => PortKind::Stdin,
        PortKind::Stderr => PortKind::Stderr,
        _ => PortKind::Stdout,
    };
    ExternalObject { kind_name: "port".to_string(), data: ExternalData::Port(port) }
}

/// Rebuild some values in order.
fn into_all(
    items: &Vec<SendValue>,
    table: &Vec<SendableClosure>,
    heap: &mut FiberHeap,
    symbols: &mut SymbolTable,
    ctx: &mut DeserContext,
) -> (r: Vec<Value>)
    requires
        table_fits(table@),
        old(ctx).ok(table@, old(heap)@, old(symbols)@),
        all_fit(items@, table@.len()),
        forall|k: int| all_mention(items@, k) ==> #[trigger] old(ctx).may_meet(table@, k),
        old(ctx).spare@ >= weights(items@),
    ensures
        stepped(
            table@,
            *old(ctx),
            old(heap)@,
            old(symbols)@,
            *final(ctx),
            final(heap)@,
            final(symbols)@,
        ),
        all_rebuilt(
            final(ctx).world(final(heap)@, final(symbols)@),
            opened(old(ctx).states@),
            r@,
            items@,
        ),
        told(
            table@,
            *old(ctx),
            old(heap)@,
            old(symbols)@,
            *final(ctx),
            final(heap)@,
            final(symbols)@,
            deeds_all(items@),
        ),
        final(ctx).spare@ == old(ctx).spare@ - weights(items@),
    decreases unstarted(old(ctx).states@), 0int, items, 0int,
{
    let ghost (c0, h0, s0) = (*ctx, heap@, symbols@);
    let ghost open = opened(c0.states@);
    let mut out: Vec<Value> = Vec::new();
    let mut i: usize = 0;
    assert(items@.take(0) =~= Seq::empty());
    proof {
        lemma_stepped_self(table@, c0, h0, s0);
        lemma_worked_nothing(table@, met(c0.states@), h0, s0);
    }
    while i < items.len()
        invariant
            i <= items@.len(),
            table_fits(table@),
            c0 == *old(ctx),
            c0.ok(table@, h0, s0),
            open == opened(c0.states@),
            stepped(table@, c0, h0, s0, *ctx, heap@, symbols@),
            told(table@, c0, h0, s0, *ctx, heap@, symbols@, deeds_all(items@.take(i as int))),
            all_fit(items@, table@.len()),
            forall|k: int| all_mention(items@, k) ==> #[trigger] c0.may_meet(table@, k),
            c0.spare@ >= weights(items@),
            ctx.spare@ == c0.spare@ - weights(items@.take(i as int)),
            all_rebuilt(ctx.world(heap@, symbols@), open, out@, items@.take(i as int)),
        decreases items.len() - i,
    {
        let ghost (c1, h1, s1) = (*ctx, heap@, symbols@);
        proof {
            assert(items@.take(i + 1).drop_last() =~= items@.take(i as int));
            lemma_weights_prefix(items@, i + 1);
            assert forall|k: int| mentions(items@[i as int], k) implies #[trigger] c1.may_meet(
                table@,
                k,
            ) by {
                assert(all_mention(items@, k));
                assert(c0.may_meet(table@, k));
            }
        }
        let v = into_value_inner(&items[i], table, heap, symbols, ctx);
        let ghost had = out@;
        out.push(v);
        proof {
            lemma_stepped_trans(table@, c0, h0, s0, c1, h1, s1, *ctx, heap@, symbols@);
            lemma_told_trans(
                table@,
                c0,
                h0,
                s0,
                c1,
                h1,
                s1,
                *ctx,
                heap@,
                symbols@,
                deeds_all(items@.take(i as int)),
                deeds(items@[i as int]),
            );
            assert(items@.take(i + 1).last() == items@[i as int]);
            lemma_all_further(
                c1.world(h1, s1),
                ctx.world(heap@, symbols@),
                open,
                had,
                items@.take(i as int),
            );
        }
        i = i + 1;
        assert(all_rebuilt(ctx.world(heap@, symbols@), open, out@, items@.take(i as int))) by {
            assert forall|k: int| 0 <= k < items@.take(i as int).len() implies rebuilt(
                ctx.world(heap@, symbols@),
                open,
                out@[k],
                #[trigger] items@.take(i as int)[k],
            ) by {
                if k < i - 1 {
                    assert(items@.take(i - 1)[k] == items@[k]);
                    assert(out@[k] == had[k]);
                }
            }
        }
    }
    assert(items@.take(i as int) =~= items@);
    out
}

/// Rebuild some entries in order.
fn into_entries(
    entries: &Vec<(TableKey, SendValue)>,
    table: &Vec<SendableClosure>,
    heap: &mut FiberHeap,
    symbols: &mut SymbolTable,
    ctx: &mut DeserContext,
) -> (r: Vec<(TableKey, Value)>)
    requires
        table_fits(table@),
        old(ctx).ok(table@, old(heap)@, old(symbols)@),
        forall|i: int| 0 <= i < entries@.len() ==> fits((#[trigger] entries@[i]).1, table@.len()),
        forall|i: int, k: int|
            0 <= i < entries@.len() && mentions((#[trigger] entries@[i]).1, k)
                ==> #[trigger] old(ctx).may_meet(table@, k),
        old(ctx).spare@ >= entry_weights(entries@),
    ensures
        stepped(
            table@,
            *old(ctx),
            old(heap)@,
            old(symbols)@,
            *final(ctx),
            final(heap)@,
            final(symbols)@,
        ),
        entries_rebuilt(
            final(ctx).world(final(heap)@, final(symbols)@),
            opened(old(ctx).states@),
            r@,
            entries@,
        ),
        told(
            table@,
            *old(ctx),
            old(heap)@,
            old(symbols)@,
            *final(ctx),
            final(heap)@,
            final(symbols)@,
            entry_deeds(entries@),
        ),
        final(ctx).spare@ == old(ctx).spare@ - entry_weights(entries@),
    decreases unstarted(old(ctx).states@), 0int, entries, 0int,
{
    let ghost (c0, h0, s0) = (*ctx, heap@, symbols@);
    let ghost open = opened(c0.states@);
    let mut out: Vec<(TableKey, Value)> = Vec::new();
    let mut i: usize = 0;
    assert(entries@.take(0) =~= Seq::empty());
    proof {
        lemma_stepped_self(table@, c0, h0, s0);
        lemma_worked_nothing(table@, met(c0.states@), h0, s0);
    }
    while i < entries.len()
        invariant
            i <= entries@.len(),
            table_fits(table@),
            c0 == *old(ctx),
            c0.ok(table@, h0, s0),
            open == opened(c0.states@),
            stepped(table@, c0, h0, s0, *ctx, heap@, symbols@),
            told(table@, c0, h0, s0, *ctx, heap@, symbols@, entry_deeds(entries@.take(i as int))),
            forall|i: int| 0 <= i < entries@.len() ==> fits((#[trigger] entries@[i]).1, table@.len()),
            forall|i: int, k: int|
                0 <= i < entries@.len() && mentions((#[trigger] entries@[i]).1, k)
                    ==> #[trigger] c0.may_meet(table@, k),
            c0.spare@ >= entry_weights(entries@),
            ctx.spare@ == c0.spare@ - entry_weights(entries@.take(i as int)),
            entries_rebuilt(ctx.world(heap@, symbols@), open, out@, entries@.take(i as int)),
        decreases entries.len() - i,
    {
        let ghost (c1, h1, s1) = (*ctx, heap@, symbols@);
        proof {
            assert(entries@.take(i + 1).drop_last() =~= entries@.take(i as int));
            lemma_entry_weights_prefix(entries@, i + 1);
            assert forall|k: int| mentions(entries@[i as int].1, k) implies #[trigger] c1.may_meet(
                table@,
                k,
            ) by {
                assert(c0.may_meet(table@, k));
            }
        }
        let v = into_value_inner(&entries[i].1, table, heap, symbols, ctx);
        let ghost had = out@;
        let key = entries[i].0.copy();
        out.push((key, v));
        proof {
            lemma_stepped_trans(table@, c0, h0, s0, c1, h1, s1, *ctx, heap@, symbols@);
            lemma_told_trans(
                table@,
                c0,
                h0,
                s0,
                c1,
                h1,
                s1,
                *ctx,
                heap@,
                symbols@,
                entry_deeds(entries@.take(i as int)),
                deeds(entries@[i as int].1),
            );
            assert(entries@.take(i + 1).last() == entries@[i as int]);
            lemma_entries_further(
                c1.world(h1, s1),
                ctx.world(heap@, symbols@),
                open,
                had,
                entries@.take(i as int),
            );
        }
        i = i + 1;
        assert(entries_rebuilt(ctx.world(heap@, symbols@), open, out@, entries@.take(i as int))) by {
            assert forall|k: int| 0 <= k < entries@.take(i as int).len() implies out@[k].0.same(
                (#[trigger] entries@.take(i as int)[k]).0,
            ) && rebuilt(
                ctx.world(heap@, symbols@),
                open,
                out@[k].1,
                entries@.take(i as int)[k].1,
            ) by {
                if k < i - 1 {
                    assert(entries@.take(i - 1)[k] == entries@[k]);
                    assert(out@[k] == had[k]);
                }
            }
        }
    }
    assert(entries@.take(i as int) =~= entries@);
    out
}

/// Rebuild two values in order.
fn into_two(
    first: &SendValue,
    second: &SendValue,
    table: &Vec<SendableClosure>,
    heap: &mut FiberHeap,
    symbols: &mut SymbolTable,
    ctx: &mut DeserContext,
    whole: Ghost<SendValue>,
) -> (r: (Value, Value))
    requires
        can_take(table@, *old(ctx), old(heap)@, old(symbols)@, *first),
        can_take(table@, *old(ctx), old(heap)@, old(symbols)@, *second),
        old(ctx).spare@ >= weight(*first) + weight(*second),
        decreases_to!(whole@ => *first),
        decreases_to!(whole@ => *second),
    ensures
        stepped(
            table@,
            *old(ctx),
            old(heap)@,
            old(symbols)@,
            *final(ctx),
            final(heap)@,
            final(symbols)@,
        ),
        rebuilt(
            final(ctx).world(final(heap)@, final(symbols)@),
            opened(old(ctx).states@),
            r.0,
            *first,
        ),
        rebuilt(
            final(ctx).world(final(heap)@, final(symbols)@),
            opened(old(ctx).states@),
            r.1,
            *second,
        ),
        told(
            table@,
            *old(ctx),
            old(heap)@,
            old(symbols)@,
            *final(ctx),
            final(heap)@,
            final(symbols)@,
            deeds(*first) + deeds(*second),
        ),
        final(ctx).spare@ == old(ctx).spare@ - weight(*first) - weight(*second),
    decreases unstarted(old(ctx).states@), 0int, whole@, 1int,
{
    let ghost (c0, h0, s0) = (*ctx, heap@, symbols@);
    let a = into_value_inner(first, table, heap, symbols, ctx);
    let ghost (c1, h1, s1) = (*ctx, heap@, symbols@);
    proof {
        assert forall|k: int| mentions(*second, k) implies #[trigger] c1.may_meet(table@, k) by {
            assert(c0.may_meet(table@, k));
        }
    }
    let b = into_value_inner(second, table, heap, symbols, ctx);
    proof {
        lemma_stepped_trans(table@, c0, h0, s0, c1, h1, s1, *ctx, heap@, symbols@);
        lemma_told_trans(table@, c0, h0, s0, c1, h1, s1, *ctx, heap@, symbols@, deeds(*first), deeds(*second));
        lemma_rebuilt_further(
            c1.world(h1, s1),
            ctx.world(heap@, symbols@),
            opened(c0.states@),
            a,
            *first,
        );
    }
    (a, b)
}

proof fn lemma_stepped_self(
    table: Seq<SendableClosure>,
    a: DeserContext,
    h: HeapState,
    s: Seq<Seq<char>>,
)
    requires
        a.ok(table, h, s),
    ensures
        stepped(table, a, h, s, a, h, s),
{
    lemma_grown_self(h, a.alloc.home().0);
}

proof fn lemma_weights_prefix(items: Seq<SendValue>, k: int)
    requires
        0 <= k <= items.len(),
    ensures
        weights(items.take(k)) <= weights(items),
    decreases items.len(),
{
    if k == items.len() {
        assert(items.take(k) =~= items);
    } else {
        lemma_weights_prefix(items.drop_last(), k);
        assert(items.drop_last().take(k) =~= items.take(k));
    }
}

proof fn lemma_entry_weights_prefix(entries: Seq<(TableKey, SendValue)>, k: int)
    requires
        0 <= k <= entries.len(),
    ensures
        entry_weights(entries.take(k)) <= entry_weights(entries),
    decreases entries.len(),
{
    if k == entries.len() {
        assert(entries.take(k) =~= entries);
    } else {
        lemma_entry_weights_prefix(entries.drop_last(), k);
        assert(entries.drop_last().take(k) =~= entries.take(k));
    }
}

/// Rebuild the traits of an object.
fn into_traits(
    sv: &SendValue,
    tag: HeapTag,
    table: &Vec<SendableClosure>,
    heap: &mut FiberHeap,
    symbols: &mut SymbolTable,
    ctx: &mut DeserContext,
    whole: Ghost<SendValue>,
) -> (r: Value)
    requires
        can_take(table@, *old(ctx), old(heap)@, old(symbols)@, *sv),
        old(ctx).spare@ >= weight(*sv),
        decreases_to!(whole@ => *sv),
    ensures
        stepped(
            table@,
            *old(ctx),
            old(heap)@,
            old(symbols)@,
            *final(ctx),
            final(heap)@,
            final(symbols)@,
        ),
        traits_rebuilt(
            final(ctx).world(final(heap)@, final(symbols)@),
            opened(old(ctx).states@),
            r,
            tag,
            *sv,
        ),
        told(
            table@,
            *old(ctx),
            old(heap)@,
            old(symbols)@,
            *final(ctx),
            final(heap)@,
            final(symbols)@,
            deeds(*sv),
        ),
        final(ctx).spare@ == old(ctx).spare@ - weight(*sv),
    decreases unstarted(old(ctx).states@), 0int, whole@, 1int,
{
    let raw = into_value_inner(sv, table, heap, symbols, ctx);
    recv_traits(heap, raw, tag)
}

/// Rebuild one value, the closures it refers to where they are met first.
fn into_value_inner(
    sv: &SendValue,
    table: &Vec<SendableClosure>,
    heap: &mut FiberHeap,
    symbols: &mut SymbolTable,
    ctx: &mut DeserContext,
) -> (r: Value)
    requires
        can_take(table@, *old(ctx), old(heap)@, old(symbols)@, *sv),
        old(ctx).spare@ >= weight(*sv),
    ensures
        stepped(
            table@,
            *old(ctx),
            old(heap)@,
            old(symbols)@,
            *final(ctx),
            final(heap)@,
            final(symbols)@,
        ),
        rebuilt(
            final(ctx).world(final(heap)@, final(symbols)@),
            opened(old(ctx).states@),
            r,
            *sv,
        ),
        told(
            table@,
            *old(ctx),
            old(heap)@,
            old(symbols)@,
            *final(ctx),
            final(heap)@,
            final(symbols)@,
            deeds(*sv),
        ),
        final(ctx).spare@ == old(ctx).spare@ - weight(*sv),
    decreases unstarted(old(ctx).states@), 0int, sv, 4int,
{
    let ghost (c0, h0, s0) = (*ctx, heap@, symbols@);
    let ghost open = opened(c0.states@);
    proof {
        lemma_stepped_self(table@, c0, h0, s0);
        lemma_worked_nothing(table@, met(c0.states@), h0, s0);
    }
    match sv {
        SendValue::Immediate(v) => *v,
        SendValue::Keyword(name) => {
            proof {
                lemma_room_less(h0, ctx.budget(table@), 1);
                lemma_keyword_grows(h0, name@, ctx.alloc.home().0);
            }
            let v = heap.keyword(name);
            ctx.spare = Ghost((ctx.spare@ - 1) as nat);
            proof {
                lemma_keyword_room(h0, heap@, name@, ctx.budget(table@));
                lemma_ok_grows(table@, c0, h0, s0, *ctx, heap@, s0);
                lemma_worked_keyword(table@, met(c0.states@), h0, heap@, s0, name@);
            }
            v
        },
        SendValue::Symbol { name, .. } => {
            let v = recv_symbol(name, symbols);
            ctx.spare = Ghost((ctx.spare@ - 1) as nat);
            proof {
                lemma_room_less(h0, c0.budget(table@), ctx.budget(table@));
                lemma_grown_self(h0, ctx.alloc.home().0);
                lemma_ok_grows(table@, c0, h0, s0, *ctx, h0, symbols@);
                lemma_worked_symbol(table@, met(c0.states@), h0, s0, name@);
            }
            v
        },
        SendValue::Str(text) => {
            let traits = heap.default_traits_for(HeapTag::LString);
            settle(HeapObject::LString { s: text.clone(), traits }, heap, ctx, Ghost(symbols@), Ghost(table@))
        },
        SendValue::Syntax(syntax) => {
            let obj = HeapObject::Syntax { syntax: syntax.copy(), traits: Value::nil() };
            settle(obj, heap, ctx, Ghost(symbols@), Ghost(table@))
        },
        SendValue::Pair(..) => into_pair(sv, table, heap, symbols, ctx),
        SendValue::Array(..) => into_array_mut(sv, table, heap, symbols, ctx),
        SendValue::Struct(..) => into_immutable_struct(sv, table, heap, symbols, ctx),
        SendValue::StructMut(..) => into_struct_mut(sv, table, heap, symbols, ctx),
        SendValue::Tuple(..) => into_array(sv, table, heap, symbols, ctx),
        SendValue::Buffer(bytes, traits) => {
            let t = into_traits(traits, HeapTag::LStringMut, table, heap, symbols, ctx, Ghost(*sv));
            let ghost (c1, h1, s1) = (*ctx, heap@, symbols@);
            proof {
                lemma_traits_local(c1.world(h1, s1), open, t, HeapTag::LStringMut, **traits);
            }
            let obj = HeapObject::LStringMut { data: bytes.clone(), traits: t };
            let v = settle(obj, heap, ctx, Ghost(symbols@), Ghost(table@));
            proof {
                let w2 = ctx.world(heap@, symbols@);
                lemma_stepped_trans(table@, c0, h0, s0, c1, h1, s1, *ctx, heap@, symbols@);
                lemma_told_trans(
                    table@,
                    c0,
                    h0,
                    s0,
                    c1,
                    h1,
                    s1,
                    *ctx,
                    heap@,
                    symbols@,
                    deeds(**traits),
                    seq![Deed::Object],
                );
                lemma_traits_further(c1.world(h1, s1), w2, open, t, HeapTag::LStringMut, **traits);
            }
            v
        },
        SendValue::Bytes(bytes, traits) => {
            let t = into_traits(traits, HeapTag::LBytes, table, heap, symbols, ctx, Ghost(*sv));
            let ghost (c1, h1, s1) = (*ctx, heap@, symbols@);
            proof {
                lemma_traits_local(c1.world(h1, s1), open, t, HeapTag::LBytes, **traits);
            }
            let obj = HeapObject::LBytes { data: bytes.clone(), traits: t };
            let v = settle(obj, heap, ctx, Ghost(symbols@), Ghost(table@));
            proof {
                let w2 = ctx.world(heap@, symbols@);
                lemma_stepped_trans(table@, c0, h0, s0, c1, h1, s1, *ctx, heap@, symbols@);
                lemma_told_trans(
                    table@,
                    c0,
                    h0,
                    s0,
                    c1,
                    h1,
                    s1,
                    *ctx,
                    heap@,
                    symbols@,
                    deeds(**traits),
                    seq![Deed::Object],
                );
                lemma_traits_further(c1.world(h1, s1), w2, open, t, HeapTag::LBytes, **traits);
            }
            v
        },
        SendValue::Blob(bytes, traits) => {
            let t = into_traits(traits, HeapTag::LBytesMut, table, heap, symbols, ctx, Ghost(*sv));
            let ghost (c1, h1, s1) = (*ctx, heap@, symbols@);
            proof {
                lemma_traits_local(c1.world(h1, s1), open, t, HeapTag::LBytesMut, **traits);
            }
            let obj = HeapObject::LBytesMut { data: bytes.clone(), traits: t };
            let v = settle(obj, heap, ctx, Ghost(symbols@), Ghost(table@));
            proof {
                let w2 = ctx.world(heap@, symbols@);
                lemma_stepped_trans(table@, c0, h0, s0, c1, h1, s1, *ctx, heap@, symbols@);
                lemma_told_trans(
                    table@,
                    c0,
                    h0,
                    s0,
                    c1,
                    h1,
                    s1,
                    *ctx,
                    heap@,
                    symbols@,
                    deeds(**traits),
                    seq![Deed::Object],
                );
                lemma_traits_further(c1.world(h1, s1), w2, open, t, HeapTag::LBytesMut, **traits);
            }
            v
        },
        SendValue::LBox(..) => into_box(sv, table, heap, symbols, ctx),
        SendValue::CaptureCell(..) => into_capture_cell(sv, table, heap, symbols, ctx),
        SendValue::Float(f) => into_float(*f, table, heap, symbols, ctx),
        SendValue::FFIType(desc) => {
            settle(HeapObject::FFIType(desc.copy()), heap, ctx, Ghost(symbols@), Ghost(table@))
        },
        SendValue::LSet(..) => into_set(sv, table, heap, symbols, ctx),
        SendValue::LSetMut(..) => into_set_mut(sv, table, heap, symbols, ctx),
        SendValue::ChanSender(end) => {
            let obj = ExternalObject { kind_name: "chan/sender".to_string(), data: ExternalData::Channel(*end) };
            settle(
                HeapObject::External { obj, traits: Value::nil() },
                heap,
                ctx,
                Ghost(symbols@),
                Ghost(table@),
            )
        },
        SendValue::ChanReceiver(end) => {
            let obj = ExternalObject {
                kind_name: "chan/receiver".to_string(),
                data: ExternalData::Channel(*end),
            };
            settle(
                HeapObject::External { obj, traits: Value::nil() },
                heap,
                ctx,
                Ghost(symbols@),
                Ghost(table@),
            )
        },
        SendValue::StdioPort(kind) => {
            let obj = stdio_port_value(*kind);
            settle(
                HeapObject::External { obj, traits: Value::nil() },
                heap,
                ctx,
                Ghost(symbols@),
                Ghost(table@),
            )
        },
        SendValue::Parameter { id, default, traits } => {
            let (d, t) = into_two(default, traits, table, heap, symbols, ctx, Ghost(*sv));
            let ghost (c1, h1, s1) = (*ctx, heap@, symbols@);
            let ghost w1 = c1.world(h1, s1);
            proof {
                lemma_rebuilt_local(w1, open, d, **default);
                lemma_rebuilt_local(w1, open, t, **traits);
            }
            let obj = HeapObject::Parameter { id: *id, default: d, traits: t };
            let v = settle(obj, heap, ctx, Ghost(symbols@), Ghost(table@));
            proof {
                let w2 = ctx.world(heap@, symbols@);
                lemma_stepped_trans(table@, c0, h0, s0, c1, h1, s1, *ctx, heap@, symbols@);
                lemma_told_trans(
                    table@,
                    c0,
                    h0,
                    s0,
                    c1,
                    h1,
                    s1,
                    *ctx,
                    heap@,
                    symbols@,
                    deeds(**default) + deeds(**traits),
                    seq![Deed::Object],
                );
                lemma_rebuilt_further(w1, w2, open, d, **default);
                lemma_rebuilt_further(w1, w2, open, t, **traits);
            }
            v
        },
        SendValue::Ref(idx) => into_closure(*idx, table, heap, symbols, ctx),
    }
}

/// Rebuild a pair.
fn into_pair(
    sv: &SendValue,
    table: &Vec<SendableClosure>,
    heap: &mut FiberHeap,
    symbols: &mut SymbolTable,
    ctx: &mut DeserContext,
) -> (r: Value)
    requires
        can_take(table@, *old(ctx), old(heap)@, old(symbols)@, *sv),
        old(ctx).spare@ >= weight(*sv),
        sv is Pair,
    ensures
        stepped(
            table@,
            *old(ctx),
            old(heap)@,
            old(symbols)@,
            *final(ctx),
            final(heap)@,
            final(symbols)@,
        ),
        rebuilt(
            final(ctx).world(final(heap)@, final(symbols)@),
            opened(old(ctx).states@),
            r,
            *sv,
        ),
        told(
            table@,
            *old(ctx),
            old(heap)@,
            old(symbols)@,
            *final(ctx),
            final(heap)@,
            final(symbols)@,
            deeds(*sv),
        ),
        final(ctx).spare@ == old(ctx).spare@ - weight(*sv),
    decreases unstarted(old(ctx).states@), 0int, sv, 3int,
{
    let ghost (c0, h0, s0) = (*ctx, heap@, symbols@);
    let ghost open = opened(c0.states@);
    match sv {
        SendValue::Pair(first, rest, traits) => {
            let (f, r) = into_two(first, rest, table, heap, symbols, ctx, Ghost(*sv));
            let ghost (c1, h1, s1) = (*ctx, heap@, symbols@);
            proof {
                assert forall|k: int| mentions(**traits, k) implies #[trigger] c1.may_meet(table@, k) by {
                    assert(c0.may_meet(table@, k));
                }
            }
            let t = into_traits(traits, HeapTag::Pair, table, heap, symbols, ctx, Ghost(*sv));
            let ghost (c2, h2, s2) = (*ctx, heap@, symbols@);
            let ghost w2 = c2.world(h2, s2);
            proof {
                lemma_stepped_trans(table@, c0, h0, s0, c1, h1, s1, c2, h2, s2);
                lemma_told_trans(
                    table@,
                    c0,
                    h0,
                    s0,
                    c1,
                    h1,
                    s1,
                    c2,
                    h2,
                    s2,
                    deeds(**first) + deeds(**rest),
                    deeds(**traits),
                );
                lemma_rebuilt_further(c1.world(h1, s1), w2, open, f, **first);
                lemma_rebuilt_further(c1.world(h1, s1), w2, open, r, **rest);
                lemma_rebuilt_local(w2, open, f, **first);
                lemma_rebuilt_local(w2, open, r, **rest);
                lemma_traits_local(w2, open, t, HeapTag::Pair, **traits);
            }
            let obj = HeapObject::Pair(Pair { first: f, rest: r, traits: t });
            let v = settle(obj, heap, ctx, Ghost(symbols@), Ghost(table@));
            proof {
                let w3 = ctx.world(heap@, symbols@);
                lemma_stepped_trans(table@, c0, h0, s0, c2, h2, s2, *ctx, heap@, symbols@);
                lemma_told_trans(
                    table@,
                    c0,
                    h0,
                    s0,
                    c2,
                    h2,
                    s2,
                    *ctx,
                    heap@,
                    symbols@,
                    deeds(**first) + deeds(**rest) + deeds(**traits),
                    seq![Deed::Object],
                );
                lemma_rebuilt_further(w2, w3, open, f, **first);
                lemma_rebuilt_further(w2, w3, open, r, **rest);
                lemma_traits_further(w2, w3, open, t, HeapTag::Pair, **traits);
            }
            v
        },
        _ => Value::nil(),
    }
}

/// Rebuild a box.
fn into_box(
    sv: &SendValue,
    table: &Vec<SendableClosure>,
    heap: &mut FiberHeap,
    symbols: &mut SymbolTable,
    ctx: &mut DeserContext,
) -> (r: Value)
    requires
        can_take(table@, *old(ctx), old(heap)@, old(symbols)@, *sv),
        old(ctx).spare@ >= weight(*sv),
        sv is LBox,
    ensures
        stepped(
            table@,
            *old(ctx),
            old(heap)@,
            old(symbols)@,
            *final(ctx),
            final(heap)@,
            final(symbols)@,
        ),
        rebuilt(
            final(ctx).world(final(heap)@, final(symbols)@),
            opened(old(ctx).states@),
            r,
            *sv,
        ),
        told(
            table@,
            *old(ctx),
            old(heap)@,
            old(symbols)@,
            *final(ctx),
            final(heap)@,
            final(symbols)@,
            deeds(*sv),
        ),
        final(ctx).spare@ == old(ctx).spare@ - weight(*sv),
    decreases unstarted(old(ctx).states@), 0int, sv, 3int,
{
    let ghost (c0, h0, s0) = (*ctx, heap@, symbols@);
    let ghost open = opened(c0.states@);
    match sv {
        SendValue::LBox(contents, traits) => {
            let waiting = waiting_for(contents, ctx);
            let (inner, t) = into_two(contents, traits, table, heap, symbols, ctx, Ghost(*sv));
            let ghost (c1, h1, s1) = (*ctx, heap@, symbols@);
            let ghost w1 = c1.world(h1, s1);
            proof {
                lemma_rebuilt_local(w1, open, inner, **contents);
                lemma_rebuilt_local(w1, open, t, **traits);
            }
            let v = settle(HeapObject::LBox { cell: inner, traits: t }, heap, ctx, Ghost(symbols@), Ghost(table@));
            let ghost (c2, h2) = (*ctx, heap@);
            if let Some(idx) = waiting {
                ctx.fixups.push((v, idx));
                proof {
                    lemma_local_grows(h1, h2, w1.region, inner);
                    lemma_fixup_added(table@, c1, h1, s1, c2, h2, *ctx, v, idx);
                    assert(ctx.fixups@[c2.fixups@.len() as int] == (v, idx));
                }
            } else {
                proof {
                    lemma_no_wait(table@, c1, h1, s1, v);
                }
            }
            proof {
                let w3 = ctx.world(heap@, symbols@);
                lemma_stepped_trans(table@, c0, h0, s0, c1, h1, s1, *ctx, heap@, symbols@);
                lemma_told_trans(
                    table@,
                    c0,
                    h0,
                    s0,
                    c1,
                    h1,
                    s1,
                    *ctx,
                    heap@,
                    symbols@,
                    deeds(**contents) + deeds(**traits),
                    seq![Deed::Object],
                );
                lemma_rebuilt_further(w1, w3, open, inner, **contents);
                lemma_rebuilt_further(w1, w3, open, t, **traits);
                assert(cell_rebuilt(w3, open, v, inner, **contents));
            }
            v
        },
        _ => Value::nil(),
    }
}

/// Rebuild a capture cell.
fn into_capture_cell(
    sv: &SendValue,
    table: &Vec<SendableClosure>,
    heap: &mut FiberHeap,
    symbols: &mut SymbolTable,
    ctx: &mut DeserContext,
) -> (r: Value)
    requires
        can_take(table@, *old(ctx), old(heap)@, old(symbols)@, *sv),
        old(ctx).spare@ >= weight(*sv),
        sv is CaptureCell,
    ensures
        stepped(
            table@,
            *old(ctx),
            old(heap)@,
            old(symbols)@,
            *final(ctx),
            final(heap)@,
            final(symbols)@,
        ),
        rebuilt(
            final(ctx).world(final(heap)@, final(symbols)@),
            opened(old(ctx).states@),
            r,
            *sv,
        ),
        told(
            table@,
            *old(ctx),
            old(heap)@,
            old(symbols)@,
            *final(ctx),
            final(heap)@,
            final(symbols)@,
            deeds(*sv),
        ),
        final(ctx).spare@ == old(ctx).spare@ - weight(*sv),
    decreases unstarted(old(ctx).states@), 0int, sv, 3int,
{
    let ghost (c0, h0, s0) = (*ctx, heap@, symbols@);
    let ghost open = opened(c0.states@);
    match sv {
        SendValue::CaptureCell(contents, traits) => {
            let waiting = waiting_for(contents, ctx);
            let (inner, t) = into_two(contents, traits, table, heap, symbols, ctx, Ghost(*sv));
            let ghost (c1, h1, s1) = (*ctx, heap@, symbols@);
            let ghost w1 = c1.world(h1, s1);
            proof {
                lemma_rebuilt_local(w1, open, inner, **contents);
                lemma_rebuilt_local(w1, open, t, **traits);
            }
            let obj = HeapObject::CaptureCell { cell: inner, traits: t };
            let v = settle(obj, heap, ctx, Ghost(symbols@), Ghost(table@));
            let ghost (c2, h2) = (*ctx, heap@);
            if let Some(idx) = waiting {
                ctx.fixups.push((v, idx));
                proof {
                    lemma_local_grows(h1, h2, w1.region, inner);
                    lemma_fixup_added(table@, c1, h1, s1, c2, h2, *ctx, v, idx);
                    assert(ctx.fixups@[c2.fixups@.len() as int] == (v, idx));
                }
            } else {
                proof {
                    lemma_no_wait(table@, c1, h1, s1, v);
                }
            }
            proof {
                let w3 = ctx.world(heap@, symbols@);
                lemma_stepped_trans(table@, c0, h0, s0, c1, h1, s1, *ctx, heap@, symbols@);
                lemma_told_trans(
                    table@,
                    c0,
                    h0,
                    s0,
                    c1,
                    h1,
                    s1,
                    *ctx,
                    heap@,
                    symbols@,
                    deeds(**contents) + deeds(**traits),
                    seq![Deed::Object],
                );
                lemma_rebuilt_further(w1, w3, open, inner, **contents);
                lemma_rebuilt_further(w1, w3, open, t, **traits);
                assert(cell_rebuilt(w3, open, v, inner, **contents));
            }
            v
        },
        _ => Value::nil(),
    }
}

/// Rebuild a mutable array.
fn into_array_mut(
    sv: &SendValue,
    table: &Vec<SendableClosure>,
    heap: &mut FiberHeap,
    symbols: &mut SymbolTable,
    ctx: &mut DeserContext,
) -> (r: Value)
    requires
        can_take(table@, *old(ctx), old(heap)@, old(symbols)@, *sv),
        old(ctx).spare@ >= weight(*sv),
        sv is Array,
    ensures
        stepped(
            table@,
            *old(ctx),
            old(heap)@,
            old(symbols)@,
            *final(ctx),
            final(heap)@,
            final(symbols)@,
        ),
        rebuilt(
            final(ctx).world(final(heap)@, final(symbols)@),
            opened(old(ctx).states@),
            r,
            *sv,
        ),
        told(
            table@,
            *old(ctx),
            old(heap)@,
            old(symbols)@,
            *final(ctx),
            final(heap)@,
            final(symbols)@,
            deeds(*sv),
        ),
        final(ctx).spare@ == old(ctx).spare@ - weight(*sv),
    decreases unstarted(old(ctx).states@), 0int, sv, 3int,
{
    let ghost (c0, h0, s0) = (*ctx, heap@, symbols@);
    let ghost open = opened(c0.states@);
    match sv {
        SendValue::Array(items, traits) => {
            let (values, t) = into_items(items, traits, HeapTag::LArrayMut, table, heap, symbols, ctx, Ghost(*sv));
            let ghost (c1, h1, s1) = (*ctx, heap@, symbols@);
            let ghost (w1, kids) = (c1.world(h1, s1), values@);
            let obj = HeapObject::LArrayMut { data: values, traits: t };
            let v = settle(obj, heap, ctx, Ghost(symbols@), Ghost(table@));
            proof {
                let w2 = ctx.world(heap@, symbols@);
                lemma_stepped_trans(table@, c0, h0, s0, c1, h1, s1, *ctx, heap@, symbols@);
                lemma_told_trans(
                    table@,
                    c0,
                    h0,
                    s0,
                    c1,
                    h1,
                    s1,
                    *ctx,
                    heap@,
                    symbols@,
                    deeds_all(items@) + deeds(**traits),
                    seq![Deed::Object],
                );
                lemma_all_further(w1, w2, open, kids, items@);
                lemma_traits_further(w1, w2, open, t, HeapTag::LArrayMut, **traits);
            }
            v
        },
        _ => Value::nil(),
    }
}

/// Rebuild an array.
fn into_array(
    sv: &SendValue,
    table: &Vec<SendableClosure>,
    heap: &mut FiberHeap,
    symbols: &mut SymbolTable,
    ctx: &mut DeserContext,
) -> (r: Value)
    requires
        can_take(table@, *old(ctx), old(heap)@, old(symbols)@, *sv),
        old(ctx).spare@ >= weight(*sv),
        sv is Tuple,
    ensures
        stepped(
            table@,
            *old(ctx),
            old(heap)@,
            old(symbols)@,
            *final(ctx),
            final(heap)@,
            final(symbols)@,
        ),
        rebuilt(
            final(ctx).world(final(heap)@, final(symbols)@),
            opened(old(ctx).states@),
            r,
            *sv,
        ),
        told(
            table@,
            *old(ctx),
            old(heap)@,
            old(symbols)@,
            *final(ctx),
            final(heap)@,
            final(symbols)@,
            deeds(*sv),
        ),
        final(ctx).spare@ == old(ctx).spare@ - weight(*sv),
    decreases unstarted(old(ctx).states@), 0int, sv, 3int,
{
    let ghost (c0, h0, s0) = (*ctx, heap@, symbols@);
    let ghost open = opened(c0.states@);
    match sv {
        SendValue::Tuple(items, traits) => {
            let (values, t) = into_items(items, traits, HeapTag::LArray, table, heap, symbols, ctx, Ghost(*sv));
            let ghost (c1, h1, s1) = (*ctx, heap@, symbols@);
            let ghost (w1, kids) = (c1.world(h1, s1), values@);
            let obj = HeapObject::LArray { elements: values, traits: t };
            let v = settle(obj, heap, ctx, Ghost(symbols@), Ghost(table@));
            proof {
                let w2 = ctx.world(heap@, symbols@);
                lemma_stepped_trans(table@, c0, h0, s0, c1, h1, s1, *ctx, heap@, symbols@);
                lemma_told_trans(
                    table@,
                    c0,
                    h0,
                    s0,
                    c1,
                    h1,
                    s1,
                    *ctx,
                    heap@,
                    symbols@,
                    deeds_all(items@) + deeds(**traits),
                    seq![Deed::Object],
                );
                lemma_all_further(w1, w2, open, kids, items@);
                lemma_traits_further(w1, w2, open, t, HeapTag::LArray, **traits);
            }
            v
        },
        _ => Value::nil(),
    }
}

/// Rebuild a struct.
fn into_immutable_struct(
    sv: &SendValue,
    table: &Vec<SendableClosure>,
    heap: &mut FiberHeap,
    symbols: &mut SymbolTable,
    ctx: &mut DeserContext,
) -> (r: Value)
    requires
        can_take(table@, *old(ctx), old(heap)@, old(symbols)@, *sv),
        old(ctx).spare@ >= weight(*sv),
        sv is Struct,
    ensures
        stepped(
            table@,
            *old(ctx),
            old(heap)@,
            old(symbols)@,
            *final(ctx),
            final(heap)@,
            final(symbols)@,
        ),
        rebuilt(
            final(ctx).world(final(heap)@, final(symbols)@),
            opened(old(ctx).states@),
            r,
            *sv,
        ),
        told(
            table@,
            *old(ctx),
            old(heap)@,
            old(symbols)@,
            *final(ctx),
            final(heap)@,
            final(symbols)@,
            deeds(*sv),
        ),
        final(ctx).spare@ == old(ctx).spare@ - weight(*sv),
    decreases unstarted(old(ctx).states@), 0int, sv, 3int,
{
    let ghost (c0, h0, s0) = (*ctx, heap@, symbols@);
    let ghost open = opened(c0.states@);
    match sv {
        SendValue::Struct(entries, traits) => {
            let (data, t) = into_struct(entries, traits, HeapTag::LStruct, table, heap, symbols, ctx, Ghost(*sv));
            let ghost (c1, h1, s1) = (*ctx, heap@, symbols@);
            let ghost (w1, kids) = (c1.world(h1, s1), data@);
            let v = settle(HeapObject::LStruct { data, traits: t }, heap, ctx, Ghost(symbols@), Ghost(table@));
            proof {
                let w2 = ctx.world(heap@, symbols@);
                lemma_stepped_trans(table@, c0, h0, s0, c1, h1, s1, *ctx, heap@, symbols@);
                lemma_told_trans(
                    table@,
                    c0,
                    h0,
                    s0,
                    c1,
                    h1,
                    s1,
                    *ctx,
                    heap@,
                    symbols@,
                    entry_deeds(entries@) + deeds(**traits),
                    seq![Deed::Object],
                );
                lemma_entries_further(w1, w2, open, kids, entries@);
                lemma_traits_further(w1, w2, open, t, HeapTag::LStruct, **traits);
            }
            v
        },
        _ => Value::nil(),
    }
}

/// Rebuild a mutable struct.
fn into_struct_mut(
    sv: &SendValue,
    table: &Vec<SendableClosure>,
    heap: &mut FiberHeap,
    symbols: &mut SymbolTable,
    ctx: &mut DeserContext,
) -> (r: Value)
    requires
        can_take(table@, *old(ctx), old(heap)@, old(symbols)@, *sv),
        old(ctx).spare@ >= weight(*sv),
        sv is StructMut,
    ensures
        stepped(
            table@,
            *old(ctx),
            old(heap)@,
            old(symbols)@,
            *final(ctx),
            final(heap)@,
            final(symbols)@,
        ),
        rebuilt(
            final(ctx).world(final(heap)@, final(symbols)@),
            opened(old(ctx).states@),
            r,
            *sv,
        ),
        told(
            table@,
            *old(ctx),
            old(heap)@,
            old(symbols)@,
            *final(ctx),
            final(heap)@,
            final(symbols)@,
            deeds(*sv),
        ),
        final(ctx).spare@ == old(ctx).spare@ - weight(*sv),
    decreases unstarted(old(ctx).states@), 0int, sv, 3int,
{
    let ghost (c0, h0, s0) = (*ctx, heap@, symbols@);
    let ghost open = opened(c0.states@);
    match sv {
        SendValue::StructMut(entries, traits) => {
            let (data, t) = into_struct(entries, traits, HeapTag::LStructMut, table, heap, symbols, ctx, Ghost(*sv));
            let ghost (c1, h1, s1) = (*ctx, heap@, symbols@);
            let ghost (w1, kids) = (c1.world(h1, s1), data@);
            let v = settle(HeapObject::LStructMut { data, traits: t }, heap, ctx, Ghost(symbols@), Ghost(table@));
            proof {
                let w2 = ctx.world(heap@, symbols@);
                lemma_stepped_trans(table@, c0, h0, s0, c1, h1, s1, *ctx, heap@, symbols@);
                lemma_told_trans(
                    table@,
                    c0,
                    h0,
                    s0,
                    c1,
                    h1,
                    s1,
                    *ctx,
                    heap@,
                    symbols@,
                    entry_deeds(entries@) + deeds(**traits),
                    seq![Deed::Object],
                );
                lemma_entries_further(w1, w2, open, kids, entries@);
                lemma_traits_further(w1, w2, open, t, HeapTag::LStructMut, **traits);
            }
            v
        },
        _ => Value::nil(),
    }
}

/// Rebuild a set.
fn into_set(
    sv: &SendValue,
    table: &Vec<SendableClosure>,
    heap: &mut FiberHeap,
    symbols: &mut SymbolTable,
    ctx: &mut DeserContext,
) -> (r: Value)
    requires
        can_take(table@, *old(ctx), old(heap)@, old(symbols)@, *sv),
        old(ctx).spare@ >= weight(*sv),
        sv is LSet,
    ensures
        stepped(
            table@,
            *old(ctx),
            old(heap)@,
            old(symbols)@,
            *final(ctx),
            final(heap)@,
            final(symbols)@,
        ),
        rebuilt(
            final(ctx).world(final(heap)@, final(symbols)@),
            opened(old(ctx).states@),
            r,
            *sv,
        ),
        told(
            table@,
            *old(ctx),
            old(heap)@,
            old(symbols)@,
            *final(ctx),
            final(heap)@,
            final(symbols)@,
            deeds(*sv),
        ),
        final(ctx).spare@ == old(ctx).spare@ - weight(*sv),
    decreases unstarted(old(ctx).states@), 0int, sv, 3int,
{
    let ghost (c0, h0, s0) = (*ctx, heap@, symbols@);
    let ghost open = opened(c0.states@);
    match sv {
        SendValue::LSet(items, traits) => {
            let (values, t) = into_items(items, traits, HeapTag::LSet, table, heap, symbols, ctx, Ghost(*sv));
            let ghost (c1, h1, s1) = (*ctx, heap@, symbols@);
            let ghost (w1, kids) = (c1.world(h1, s1), values@);
            let v = settle(HeapObject::LSet { data: values, traits: t }, heap, ctx, Ghost(symbols@), Ghost(table@));
            proof {
                let w2 = ctx.world(heap@, symbols@);
                lemma_stepped_trans(table@, c0, h0, s0, c1, h1, s1, *ctx, heap@, symbols@);
                lemma_told_trans(
                    table@,
                    c0,
                    h0,
                    s0,
                    c1,
                    h1,
                    s1,
                    *ctx,
                    heap@,
                    symbols@,
                    deeds_all(items@) + deeds(**traits),
                    seq![Deed::Object],
                );
                lemma_all_further(w1, w2, open, kids, items@);
                lemma_traits_further(w1, w2, open, t, HeapTag::LSet, **traits);
            }
            v
        },
        _ => Value::nil(),
    }
}

/// Rebuild a mutable set.
fn into_set_mut(
    sv: &SendValue,
    table: &Vec<SendableClosure>,
    heap: &mut FiberHeap,
    symbols: &mut SymbolTable,
    ctx: &mut DeserContext,
) -> (r: Value)
    requires
        can_take(table@, *old(ctx), old(heap)@, old(symbols)@, *sv),
        old(ctx).spare@ >= weight(*sv),
        sv is LSetMut,
    ensures
        stepped(
            table@,
            *old(ctx),
            old(heap)@,
            old(symbols)@,
            *final(ctx),
            final(heap)@,
            final(symbols)@,
        ),
        rebuilt(
            final(ctx).world(final(heap)@, final(symbols)@),
            opened(old(ctx).states@),
            r,
            *sv,
        ),
        told(
            table@,
            *old(ctx),
            old(heap)@,
            old(symbols)@,
            *final(ctx),
            final(heap)@,
            final(symbols)@,
            deeds(*sv),
        ),
        final(ctx).spare@ == old(ctx).spare@ - weight(*sv),
    decreases unstarted(old(ctx).states@), 0int, sv, 3int,
{
    let ghost (c0, h0, s0) = (*ctx, heap@, symbols@);
    let ghost open = opened(c0.states@);
    match sv {
        SendValue::LSetMut(items, traits) => {
            let (values, t) = into_items(items, traits, HeapTag::LSetMut, table, heap, symbols, ctx, Ghost(*sv));
            let ghost (c1, h1, s1) = (*ctx, heap@, symbols@);
            let ghost (w1, kids) = (c1.world(h1, s1), values@);
            let obj = HeapObject::LSetMut { data: values, traits: t };
            let v = settle(obj, heap, ctx, Ghost(symbols@), Ghost(table@));
            proof {
                let w2 = ctx.world(heap@, symbols@);
                lemma_stepped_trans(table@, c0, h0, s0, c1, h1, s1, *ctx, heap@, symbols@);
                lemma_told_trans(
                    table@,
                    c0,
                    h0,
                    s0,
                    c1,
                    h1,
                    s1,
                    *ctx,
                    heap@,
                    symbols@,
                    deeds_all(items@) + deeds(**traits),
                    seq![Deed::Object],
                );
                lemma_all_further(w1, w2, open, kids, items@);
                lemma_traits_further(w1, w2, open, t, HeapTag::LSetMut, **traits);
            }
            v
        },
        _ => Value::nil(),
    }
}

/// Interning a keyword takes room for one.
proof fn lemma_keyword_room(a: HeapState, b: HeapState, name: Seq<char>, n: nat)
    requires
        a.valid(),
        a.room(n + 1),
        b == with_keyword(a, name),
    ensures
        b.room(n),
        b.valid(),
{
    assert forall|r: int| 0 <= r < b.counts.len() implies #[trigger] b.counts[r] + n <= u32::MAX by {
        assert(a.counts[r] + (n + 1) <= u32::MAX);
    }
}

/// Traits are local where the receiver's default traits are.
proof fn lemma_traits_local(w: Arrival, open: Set<int>, traits: Value, tag: HeapTag, sv: SendValue)
    requires
        w.heap.valid(),
        traits_rebuilt(w, open, traits, tag, sv),
    ensures
        local_traits(w.heap, w.region) ==> is_local(w.heap, w.region, traits),
{
    if comes_as_nil(open, sv) {
        if local_traits(w.heap, w.region) {
            assert(is_local(w.heap, w.region, w.heap.traits[tag.slot()]));
        }
    } else {
        lemma_rebuilt_local(w, open, traits, sv);
    }
}

/// Rebuild the items of an aggregate, then its traits.
fn into_items(
    items: &Vec<SendValue>,
    traits: &SendValue,
    tag: HeapTag,
    table: &Vec<SendableClosure>,
    heap: &mut FiberHeap,
    symbols: &mut SymbolTable,
    ctx: &mut DeserContext,
    whole: Ghost<SendValue>,
) -> (r: (Vec<Value>, Value))
    requires
        can_take(table@, *old(ctx), old(heap)@, old(symbols)@, *traits),
        all_fit(items@, table@.len()),
        forall|k: int| all_mention(items@, k) ==> #[trigger] old(ctx).may_meet(table@, k),
        old(ctx).spare@ >= weights(items@) + weight(*traits),
        decreases_to!(whole@ => *items),
        decreases_to!(whole@ => *traits),
    ensures
        stepped(
            table@,
            *old(ctx),
            old(heap)@,
            old(symbols)@,
            *final(ctx),
            final(heap)@,
            final(symbols)@,
        ),
        all_rebuilt(
            final(ctx).world(final(heap)@, final(symbols)@),
            opened(old(ctx).states@),
            r.0@,
            items@,
        ),
        traits_rebuilt(
            final(ctx).world(final(heap)@, final(symbols)@),
            opened(old(ctx).states@),
            r.1,
            tag,
            *traits,
        ),
        forall|i: int|
            0 <= i < r.0@.len() ==> is_local(final(heap)@, old(ctx).alloc.home().0, #[trigger] r.0@[i]),
        local_traits(final(heap)@, old(ctx).alloc.home().0) ==> is_local(
            final(heap)@,
            old(ctx).alloc.home().0,
            r.1,
        ),
        told(
            table@,
            *old(ctx),
            old(heap)@,
            old(symbols)@,
            *final(ctx),
            final(heap)@,
            final(symbols)@,
            deeds_all(items@) + deeds(*traits),
        ),
        final(ctx).spare@ == old(ctx).spare@ - weights(items@) - weight(*traits),
    decreases unstarted(old(ctx).states@), 0int, whole@, 2int,
{
    let ghost (c0, h0, s0) = (*ctx, heap@, symbols@);
    let ghost open = opened(c0.states@);
    let values = into_all(items, table, heap, symbols, ctx);
    let ghost (c1, h1, s1) = (*ctx, heap@, symbols@);
    proof {
        assert forall|k: int| mentions(*traits, k) implies #[trigger] c1.may_meet(table@, k) by {
            assert(c0.may_meet(table@, k));
        }
    }
    let t = into_traits(traits, tag, table, heap, symbols, ctx, whole);
    proof {
        let w2 = ctx.world(heap@, symbols@);
        lemma_stepped_trans(table@, c0, h0, s0, c1, h1, s1, *ctx, heap@, symbols@);
        lemma_told_trans(table@, c0, h0, s0, c1, h1, s1, *ctx, heap@, symbols@, deeds_all(items@), deeds(*traits));
        lemma_all_further(c1.world(h1, s1), w2, open, values@, items@);
        assert forall|i: int| 0 <= i < values@.len() implies is_local(
            heap@,
            w2.region,
            #[trigger] values@[i],
        ) by {
            lemma_rebuilt_local(w2, open, values@[i], items@[i]);
        }
        lemma_traits_local(w2, open, t, tag, *traits);
    }
    (values, t)
}

/// Rebuild the entries of a struct, then its traits.
fn into_struct(
    entries: &Vec<(TableKey, SendValue)>,
    traits: &SendValue,
    tag: HeapTag,
    table: &Vec<SendableClosure>,
    heap: &mut FiberHeap,
    symbols: &mut SymbolTable,
    ctx: &mut DeserContext,
    whole: Ghost<SendValue>,
) -> (r: (Vec<(TableKey, Value)>, Value))
    requires
        can_take(table@, *old(ctx), old(heap)@, old(symbols)@, *traits),
        forall|i: int| 0 <= i < entries@.len() ==> fits((#[trigger] entries@[i]).1, table@.len()),
        forall|i: int, k: int|
            0 <= i < entries@.len() && mentions((#[trigger] entries@[i]).1, k)
                ==> #[trigger] old(ctx).may_meet(table@, k),
        old(ctx).spare@ >= entry_weights(entries@) + weight(*traits),
        decreases_to!(whole@ => *entries),
        decreases_to!(whole@ => *traits),
    ensures
        stepped(
            table@,
            *old(ctx),
            old(heap)@,
            old(symbols)@,
            *final(ctx),
            final(heap)@,
            final(symbols)@,
        ),
        entries_rebuilt(
            final(ctx).world(final(heap)@, final(symbols)@),
            opened(old(ctx).states@),
            r.0@,
            entries@,
        ),
        traits_rebuilt(
            final(ctx).world(final(heap)@, final(symbols)@),
            opened(old(ctx).states@),
            r.1,
            tag,
            *traits,
        ),
        forall|i: int|
            0 <= i < r.0@.len() ==> is_local(
                final(heap)@,
                old(ctx).alloc.home().0,
                (#[trigger] r.0@[i]).1,
            ),
        local_traits(final(heap)@, old(ctx).alloc.home().0) ==> is_local(
            final(heap)@,
            old(ctx).alloc.home().0,
            r.1,
        ),
        told(
            table@,
            *old(ctx),
            old(heap)@,
            old(symbols)@,
            *final(ctx),
            final(heap)@,
            final(symbols)@,
            entry_deeds(entries@) + deeds(*traits),
        ),
        final(ctx).spare@ == old(ctx).spare@ - entry_weights(entries@) - weight(*traits),
    decreases unstarted(old(ctx).states@), 0int, whole@, 2int,
{
    let ghost (c0, h0, s0) = (*ctx, heap@, symbols@);
    let ghost open = opened(c0.states@);
    let data = into_entries(entries, table, heap, symbols, ctx);
    let ghost (c1, h1, s1) = (*ctx, heap@, symbols@);
    proof {
        assert forall|k: int| mentions(*traits, k) implies #[trigger] c1.may_meet(table@, k) by {
            assert(c0.may_meet(table@, k));
        }
    }
    let t = into_traits(traits, tag, table, heap, symbols, ctx, whole);
    proof {
        let w2 = ctx.world(heap@, symbols@);
        lemma_stepped_trans(table@, c0, h0, s0, c1, h1, s1, *ctx, heap@, symbols@);
        lemma_told_trans(
            table@,
            c0,
            h0,
            s0,
            c1,
            h1,
            s1,
            *ctx,
            heap@,
            symbols@,
            entry_deeds(entries@),
            deeds(*traits),
        );
        lemma_entries_further(c1.world(h1, s1), w2, open, data@, entries@);
        assert forall|i: int| 0 <= i < data@.len() implies is_local(
            heap@,
            w2.region,
            (#[trigger] data@[i]).1,
        ) by {
            assert(entries@[i].0.same(entries@[i].0));
            lemma_rebuilt_local(w2, open, data@[i].1, entries@[i].1);
        }
        lemma_traits_local(w2, open, t, tag, *traits);
    }
    (data, t)
}

/// Rebuild a float that is an object.
fn into_float(
    bits: u64,
    table: &Vec<SendableClosure>,
    heap: &mut FiberHeap,
    symbols: &mut SymbolTable,
    ctx: &mut DeserContext,
) -> (r: Value)
    requires
        old(ctx).ok(table@, old(heap)@, old(symbols)@),
        old(ctx).spare@ >= 1,
    ensures
        stepped(
            table@,
            *old(ctx),
            old(heap)@,
            old(symbols)@,
            *final(ctx),
            final(heap)@,
            final(symbols)@,
        ),
        r.tag == TAG_FLOAT,
        boxed_float(final(ctx).world(final(heap)@, final(symbols)@), r, bits),
        told(
            table@,
            *old(ctx),
            old(heap)@,
            old(symbols)@,
            *final(ctx),
            final(heap)@,
            final(symbols)@,
            seq![Deed::Object],
        ),
        final(ctx).spare@ == old(ctx).spare@ - 1,
{
    let ghost (c0, h0) = (*ctx, heap@);
    let region = ctx.alloc.test_region();
    let ghost obj = HeapObject::Float(bits);
    proof {
        lemma_room_less(h0, ctx.budget(table@), 1);
        lemma_node_grows(h0, obj, region.0);
        crate::heap::lemma_allocated(h0, obj, region.0);
    }
    let v = heap.alloc_in_region(HeapObject::Float(bits), region);
    ctx.spare = Ghost((ctx.spare@ - 1) as nat);
    proof {
        let n = (ctx.budget(table@) + 1) as nat;
        assert(h0.room(n));
        assert(h0.allocated(obj, region.0).room((n - obj.children().len() - 1) as nat));
        lemma_ok_grows(table@, c0, h0, symbols@, *ctx, heap@, symbols@);
        lemma_worked_object(table@, met(ctx.states@), h0, heap@, symbols@);
        assert(heap@.objects[h0.objects.len() as int] == obj);
    }
    v
}

/// The closure that a cell of these contents waits for.
fn waiting_for(contents: &SendValue, ctx: &DeserContext) -> (r: Option<usize>)
    requires
        fits(*contents, ctx.states@.len()),
    ensures
        match *contents {
            SendValue::Ref(idx) => r == if opened(ctx.states@).contains(idx as int) {
                Some(idx)
            } else {
                None
            },
            _ => r is None,
        },
{
    match contents {
        SendValue::Ref(idx) => {
            match ctx.states[*idx] {
                ReconState::InProgress => Some(*idx),
                _ => None,
            }
        },
        _ => None,
    }
}

/// No cell waits that was not there.
proof fn lemma_no_wait(
    table: Seq<SendableClosure>,
    c: DeserContext,
    h: HeapState,
    s: Seq<Seq<char>>,
    v: Value,
)
    requires
        c.ok(table, h, s),
        h.target(v) is None,
    ensures
        waits_not(c.fixups@, v),
{
    assert forall|k: int| 0 <= k < c.fixups@.len() implies (#[trigger] c.fixups@[k]).0 != v by {
        assert(h.resolves(c.fixups@[k].0));
    }
}

/// A new cell that waits for a closure being rebuilt.
proof fn lemma_fixup_added(
    table: Seq<SendableClosure>,
    a: DeserContext,
    ha: HeapState,
    s: Seq<Seq<char>>,
    b: DeserContext,
    hb: HeapState,
    c: DeserContext,
    v: Value,
    idx: usize,
)
    requires
        a.ok(table, ha, s),
        stepped(table, a, ha, s, b, hb, s),
        b.states == a.states,
        b.fixups == a.fixups,
        b.paths == a.paths,
        c == (DeserContext { fixups: c.fixups, ..b }),
        c.fixups@ == b.fixups@.push((v, idx)),
        hb.resolves(v),
        hb.target(v) == Some(ha.objects.len() as int),
        waiting_cell(b.world(hb, s), v),
        a.paths@.contains_key(idx as int),
    ensures
        stepped(table, a, ha, s, c, hb, s),
{
    let (wa, wb, wc) = (a.world(ha, s), b.world(hb, s), c.world(hb, s));
    assert(further(wa, wc)) by {
        assert forall|k: int| a.fixups@.len() <= k < c.fixups@.len() implies hb.target(
            (#[trigger] c.fixups@[k]).0,
        ) is Some && hb.target(c.fixups@[k].0)->0 >= ha.objects.len() by {}
    }
    assert(c.budget(table) == b.budget(table));
    assert forall|i: int| 0 <= i < table.len() && c.states@[i] is Done implies closure_rebuilt(
        wc,
        c.paths@[i],
        c.states@[i]->Done_0,
        #[trigger] table[i],
    ) by {
        lemma_closure_further(wa, wc, a.paths@[i], a.states@[i]->Done_0, table[i]);
    }
    assert forall|k: int| 0 <= k < c.fixups@.len() implies c.paths@.contains_key(
        (#[trigger] c.fixups@[k]).1 as int,
    ) && waiting_cell(wc, c.fixups@[k].0) by {
        if k < b.fixups@.len() {
            assert(c.fixups@[k] == b.fixups@[k]);
            assert(waiting_cell(wb, b.fixups@[k].0));
        }
    }
    lemma_no_wait(table, a, ha, s, v);
    assert forall|k: int, l: int| 0 <= k < l < c.fixups@.len() implies (#[trigger] c.fixups@[k]).0 != (
    #[trigger] c.fixups@[l]).0 by {
        assert(c.fixups@[k] == a.fixups@[k]);
        if l < b.fixups@.len() {
            assert(c.fixups@[l] == a.fixups@[l]);
        }
    }
}

/// Code with its closure constants put back.
spec fn closures_patched(w: Arrival, open: Set<int>, a: LirFunction, b: LirFunction) -> bool {
    &&& b.framed_as(a)
    &&& b.doc == a.doc
    &&& b.blocks@.len() == a.blocks@.len()
    &&& forall|i: int|
        0 <= i < a.blocks@.len() ==> block_patched(w, open, a.blocks@[i], #[trigger] b.blocks@[i])
}

spec fn block_patched(w: Arrival, open: Set<int>, a: BasicBlock, b: BasicBlock) -> bool {
    &&& b.label == a.label
    &&& b.terminator == a.terminator
    &&& b.instructions@.len() == a.instructions@.len()
    &&& forall|i: int|
        0 <= i < a.instructions@.len() ==> instr_patched(
            w,
            open,
            a.instructions@[i],
            #[trigger] b.instructions@[i],
        )
}

spec fn instr_patched(w: Arrival, open: Set<int>, a: LirInstr, b: LirInstr) -> bool {
    match a {
        LirInstr::Const { dst, value: LirConst::ClosureRef(k) } => match b {
            LirInstr::ValueConst { dst: d, value } => d == dst && rebuilt(w, open, value, SendValue::Ref(k)),
            _ => false,
        },
        _ => b == a,
    }
}

proof fn lemma_block_patched_further(
    a: Arrival,
    b: Arrival,
    open: Set<int>,
    x: BasicBlock,
    y: BasicBlock,
)
    requires
        further(a, b),
        block_patched(a, open, x, y),
    ensures
        block_patched(b, open, x, y),
{
    assert forall|i: int| 0 <= i < x.instructions@.len() implies instr_patched(
        b,
        open,
        x.instructions@[i],
        #[trigger] y.instructions@[i],
    ) by {
        assert(instr_patched(a, open, x.instructions@[i], y.instructions@[i]));
        match (x.instructions@[i], y.instructions@[i]) {
            (
                LirInstr::Const { value: LirConst::ClosureRef(k), .. },
                LirInstr::ValueConst { value, .. },
            ) => lemma_rebuilt_further(a, b, open, value, SendValue::Ref(k)),
            _ => {},
        }
    }
}

/// Put the closure constants of one block back.
fn patch_block(
    block: &BasicBlock,
    table: &Vec<SendableClosure>,
    heap: &mut FiberHeap,
    symbols: &mut SymbolTable,
    ctx: &mut DeserContext,
) -> (r: BasicBlock)
    requires
        table_fits(table@),
        old(ctx).ok(table@, old(heap)@, old(symbols)@),
        forall|i: int, k: int|
            0 <= i < block.instructions@.len() && #[trigger] names_closure(block.instructions@[i], k)
                ==> old(ctx).may_meet(table@, k) && 0 <= k < table@.len(),
    ensures
        stepped(
            table@,
            *old(ctx),
            old(heap)@,
            old(symbols)@,
            *final(ctx),
            final(heap)@,
            final(symbols)@,
        ),
        block_patched(
            final(ctx).world(final(heap)@, final(symbols)@),
            opened(old(ctx).states@),
            *block,
            r,
        ),
        told(
            table@,
            *old(ctx),
            old(heap)@,
            old(symbols)@,
            *final(ctx),
            final(heap)@,
            final(symbols)@,
            instr_deeds(block.instructions@),
        ),
        final(ctx).spare@ == old(ctx).spare@,
    decreases unstarted(old(ctx).states@), 1int, SendValue::Ref(0), 0int,
{
    let ghost (c0, h0, s0) = (*ctx, heap@, symbols@);
    let ghost open = opened(c0.states@);
    let mut out: Vec<LirInstr> = Vec::new();
    let mut i: usize = 0;
    proof {
        lemma_stepped_self(table@, c0, h0, s0);
        lemma_worked_nothing(table@, met(c0.states@), h0, s0);
        assert(block.instructions@.take(0) =~= Seq::empty());
    }
    while i < block.instructions.len()
        invariant
            i <= block.instructions@.len(),
            out@.len() == i,
            table_fits(table@),
            c0 == *old(ctx),
            c0.ok(table@, h0, s0),
            open == opened(c0.states@),
            stepped(table@, c0, h0, s0, *ctx, heap@, symbols@),
            told(table@, c0, h0, s0, *ctx, heap@, symbols@, instr_deeds(block.instructions@.take(i as int))),
            forall|i: int, k: int|
                0 <= i < block.instructions@.len() && #[trigger] names_closure(block.instructions@[i], k)
                    ==> c0.may_meet(table@, k) && 0 <= k < table@.len(),
            ctx.spare@ == c0.spare@,
            forall|k: int|
                0 <= k < i ==> instr_patched(
                    ctx.world(heap@, symbols@),
                    open,
                    block.instructions@[k],
                    #[trigger] out@[k],
                ),
        decreases block.instructions.len() - i,
    {
        let ghost (c1, h1, s1) = (*ctx, heap@, symbols@);
        let ghost done = out@;
        let instr = match &block.instructions[i] {
            LirInstr::Const { dst, value: LirConst::ClosureRef(k) } => {
                proof {
                    assert(names_closure(block.instructions@[i as int], *k as int));
                    assert(c0.may_meet(table@, *k as int));
                    assert forall|n: int| mentions(SendValue::Ref(*k), n) implies #[trigger] c1.may_meet(
                        table@,
                        n,
                    ) by {}
                }
                let value = into_closure(*k, table, heap, symbols, ctx);
                LirInstr::ValueConst { dst: *dst, value }
            },
            LirInstr::Const { dst, value } => {
                proof {
                    lemma_stepped_self(table@, c1, h1, s1);
                    lemma_worked_nothing(table@, met(c1.states@), h1, s1);
                }
                LirInstr::Const { dst: *dst, value: value.copy() }
            },
            LirInstr::ValueConst { dst, value } => {
                proof {
                    lemma_stepped_self(table@, c1, h1, s1);
                    lemma_worked_nothing(table@, met(c1.states@), h1, s1);
                }
                LirInstr::ValueConst { dst: *dst, value: *value }
            },
            LirInstr::Other(n) => {
                proof {
                    lemma_stepped_self(table@, c1, h1, s1);
                    lemma_worked_nothing(table@, met(c1.states@), h1, s1);
                }
                LirInstr::Other(*n)
            },
        };
        out.push(instr);
        proof {
            lemma_stepped_trans(table@, c0, h0, s0, c1, h1, s1, *ctx, heap@, symbols@);
            lemma_told_trans(
                table@,
                c0,
                h0,
                s0,
                c1,
                h1,
                s1,
                *ctx,
                heap@,
                symbols@,
                instr_deeds(block.instructions@.take(i as int)),
                one_instr_deeds(block.instructions@[i as int]),
            );
            assert(block.instructions@.take(i + 1).drop_last() =~= block.instructions@.take(i as int));
            assert(block.instructions@.take(i + 1).last() == block.instructions@[i as int]);
            let w2 = ctx.world(heap@, symbols@);
            assert forall|k: int| 0 <= k < i + 1 implies instr_patched(
                w2,
                open,
                block.instructions@[k],
                #[trigger] out@[k],
            ) by {
                if k < i {
                    assert(out@[k] == done[k]);
                    assert(instr_patched(c1.world(h1, s1), open, block.instructions@[k], done[k]));
                    match (block.instructions@[k], done[k]) {
                        (
                            LirInstr::Const { value: LirConst::ClosureRef(n), .. },
                            LirInstr::ValueConst { value, .. },
                        ) => lemma_rebuilt_further(
                            c1.world(h1, s1),
                            w2,
                            open,
                            value,
                            SendValue::Ref(n),
                        ),
                        _ => {},
                    }
                }
            }
        }
        i = i + 1;
    }
    assert(block.instructions@.take(i as int) =~= block.instructions@);
    BasicBlock { label: block.label, instructions: out, terminator: block.terminator }
}

/// Put the closure constants of code back; a closure that was not met before is
/// rebuilt.
fn patch_lir_closure_refs(
    lir: &LirFunction,
    table: &Vec<SendableClosure>,
    heap: &mut FiberHeap,
    symbols: &mut SymbolTable,
    ctx: &mut DeserContext,
) -> (r: LirFunction)
    requires
        table_fits(table@),
        old(ctx).ok(table@, old(heap)@, old(symbols)@),
        forall|k: int|
            #[trigger] lir_mentions(*lir, k) ==> old(ctx).may_meet(table@, k) && 0 <= k < table@.len(),
    ensures
        stepped(
            table@,
            *old(ctx),
            old(heap)@,
            old(symbols)@,
            *final(ctx),
            final(heap)@,
            final(symbols)@,
        ),
        closures_patched(
            final(ctx).world(final(heap)@, final(symbols)@),
            opened(old(ctx).states@),
            *lir,
            r,
        ),
        told(
            table@,
            *old(ctx),
            old(heap)@,
            old(symbols)@,
            *final(ctx),
            final(heap)@,
            final(symbols)@,
            block_deeds(lir.blocks@),
        ),
        final(ctx).spare@ == old(ctx).spare@,
    decreases unstarted(old(ctx).states@), 1int, SendValue::Ref(0), 1int,
{
    let ghost (c0, h0, s0) = (*ctx, heap@, symbols@);
    let ghost open = opened(c0.states@);
    let mut blocks: Vec<BasicBlock> = Vec::new();
    let mut b: usize = 0;
    proof {
        lemma_stepped_self(table@, c0, h0, s0);
        lemma_worked_nothing(table@, met(c0.states@), h0, s0);
        assert(lir.blocks@.take(0) =~= Seq::empty());
    }
    while b < lir.blocks.len()
        invariant
            b <= lir.blocks@.len(),
            blocks@.len() == b,
            table_fits(table@),
            c0 == *old(ctx),
            c0.ok(table@, h0, s0),
            open == opened(c0.states@),
            stepped(table@, c0, h0, s0, *ctx, heap@, symbols@),
            told(table@, c0, h0, s0, *ctx, heap@, symbols@, block_deeds(lir.blocks@.take(b as int))),
            forall|k: int|
                #[trigger] lir_mentions(*lir, k) ==> c0.may_meet(table@, k) && 0 <= k < table@.len(),
            ctx.spare@ == c0.spare@,
            forall|k: int|
                0 <= k < b ==> block_patched(
                    ctx.world(heap@, symbols@),
                    open,
                    lir.blocks@[k],
                    #[trigger] blocks@[k],
                ),
        decreases lir.blocks.len() - b,
    {
        let ghost (c1, h1, s1) = (*ctx, heap@, symbols@);
        let ghost done = blocks@;
        proof {
            assert forall|i: int, k: int|
                0 <= i < lir.blocks@[b as int].instructions@.len() && #[trigger] names_closure(
                    lir.blocks@[b as int].instructions@[i],
                    k,
                ) implies c1.may_meet(table@, k) && 0 <= k < table@.len() by {
                assert(lir_mentions(*lir, k));
                assert(c0.may_meet(table@, k));
            }
        }
        let block = patch_block(&lir.blocks[b], table, heap, symbols, ctx);
        blocks.push(block);
        proof {
            lemma_stepped_trans(table@, c0, h0, s0, c1, h1, s1, *ctx, heap@, symbols@);
            lemma_told_trans(
                table@,
                c0,
                h0,
                s0,
                c1,
                h1,
                s1,
                *ctx,
                heap@,
                symbols@,
                block_deeds(lir.blocks@.take(b as int)),
                instr_deeds(lir.blocks@[b as int].instructions@),
            );
            assert(lir.blocks@.take(b + 1).drop_last() =~= lir.blocks@.take(b as int));
            assert(lir.blocks@.take(b + 1).last() == lir.blocks@[b as int]);
            assert forall|k: int| 0 <= k < b + 1 implies block_patched(
                ctx.world(heap@, symbols@),
                open,
                lir.blocks@[k],
                #[trigger] blocks@[k],
            ) by {
                if k < b {
                    assert(blocks@[k] == done[k]);
                    lemma_block_patched_further(
                        c1.world(h1, s1),
                        ctx.world(heap@, symbols@),
                        open,
                        lir.blocks@[k],
                        blocks@[k],
                    );
                }
            }
        }
        b = b + 1;
    }
    assert(lir.blocks@.take(b as int) =~= lir.blocks@);
    lir.with_blocks(blocks, clone_optional_exact(&lir.doc))
}

/// Put the other lifted constants of code back, from the rebuilt pool.
fn patch_lir_value_refs(
    lir: &LirFunction,
    pool: &Vec<Value>,
    w: Ghost<Arrival>,
    open: Ghost<Set<int>>,
    sent: Ghost<LirFunction>,
    items: Ghost<Seq<SendValue>>,
) -> (r: LirFunction)
    requires
        closures_patched(w@, open@, sent@, *lir),
        all_rebuilt(w@, open@, pool@, items@),
        forall|b: int, i: int|
            0 <= b < sent@.blocks@.len() && 0 <= i < sent@.blocks@[b].instructions@.len() ==> pool_in_range(
                #[trigger] sent@.blocks@[b].instructions@[i],
                items@.len(),
            ),
    ensures
        lir_rebuilt(w@, open@, items@, sent@, r),
{
    let mut blocks: Vec<BasicBlock> = Vec::new();
    let mut b: usize = 0;
    while b < lir.blocks.len()
        invariant
            b <= lir.blocks@.len(),
            blocks@.len() == b,
            closures_patched(w@, open@, sent@, *lir),
            all_rebuilt(w@, open@, pool@, items@),
            forall|b: int, i: int|
                0 <= b < sent@.blocks@.len() && 0 <= i < sent@.blocks@[b].instructions@.len()
                    ==> pool_in_range(#[trigger] sent@.blocks@[b].instructions@[i], items@.len()),
            forall|k: int|
                0 <= k < b ==> block_rebuilt(
                    w@,
                    open@,
                    items@,
                    sent@.blocks@[k],
                    #[trigger] blocks@[k],
                ),
        decreases lir.blocks.len() - b,
    {
        let block = &lir.blocks[b];
        let ghost from = sent@.blocks@[b as int];
        assert(block_patched(w@, open@, from, *block));
        let mut out: Vec<LirInstr> = Vec::new();
        let mut i: usize = 0;
        while i < block.instructions.len()
            invariant
                i <= block.instructions@.len(),
                out@.len() == i,
                block_patched(w@, open@, from, *block),
                all_rebuilt(w@, open@, pool@, items@),
                forall|i: int|
                    0 <= i < from.instructions@.len() ==> pool_in_range(
                        #[trigger] from.instructions@[i],
                        items@.len(),
                    ),
                forall|k: int|
                    0 <= k < i ==> instr_rebuilt(
                        w@,
                        open@,
                        items@,
                        from.instructions@[k],
                        #[trigger] out@[k],
                    ),
            decreases block.instructions.len() - i,
        {
            assert(instr_patched(
                w@,
                open@,
                from.instructions@[i as int],
                block.instructions@[i as int],
            ));
            assert(pool_in_range(from.instructions@[i as int], items@.len()));
            let instr = match &block.instructions[i] {
                LirInstr::Const { dst, value: LirConst::ValueRef(k) } => {
                    assert(rebuilt(w@, open@, pool@[*k as int], items@[*k as int]));
                    LirInstr::ValueConst { dst: *dst, value: pool[*k] }
                },
                LirInstr::Const { dst, value } => LirInstr::Const { dst: *dst, value: value.copy() },
                LirInstr::ValueConst { dst, value } => LirInstr::ValueConst { dst: *dst, value: *value },
                LirInstr::Other(n) => LirInstr::Other(*n),
            };
            out.push(instr);
            i = i + 1;
        }
        blocks.push(BasicBlock { label: block.label, instructions: out, terminator: block.terminator });
        b = b + 1;
    }
    lir.with_blocks(blocks, clone_optional_exact(&lir.doc))
}

/// The pool index of an instruction is in range.
spec fn pool_in_range(instr: LirInstr, n: nat) -> bool {
    match instr {
        LirInstr::Const { value: LirConst::ValueRef(k), .. } => k < n,
        _ => true,
    }
}

fn clone_optional_exact(s: &Option<String>) -> (r: Option<String>)
    ensures
        r == *s,
{
    match s {
        Some(s) => Some(s.clone()),
        None => None,
    }
}

/// Rebuild what is left of a template once its constants are: the code and the
/// nested templates.
fn finish_template(
    sc: &SendableClosure,
    constants: Vec<Value>,
    table: &Vec<SendableClosure>,
    heap: &mut FiberHeap,
    symbols: &mut SymbolTable,
    ctx: &mut DeserContext,
) -> (r: ClosureTemplate)
    requires
        table_fits(table@),
        old(ctx).ok(table@, old(heap)@, old(symbols)@),
        closure_fits(*sc, table@.len()),
        forall|k: int| template_mentions(*sc, k) ==> #[trigger] old(ctx).may_meet(table@, k),
        all_rebuilt(
            old(ctx).world(old(heap)@, old(symbols)@),
            opened(old(ctx).states@),
            constants@,
            sc.constants@,
        ),
        old(ctx).spare@ >= weights(sc.lir_value_pool@) + template_weights(sc.child_protos@),
    ensures
        stepped(
            table@,
            *old(ctx),
            old(heap)@,
            old(symbols)@,
            *final(ctx),
            final(heap)@,
            final(symbols)@,
        ),
        template_rebuilt(
            final(ctx).world(final(heap)@, final(symbols)@),
            opened(old(ctx).states@),
            r,
            *sc,
        ),
        r.constants@ == constants@,
        told(
            table@,
            *old(ctx),
            old(heap)@,
            old(symbols)@,
            *final(ctx),
            final(heap)@,
            final(symbols)@,
            finish_deeds(*sc),
        ),
        final(ctx).spare@ == old(ctx).spare@ - weights(sc.lir_value_pool@) - template_weights(
            sc.child_protos@,
        ),
    decreases unstarted(old(ctx).states@), 2int, sc, 0int,
{
    let ghost (c0, h0, s0) = (*ctx, heap@, symbols@);
    let ghost open = opened(c0.states@);
    let ghost kept = constants@;
    proof {
        assert forall|k: int| all_mention(sc.lir_value_pool@, k) implies #[trigger] c0.may_meet(
            table@,
            k,
        ) by {
            assert(template_mentions(*sc, k));
        }
    }
    let pool = into_all(&sc.lir_value_pool, table, heap, symbols, ctx);
    let ghost (c1, h1, s1) = (*ctx, heap@, symbols@);
    let lir_function = match &sc.lir_function {
        Some(lir) => {
            proof {
                assert forall|k: int| #[trigger] lir_mentions(*lir, k) implies c1.may_meet(table@, k) && 0 <= k
                    < table@.len() by {
                    assert(template_mentions(*sc, k));
                    assert(c0.may_meet(table@, k));
                    let (b, i) = choose|b: int, i: int|
                        0 <= b < lir.blocks@.len() && 0 <= i < lir.blocks@[b].instructions@.len()
                            && names_closure(#[trigger] lir.blocks@[b].instructions@[i], k);
                    assert(instr_fits(
                        lir.blocks@[b].instructions@[i],
                        table@.len(),
                        sc.lir_value_pool@.len(),
                    ));
                }
            }
            let patched = patch_lir_closure_refs(lir, table, heap, symbols, ctx);
            let ghost w2 = ctx.world(heap@, symbols@);
            proof {
                lemma_all_further(c1.world(h1, s1), w2, open, pool@, sc.lir_value_pool@);
                assert forall|b: int, i: int|
                    0 <= b < lir.blocks@.len() && 0 <= i
                        < lir.blocks@[b].instructions@.len() implies pool_in_range(
                    #[trigger] lir.blocks@[b].instructions@[i],
                    sc.lir_value_pool@.len(),
                ) by {
                    assert(instr_fits(
                        lir.blocks@[b].instructions@[i],
                        table@.len(),
                        sc.lir_value_pool@.len(),
                    ));
                }
            }
            Some(
                patch_lir_value_refs(
                    &patched,
                    &pool,
                    Ghost(w2),
                    Ghost(open),
                    Ghost(*lir),
                    Ghost(sc.lir_value_pool@),
                ),
            )
        },
        None => {
            proof {
                lemma_stepped_self(table@, c1, h1, s1);
                lemma_worked_nothing(table@, met(c1.states@), h1, s1);
            }
            None
        },
    };
    let ghost (c2, h2, s2) = (*ctx, heap@, symbols@);
    proof {
        lemma_stepped_trans(table@, c0, h0, s0, c1, h1, s1, c2, h2, s2);
        lemma_stepped_self(table@, c2, h2, s2);
        lemma_told_trans(
            table@,
            c0,
            h0,
            s0,
            c1,
            h1,
            s1,
            c2,
            h2,
            s2,
            deeds_all(sc.lir_value_pool@),
            code_deeds(*sc),
        );
        lemma_worked_nothing(table@, met(c2.states@), h2, s2);
    }
    let mut protos: Vec<Rc<ClosureTemplate>> = Vec::new();
    let mut i: usize = 0;
    assert(sc.child_protos@.take(0) =~= Seq::empty());
    while i < sc.child_protos.len()
        invariant
            i <= sc.child_protos@.len(),
            protos@.len() == i,
            table_fits(table@),
            c0 == *old(ctx),
            c0.ok(table@, h0, s0),
            open == opened(c0.states@),
            stepped(table@, c0, h0, s0, c2, h2, s2),
            stepped(table@, c2, h2, s2, *ctx, heap@, symbols@),
            told(table@, c0, h0, s0, c2, h2, s2, deeds_all(sc.lir_value_pool@) + code_deeds(*sc)),
            told(
                table@,
                c2,
                h2,
                s2,
                *ctx,
                heap@,
                symbols@,
                template_deeds_all(sc.child_protos@.take(i as int)),
            ),
            closure_fits(*sc, table@.len()),
            forall|k: int| template_mentions(*sc, k) ==> #[trigger] c0.may_meet(table@, k),
            c0.spare@ >= weights(sc.lir_value_pool@) + template_weights(sc.child_protos@),
            ctx.spare@ == c0.spare@ - weights(sc.lir_value_pool@) - template_weights(
                sc.child_protos@.take(i as int),
            ),
            forall|k: int|
                0 <= k < i ==> template_rebuilt(
                    ctx.world(heap@, symbols@),
                    open,
                    *#[trigger] protos@[k],
                    sc.child_protos@[k],
                ),
        decreases sc.child_protos.len() - i,
    {
        let ghost (c3, h3, s3) = (*ctx, heap@, symbols@);
        let ghost done = protos@;
        proof {
            assert(sc.child_protos@.take(i + 1).drop_last() =~= sc.child_protos@.take(i as int));
            lemma_template_weights_prefix(sc.child_protos@, i + 1);
            assert forall|k: int| template_mentions(
                sc.child_protos@[i as int],
                k,
            ) implies #[trigger] c3.may_meet(table@, k) by {
                assert(template_mentions(*sc, k));
                assert(c0.may_meet(table@, k));
            }
        }
        let child = template_from_sendable(&sc.child_protos[i], table, heap, symbols, ctx);
        protos.push(Rc::new(child));
        proof {
            lemma_stepped_trans(table@, c2, h2, s2, c3, h3, s3, *ctx, heap@, symbols@);
            lemma_told_trans(
                table@,
                c2,
                h2,
                s2,
                c3,
                h3,
                s3,
                *ctx,
                heap@,
                symbols@,
                template_deeds_all(sc.child_protos@.take(i as int)),
                deeds_all(sc.child_protos@[i as int].constants@) + finish_deeds(sc.child_protos@[i as int]),
            );
            assert(sc.child_protos@.take(i + 1).last() == sc.child_protos@[i as int]);
            assert forall|k: int| 0 <= k < i + 1 implies template_rebuilt(
                ctx.world(heap@, symbols@),
                open,
                *#[trigger] protos@[k],
                sc.child_protos@[k],
            ) by {
                if k < i {
                    assert(protos@[k] == done[k]);
                    lemma_template_further(
                        c3.world(h3, s3),
                        ctx.world(heap@, symbols@),
                        open,
                        *done[k],
                        sc.child_protos@[k],
                    );
                }
            }
        }
        i = i + 1;
    }
    let t = template_with(sc, constants, lir_function, protos);
    proof {
        assert(sc.child_protos@.take(i as int) =~= sc.child_protos@);
        let w3 = ctx.world(heap@, symbols@);
        lemma_stepped_trans(table@, c0, h0, s0, c2, h2, s2, *ctx, heap@, symbols@);
        lemma_told_trans(
            table@,
            c0,
            h0,
            s0,
            c2,
            h2,
            s2,
            *ctx,
            heap@,
            symbols@,
            deeds_all(sc.lir_value_pool@) + code_deeds(*sc),
            template_deeds_all(sc.child_protos@),
        );
        lemma_all_further(c0.world(h0, s0), w3, open, kept, sc.constants@);
        if sc.lir_function is Some {
            lemma_lir_further(
                c2.world(h2, s2),
                w3,
                open,
                sc.lir_value_pool@,
                sc.lir_function->0,
                t.lir_function->0,
            );
        }
        assert forall|k: int| 0 <= k < sc.child_protos@.len() implies template_rebuilt(
            w3,
            open,
            t.proto(k),
            #[trigger] sc.child_protos@[k],
        ) by {
            assert(t.child_protos@[k] == protos@[k]);
        }
    }
    t
}

proof fn lemma_template_weights_prefix(s: Seq<SendableClosure>, k: int)
    requires
        0 <= k <= s.len(),
    ensures
        template_weights(s.take(k)) <= template_weights(s),
    decreases s.len(),
{
    if k == s.len() {
        assert(s.take(k) =~= s);
    } else {
        lemma_template_weights_prefix(s.drop_last(), k);
        assert(s.drop_last().take(k) =~= s.take(k));
    }
}

/// Rebuild a template; captures and boundary are no part of it.
fn template_from_sendable(
    sc: &SendableClosure,
    table: &Vec<SendableClosure>,
    heap: &mut FiberHeap,
    symbols: &mut SymbolTable,
    ctx: &mut DeserContext,
) -> (r: ClosureTemplate)
    requires
        table_fits(table@),
        old(ctx).ok(table@, old(heap)@, old(symbols)@),
        closure_fits(*sc, table@.len()),
        forall|k: int| template_mentions(*sc, k) ==> #[trigger] old(ctx).may_meet(table@, k),
        old(ctx).spare@ >= template_weight(*sc),
    ensures
        stepped(
            table@,
            *old(ctx),
            old(heap)@,
            old(symbols)@,
            *final(ctx),
            final(heap)@,
            final(symbols)@,
        ),
        template_rebuilt(
            final(ctx).world(final(heap)@, final(symbols)@),
            opened(old(ctx).states@),
            r,
            *sc,
        ),
        told(
            table@,
            *old(ctx),
            old(heap)@,
            old(symbols)@,
            *final(ctx),
            final(heap)@,
            final(symbols)@,
            deeds_all(sc.constants@) + finish_deeds(*sc),
        ),
        final(ctx).spare@ == old(ctx).spare@ - template_weight(*sc),
    decreases unstarted(old(ctx).states@), 2int, sc, 1int,
{
    let ghost (c0, h0, s0) = (*ctx, heap@, symbols@);
    proof {
        assert forall|k: int| all_mention(sc.constants@, k) implies #[trigger] c0.may_meet(table@, k) by {
            assert(template_mentions(*sc, k));
        }
    }
    let constants = into_all(&sc.constants, table, heap, symbols, ctx);
    let ghost (c1, h1, s1) = (*ctx, heap@, symbols@);
    proof {
        assert forall|k: int| template_mentions(*sc, k) implies #[trigger] c1.may_meet(table@, k) by {
            assert(c0.may_meet(table@, k));
        }
    }
    let t = finish_template(sc, constants, table, heap, symbols, ctx);
    proof {
        lemma_stepped_trans(table@, c0, h0, s0, c1, h1, s1, *ctx, heap@, symbols@);
        lemma_told_trans(
            table@,
            c0,
            h0,
            s0,
            c1,
            h1,
            s1,
            *ctx,
            heap@,
            symbols@,
            deeds_all(sc.constants@),
            finish_deeds(*sc),
        );
    }
    t
}

/// Rebuild the closure at this index, where it was not met before.
fn into_closure(
    idx: usize,
    table: &Vec<SendableClosure>,
    heap: &mut FiberHeap,
    symbols: &mut SymbolTable,
    ctx: &mut DeserContext,
) -> (r: Value)
    requires
        can_take(table@, *old(ctx), old(heap)@, old(symbols)@, SendValue::Ref(idx)),
    ensures
        stepped(
            table@,
            *old(ctx),
            old(heap)@,
            old(symbols)@,
            *final(ctx),
            final(heap)@,
            final(symbols)@,
        ),
        rebuilt(
            final(ctx).world(final(heap)@, final(symbols)@),
            opened(old(ctx).states@),
            r,
            SendValue::Ref(idx),
        ),
        told(
            table@,
            *old(ctx),
            old(heap)@,
            old(symbols)@,
            *final(ctx),
            final(heap)@,
            final(symbols)@,
            seq![Deed::Closure(idx as int)],
        ),
        final(ctx).spare@ == old(ctx).spare@,
    decreases unstarted(old(ctx).states@), 0int, SendValue::Ref(idx), 2int,
{
    let ghost (c0, h0, s0) = (*ctx, heap@, symbols@);
    let ghost open = opened(c0.states@);
    proof {
        lemma_stepped_self(table@, c0, h0, s0);
    }
    match ctx.states[idx] {
        ReconState::Done(v) => {
            assert(closure_rebuilt(c0.world(h0, s0), c0.paths@[idx as int], v, table@[idx as int]));
            proof {
                lemma_worked_met(table@, met(c0.states@), h0, s0, idx as int);
            }
            return v;
        },
        ReconState::InProgress => {
            proof {
                lemma_worked_met(table@, met(c0.states@), h0, s0, idx as int);
            }
            return Value::nil();
        },
        ReconState::NotStarted => {},
    }
    let sc = &table[idx];
    let ghost cost = closure_weight(*sc);
    ctx.states.set(idx, ReconState::InProgress);
    ctx.paths = Ghost(ctx.paths@.insert(idx as int, open.insert(idx as int)));
    ctx.owner = Ghost(Some(idx as int));
    ctx.spare = Ghost(ctx.spare@ + cost);
    let ghost c1 = *ctx;
    let ghost open1 = opened(c1.states@);
    proof {
        lemma_started(table@, c0, h0, s0, c1, idx);
        assert forall|k: int| all_mention(sc.constants@, k) implies #[trigger] c1.may_meet(table@, k) by {
            assert(template_mentions(*sc, k));
        }
    }
    let constants = into_all(&sc.constants, table, heap, symbols, ctx);
    let ghost (c2, h2, s2) = (*ctx, heap@, symbols@);
    let ghost consts = constants@;
    proof {
        assert forall|k: int| all_mention(sc.env@, k) implies #[trigger] c2.may_meet(table@, k) by {}
    }
    let env = into_all(&sc.env, table, heap, symbols, ctx);
    let ghost (c3, h3, s3) = (*ctx, heap@, symbols@);
    proof {
        lemma_all_further(c2.world(h2, s2), c3.world(h3, s3), open1, consts, sc.constants@);
        lemma_stepped_trans(table@, c1, h0, s0, c2, h2, s2, c3, h3, s3);
        lemma_told_trans(table@, c1, h0, s0, c2, h2, s2, c3, h3, s3, deeds_all(sc.constants@), deeds_all(sc.env@));
        assert forall|k: int| template_mentions(*sc, k) implies #[trigger] c3.may_meet(table@, k) by {}
    }
    let template = finish_template(sc, constants, table, heap, symbols, ctx);
    let ghost (c4, h4, s4) = (*ctx, heap@, symbols@);
    let ghost w4 = c4.world(h4, s4);
    let ghost code = template;
    let ghost captured = env@;
    proof {
        lemma_stepped_trans(table@, c1, h0, s0, c3, h3, s3, c4, h4, s4);
        lemma_told_trans(
            table@,
            c1,
            h0,
            s0,
            c3,
            h3,
            s3,
            c4,
            h4,
            s4,
            deeds_all(sc.constants@) + deeds_all(sc.env@),
            finish_deeds(*sc),
        );
        lemma_all_further(c3.world(h3, s3), w4, open1, captured, sc.env@);
        assert forall|i: int| 0 <= i < captured.len() implies is_local(
            h4,
            w4.region,
            #[trigger] captured[i],
        ) by {
            lemma_rebuilt_local(w4, open1, captured[i], sc.env@[i]);
        }
        assert forall|i: int| 0 <= i < consts.len() implies is_local(h4, w4.region, #[trigger] consts[i]) by {
            lemma_rebuilt_local(w4, open1, consts[i], sc.constants@[i]);
        }
    }
    let closure = Closure { template: Rc::new(template), env, squelch_mask: sc.squelch_mask };
    let ghost built = closure;
    let v = settle(
        HeapObject::Closure { closure, traits: Value::nil() },
        heap,
        ctx,
        Ghost(symbols@),
        Ghost(table@),
    );
    let ghost (c5, h5) = (*ctx, heap@);
    proof {
        let w5 = c5.world(h5, s4);
        lemma_template_further(w4, w5, open1, code, *sc);
        lemma_all_further(w4, w5, open1, captured, sc.env@);
        lemma_stepped_trans(table@, c1, h0, s0, c4, h4, s4, c5, h5, s4);
        lemma_told_trans(
            table@,
            c1,
            h0,
            s0,
            c4,
            h4,
            s4,
            c5,
            h5,
            s4,
            deeds_all(sc.constants@) + deeds_all(sc.env@) + finish_deeds(*sc),
            seq![Deed::Object],
        );
        assert(closure_rebuilt(w5, open1, v, *sc)) by {
            assert(h5.object(v)->Closure_closure == built);
            assert(built.code() == code);
        }
    }
    ctx.states.set(idx, ReconState::Done(v));
    ctx.owner = Ghost(c0.owner@);
    proof {
        assert(met(c1.states@) =~= met(c0.states@).update(idx as int, true));
        assert(met(ctx.states@) =~= met(c5.states@)) by {
            assert(opened(c5.states@).contains(idx as int));
        }
        lemma_worked_closure(
            table@,
            met(c0.states@),
            h0,
            s0,
            met(ctx.states@),
            h5,
            s4,
            idx as int,
        );
        lemma_finished(table@, c0, h0, s0, c1, c4, h4, s4, c5, h5, *ctx, idx, v);
    }
    v
}

/// A closure that was not met before is being rebuilt.
proof fn lemma_started(
    table: Seq<SendableClosure>,
    a: DeserContext,
    h: HeapState,
    s: Seq<Seq<char>>,
    b: DeserContext,
    idx: usize,
)
    requires
        a.ok(table, h, s),
        idx < table.len(),
        a.states@[idx as int] is NotStarted,
        a.may_meet(table, idx as int),
        b.states@ == a.states@.update(idx as int, ReconState::InProgress),
        b.paths@ == a.paths@.insert(idx as int, opened(a.states@).insert(idx as int)),
        b.owner@ == Some(idx as int),
        b.spare@ == a.spare@ + closure_weight(table[idx as int]),
        b.alloc == a.alloc,
        b.fixups == a.fixups,
        b.root == a.root,
        b.lo == a.lo,
    ensures
        b.ok(table, h, s),
        opened(b.states@) == opened(a.states@).insert(idx as int),
        unstarted(b.states@) == unstarted(a.states@) - 1,
        b.world(h, s) == a.world(h, s),
{
    let i0 = idx as int;
    let open = opened(a.states@);
    lemma_state_change(table, a.states@, i0, ReconState::InProgress);
    assert(opened(b.states@) =~= open.insert(i0));
    assert(done_map(b.states@) =~= done_map(a.states@));
    assert(!a.paths@.contains_key(i0));
    assert forall|i: int| #[trigger] b.paths@.contains_key(i) implies b.paths@[i].contains(i) && led(
        b.root@,
        table,
        b.paths@,
        i,
    ) by {
        if i == i0 {
            match a.owner@ {
                None => {
                    assert(b.paths@[i] =~= set![i]);
                },
                Some(j) => {
                    assert(b.paths@.contains_key(j));
                    assert(b.paths@[j] == open);
                },
            }
        } else {
            assert(a.paths@.contains_key(i));
            assert(led(a.root@, table, a.paths@, i));
            if !(a.paths@[i] == set![i] && mentions(a.root@, i)) {
                let j = choose|j: int| #[trigger]
                    a.paths@.contains_key(j) && 0 <= j < table.len() && !a.paths@[j].contains(i)
                        && a.paths@[i] == a.paths@[j].insert(i) && closure_mentions(table[j], i);
                assert(b.paths@.contains_key(j));
            }
        }
    }
    assert forall|i: int, j: int|
        b.paths@.contains_key(i) && #[trigger] b.paths@[i].contains(j) implies b.paths@.contains_key(j) by {
        if i == i0 {
            if j != i0 {
                assert(a.states@[j] is InProgress);
            }
        } else {
            assert(a.paths@[i].contains(j));
        }
    }
    assert forall|i: int|
        b.paths@.contains_key(i) <==> 0 <= i < table.len() && !(#[trigger] b.states@[i] is NotStarted) by {
        assert(a.paths@.contains_key(i) <==> 0 <= i < table.len() && !(a.states@[i] is NotStarted));
    }
    assert forall|i: int| 0 <= i < table.len() && b.states@[i] is Done implies closure_rebuilt(
        b.world(h, s),
        b.paths@[i],
        b.states@[i]->Done_0,
        #[trigger] table[i],
    ) by {
        assert(a.states@[i] is Done);
    }
    assert forall|i: int, j: int|
        0 <= i < table.len() && 0 <= j < table.len() && i != j && b.states@[i] is Done
            && b.states@[j] is Done implies #[trigger] b.states@[i] != #[trigger] b.states@[j] by {
        assert(a.states@[i] != a.states@[j]);
    }
    assert forall|k: int| 0 <= k < b.fixups@.len() implies b.paths@.contains_key(
        (#[trigger] b.fixups@[k]).1 as int,
    ) && waiting_cell(b.world(h, s), b.fixups@[k].0) by {
        assert(a.paths@.contains_key(a.fixups@[k].1 as int));
        assert(waiting_cell(a.world(h, s), a.fixups@[k].0));
    }
}

/// A closure that was being rebuilt is done.
proof fn lemma_finished(
    table: Seq<SendableClosure>,
    a: DeserContext,
    ha: HeapState,
    sa: Seq<Seq<char>>,
    started: DeserContext,
    before: DeserContext,
    h_before: HeapState,
    sb: Seq<Seq<char>>,
    b: DeserContext,
    hb: HeapState,
    c: DeserContext,
    idx: usize,
    v: Value,
)
    requires
        a.ok(table, ha, sa),
        idx < table.len(),
        a.states@[idx as int] is NotStarted,
        started.ok(table, ha, sa),
        opened(started.states@) == opened(a.states@).insert(idx as int),
        unstarted(started.states@) < unstarted(a.states@),
        started.world(ha, sa) == a.world(ha, sa),
        started.alloc == a.alloc,
        started.root == a.root,
        started.lo == a.lo,
        started.states@.len() == a.states@.len(),
        started.paths@ == a.paths@.insert(idx as int, opened(a.states@).insert(idx as int)),
        stepped(table, started, ha, sa, before, h_before, sb),
        stepped(table, started, ha, sa, b, hb, sb),
        b.states == before.states,
        hb.target(v) == Some(h_before.objects.len() as int),
        before.ok(table, h_before, sb),
        closure_rebuilt(
            b.world(hb, sb),
            opened(started.states@),
            v,
            table[idx as int],
        ),
        c.states@ == b.states@.update(idx as int, ReconState::Done(v)),
        c.owner@ == a.owner@,
        c.spare == b.spare,
        c.alloc == b.alloc,
        c.fixups == b.fixups,
        c.paths == b.paths,
        c.root == b.root,
        c.lo == b.lo,
    ensures
        stepped(table, a, ha, sa, c, hb, sb),
        rebuilt(c.world(hb, sb), opened(a.states@), v, SendValue::Ref(idx)),
{
    let i0 = idx as int;
    let open = opened(a.states@);
    let (wa, wb, wc) = (a.world(ha, sa), b.world(hb, sb), c.world(hb, sb));
    assert(opened(b.states@).contains(i0));
    lemma_state_change(table, b.states@, i0, ReconState::Done(v));
    assert(c.budget(table) == b.budget(table));
    assert(opened(c.states@) =~= open) by {
        assert forall|i: int| opened(c.states@).contains(i) <==> open.contains(i) by {
            assert(opened(b.states@).contains(i) <==> open.insert(i0).contains(i));
        }
    }
    assert(further(wb, wc)) by {
        lemma_grown_self(hb, wb.region);
        assert forall|k: int| #[trigger] wb.done.contains_key(k) implies wc.done.contains_key(k) && wc.done[k]
            == wb.done[k] by {
            assert(k != i0);
        }
    }
    lemma_further_trans(wa, wb, wc);
    assert(c.paths@[i0] == opened(started.states@)) by {
        assert(started.paths@.contains_key(i0));
        assert(b.paths@[i0] == started.paths@[i0]);
    }
    assert forall|i: int|
        c.paths@.contains_key(i) <==> 0 <= i < table.len() && !(#[trigger] c.states@[i] is NotStarted) by {
        assert(b.paths@.contains_key(i) <==> 0 <= i < table.len() && !(b.states@[i] is NotStarted));
    }
    assert forall|i: int| 0 <= i < table.len() && c.states@[i] is Done implies closure_rebuilt(
        wc,
        c.paths@[i],
        c.states@[i]->Done_0,
        #[trigger] table[i],
    ) by {
        if i == i0 {
            lemma_closure_further(wb, wc, c.paths@[i], v, table[i]);
        } else {
            assert(b.states@[i] is Done);
            lemma_closure_further(wb, wc, b.paths@[i], b.states@[i]->Done_0, table[i]);
        }
    }
    assert forall|i: int, j: int|
        0 <= i < table.len() && 0 <= j < table.len() && i != j && c.states@[i] is Done
            && c.states@[j] is Done implies #[trigger] c.states@[i] != #[trigger] c.states@[j] by {
        if i != i0 && j != i0 {
            assert(b.states@[i] != b.states@[j]);
        } else {
            let k = if i == i0 {
                j
            } else {
                i
            };
            assert(before.states@[k] is Done);
            assert(closure_rebuilt(
                before.world(h_before, sb),
                before.paths@[k],
                before.states@[k]->Done_0,
                table[k],
            ));
            assert(h_before.target(before.states@[k]->Done_0) is Some);
            assert(h_before.target(v) is None);
        }
    }
    assert forall|i: int| #[trigger] a.paths@.contains_key(i) implies c.paths@.contains_key(i)
        && c.paths@[i] == a.paths@[i] by {
        assert(i != i0);
        assert(started.paths@.contains_key(i));
    }
    match c.owner@ {
        None => {},
        Some(j) => {
            assert(a.paths@.contains_key(j));
        },
    }
    assert(wc.done.contains_key(i0));
    assert(!open.contains(i0));
}

/// Nothing was started.
proof fn lemma_nothing_started(table: Seq<SendableClosure>, states: Seq<ReconState>)
    requires
        states.len() == table.len(),
        forall|i: int| 0 <= i < states.len() ==> #[trigger] states[i] is NotStarted,
    ensures
        left(table, states) == closure_weights(table),
        opened(states) == Set::<int>::empty(),
        done_map(states) == Map::<int, Value>::empty(),
    decreases states.len(),
{
    assert(opened(states) =~= Set::<int>::empty());
    assert(done_map(states) =~= Map::<int, Value>::empty());
    if states.len() > 0 {
        lemma_nothing_started(table.drop_last(), states.drop_last());
        lemma_left_prefix(table, states.drop_last());
    }
}

/// What is left depends only on as much of the table as there are states.
proof fn lemma_left_prefix(table: Seq<SendableClosure>, states: Seq<ReconState>)
    requires
        states.len() < table.len(),
    ensures
        left(table, states) == left(table.drop_last(), states),
    decreases states.len(),
{
    if states.len() > 0 {
        lemma_left_prefix(table, states.drop_last());
    }
}

/// Give the waiting cells their closures.
fn apply_fixups(ctx: &DeserContext, heap: &mut FiberHeap, table: Ghost<Seq<SendableClosure>>, symbols: Ghost<
    Seq<Seq<char>>,
>)
    requires
        ctx.ok(table@, old(heap)@, symbols@),
        opened(ctx.states@) == Set::<int>::empty(),
    ensures
        fixed_up(
            ctx.world(old(heap)@, symbols@),
            (Arrival { fixed: true, ..ctx.world(final(heap)@, symbols@) }),
        ),
        forall|i: int|
            0 <= i < ctx.lo@ ==> #[trigger] final(heap)@.objects[i] == old(heap)@.objects[i],
        final(heap)@.valid(),
{
    let ghost h0 = heap@;
    let ghost w0 = ctx.world(h0, symbols@);
    let mut i: usize = 0;
    while i < ctx.fixups.len()
        invariant
            i <= ctx.fixups@.len(),
            ctx.ok(table@, h0, symbols@),
            opened(ctx.states@) == Set::<int>::empty(),
            w0 == ctx.world(h0, symbols@),
            heap@.valid(),
            heap@ == (HeapState { objects: heap@.objects, ..h0 }),
            heap@.objects.len() == h0.objects.len(),
            forall|k: int|
                0 <= k < i ==> heap@.object((#[trigger] ctx.fixups@[k]).0) == with_cell(
                    h0.object(ctx.fixups@[k].0),
                    w0.done[ctx.fixups@[k].1 as int],
                ) && w0.done.contains_key(ctx.fixups@[k].1 as int),
            forall|n: int|
                0 <= n < h0.objects.len() && (forall|k: int|
                    0 <= k < i ==> h0.target((#[trigger] ctx.fixups@[k]).0) != Some(n))
                    ==> #[trigger] heap@.objects[n] == h0.objects[n],
        decreases ctx.fixups.len() - i,
    {
        let (cell, idx) = ctx.fixups[i];
        let ghost h1 = heap@;
        proof {
            assert(ctx.paths@.contains_key(ctx.fixups@[i as int].1 as int));
            assert(h0.resolves(cell));
            assert(!opened(ctx.states@).contains(idx as int));
            assert forall|k: int| 0 <= k < i implies h0.target((#[trigger] ctx.fixups@[k]).0)
                != h0.target(cell) by {
                assert(ctx.fixups@[k].0 != ctx.fixups@[i as int].0);
                assert(h0.resolves(ctx.fixups@[k].0));
            }
            assert(heap@.objects[h0.target(cell)->0] == h0.objects[h0.target(cell)->0]);
        }
        if let ReconState::Done(v) = ctx.states[idx] {
            heap.set_cell(cell, v);
        }
        proof {
            let t = h0.target(cell)->0;
            assert forall|n: int|
                0 <= n < h0.objects.len() && (forall|k: int|
                    0 <= k < i + 1 ==> h0.target((#[trigger] ctx.fixups@[k]).0) != Some(
                        n,
                    )) implies #[trigger] heap@.objects[n] == h0.objects[n] by {
                assert(h0.target(ctx.fixups@[i as int].0) != Some(n));
                assert(h1.objects[n] == h0.objects[n]);
            }
            assert forall|k: int| 0 <= k < i + 1 implies heap@.object((#[trigger] ctx.fixups@[k]).0)
                == with_cell(h0.object(ctx.fixups@[k].0), w0.done[ctx.fixups@[k].1 as int])
                && w0.done.contains_key(ctx.fixups@[k].1 as int) by {
                if k < i {
                    assert(h0.target(ctx.fixups@[k].0) != h0.target(cell));
                }
            }
        }
        i = i + 1;
    }
    proof {
        let w1 = Arrival { fixed: true, ..ctx.world(heap@, symbols@) };
        assert forall|n: int| 0 <= n < h0.objects.len() && !is_waiting(w0, n) implies #[trigger] heap@.objects[n]
            == h0.objects[n] by {
            assert forall|k: int| 0 <= k < i implies h0.target((#[trigger] ctx.fixups@[k]).0) != Some(n) by {
                assert(w0.fixups[k] == ctx.fixups@[k]);
            }
        }
        assert forall|n: int| 0 <= n < ctx.lo@ implies #[trigger] heap@.objects[n] == h0.objects[n] by {
            assert forall|k: int| 0 <= k < i implies h0.target((#[trigger] ctx.fixups@[k]).0) != Some(n) by {
                assert(h0.target(ctx.fixups@[k].0)->0 >= ctx.lo@);
            }
        }
        assert(fixed_up(w0, w1));
    }
}

impl SendBundle {
    /// Rebuild the bundle's value, every object of it in the capability's region.
    /// Closures that refer to each other through cells do so again. A closure
    /// that refers to itself, or to one it is reached from, in any other way
    /// has nil in that place. The elements of a set come in the order they were sent
    /// in, until `FiberHeap::order_set` puts them into the receiver's own.
    pub fn into_value(self, alloc: &Alloc, heap: &mut FiberHeap, symbols: &mut SymbolTable) -> (v: Value)
        requires
            self.well_formed(),
            alloc.ready(old(heap)@, self.total_weight()),
            old(symbols)@.len() + self.total_weight() <= u32::MAX,
        ensures
            arrived(
                final(heap)@,
                final(symbols)@,
                old(heap)@.objects.len() as int,
                alloc.home().0,
                self,
                v,
            ),
            grown(old(heap)@, final(heap)@, alloc.home().0),
            carried_out(old(heap)@, old(symbols)@, final(heap)@, final(symbols)@, self.script()),
            extends(old(symbols)@, final(symbols)@),
            final(heap)@.valid(),
    {
        self.rebuild(alloc, heap, symbols)
    }

    /// Rebuild the bundle's value and keep the bundle.
    pub fn rebuild(&self, alloc: &Alloc, heap: &mut FiberHeap, symbols: &mut SymbolTable) -> (v: Value)
        requires
            self.well_formed(),
            alloc.ready(old(heap)@, self.total_weight()),
            old(symbols)@.len() + self.total_weight() <= u32::MAX,
        ensures
            arrived(
                final(heap)@,
                final(symbols)@,
                old(heap)@.objects.len() as int,
                alloc.home().0,
                *self,
                v,
            ),
            grown(old(heap)@, final(heap)@, alloc.home().0),
            carried_out(old(heap)@, old(symbols)@, final(heap)@, final(symbols)@, self.script()),
            extends(old(symbols)@, final(symbols)@),
            final(heap)@.valid(),
    {
        self.rebuild_with(alloc, heap, symbols, Ghost(0))
    }

    /// Rebuild the bundle's value where there is room for more.
    pub(crate) fn rebuild_with(
        &self,
        alloc: &Alloc,
        heap: &mut FiberHeap,
        symbols: &mut SymbolTable,
        extra: Ghost<nat>,
    ) -> (v: Value)
        requires
            self.well_formed(),
            alloc.ready(old(heap)@, self.total_weight() + extra@),
            old(symbols)@.len() + self.total_weight() + extra@ <= u32::MAX,
        ensures
            arrived(
                final(heap)@,
                final(symbols)@,
                old(heap)@.objects.len() as int,
                alloc.home().0,
                *self,
                v,
            ),
            grown(old(heap)@, final(heap)@, alloc.home().0),
            carried_out(old(heap)@, old(symbols)@, final(heap)@, final(symbols)@, self.script()),
            extends(old(symbols)@, final(symbols)@),
            final(heap)@.valid(),
            final(heap)@.room(extra@),
    {
        let ghost (h0, s0) = (heap@, symbols@);
        let ghost lo = h0.objects.len() as int;
        let mut states: Vec<ReconState> = Vec::new();
        let n = self.closures.len();
        let mut i: usize = 0;
        while i < n
            invariant
                i <= n,
                states@.len() == i,
                forall|k: int| 0 <= k < i ==> #[trigger] states@[k] is NotStarted,
            decreases n - i,
        {
            states.push(ReconState::NotStarted);
            i = i + 1;
        }
        let mut ctx = DeserContext {
            alloc: *alloc,
            states,
            fixups: Vec::new(),
            paths: Ghost(Map::empty()),
            spare: Ghost(weight(self.root) + extra@),
            owner: Ghost(None),
            root: Ghost(self.root),
            lo: Ghost(lo),
        };
        let ghost c0 = ctx;
        proof {
            lemma_nothing_started(self.closures@, ctx.states@);
            assert(ctx.ok(self.closures@, h0, s0));
            assert(met(ctx.states@) =~= Seq::new(self.closures@.len(), |i: int| false));
        }
        let v = into_value_inner(&self.root, &self.closures, heap, symbols, &mut ctx);
        let ghost h1 = heap@;
        apply_fixups(&ctx, heap, Ghost(self.closures@), Ghost(symbols@));
        proof {
            reveal(worked);
            lemma_room_less(h1, ctx.budget(self.closures@), extra@);
            lemma_arrived(*self, ctx, h1, heap@, symbols@, v);
            let w1 = ctx.world(h1, symbols@);
            let w2 = Arrival { fixed: true, ..ctx.world(heap@, symbols@) };
            assert forall|i: int| #[trigger] w1.done.contains_key(i) implies is_local(
                h1,
                w1.region,
                w1.done[i],
            ) by {
                lemma_met(self.closures@, ctx, h1, symbols@, i);
            }
            lemma_fixed_counted(w1, w2, lo, h1.objects.len() as int);
            lemma_grown_fixed(h0, h1, heap@, alloc.home().0);
        }
        v
    }
}

/// Where nothing is being rebuilt, what was met is done.
proof fn lemma_met(
    table: Seq<SendableClosure>,
    ctx: DeserContext,
    h: HeapState,
    symbols: Seq<Seq<char>>,
    i: int,
)
    requires
        ctx.ok(table, h, symbols),
        opened(ctx.states@) == Set::<int>::empty(),
    ensures
        done_map(ctx.states@).contains_key(i) <==> ctx.paths@.contains_key(i),
        ctx.paths@.contains_key(i) ==> 0 <= i < table.len() && ctx.paths@[i].contains(i) && led(
            ctx.root@,
            table,
            ctx.paths@,
            i,
        ) && closure_rebuilt(
            ctx.world(h, symbols),
            ctx.paths@[i],
            done_map(ctx.states@)[i],
            table[i],
        ),
{
    assert(!opened(ctx.states@).contains(i));
    assert(ctx.paths@.contains_key(i) <==> 0 <= i < table.len() && !(ctx.states@[i] is NotStarted));
    if ctx.paths@.contains_key(i) {
        assert(closure_rebuilt(
            ctx.world(h, symbols),
            ctx.paths@[i],
            ctx.states@[i]->Done_0,
            table[i],
        ));
    }
}

/// Everything was met, and the waiting cells have their closures.
proof fn lemma_arrived(
    b: SendBundle,
    ctx: DeserContext,
    h1: HeapState,
    h2: HeapState,
    symbols: Seq<Seq<char>>,
    v: Value,
)
    requires
        ctx.ok(b.closures@, h1, symbols),
        ctx.root@ == b.root,
        opened(ctx.states@) == Set::<int>::empty(),
        rebuilt(ctx.world(h1, symbols), Set::empty(), v, b.root),
        fixed_up(ctx.world(h1, symbols), (Arrival { fixed: true, ..ctx.world(h2, symbols) })),
    ensures
        arrived(h2, symbols, ctx.lo@, ctx.alloc.home().0, b, v),
{
    let table = b.closures@;
    let w1 = ctx.world(h1, symbols);
    let w2 = Arrival { fixed: true, ..ctx.world(h2, symbols) };
    let paths = ctx.paths@;
    let done = done_map(ctx.states@);
    assert forall|i: int| #[trigger] done.contains_key(i) <==> paths.contains_key(i) by {
        lemma_met(table, ctx, h1, symbols, i);
    }
    assert forall|i: int| #[trigger] paths.contains_key(i) implies 0 <= i < table.len()
        && paths[i].contains(i) && led(b.root, table, paths, i) && closure_rebuilt(
        w2,
        paths[i],
        done[i],
        table[i],
    ) by {
        lemma_met(table, ctx, h1, symbols, i);
        lemma_closure_fixed(w1, w2, paths[i], done[i], table[i]);
    }
    lemma_done_distinct(table, ctx, h1, symbols);
    lemma_value_fixed(w1, w2, Set::empty(), v, b.root);
    lemma_paths_closed(table, ctx, h1, symbols);
    lemma_arrived_parts(w2, paths, b, v);
}

proof fn lemma_done_distinct(
    table: Seq<SendableClosure>,
    ctx: DeserContext,
    h: HeapState,
    symbols: Seq<Seq<char>>,
)
    requires
        ctx.ok(table, h, symbols),
    ensures
        ({
            let done = done_map(ctx.states@);
            forall|i: int, j: int|
                done.contains_key(i) && done.contains_key(j) && i != j ==> #[trigger] done[i]
                    != #[trigger] done[j]
        }),
{
    let done = done_map(ctx.states@);
    assert forall|i: int, j: int|
        done.contains_key(i) && done.contains_key(j) && i != j implies #[trigger] done[i]
        != #[trigger] done[j] by {
        assert(ctx.states@[i] != ctx.states@[j]);
    }
}

proof fn lemma_paths_closed(
    table: Seq<SendableClosure>,
    ctx: DeserContext,
    h: HeapState,
    symbols: Seq<Seq<char>>,
)
    requires
        ctx.ok(table, h, symbols),
    ensures
        forall|i: int, j: int|
            ctx.paths@.contains_key(i) && #[trigger] ctx.paths@[i].contains(j)
                ==> ctx.paths@.contains_key(j),
{
}

proof fn lemma_arrived_parts(w: Arrival, paths: Map<int, Set<int>>, b: SendBundle, v: Value)
    requires
        w.fixed,
        rebuilt(w, Set::empty(), v, b.root),
        forall|i: int| #[trigger] w.done.contains_key(i) <==> paths.contains_key(i),
        forall|i: int| #[trigger]
            paths.contains_key(i) ==> 0 <= i < b.closures@.len() && paths[i].contains(i) && led(
                b.root,
                b.closures@,
                paths,
                i,
            ) && closure_rebuilt(w, paths[i], w.done[i], b.closures@[i]),
        forall|i: int, j: int|
            paths.contains_key(i) && #[trigger] paths[i].contains(j) ==> paths.contains_key(j),
        forall|i: int, j: int|
            w.done.contains_key(i) && w.done.contains_key(j) && i != j ==> #[trigger] w.done[i]
                != #[trigger] w.done[j],
    ensures
        arrived(w.heap, w.symbols, w.lo, w.region, b, v),
{
    assert(arrived_as(w, paths, b, v));
}

/// Giving the waiting cells their closures takes no reference to another region.
proof fn lemma_fixed_counted(a: Arrival, b: Arrival, lo: int, hi: int)
    requires
        0 <= lo,
        hi <= a.heap.objects.len(),
        a.heap.owners.len() == a.heap.objects.len(),
        fixed_up(a, b),
        forall|k: int| 0 <= k < a.fixups.len() ==> waiting_cell(a, (#[trigger] a.fixups[k]).0),
        forall|i: int| #[trigger] a.done.contains_key(i) ==> is_local(a.heap, a.region, a.done[i]),
    ensures
        b.heap.taken(a.region, lo, hi) == a.heap.taken(a.region, lo, hi),
    decreases hi - lo,
{
    if lo < hi {
        lemma_fixed_counted(a, b, lo, hi - 1);
        let i = hi - 1;
        let (x, y) = (a.heap.objects[i].children(), b.heap.objects[i].children());
        let young = a.heap.upto(i);
        if is_waiting(a, i) {
            let k = choose|k: int|
                0 <= k < a.fixups.len() && a.heap.target((#[trigger] a.fixups[k]).0) == Some(i);
            let cell = a.fixups[k].0;
            let v = a.done[a.fixups[k].1 as int];
            assert(waiting_cell(a, cell));
            assert(b.heap.objects[i] == with_cell(a.heap.objects[i], v));
            assert(x.len() == y.len());
            assert forall|j: int| 0 <= j < x.len() implies (#[trigger] x[j] == y[j] || at_home(
                young,
                a.region,
                x[j],
            ) && at_home(young, a.region, y[j])) by {
                if x[j] != y[j] {
                    assert(x[j] == held(a.heap.objects[i]));
                    assert(y[j] == v);
                    lemma_home_upto(a.heap, a.region, i, x[j]);
                    lemma_home_upto(a.heap, a.region, i, v);
                }
            }
        } else {
            assert(b.heap.objects[i] == a.heap.objects[i]);
        }
        lemma_abroad_agree(young, b.heap.upto(i), a.region, x, y);
    }
}

/// What is local was so, or was not there yet.
proof fn lemma_home_upto(s: HeapState, region: u32, i: int, v: Value)
    requires
        is_local(s, region, v),
        0 <= i < s.objects.len(),
        s.owners.len() == s.objects.len(),
    ensures
        at_home(s.upto(i), region, v),
{
}

proof fn lemma_grown_fixed(a: HeapState, b: HeapState, c: HeapState, region: u32)
    requires
        grown(a, b, region),
        c == (HeapState { objects: c.objects, ..b }),
        c.objects.len() == b.objects.len(),
        forall|i: int| 0 <= i < a.objects.len() ==> #[trigger] c.objects[i] == b.objects[i],
        c.taken(region, a.objects.len() as int, b.objects.len() as int) == b.taken(
            region,
            a.objects.len() as int,
            b.objects.len() as int,
        ),
    ensures
        grown(a, c, region),
{
    lemma_same_counted(a, b, c, region);
    assert forall|i: int| 0 <= i < a.objects.len() implies #[trigger] c.objects[i] == a.objects[i] by {
        assert(b.objects[i] == a.objects[i]);
    }
}

} // verus!
