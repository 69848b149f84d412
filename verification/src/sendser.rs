//! Turning live values into values that can leave their heap.

use std::collections::HashMap;

use vstd::prelude::*;

use crate::heap::{FiberHeap, HeapState};
use crate::lir::{BasicBlock, LirConst, LirFunction, LirInstr};
use crate::object::{
    Closure, ClosureTemplate, ExternalData, ExternalObject, HeapObject, HeapTag, PortKind, TableKey,
};
use crate::prim::closure_at;
use crate::sendmirror::{
    all_mirror, begins, block_mirrors, closure_mirrors, closure_value, cycles_through_closures,
    entries_mirror, external_refusal, has_identity_key, instr_mirrors, is_constant, is_part, is_stdio,
    lemma_all_keys, lemma_block_keys, lemma_closure_keys, lemma_entries_keys, lemma_instr_keys,
    lemma_lir_keys, lemma_mirrors_fit, lemma_mirrors_keys, lemma_template_fits,
    lemma_template_keys, lemma_reach_ranked, linked, lir_holds, is_load, lir_mirrors, lives, loads, mirrors,
    object_refusal, own,
    ranked, refuses, refuses_within, sent, sent_as, settled, template_holds, template_mirrors,
    traits_mirror, traits_travel, value_rank, Names, Ranks,
};
use crate::sendorder::{
    closures_met, first_refusal, ranks, walk, walk_all, walk_blocks, walk_entries, walk_instrs, walk_items,
    walk_nested, walk_struct, walk_template, walk_traits, walk_with_traits, Trail,
};
use crate::sendvalue::{closure_fits, SendBundle, SendValue, SendableClosure};
use crate::signalbits::SignalBits;
use crate::symbol::{SymbolId, SymbolTable};
use crate::value::{Value, TAG_HEAP_START};

verus! {

/// What serialization keeps track of.
pub struct SerContext {
    /// The index of every closure met, by its address.
    visited: HashMap<u64, usize>,
    closures: Vec<SendableClosure>,
    /// The address of every closure met, in the order of their indices.
    keys: Ghost<Seq<u64>>,
    /// The closures whose entries are not written yet.
    pending: Ghost<Set<int>>,
}

impl SerContext {
    spec fn ok(self, s: HeapState, names: Names) -> bool {
        &&& self.keys@.len() == self.closures@.len()
        &&& self.keys@.len() <= s.objects.len()
        &&& self.keys@.no_duplicates()
        &&& forall|i: int| self.pending@.contains(i) ==> 0 <= i < self.keys@.len()
        &&& forall|i: int|
            0 <= i < self.keys@.len() ==> self.visited@.contains_key(#[trigger] self.keys@[i])
                && closure_at(s, closure_value(self.keys@[i])) is Some
        &&& forall|k: u64| #[trigger]
            self.visited@.contains_key(k) ==> self.visited@[k] < self.keys@.len()
                && self.keys@[self.visited@[k] as int] == k
        &&& forall|i: int|
            0 <= i < self.keys@.len() && !self.pending@.contains(i) ==> closure_mirrors(
                s,
                names,
                self.keys@,
                closure_at(s, closure_value(self.keys@[i]))->0,
                #[trigger] self.closures@[i],
            )
    }

    spec fn extends(self, other: SerContext) -> bool {
        &&& begins(other.keys@, self.keys@)
        &&& begins(other.closures@, self.closures@)
        &&& self.pending@ == other.pending@
    }

    spec fn unmet(self, s: HeapState) -> int {
        s.objects.len() - self.keys@.len()
    }
}

/// Closures at distinct addresses are distinct objects.
proof fn lemma_unmet(s: HeapState, keys: Seq<u64>)
    requires
        keys.no_duplicates(),
        forall|i: int|
            0 <= i < keys.len() ==> closure_at(s, closure_value(#[trigger] keys[i])) is Some,
    ensures
        keys.len() <= s.objects.len(),
{
    let places = Seq::new(keys.len(), |i: int| s.target(closure_value(keys[i]))->0);
    assert forall|i: int, j: int| 0 <= i < places.len() && 0 <= j < places.len() && i != j implies places[i]
        != places[j] by {
        assert(closure_at(s, closure_value(keys[i])) is Some);
        assert(closure_at(s, closure_value(keys[j])) is Some);
        assert(keys[i] != keys[j]);
    }
    let all = Set::new(|i: int| 0 <= i < s.objects.len());
    vstd::set_lib::lemma_int_range(0, s.objects.len() as int);
    assert(all =~= vstd::set_lib::set_int_range(0, s.objects.len() as int));
    places.unique_seq_to_set();
    assert(places.to_set().subset_of(all)) by {
        assert forall|x: int| places.to_set().contains(x) implies all.contains(x) by {
            let i = choose|i: int| 0 <= i < places.len() && places[i] == x;
            assert(closure_at(s, closure_value(keys[i])) is Some);
        }
    }
    vstd::set_lib::lemma_len_subset(places.to_set(), all);
}

/// What a part cannot be sent for, the whole cannot be sent for.
proof fn lemma_part_refuses(s: HeapState, v: Value, p: Value, why: Seq<char>)
    requires
        v.tag >= TAG_HEAP_START,
        s.target(v) is Some,
        is_part(s, s.object(v), p),
        refuses(s, p, why),
    ensures
        refuses(s, v, why),
{
    let depth = choose|depth: nat| refuses_within(s, p, depth, why);
    let next = (depth + 1) as nat;
    assert((next - 1) as nat == depth);
    assert(is_part(s, s.object(v), p) && refuses_within(s, p, (next - 1) as nat, why));
    assert(refuses_within(s, v, next, why));
}

/// What an object is refused for.
proof fn lemma_object_refuses(s: HeapState, v: Value, why: Seq<char>)
    requires
        v.tag >= TAG_HEAP_START,
        s.target(v) is Some,
        object_refusal(s.object(v)) == Some(why),
    ensures
        refuses(s, v, why),
{
    assert(refuses_within(s, v, 0, why));
}

/// Some of the values cannot be sent, for this reason.
spec fn any_refuses(s: HeapState, values: Seq<Value>, why: Seq<char>) -> bool {
    exists|i: int| 0 <= i < values.len() && refuses(s, #[trigger] values[i], why)
}

/// Everything the functions below ask of heap and context.
spec fn can_send(s: HeapState, names: Names, g: Ranks, ctx: SerContext) -> bool {
    &&& s.valid()
    &&& ranked(s, g)
    &&& ctx.ok(s, names)
}

/// Where a step of sending has come to.
spec fn trail<T>(r: Result<T, String>, met: Seq<u64>) -> Trail {
    Trail {
        why: match r {
            Ok(_) => None,
            Err(why) => Some(why@),
        },
        met,
    }
}

/// Send a traits field; the sender's default traits are left out.
fn send_traits(
    traits: Value,
    tag: HeapTag,
    heap: &FiberHeap,
    symbols: &SymbolTable,
    ctx: &mut SerContext,
    g: Ghost<Ranks>,
    bound: Ghost<nat>,
) -> (r: Result<SendValue, String>)
    requires
        can_send(heap@, own(symbols@), g@, *old(ctx)),
        traits_travel(heap@, traits, tag) ==> lives(heap@, g@, traits) && value_rank(
            heap@,
            g@,
            traits,
        ) < bound@,
    ensures
        final(ctx).ok(heap@, own(symbols@)),
        begins(old(ctx).keys@, final(ctx).keys@),
        walk_traits(heap@, g@, traits, tag, bound@, old(ctx).keys@) == trail(
            r,
            final(ctx).keys@,
        ),
        match r {
            Ok(sv) => final(ctx).extends(*old(ctx)) && traits_mirror(
                heap@,
                own(symbols@),
                final(ctx).keys@,
                traits,
                tag,
                sv,
            ),
            Err(why) => traits_travel(heap@, traits, tag) && refuses(heap@, traits, why@),
        },
    decreases old(ctx).unmet(heap@), bound@, 2int, arbitrary::<ClosureTemplate>(),
{
    if traits.is_nil() {
        return Ok(SendValue::Immediate(Value::nil()));
    }
    let default = heap.default_traits_for(tag);
    if !default.is_nil() && traits.payload == default.payload {
        return Ok(SendValue::Immediate(Value::nil()));
    }
    from_value_inner(traits, heap, symbols, ctx, g)
}

proof fn lemma_any_refuses(s: HeapState, v: Value, values: Seq<Value>, why: Seq<char>)
    requires
        v.tag >= TAG_HEAP_START,
        s.target(v) is Some,
        forall|i: int| 0 <= i < values.len() ==> is_part(s, s.object(v), #[trigger] values[i]),
        any_refuses(s, values, why),
    ensures
        refuses(s, v, why),
{
    let i = choose|i: int| 0 <= i < values.len() && refuses(s, #[trigger] values[i], why);
    lemma_part_refuses(s, v, values[i], why);
}

/// Send some values in order.
fn send_all(
    values: &Vec<Value>,
    heap: &FiberHeap,
    symbols: &SymbolTable,
    ctx: &mut SerContext,
    g: Ghost<Ranks>,
    bound: Ghost<nat>,
) -> (r: Result<Vec<SendValue>, String>)
    requires
        can_send(heap@, own(symbols@), g@, *old(ctx)),
        forall|i: int|
            0 <= i < values@.len() ==> lives(heap@, g@, #[trigger] values@[i]) && value_rank(
                heap@,
                g@,
                values@[i],
            ) < bound@,
    ensures
        final(ctx).ok(heap@, own(symbols@)),
        begins(old(ctx).keys@, final(ctx).keys@),
        walk_all(heap@, g@, values@, bound@, old(ctx).keys@) == trail(
            r,
            final(ctx).keys@,
        ),
        match r {
            Ok(items) => final(ctx).extends(*old(ctx)) && all_mirror(
                heap@,
                own(symbols@),
                final(ctx).keys@,
                values@,
                items@,
            ),
            Err(why) => any_refuses(heap@, values@, why@),
        },
    decreases old(ctx).unmet(heap@), bound@, 1int, arbitrary::<ClosureTemplate>(),
{
    let ghost s = heap@;
    let mut out: Vec<SendValue> = Vec::new();
    let mut i: usize = 0;
    assert(values@.skip(0) =~= values@);
    while i < values.len()
        invariant
            i <= values@.len(),
            s == heap@,
            can_send(s, own(symbols@), g@, *ctx),
            ctx.extends(*old(ctx)),
            walk_all(s, g@, values@, bound@, old(ctx).keys@) == walk_all(
                s,
                g@,
                values@.skip(i as int),
                bound@,
                ctx.keys@,
            ),
            forall|k: int|
                0 <= k < values@.len() ==> lives(s, g@, #[trigger] values@[k]) && value_rank(
                    s,
                    g@,
                    values@[k],
                ) < bound@,
            all_mirror(s, own(symbols@), ctx.keys@, values@.take(i as int), out@),
        decreases values.len() - i,
    {
        let ghost before = ctx.keys@;
        assert(values@.skip(i as int)[0] == values@[i as int]);
        assert(values@.skip(i as int).skip(1) =~= values@.skip(i + 1));
        match from_value_inner(values[i], heap, symbols, ctx, g) {
            Ok(sv) => {
                proof {
                    lemma_all_keys(s, own(symbols@), before, ctx.keys@, values@.take(i as int), out@);
                }
                out.push(sv);
            },
            Err(why) => {
                assert(any_refuses(s, values@, why@));
                return Err(why);
            },
        }
        i = i + 1;
        assert(all_mirror(s, own(symbols@), ctx.keys@, values@.take(i as int), out@)) by {
            assert(values@.take(i as int).drop_last() =~= values@.take(i - 1));
        }
    }
    assert(values@.take(i as int) =~= values@);
    Ok(out)
}

/// Send key-value entries in order; a key by identity ends it.
fn send_entries(
    data: &Vec<(TableKey, Value)>,
    refusal: &str,
    heap: &FiberHeap,
    symbols: &SymbolTable,
    ctx: &mut SerContext,
    g: Ghost<Ranks>,
    bound: Ghost<nat>,
) -> (r: Result<Vec<(TableKey, SendValue)>, String>)
    requires
        can_send(heap@, own(symbols@), g@, *old(ctx)),
        forall|i: int|
            0 <= i < data@.len() ==> lives(heap@, g@, (#[trigger] data@[i]).1) && value_rank(
                heap@,
                g@,
                data@[i].1,
            ) < bound@,
    ensures
        final(ctx).ok(heap@, own(symbols@)),
        begins(old(ctx).keys@, final(ctx).keys@),
        walk_entries(heap@, g@, data@, refusal@, bound@, old(ctx).keys@) == trail(
            r,
            final(ctx).keys@,
        ),
        match r {
            Ok(entries) => final(ctx).extends(*old(ctx)) && !has_identity_key(data@) && entries_mirror(
                heap@,
                own(symbols@),
                final(ctx).keys@,
                data@,
                entries@,
            ),
            Err(why) => (has_identity_key(data@) && why@ == refusal@) || exists|i: int|
                0 <= i < data@.len() && refuses(heap@, (#[trigger] data@[i]).1, why@),
        },
    decreases old(ctx).unmet(heap@), bound@, 1int, arbitrary::<ClosureTemplate>(),
{
    let ghost s = heap@;
    let mut out: Vec<(TableKey, SendValue)> = Vec::new();
    let mut i: usize = 0;
    assert(data@.skip(0) =~= data@);
    while i < data.len()
        invariant
            i <= data@.len(),
            s == heap@,
            can_send(s, own(symbols@), g@, *ctx),
            ctx.extends(*old(ctx)),
            walk_entries(s, g@, data@, refusal@, bound@, old(ctx).keys@) == walk_entries(
                s,
                g@,
                data@.skip(i as int),
                refusal@,
                bound@,
                ctx.keys@,
            ),
            forall|k: int|
                0 <= k < data@.len() ==> lives(s, g@, (#[trigger] data@[k]).1) && value_rank(
                    s,
                    g@,
                    data@[k].1,
                ) < bound@,
            forall|k: int| 0 <= k < i ==> !((#[trigger] data@[k]).0 is Identity),
            entries_mirror(s, own(symbols@), ctx.keys@, data@.take(i as int), out@),
        decreases data.len() - i,
    {
        assert(data@.skip(i as int)[0] == data@[i as int]);
        assert(data@.skip(i as int).skip(1) =~= data@.skip(i + 1));
        if !data[i].0.is_sendable() {
            assert(data@[i as int].0 is Identity);
            return Err(refusal.to_string());
        }
        let ghost before = ctx.keys@;
        match from_value_inner(data[i].1, heap, symbols, ctx, g) {
            Ok(sv) => {
                proof {
                    lemma_entries_keys(s, own(symbols@), before, ctx.keys@, data@.take(i as int), out@);
                }
                out.push((data[i].0.copy(), sv));
            },
            Err(why) => {
                assert(refuses(s, data@[i as int].1, why@));
                return Err(why);
            },
        }
        i = i + 1;
        assert(entries_mirror(s, own(symbols@), ctx.keys@, data@.take(i as int), out@)) by {
            assert(data@.take(i as int).drop_last() =~= data@.take(i - 1));
        }
    }
    assert(data@.take(i as int) =~= data@);
    Ok(out)
}

/// Send an external object: an open channel end or a standard stream.
fn send_external(obj: &ExternalObject) -> (r: Result<SendValue, String>)
    ensures
        match r {
            Ok(SendValue::ChanSender(end)) => obj.kind_name@ == "chan/sender"@ && obj.data
                == ExternalData::Channel(end) && external_refusal(*obj) is None,
            Ok(SendValue::ChanReceiver(end)) => obj.kind_name@ == "chan/receiver"@ && obj.data
                == ExternalData::Channel(end) && external_refusal(*obj) is None,
            Ok(SendValue::StdioPort(kind)) => obj.kind_name@ == "port"@ && obj.data == ExternalData::Port(
                kind,
            ) && is_stdio(kind) && external_refusal(*obj) is None,
            Ok(_) => false,
            Err(why) => external_refusal(*obj) == Some(why@),
        },
{
    if obj.kind_name == "chan/sender".to_string() {
        match obj.data {
            ExternalData::Channel(end) if end.open => Ok(SendValue::ChanSender(end)),
            _ => Err("Cannot send closed channel sender".to_string()),
        }
    } else if obj.kind_name == "chan/receiver".to_string() {
        match obj.data {
            ExternalData::Channel(end) if end.open => Ok(SendValue::ChanReceiver(end)),
            _ => Err("Cannot send closed channel receiver".to_string()),
        }
    } else if obj.kind_name == "port".to_string() {
        match obj.data {
            ExternalData::Port(kind) => if kind == PortKind::Stdin || kind == PortKind::Stdout || kind
                == PortKind::Stderr {
                Ok(SendValue::StdioPort(kind))
            } else {
                Err("Cannot send a file or socket port (only stdin/stdout/stderr)".to_string())
            },
            _ => Err("Cannot send port: not a port object".to_string()),
        }
    } else {
        let mut why = "Cannot send external object: ".to_string();
        why.append(obj.kind_name.as_str());
        Err(why)
    }
}

/// The object of `value` is no closure, its parts point right, and they rank
/// below it.
spec fn holds_part(s: HeapState, g: Ranks, value: Value) -> bool {
    &&& value.tag >= TAG_HEAP_START
    &&& s.resolves(value)
    &&& forall|p: Value| #[trigger]
        is_part(s, s.object(value), p) ==> lives(s, g, p) && value_rank(s, g, p) < value_rank(
            s,
            g,
            value,
        )
}

/// Send the items of an aggregate, then its traits. Where both are refused the
/// reason is that of the traits.
fn send_items(
    value: Value,
    items: &Vec<Value>,
    traits: Value,
    tag: HeapTag,
    heap: &FiberHeap,
    symbols: &SymbolTable,
    ctx: &mut SerContext,
    g: Ghost<Ranks>,
) -> (r: Result<(Vec<SendValue>, SendValue), String>)
    requires
        can_send(heap@, own(symbols@), g@, *old(ctx)),
        holds_part(heap@, g@, value),
        forall|i: int| 0 <= i < items@.len() ==> is_part(heap@, heap@.object(value), #[trigger] items@[i]),
        traits_travel(heap@, traits, tag) ==> is_part(heap@, heap@.object(value), traits),
    ensures
        final(ctx).ok(heap@, own(symbols@)),
        begins(old(ctx).keys@, final(ctx).keys@),
        walk_items(heap@, g@, items@, traits, tag, value_rank(heap@, g@, value), old(ctx).keys@) == trail(
            r,
            final(ctx).keys@,
        ),
        match r {
            Ok((copied, t)) => final(ctx).extends(*old(ctx)) && all_mirror(
                heap@,
                own(symbols@),
                final(ctx).keys@,
                items@,
                copied@,
            ) && traits_mirror(heap@, own(symbols@), final(ctx).keys@, traits, tag, t),
            Err(why) => refuses(heap@, value, why@),
        },
    decreases
        old(ctx).unmet(heap@),
        value_rank(heap@, g@, value),
        3int,
        arbitrary::<ClosureTemplate>(),
{
    let ghost s = heap@;
    let ghost bound = value_rank(s, g@, value);
    let copied = send_all(items, heap, symbols, ctx, g, Ghost(bound));
    let ghost mid = ctx.keys@;
    let t = match send_traits(traits, tag, heap, symbols, ctx, g, Ghost(bound)) {
        Ok(sv) => sv,
        Err(why) => {
            proof {
                lemma_part_refuses(s, value, traits, why@);
            }
            return Err(why);
        },
    };
    match copied {
        Ok(copied) => {
            proof {
                lemma_all_keys(s, own(symbols@), mid, ctx.keys@, items@, copied@);
            }
            Ok((copied, t))
        },
        Err(why) => {
            proof {
                lemma_any_refuses(s, value, items@, why@);
            }
            Err(why)
        },
    }
}

/// Send the entries of a struct, then its traits.
fn send_struct(
    value: Value,
    data: &Vec<(TableKey, Value)>,
    refusal: &str,
    traits: Value,
    tag: HeapTag,
    heap: &FiberHeap,
    symbols: &SymbolTable,
    ctx: &mut SerContext,
    g: Ghost<Ranks>,
) -> (r: Result<(Vec<(TableKey, SendValue)>, SendValue), String>)
    requires
        can_send(heap@, own(symbols@), g@, *old(ctx)),
        holds_part(heap@, g@, value),
        forall|i: int| 0 <= i < data@.len() ==> is_part(heap@, heap@.object(value), (#[trigger] data@[i]).1),
        has_identity_key(data@) ==> object_refusal(heap@.object(value)) == Some(refusal@),
        traits_travel(heap@, traits, tag) ==> is_part(heap@, heap@.object(value), traits),
    ensures
        final(ctx).ok(heap@, own(symbols@)),
        begins(old(ctx).keys@, final(ctx).keys@),
        walk_struct(heap@, g@, data@, refusal@, traits, tag, value_rank(heap@, g@, value), old(ctx).keys@) == trail(
            r,
            final(ctx).keys@,
        ),
        match r {
            Ok((entries, t)) => final(ctx).extends(*old(ctx)) && !has_identity_key(data@) && entries_mirror(
                heap@,
                own(symbols@),
                final(ctx).keys@,
                data@,
                entries@,
            ) && traits_mirror(heap@, own(symbols@), final(ctx).keys@, traits, tag, t),
            Err(why) => refuses(heap@, value, why@),
        },
    decreases
        old(ctx).unmet(heap@),
        value_rank(heap@, g@, value),
        3int,
        arbitrary::<ClosureTemplate>(),
{
    let ghost s = heap@;
    let ghost bound = value_rank(s, g@, value);
    let entries = match send_entries(data, refusal, heap, symbols, ctx, g, Ghost(bound)) {
        Ok(entries) => entries,
        Err(why) => {
            proof {
                if has_identity_key(data@) && why@ == refusal@ {
                    lemma_object_refuses(s, value, why@);
                } else {
                    let i = choose|i: int|
                        0 <= i < data@.len() && refuses(s, (#[trigger] data@[i]).1, why@);
                    lemma_part_refuses(s, value, data@[i].1, why@);
                }
            }
            return Err(why);
        },
    };
    let ghost mid = ctx.keys@;
    match send_traits(traits, tag, heap, symbols, ctx, g, Ghost(bound)) {
        Ok(t) => {
            proof {
                lemma_entries_keys(s, own(symbols@), mid, ctx.keys@, data@, entries@);
            }
            Ok((entries, t))
        },
        Err(why) => {
            proof {
                lemma_part_refuses(s, value, traits, why@);
            }
            Err(why)
        },
    }
}

/// Send the value of a cell, then its traits.
fn send_cell(
    value: Value,
    cell: Value,
    traits: Value,
    tag: HeapTag,
    heap: &FiberHeap,
    symbols: &SymbolTable,
    ctx: &mut SerContext,
    g: Ghost<Ranks>,
) -> (r: Result<(SendValue, SendValue), String>)
    requires
        can_send(heap@, own(symbols@), g@, *old(ctx)),
        holds_part(heap@, g@, value),
        is_part(heap@, heap@.object(value), cell),
        traits_travel(heap@, traits, tag) ==> is_part(heap@, heap@.object(value), traits),
    ensures
        final(ctx).ok(heap@, own(symbols@)),
        begins(old(ctx).keys@, final(ctx).keys@),
        walk_with_traits(heap@, g@, seq![cell], traits, tag, value_rank(heap@, g@, value), old(ctx).keys@) == trail(
            r,
            final(ctx).keys@,
        ),
        match r {
            Ok((c, t)) => final(ctx).extends(*old(ctx)) && mirrors(
                heap@,
                own(symbols@),
                final(ctx).keys@,
                cell,
                c,
            ) && traits_mirror(heap@, own(symbols@), final(ctx).keys@, traits, tag, t),
            Err(why) => refuses(heap@, value, why@),
        },
    decreases
        old(ctx).unmet(heap@),
        value_rank(heap@, g@, value),
        3int,
        arbitrary::<ClosureTemplate>(),
{
    let ghost s = heap@;
    let ghost bound = value_rank(s, g@, value);
    let c = match from_value_inner(cell, heap, symbols, ctx, g) {
        Ok(sv) => sv,
        Err(why) => {
            proof {
                lemma_part_refuses(s, value, cell, why@);
            }
            return Err(why);
        },
    };
    let ghost mid = ctx.keys@;
    match send_traits(traits, tag, heap, symbols, ctx, g, Ghost(bound)) {
        Ok(t) => {
            proof {
                lemma_mirrors_keys(s, own(symbols@), mid, ctx.keys@, cell, c);
            }
            Ok((c, t))
        },
        Err(why) => {
            proof {
                lemma_part_refuses(s, value, traits, why@);
            }
            Err(why)
        },
    }
}

/// Send two values of an object in order.
fn send_two(
    value: Value,
    first: Value,
    second: Value,
    heap: &FiberHeap,
    symbols: &SymbolTable,
    ctx: &mut SerContext,
    g: Ghost<Ranks>,
) -> (r: Result<(SendValue, SendValue), String>)
    requires
        can_send(heap@, own(symbols@), g@, *old(ctx)),
        holds_part(heap@, g@, value),
        is_part(heap@, heap@.object(value), first),
        is_part(heap@, heap@.object(value), second),
    ensures
        final(ctx).ok(heap@, own(symbols@)),
        begins(old(ctx).keys@, final(ctx).keys@),
        walk_all(heap@, g@, seq![first, second], value_rank(heap@, g@, value), old(ctx).keys@) == trail(
            r,
            final(ctx).keys@,
        ),
        match r {
            Ok((a, b)) => final(ctx).extends(*old(ctx)) && mirrors(
                heap@,
                own(symbols@),
                final(ctx).keys@,
                first,
                a,
            ) && mirrors(heap@, own(symbols@), final(ctx).keys@, second, b),
            Err(why) => refuses(heap@, value, why@),
        },
    decreases
        old(ctx).unmet(heap@),
        value_rank(heap@, g@, value),
        3int,
        arbitrary::<ClosureTemplate>(),
{
    let ghost s = heap@;
    proof {
        reveal_with_fuel(walk_all, 3);
        assert(seq![first, second].skip(1) =~= seq![second]);
        assert(seq![second].skip(1) =~= Seq::<Value>::empty());
    }
    let a = match from_value_inner(first, heap, symbols, ctx, g) {
        Ok(sv) => sv,
        Err(why) => {
            proof {
                lemma_part_refuses(s, value, first, why@);
            }
            return Err(why);
        },
    };
    let ghost mid = ctx.keys@;
    match from_value_inner(second, heap, symbols, ctx, g) {
        Ok(b) => {
            proof {
                lemma_mirrors_keys(s, own(symbols@), mid, ctx.keys@, first, a);
            }
            Ok((a, b))
        },
        Err(why) => {
            proof {
                lemma_part_refuses(s, value, second, why@);
            }
            Err(why)
        },
    }
}

/// Send the traits of an object whose other data is no value.
fn send_only_traits(
    value: Value,
    traits: Value,
    tag: HeapTag,
    heap: &FiberHeap,
    symbols: &SymbolTable,
    ctx: &mut SerContext,
    g: Ghost<Ranks>,
) -> (r: Result<SendValue, String>)
    requires
        can_send(heap@, own(symbols@), g@, *old(ctx)),
        holds_part(heap@, g@, value),
        traits_travel(heap@, traits, tag) ==> is_part(heap@, heap@.object(value), traits),
    ensures
        final(ctx).ok(heap@, own(symbols@)),
        begins(old(ctx).keys@, final(ctx).keys@),
        walk_traits(heap@, g@, traits, tag, value_rank(heap@, g@, value), old(ctx).keys@) == trail(
            r,
            final(ctx).keys@,
        ),
        match r {
            Ok(t) => final(ctx).extends(*old(ctx)) && traits_mirror(
                heap@,
                own(symbols@),
                final(ctx).keys@,
                traits,
                tag,
                t,
            ),
            Err(why) => refuses(heap@, value, why@),
        },
    decreases
        old(ctx).unmet(heap@),
        value_rank(heap@, g@, value),
        3int,
        arbitrary::<ClosureTemplate>(),
{
    let ghost bound = value_rank(heap@, g@, value);
    match send_traits(traits, tag, heap, symbols, ctx, g, Ghost(bound)) {
        Ok(t) => Ok(t),
        Err(why) => {
            proof {
                lemma_part_refuses(heap@, value, traits, why@);
            }
            Err(why)
        },
    }
}

/// Refuse an object for what it is.
fn refuse(value: Value, why: &str, heap: &FiberHeap) -> (r: Result<SendValue, String>)
    requires
        heap@.resolves(value),
        object_refusal(heap@.object(value)) == Some(why@),
    ensures
        match r {
            Ok(_) => false,
            Err(m) => m@ == why@ && refuses(heap@, value, m@),
        },
{
    proof {
        lemma_object_refuses(heap@, value, why@);
    }
    Err(why.to_string())
}

/// Serialize one value; closures go into the context's table.
fn from_value_inner(
    value: Value,
    heap: &FiberHeap,
    symbols: &SymbolTable,
    ctx: &mut SerContext,
    g: Ghost<Ranks>,
) -> (r: Result<SendValue, String>)
    requires
        can_send(heap@, own(symbols@), g@, *old(ctx)),
        lives(heap@, g@, value),
    ensures
        final(ctx).ok(heap@, own(symbols@)),
        begins(old(ctx).keys@, final(ctx).keys@),
        walk(heap@, g@, value, old(ctx).keys@) == trail(
            r,
            final(ctx).keys@,
        ),
        match r {
            Ok(sv) => final(ctx).extends(*old(ctx)) && mirrors(
                heap@,
                own(symbols@),
                final(ctx).keys@,
                value,
                sv,
            ),
            Err(why) => refuses(heap@, value, why@),
        },
    decreases old(ctx).unmet(heap@), value_rank(heap@, g@, value), 4int, arbitrary::<ClosureTemplate>(),
{
    let ghost s = heap@;
    if let Some(name) = heap.keyword_spelling(value) {
        return Ok(SendValue::Keyword(name));
    }
    if let Some(id) = value.as_symbol() {
        if let Some(name) = symbols.name(SymbolId(id)) {
            return Ok(SendValue::Symbol { name: name.clone(), id });
        }
        return Ok(SendValue::Immediate(value));
    }
    if !value.is_heap() {
        return Ok(SendValue::Immediate(value));
    }
    let obj = match heap.deref(value) {
        Some(obj) => obj,
        None => {
            assert(false);
            return Ok(SendValue::Immediate(value));
        },
    };
    proof {
        let i = s.target(value)->0;
        assert(*obj == s.objects[i]);
        if !(*obj is Closure) {
            assert(holds_part(s, g@, value)) by {
                assert forall|p: Value| #[trigger] is_part(s, s.object(value), p) implies lives(s, g@, p)
                    && value_rank(s, g@, p) < value_rank(s, g@, value) by {
                    assert(is_part(s, s.objects[i], p));
                }
            }
        }
    }
    match obj {
        HeapObject::LString { s: text, .. } => Ok(SendValue::Str(text.clone())),
        HeapObject::Pair(p) => {
            match send_two(value, p.first, p.rest, heap, symbols, ctx, g) {
                Ok((a, b)) => {
                    let ghost mid = ctx.keys@;
                    match send_only_traits(value, p.traits, HeapTag::Pair, heap, symbols, ctx, g) {
                        Ok(t) => {
                            proof {
                                lemma_mirrors_keys(s, own(symbols@), mid, ctx.keys@, p.first, a);
                                lemma_mirrors_keys(s, own(symbols@), mid, ctx.keys@, p.rest, b);
                            }
                            Ok(SendValue::Pair(Box::new(a), Box::new(b), Box::new(t)))
                        },
                        Err(why) => Err(why),
                    }
                },
                Err(why) => Err(why),
            }
        },
        HeapObject::LArrayMut { data, traits } => {
            match send_items(value, data, *traits, HeapTag::LArrayMut, heap, symbols, ctx, g) {
                Ok((copied, t)) => Ok(SendValue::Array(copied, Box::new(t))),
                Err(why) => Err(why),
            }
        },
        HeapObject::LStruct { data, traits } => {
            let refusal = "Cannot send struct with identity keys";
            match send_struct(value, data, refusal, *traits, HeapTag::LStruct, heap, symbols, ctx, g) {
                Ok((entries, t)) => Ok(SendValue::Struct(entries, Box::new(t))),
                Err(why) => Err(why),
            }
        },
        HeapObject::LArray { elements, traits } => {
            match send_items(value, elements, *traits, HeapTag::LArray, heap, symbols, ctx, g) {
                Ok((copied, t)) => Ok(SendValue::Tuple(copied, Box::new(t))),
                Err(why) => Err(why),
            }
        },
        HeapObject::LStringMut { data, traits } => {
            match send_only_traits(value, *traits, HeapTag::LStringMut, heap, symbols, ctx, g) {
                Ok(t) => Ok(SendValue::Buffer(data.clone(), Box::new(t))),
                Err(why) => Err(why),
            }
        },
        HeapObject::LBox { cell, traits } => {
            match send_cell(value, *cell, *traits, HeapTag::LBox, heap, symbols, ctx, g) {
                Ok((c, t)) => Ok(SendValue::LBox(Box::new(c), Box::new(t))),
                Err(why) => Err(why),
            }
        },
        HeapObject::CaptureCell { cell, traits } => {
            match send_cell(value, *cell, *traits, HeapTag::CaptureCell, heap, symbols, ctx, g) {
                Ok((c, t)) => Ok(SendValue::CaptureCell(Box::new(c), Box::new(t))),
                Err(why) => Err(why),
            }
        },
        HeapObject::Float(f) => Ok(SendValue::Float(*f)),
        HeapObject::LStructMut { data, traits } => {
            let refusal = "Cannot send @struct with identity keys";
            match send_struct(value, data, refusal, *traits, HeapTag::LStructMut, heap, symbols, ctx, g) {
                Ok((entries, t)) => Ok(SendValue::StructMut(entries, Box::new(t))),
                Err(why) => Err(why),
            }
        },
        HeapObject::Closure { closure, .. } => send_closure(value, closure, heap, symbols, ctx, g),
        HeapObject::LibHandle(_) => refuse(value, "Cannot send library handle", heap),
        HeapObject::ThreadHandle { .. } => refuse(value, "Cannot send thread handle", heap),
        HeapObject::Fiber { .. } => refuse(value, "Cannot send fiber", heap),
        HeapObject::Syntax { syntax, .. } => Ok(SendValue::Syntax(Box::new(syntax.copy()))),
        HeapObject::FFISignature(_) => refuse(value, "Cannot send FFI signature", heap),
        HeapObject::ManagedPointer { .. } => refuse(value, "Cannot send managed pointer", heap),
        HeapObject::External { obj: inner, .. } => {
            match send_external(inner) {
                Ok(sv) => Ok(sv),
                Err(why) => {
                    proof {
                        lemma_object_refuses(s, value, why@);
                    }
                    Err(why)
                },
            }
        },
        HeapObject::Parameter { id, default, traits } => {
            match send_two(value, *default, *traits, heap, symbols, ctx, g) {
                Ok((d, t)) => Ok(
                    SendValue::Parameter { id: *id, default: Box::new(d), traits: Box::new(t) },
                ),
                Err(why) => Err(why),
            }
        },
        HeapObject::FFIType(desc) => Ok(SendValue::FFIType(desc.copy())),
        HeapObject::LBytes { data, traits } => {
            match send_only_traits(value, *traits, HeapTag::LBytes, heap, symbols, ctx, g) {
                Ok(t) => Ok(SendValue::Bytes(data.clone(), Box::new(t))),
                Err(why) => Err(why),
            }
        },
        HeapObject::LBytesMut { data, traits } => {
            match send_only_traits(value, *traits, HeapTag::LBytesMut, heap, symbols, ctx, g) {
                Ok(t) => Ok(SendValue::Blob(data.clone(), Box::new(t))),
                Err(why) => Err(why),
            }
        },
        HeapObject::LSet { data, traits } => {
            match send_items(value, data, *traits, HeapTag::LSet, heap, symbols, ctx, g) {
                Ok((copied, t)) => Ok(SendValue::LSet(copied, Box::new(t))),
                Err(why) => Err(why),
            }
        },
        HeapObject::LSetMut { data, traits } => {
            match send_items(value, data, *traits, HeapTag::LSetMut, heap, symbols, ctx, g) {
                Ok((copied, t)) => Ok(SendValue::LSetMut(copied, Box::new(t))),
                Err(why) => Err(why),
            }
        },
        HeapObject::ClosureTemplate(_) => refuse(value, "Cannot send a bare closure template", heap),
    }
}

/// Some instruction of a run loads entry `k` of a pool.
spec fn loaded(instrs: Seq<LirInstr>, k: int) -> bool {
    exists|n: int| 0 <= n < instrs.len() && is_load(#[trigger] instrs[n], k)
}

/// Convert one block of low-level code, lifting constants into the pool.
fn convert_block(
    block: &BasicBlock,
    pool: &mut Vec<SendValue>,
    heap: &FiberHeap,
    symbols: &SymbolTable,
    ctx: &mut SerContext,
    g: Ghost<Ranks>,
) -> (r: Result<BasicBlock, String>)
    requires
        can_send(heap@, own(symbols@), g@, *old(ctx)),
        forall|i: int, v: Value|
            0 <= i < block.instructions@.len() && #[trigger] is_constant(block.instructions@[i], v)
                ==> lives(heap@, g@, v),
    ensures
        final(ctx).ok(heap@, own(symbols@)),
        begins(old(ctx).keys@, final(ctx).keys@),
        walk_instrs(heap@, g@, block.instructions@, old(ctx).keys@) == trail(
            r,
            final(ctx).keys@,
        ),
        begins(old(pool)@, final(pool)@),
        match r {
            Ok(out) => final(ctx).extends(*old(ctx)) && (forall|k: int|
                old(pool)@.len() <= k < final(pool)@.len() ==> #[trigger] loads(seq![out], k))
                && block_mirrors(
                heap@,
                own(symbols@),
                final(ctx).keys@,
                final(pool)@,
                *block,
                out,
            ),
            Err(why) => exists|i: int, v: Value|
                0 <= i < block.instructions@.len() && #[trigger] is_constant(block.instructions@[i], v)
                    && refuses(heap@, v, why@),
        },
    decreases old(ctx).unmet(heap@), g@.top + 1, 2int, arbitrary::<ClosureTemplate>(),
{
    let ghost s = heap@;
    let mut out: Vec<LirInstr> = Vec::new();
    let mut i: usize = 0;
    assert(block.instructions@.skip(0) =~= block.instructions@);
    while i < block.instructions.len()
        invariant
            i <= block.instructions@.len(),
            out@.len() == i,
            s == heap@,
            can_send(s, own(symbols@), g@, *ctx),
            ctx.extends(*old(ctx)),
            walk_instrs(s, g@, block.instructions@, old(ctx).keys@) == walk_instrs(
                s,
                g@,
                block.instructions@.skip(i as int),
                ctx.keys@,
            ),
            begins(old(pool)@, pool@),
             forall|i: int, v: Value|
                0 <= i < block.instructions@.len() && #[trigger] is_constant(block.instructions@[i], v)
                    ==> lives(s, g@, v),
            forall|k: int| old(pool)@.len() <= k < pool@.len() ==> #[trigger] loaded(out@, k),
            forall|k: int|
                0 <= k < i ==> instr_mirrors(
                    s,
                    own(symbols@),
                    ctx.keys@,
                    pool@,
                    block.instructions@[k],
                    #[trigger] out@[k],
                ),
        decreases block.instructions.len() - i,
    {
        let ghost keys = ctx.keys@;
        assert(block.instructions@.skip(i as int)[0] == block.instructions@[i as int]);
        assert(block.instructions@.skip(i as int).skip(1) =~= block.instructions@.skip(i + 1));
        let ghost lifted = pool@;
        let ghost done = out@;
        let instr = match &block.instructions[i] {
            LirInstr::ValueConst { dst, value } => {
                assert(is_constant(block.instructions@[i as int], *value));
                if !value.is_heap() && !value.is_keyword() && !value.is_symbol() {
                    LirInstr::ValueConst { dst: *dst, value: *value }
                } else {
                    proof {
                        lemma_rank_bound(s, g@, *value);
                    }
                    match from_value_inner(*value, heap, symbols, ctx, g) {
                        Ok(SendValue::Ref(idx)) => LirInstr::Const {
                            dst: *dst,
                            value: LirConst::ClosureRef(idx),
                        },
                        Ok(sv) => {
                            let at: usize = pool.len();
                            pool.push(sv);
                            LirInstr::Const { dst: *dst, value: LirConst::ValueRef(at) }
                        },
                        Err(why) => {
                            return Err(why);
                        },
                    }
                }
            },
            LirInstr::Const { dst, value } => LirInstr::Const { dst: *dst, value: value.copy() },
            LirInstr::Other(n) => LirInstr::Other(*n),
        };
        out.push(instr);
        proof {
            assert forall|k: int| old(pool)@.len() <= k < pool@.len() implies #[trigger] loaded(
                out@,
                k,
            ) by {
                if k < lifted.len() {
                    assert(loaded(done, k));
                    let n = choose|n: int| 0 <= n < done.len() && is_load(#[trigger] done[n], k);
                    assert(is_load(out@[n], k));
                } else {
                    assert(is_load(out@[i as int], k));
                }
            }
            assert forall|k: int| 0 <= k < i + 1 implies instr_mirrors(
                s,
                own(symbols@),
                ctx.keys@,
                pool@,
                block.instructions@[k],
                #[trigger] out@[k],
            ) by {
                if k < i {
                    assert(out@[k] == done[k]);
                    lemma_instr_keys(
                        s,
                        own(symbols@),
                        keys,
                        ctx.keys@,
                        lifted,
                        pool@,
                        block.instructions@[k],
                        out@[k],
                    );
                }
            }
        }
        i = i + 1;
    }
    let converted = BasicBlock {
        label: block.label,
        instructions: out,
        terminator: block.terminator,
    };
    proof {
        assert forall|k: int| old(pool)@.len() <= k < pool@.len() implies #[trigger] loads(
            seq![converted],
            k,
        ) by {
            assert(loaded(out@, k));
            let n = choose|n: int| 0 <= n < out@.len() && is_load(#[trigger] out@[n], k);
            assert(is_load(seq![converted][0].instructions@[n], k));
        }
    }
    Ok(converted)
}

/// Every value ranks at most as high as the bound.
proof fn lemma_rank_bound(s: HeapState, g: Ranks, v: Value)
    requires
        ranked(s, g),
    ensures
        value_rank(s, g, v) <= g.top,
{
    if let Some(i) = s.target(v) {
        assert((g.rank)(i) < g.top);
    }
}

/// Convert low-level code: closure constants are named by their index, other
/// constants that mean nothing elsewhere are lifted into a pool, and the
/// documentation is dropped.
fn convert_lir_for_send(
    lir: &LirFunction,
    heap: &FiberHeap,
    symbols: &SymbolTable,
    ctx: &mut SerContext,
    g: Ghost<Ranks>,
) -> (r: Result<(LirFunction, Vec<SendValue>), String>)
    requires
        can_send(heap@, own(symbols@), g@, *old(ctx)),
        forall|v: Value| #[trigger] lir_holds(*lir, v) ==> lives(heap@, g@, v),
    ensures
        final(ctx).ok(heap@, own(symbols@)),
        begins(old(ctx).keys@, final(ctx).keys@),
        walk_blocks(heap@, g@, lir.blocks@, old(ctx).keys@) == trail(
            r,
            final(ctx).keys@,
        ),
        match r {
            Ok((out, pool)) => final(ctx).extends(*old(ctx)) && lir_mirrors(
                heap@,
                own(symbols@),
                final(ctx).keys@,
                pool@,
                *lir,
                out,
            ),
            Err(why) => exists|v: Value| #[trigger] lir_holds(*lir, v) && refuses(heap@, v, why@),
        },
    decreases old(ctx).unmet(heap@), g@.top + 1, 4int, arbitrary::<ClosureTemplate>(),
{
    let ghost s = heap@;
    let mut pool: Vec<SendValue> = Vec::new();
    let mut blocks: Vec<BasicBlock> = Vec::new();
    let mut b: usize = 0;
    assert(lir.blocks@.skip(0) =~= lir.blocks@);
    while b < lir.blocks.len()
        invariant
            b <= lir.blocks@.len(),
            blocks@.len() == b,
            s == heap@,
            can_send(s, own(symbols@), g@, *ctx),
            ctx.extends(*old(ctx)),
            walk_blocks(s, g@, lir.blocks@, old(ctx).keys@) == walk_blocks(
                s,
                g@,
                lir.blocks@.skip(b as int),
                ctx.keys@,
            ),
            forall|v: Value| #[trigger] lir_holds(*lir, v) ==> lives(s, g@, v),
            forall|k: int| 0 <= k < pool@.len() ==> #[trigger] loads(blocks@, k),
            forall|k: int|
                0 <= k < b ==> block_mirrors(
                    s,
                    own(symbols@),
                    ctx.keys@,
                    pool@,
                    lir.blocks@[k],
                    #[trigger] blocks@[k],
                ),
        decreases lir.blocks.len() - b,
    {
        let ghost keys = ctx.keys@;
        assert(lir.blocks@.skip(b as int)[0] == lir.blocks@[b as int]);
        assert(lir.blocks@.skip(b as int).skip(1) =~= lir.blocks@.skip(b + 1));
        let ghost lifted = pool@;
        let ghost done = blocks@;
        proof {
            assert forall|i: int, v: Value|
                0 <= i < lir.blocks@[b as int].instructions@.len() && #[trigger] is_constant(
                    lir.blocks@[b as int].instructions@[i],
                    v,
                ) implies lir_holds(*lir, v) by {}
        }
        match convert_block(&lir.blocks[b], &mut pool, heap, symbols, ctx, g) {
            Ok(block) => {
                blocks.push(block);
            },
            Err(why) => {
                proof {
                    let (i, v) = choose|i: int, v: Value|
                        0 <= i < lir.blocks@[b as int].instructions@.len() && #[trigger] is_constant(
                            lir.blocks@[b as int].instructions@[i],
                            v,
                        ) && refuses(s, v, why@);
                    assert(lir_holds(*lir, v));
                }
                return Err(why);
            },
        }
        proof {
            assert forall|k: int| 0 <= k < pool@.len() implies #[trigger] loads(blocks@, k) by {
                if k < lifted.len() {
                    assert(loads(done, k));
                    let (n, i) = choose|n: int, i: int|
                        0 <= n < done.len() && 0 <= i < done[n].instructions@.len() && is_load(
                            #[trigger] done[n].instructions@[i],
                            k,
                        );
                    assert(is_load(blocks@[n].instructions@[i], k));
                } else {
                    let last = seq![blocks@[b as int]];
                    assert(loads(last, k));
                    let (n, i) = choose|n: int, i: int|
                        0 <= n < last.len() && 0 <= i < last[n].instructions@.len() && is_load(
                            #[trigger] last[n].instructions@[i],
                            k,
                        );
                    assert(is_load(blocks@[b as int].instructions@[i], k));
                }
            }
            assert forall|k: int| 0 <= k < b + 1 implies block_mirrors(
                s,
                own(symbols@),
                ctx.keys@,
                pool@,
                lir.blocks@[k],
                #[trigger] blocks@[k],
            ) by {
                if k < b {
                    assert(blocks@[k] == done[k]);
                    lemma_block_keys(
                        s,
                        own(symbols@),
                        keys,
                        ctx.keys@,
                        lifted,
                        pool@,
                        lir.blocks@[k],
                        blocks@[k],
                    );
                }
            }
        }
        b = b + 1;
    }
    Ok((lir.with_blocks(blocks, None), pool))
}

/// Copy of a template with its nested ones, without an instance's captures.
fn sendable_from_template(
    t: &ClosureTemplate,
    heap: &FiberHeap,
    symbols: &SymbolTable,
    ctx: &mut SerContext,
    g: Ghost<Ranks>,
) -> (r: Result<SendableClosure, String>)
    requires
        can_send(heap@, own(symbols@), g@, *old(ctx)),
        forall|v: Value| #[trigger] template_holds(*t, v) ==> lives(heap@, g@, v),
    ensures
        final(ctx).ok(heap@, own(symbols@)),
        begins(old(ctx).keys@, final(ctx).keys@),
        walk_template(heap@, g@, *t, old(ctx).keys@) == trail(
            r,
            final(ctx).keys@,
        ),
        match r {
            Ok(sc) => final(ctx).extends(*old(ctx)) && template_mirrors(
                heap@,
                own(symbols@),
                final(ctx).keys@,
                *t,
                sc,
            ) && sc.squelch_mask.bits == 0 && sc.env@.len() == 0,
            Err(why) => exists|v: Value| #[trigger] template_holds(*t, v) && refuses(heap@, v, why@),
        },
    decreases old(ctx).unmet(heap@), g@.top + 2, 5int, *t,
{
    let ghost s = heap@;
    proof {
        assert forall|i: int| 0 <= i < t.constants@.len() implies lives(
            s,
            g@,
            #[trigger] t.constants@[i],
        ) && value_rank(s, g@, t.constants@[i]) < g@.top + 1 by {
            assert(template_holds(*t, t.constants@[i]));
            lemma_rank_bound(s, g@, t.constants@[i]);
        }
    }
    let mut sc = SendableClosure::plain(t, SignalBits::empty());
    let constants = match send_all(&t.constants, heap, symbols, ctx, g, Ghost(g@.top + 1)) {
        Ok(items) => items,
        Err(why) => {
            proof {
                let i = choose|i: int|
                    0 <= i < t.constants@.len() && refuses(s, #[trigger] t.constants@[i], why@);
                assert(template_holds(*t, t.constants@[i]));
            }
            return Err(why);
        },
    };
    let ghost k1 = ctx.keys@;
    let mut lir_function: Option<LirFunction> = None;
    let mut pool: Vec<SendValue> = Vec::new();
    if let Some(lir) = &t.lir_function {
        proof {
            assert forall|v: Value| #[trigger] lir_holds(*lir, v) implies lives(s, g@, v) by {
                assert(template_holds(*t, v));
            }
        }
        match convert_lir_for_send(lir, heap, symbols, ctx, g) {
            Ok((out, lifted)) => {
                lir_function = Some(out);
                pool = lifted;
            },
            Err(why) => {
                proof {
                    let v = choose|v: Value| #[trigger] lir_holds(*lir, v) && refuses(s, v, why@);
                    assert(template_holds(*t, v));
                }
                return Err(why);
            },
        }
    }
    let ghost k2 = ctx.keys@;
    let mut protos: Vec<SendableClosure> = Vec::new();
    let mut i: usize = 0;
    while i < t.child_protos.len()
        invariant
            i <= t.child_protos@.len(),
            protos@.len() == i,
            s == heap@,
            can_send(s, own(symbols@), g@, *ctx),
            ctx.extends(*old(ctx)),
            walk_template(s, g@, *t, old(ctx).keys@) == walk_nested(
                s,
                g@,
                *t,
                (t.child_protos@.len() - i) as nat,
                ctx.keys@,
            ),
            begins(k1, k2),
            begins(k2, ctx.keys@),
            forall|v: Value| #[trigger] template_holds(*t, v) ==> lives(s, g@, v),
            forall|k: int|
                0 <= k < i ==> template_mirrors(
                    s,
                    own(symbols@),
                    ctx.keys@,
                    *t.child_protos@[k],
                    #[trigger] protos@[k],
                ) && protos@[k].squelch_mask.bits == 0 && protos@[k].env@.len() == 0,
        decreases t.child_protos.len() - i,
    {
        let ghost keys = ctx.keys@;
        let ghost done = protos@;
        proof {
            assert forall|v: Value| #[trigger]
                template_holds(*t.child_protos@[i as int], v) implies template_holds(*t, v) by {}
        }
        match sendable_from_template(&t.child_protos[i], heap, symbols, ctx, g) {
            Ok(child) => {
                protos.push(child);
            },
            Err(why) => {
                return Err(why);
            },
        }
        proof {
            assert forall|k: int| 0 <= k < i + 1 implies template_mirrors(
                s,
                own(symbols@),
                ctx.keys@,
                *t.child_protos@[k],
                #[trigger] protos@[k],
            ) && protos@[k].squelch_mask.bits == 0 && protos@[k].env@.len() == 0 by {
                if k < i {
                    assert(protos@[k] == done[k]);
                    lemma_template_keys(s, own(symbols@), keys, ctx.keys@, *t.child_protos@[k], protos@[k]);
                }
            }
        }
        i = i + 1;
    }
    proof {
        lemma_all_keys(s, own(symbols@), k1, ctx.keys@, t.constants@, constants@);
        if t.lir_function is Some {
            lemma_lir_keys(s, own(symbols@), k2, ctx.keys@, pool@, t.lir_function->0, lir_function->0);
        }
    }
    sc.constants = constants;
    sc.lir_function = lir_function;
    sc.lir_value_pool = pool;
    sc.child_protos = protos;
    Ok(sc)
}

/// Serialize a closure into the context's table and name its entry. The entry
/// is reserved before its parts are sent, so that a reference back to the
/// closure names it too.
fn send_closure(
    value: Value,
    closure: &Closure,
    heap: &FiberHeap,
    symbols: &SymbolTable,
    ctx: &mut SerContext,
    g: Ghost<Ranks>,
) -> (r: Result<SendValue, String>)
    requires
        can_send(heap@, own(symbols@), g@, *old(ctx)),
        heap@.resolves(value),
        lives(heap@, g@, value),
        closure_at(heap@, value) == Some(*closure),
    ensures
        final(ctx).ok(heap@, own(symbols@)),
        begins(old(ctx).keys@, final(ctx).keys@),
        walk(heap@, g@, value, old(ctx).keys@) == trail(
            r,
            final(ctx).keys@,
        ),
        match r {
            Ok(sv) => final(ctx).extends(*old(ctx)) && sv is Ref && mirrors(
                heap@,
                own(symbols@),
                final(ctx).keys@,
                value,
                sv,
            ),
            Err(why) => refuses(heap@, value, why@),
        },
    decreases old(ctx).unmet(heap@), value_rank(heap@, g@, value), 2int, arbitrary::<ClosureTemplate>(),
{
    broadcast use vstd::std_specs::hash::group_hash_axioms;

    let ghost s = heap@;
    let ghost before = *ctx;
    let key = value.payload;
    if let Some(idx) = ctx.visited.get(&key) {
        return Ok(SendValue::Ref(*idx));
    }
    let idx: usize = ctx.closures.len();
    let placeholder = SendableClosure::plain(&closure.template, SignalBits::empty());
    ctx.closures.push(placeholder);
    ctx.visited.insert(key, idx);
    ctx.keys = Ghost(ctx.keys@.push(key));
    ctx.pending = Ghost(ctx.pending@.insert(idx as int));
    proof {
        assert(closure_value(key) == value);
        assert forall|i: int| 0 <= i < ctx.keys@.len() && !ctx.pending@.contains(i) implies closure_mirrors(
            s,
            own(symbols@),
            ctx.keys@,
            closure_at(s, closure_value(ctx.keys@[i]))->0,
            #[trigger] ctx.closures@[i],
        ) by {
            assert(before.closures@[i] == ctx.closures@[i]);
            lemma_closure_keys(
                s,
                own(symbols@),
                before.keys@,
                ctx.keys@,
                closure_at(s, closure_value(before.keys@[i]))->0,
                before.closures@[i],
            );
        }
        assert forall|i: int| 0 <= i < ctx.keys@.len() implies closure_at(
            s,
            closure_value(#[trigger] ctx.keys@[i]),
        ) is Some by {
            if i < before.keys@.len() {
                assert(ctx.keys@[i] == before.keys@[i]);
            }
        }
        lemma_unmet(s, ctx.keys@);
        assert(ctx.ok(s, own(symbols@)));
        let n = s.target(value)->0;
        assert forall|i: int| 0 <= i < closure.env@.len() implies lives(
            s,
            g@,
            #[trigger] closure.env@[i],
        ) && value_rank(s, g@, closure.env@[i]) < g@.top + 1 && is_part(
            s,
            s.object(value),
            closure.env@[i],
        ) by {
            assert(is_part(s, s.objects[n], closure.env@[i]));
            lemma_rank_bound(s, g@, closure.env@[i]);
        }
        assert forall|v: Value| #[trigger] template_holds(*closure.template, v) implies lives(s, g@, v)
            && is_part(s, s.object(value), v) by {
            assert(is_part(s, s.objects[n], v));
        }
    }
    let ghost reserved = *ctx;
    let env = match send_all(&closure.env, heap, symbols, ctx, g, Ghost(g@.top + 1)) {
        Ok(items) => items,
        Err(why) => {
            proof {
                lemma_any_refuses(s, value, closure.env@, why@);
            }
            return Err(why);
        },
    };
    let ghost mid = ctx.keys@;
    let mut sc = match sendable_from_template(&closure.template, heap, symbols, ctx, g) {
        Ok(sc) => sc,
        Err(why) => {
            proof {
                let v = choose|v: Value| #[trigger]
                    template_holds(*closure.template, v) && refuses(s, v, why@);
                lemma_part_refuses(s, value, v, why@);
            }
            return Err(why);
        },
    };
    proof {
        lemma_all_keys(s, own(symbols@), mid, ctx.keys@, closure.env@, env@);
    }
    let ghost bare = sc;
    sc.env = env;
    sc.squelch_mask = closure.squelch_mask;
    let ghost last = *ctx;
    ctx.closures.set(idx, sc);
    ctx.pending = Ghost(ctx.pending@.remove(idx as int));
    proof {
        assert(ctx.pending@ =~= before.pending@);
        assert(ctx.keys@[idx as int] == key);
        assert(closure_mirrors(s, own(symbols@), ctx.keys@, *closure, sc)) by {
            lemma_template_env(s, own(symbols@), ctx.keys@, closure.code(), bare, sc);
        }
        assert forall|i: int| 0 <= i < ctx.keys@.len() && !ctx.pending@.contains(i) implies closure_mirrors(
            s,
            own(symbols@),
            ctx.keys@,
            closure_at(s, closure_value(ctx.keys@[i]))->0,
            #[trigger] ctx.closures@[i],
        ) by {
            if i != idx {
                assert(last.closures@[i] == ctx.closures@[i]);
            }
        }
        assert forall|i: int| 0 <= i < before.closures@.len() implies #[trigger] ctx.closures@[i]
            == before.closures@[i] by {
            assert(reserved.closures@[i] == before.closures@[i]);
            assert(last.closures@[i] == reserved.closures@[i]);
        }
        assert forall|i: int| 0 <= i < before.keys@.len() implies #[trigger] ctx.keys@[i]
            == before.keys@[i] by {
            assert(reserved.keys@[i] == before.keys@[i]);
        }
    }
    Ok(SendValue::Ref(idx))
}

/// The captures and the boundary are no part of the template.
proof fn lemma_template_env(
    s: HeapState,
    names: Names,
    keys: Seq<u64>,
    t: ClosureTemplate,
    a: SendableClosure,
    b: SendableClosure,
)
    requires
        template_mirrors(s, names, keys, t, a),
        b == (SendableClosure { env: b.env, squelch_mask: b.squelch_mask, ..a }),
    ensures
        template_mirrors(s, names, keys, t, b),
{
}

impl SendBundle {
    /// A value of one heap, with the closures it reaches, in a form that can be
    /// rebuilt on another. What cannot leave its heap is refused, wherever it is
    /// reached from the value. References may form a cycle only through a
    /// closure.
    pub fn from_value(value: Value, heap: &FiberHeap, symbols: &SymbolTable) -> (r: Result<
        SendBundle,
        String,
    >)
        requires
            heap@.valid(),
            linked(heap@, value),
            cycles_through_closures(heap@, value),
        ensures
            match r {
                Ok(b) => {
                    &&& first_refusal(heap@, value) is None
                    &&& sent_as(heap@, own(symbols@), value, b, closures_met(heap@, value))
                    &&& sent(heap@, own(symbols@), value, b)
                    &&& settled(heap@, closures_met(heap@, value)) ==> b.well_formed()
                },
                Err(why) => first_refusal(heap@, value) == Some(why@) && refuses(heap@, value, why@),
            },
    {
        let ghost g = ranks(heap@, value);
        proof {
            lemma_reach_ranked(heap@, value);
        }
        let mut ctx = SerContext {
            visited: HashMap::new(),
            closures: Vec::new(),
            keys: Ghost(Seq::empty()),
            pending: Ghost(Set::empty()),
        };
        match from_value_inner(value, heap, symbols, &mut ctx, Ghost(g)) {
            Ok(root) => {
                let ghost keys = ctx.keys@;
                let b = SendBundle { root, closures: ctx.closures };
                proof {
                    assert(sent_as(heap@, own(symbols@), value, b, keys));
                    if settled(heap@, keys) {
                        lemma_mirrors_fit(heap@, own(symbols@), keys, value, b.root);
                        assert forall|i: int| 0 <= i < b.closures@.len() implies closure_fits(
                            #[trigger] b.closures@[i],
                            b.closures@.len(),
                        ) by {
                            let c = closure_at(heap@, closure_value(keys[i]))->0;
                            lemma_template_fits(heap@, own(symbols@), keys, c.code(), b.closures@[i], c.env@);
                        }
                    }
                }
                Ok(b)
            },
            Err(why) => Err(why),
        }
    }
}

} // verus!
