//! The order in which a value is walked when it is sent.
//!
//! A closure is met once: its address is noted before its parts are walked, and a
//! further reference to it is not followed. The walk ends at the first thing that
//! cannot be sent, with one exception: the traits of an array or a set are walked
//! even where an element was refused, and it is then the traits' own refusal, if
//! they have one, that counts.

use vstd::prelude::*;

use crate::heap::HeapState;
use crate::lir::{BasicBlock, LirInstr};
use crate::object::{ClosureTemplate, HeapObject, HeapTag, TableKey};
use crate::sendmirror::{lives, object_refusal, ranked, traits_travel, value_rank, Ranks};
use crate::value::{Value, TAG_HEAP_START};

verus! {

/// Where a walk has come to.
#[verifier::ext_equal]
pub struct Trail {
    /// What ended it.
    pub why: Option<Seq<char>>,
    /// The closures met, by their addresses.
    pub met: Seq<u64>,
}

/// A walk that goes on.
pub open spec fn onward(met: Seq<u64>) -> Trail {
    Trail { why: None, met }
}

/// The closures met grow in number, up to that of the objects. Every step of a walk
/// keeps to this.
pub open spec fn grows(s: HeapState, before: Seq<u64>, after: Seq<u64>) -> bool {
    before.len() <= after.len() <= s.objects.len()
}

/// Walk what `v` refers to.
pub open spec fn walk(s: HeapState, g: Ranks, v: Value, met: Seq<u64>) -> Trail
    decreases s.objects.len() - met.len(), value_rank(s, g, v), 4int, arbitrary::<ClosureTemplate>(), 0int,
{
    let bound = value_rank(s, g, v);
    if v.tag < TAG_HEAP_START || s.target(v) is None {
        onward(met)
    } else {
        match s.object(v) {
            HeapObject::Pair(p) => walk_with_traits(
                s,
                g,
                seq![p.first, p.rest],
                p.traits,
                HeapTag::Pair,
                bound,
                met,
            ),
            HeapObject::LArrayMut { data, traits } => walk_items(
                s,
                g,
                data@,
                traits,
                HeapTag::LArrayMut,
                bound,
                met,
            ),
            HeapObject::LArray { elements, traits } => walk_items(
                s,
                g,
                elements@,
                traits,
                HeapTag::LArray,
                bound,
                met,
            ),
            HeapObject::LSet { data, traits } => walk_items(
                s,
                g,
                data@,
                traits,
                HeapTag::LSet,
                bound,
                met,
            ),
            HeapObject::LSetMut { data, traits } => walk_items(
                s,
                g,
                data@,
                traits,
                HeapTag::LSetMut,
                bound,
                met,
            ),
            HeapObject::LStruct { data, traits } => {
                let refusal = "Cannot send struct with identity keys"@;
                walk_struct(s, g, data@, refusal, traits, HeapTag::LStruct, bound, met)
            },
            HeapObject::LStructMut { data, traits } => {
                let refusal = "Cannot send @struct with identity keys"@;
                walk_struct(s, g, data@, refusal, traits, HeapTag::LStructMut, bound, met)
            },
            HeapObject::LStringMut { traits, .. } => walk_traits(
                s,
                g,
                traits,
                HeapTag::LStringMut,
                bound,
                met,
            ),
            HeapObject::LBytes { traits, .. } => walk_traits(s, g, traits, HeapTag::LBytes, bound, met),
            HeapObject::LBytesMut { traits, .. } => walk_traits(
                s,
                g,
                traits,
                HeapTag::LBytesMut,
                bound,
                met,
            ),
            HeapObject::LBox { cell, traits } => walk_with_traits(
                s,
                g,
                seq![cell],
                traits,
                HeapTag::LBox,
                bound,
                met,
            ),
            HeapObject::CaptureCell { cell, traits } => walk_with_traits(
                s,
                g,
                seq![cell],
                traits,
                HeapTag::CaptureCell,
                bound,
                met,
            ),
            HeapObject::Parameter { default, traits, .. } => walk_all(
                s,
                g,
                seq![default, traits],
                bound,
                met,
            ),
            HeapObject::Closure { closure, .. } => if met.contains(v.payload) || met.len()
                >= s.objects.len() {
                onward(met)
            } else {
                let here = met.push(v.payload);
                let a = walk_all(s, g, closure.env@, g.top + 1, here);
                if a.why is None && grows(s, here, a.met) {
                    walk_template(s, g, *closure.template, a.met)
                } else {
                    a
                }
            },
            obj => Trail { why: object_refusal(obj), met },
        }
    }
}

/// Walk some values in order. They rank below `bound`.
pub open spec fn walk_all(s: HeapState, g: Ranks, values: Seq<Value>, bound: nat, met: Seq<u64>) -> Trail
    decreases s.objects.len() - met.len(), bound, 1int, arbitrary::<ClosureTemplate>(), values.len(),
{
    if values.len() == 0 || value_rank(s, g, values[0]) >= bound {
        onward(met)
    } else {
        let a = walk(s, g, values[0], met);
        if a.why is None && grows(s, met, a.met) {
            walk_all(s, g, values.skip(1), bound, a.met)
        } else {
            a
        }
    }
}

/// Walk entries in order; a key by identity ends it.
pub open spec fn walk_entries(
    s: HeapState,
    g: Ranks,
    data: Seq<(TableKey, Value)>,
    refusal: Seq<char>,
    bound: nat,
    met: Seq<u64>,
) -> Trail
    decreases s.objects.len() - met.len(), bound, 1int, arbitrary::<ClosureTemplate>(), data.len(),
{
    if data.len() == 0 {
        onward(met)
    } else if data[0].0 is Identity {
        Trail { why: Some(refusal), met }
    } else if value_rank(s, g, data[0].1) >= bound {
        onward(met)
    } else {
        let a = walk(s, g, data[0].1, met);
        if a.why is None && grows(s, met, a.met) {
            walk_entries(s, g, data.skip(1), refusal, bound, a.met)
        } else {
            a
        }
    }
}

/// Walk traits that travel.
pub open spec fn walk_traits(
    s: HeapState,
    g: Ranks,
    traits: Value,
    tag: HeapTag,
    bound: nat,
    met: Seq<u64>,
) -> Trail
    decreases s.objects.len() - met.len(), bound, 2int, arbitrary::<ClosureTemplate>(), 0int,
{
    if traits_travel(s, traits, tag) && value_rank(s, g, traits) < bound {
        walk(s, g, traits, met)
    } else {
        onward(met)
    }
}

/// Walk some values, and then traits.
pub open spec fn walk_with_traits(
    s: HeapState,
    g: Ranks,
    values: Seq<Value>,
    traits: Value,
    tag: HeapTag,
    bound: nat,
    met: Seq<u64>,
) -> Trail
    decreases s.objects.len() - met.len(), bound, 3int, arbitrary::<ClosureTemplate>(), 0int,
{
    let a = walk_all(s, g, values, bound, met);
    if a.why is None && grows(s, met, a.met) {
        walk_traits(s, g, traits, tag, bound, a.met)
    } else {
        a
    }
}

/// Walk entries, and then traits.
pub open spec fn walk_struct(
    s: HeapState,
    g: Ranks,
    data: Seq<(TableKey, Value)>,
    refusal: Seq<char>,
    traits: Value,
    tag: HeapTag,
    bound: nat,
    met: Seq<u64>,
) -> Trail
    decreases s.objects.len() - met.len(), bound, 3int, arbitrary::<ClosureTemplate>(), 0int,
{
    let a = walk_entries(s, g, data, refusal, bound, met);
    if a.why is None && grows(s, met, a.met) {
        walk_traits(s, g, traits, tag, bound, a.met)
    } else {
        a
    }
}

/// Walk elements, and then traits, whose refusal goes before that of an element.
pub open spec fn walk_items(
    s: HeapState,
    g: Ranks,
    items: Seq<Value>,
    traits: Value,
    tag: HeapTag,
    bound: nat,
    met: Seq<u64>,
) -> Trail
    decreases s.objects.len() - met.len(), bound, 3int, arbitrary::<ClosureTemplate>(), 0int,
{
    let a = walk_all(s, g, items, bound, met);
    if grows(s, met, a.met) {
        let b = walk_traits(s, g, traits, tag, bound, a.met);
        if b.why is None {
            Trail { why: a.why, met: b.met }
        } else {
            b
        }
    } else {
        a
    }
}

/// Walk the constants of some instructions.
pub open spec fn walk_instrs(s: HeapState, g: Ranks, instrs: Seq<LirInstr>, met: Seq<u64>) -> Trail
    decreases
        s.objects.len() - met.len(),
        g.top + 1,
        2int,
        arbitrary::<ClosureTemplate>(),
        instrs.len(),
{
    if instrs.len() == 0 {
        onward(met)
    } else {
        let a = match instrs[0] {
            LirInstr::ValueConst { value, .. } => if value_rank(s, g, value) <= g.top {
                walk(s, g, value, met)
            } else {
                onward(met)
            },
            _ => onward(met),
        };
        if a.why is None && grows(s, met, a.met) {
            walk_instrs(s, g, instrs.skip(1), a.met)
        } else {
            a
        }
    }
}

/// Walk the constants of some blocks.
pub open spec fn walk_blocks(s: HeapState, g: Ranks, blocks: Seq<BasicBlock>, met: Seq<u64>) -> Trail
    decreases
        s.objects.len() - met.len(),
        g.top + 1,
        4int,
        arbitrary::<ClosureTemplate>(),
        blocks.len(),
{
    if blocks.len() == 0 {
        onward(met)
    } else {
        let a = walk_instrs(s, g, blocks[0].instructions@, met);
        if a.why is None && grows(s, met, a.met) {
            walk_blocks(s, g, blocks.skip(1), a.met)
        } else {
            a
        }
    }
}

/// Walk a template: its constants, its code, its nested ones.
pub open spec fn walk_template(s: HeapState, g: Ranks, t: ClosureTemplate, met: Seq<u64>) -> Trail
    decreases
        s.objects.len() - met.len(),
        g.top + 2,
        5int,
        t,
        t.child_protos@.len() + 1,
{
    let a = walk_all(s, g, t.constants@, g.top + 1, met);
    if a.why is None && grows(s, met, a.met) {
        let b = if t.lir_function is Some {
            walk_blocks(s, g, t.lir_function->0.blocks@, a.met)
        } else {
            a
        };
        if b.why is None && grows(s, met, b.met) {
            walk_nested(s, g, t, t.child_protos@.len(), b.met)
        } else {
            b
        }
    } else {
        a
    }
}

/// Walk the last `left` of the nested templates.
pub open spec fn walk_nested(s: HeapState, g: Ranks, t: ClosureTemplate, left: nat, met: Seq<u64>) -> Trail
    decreases s.objects.len() - met.len(), g.top + 2, 5int, t, left,
{
    if left == 0 || left > t.child_protos@.len() {
        onward(met)
    } else {
        let a = walk_template(s, g, *t.child_protos@[t.child_protos@.len() - left], met);
        if a.why is None && grows(s, met, a.met) {
            walk_nested(s, g, t, (left - 1) as nat, a.met)
        } else {
            a
        }
    }
}

/// Ranks of the objects that `v` reaches.
pub open spec fn ranks(s: HeapState, v: Value) -> Ranks {
    choose|g: Ranks| #[trigger] ranked(s, g) && lives(s, g, v)
}

/// What sending `v` is refused for: the first refusal on the walk.
pub open spec fn first_refusal(s: HeapState, v: Value) -> Option<Seq<char>> {
    walk(s, ranks(s, v), v, Seq::empty()).why
}

/// The closures that `v` refers to, by their addresses, in the order in which they
/// are met.
pub open spec fn closures_met(s: HeapState, v: Value) -> Seq<u64> {
    walk(s, ranks(s, v), v, Seq::empty()).met
}

} // verus!
