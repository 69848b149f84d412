//! Names and what they lead to: symbols, mounted paths, primitives and their
//! documentation, captured slots and materialized constants.

use vstd::prelude::*;
use vstd::utf8::encode_utf8;

use crate::bits::bit;
use crate::capturemask::CaptureMask;
use crate::def::{Doc, PrimitiveDef, PrimitiveMeta};
use crate::fibers::keyword_text;
use crate::heap::HeapState;
use crate::lir::{block_symbols, symbols_of, untranslatable_lir_symbols, BasicBlock, LirConst, LirFunction, LirInstr};
use crate::materialize::shows;
use crate::object::HeapObject;
use crate::params::flatten_param_frames;
use crate::prim::string_at;
use crate::registration::{
    answer, def_by_name, prim_def, primitive_numbered, primitives_registered, DocTable, PrimRegistry,
};
use crate::registry::{names_in, SignalRegistry};
use crate::signalbits::SignalBits;
use crate::symbol::{SymbolId, SymbolTable};
use crate::template::Tree;
use crate::text::texts;
use crate::value::{Value, TAG_ARRAY, TAG_ARRAY_MUT, TAG_CONS, TAG_SYMBOL};
use crate::vfs::{is_mounted, mounted_count, path_mounted, read, Mounts};

verus! {

/// A symbol that is looked up by its name has that name, and each name has one symbol.
pub proof fn lemma_symbol_and_name_agree(
    table: SymbolTable,
    name: String,
    found: Option<SymbolId>,
    spelled: Option<&String>,
    id: SymbolId,
    shown: Option<&String>,
)
    requires
        call_ensures(SymbolTable::lookup, (&table, &name), found),
        found matches Some(s) ==> call_ensures(SymbolTable::name, (&table, s), spelled),
        call_ensures(SymbolTable::name, (&table, id), shown),
    ensures
        found is Some ==> spelled is Some && spelled->0@ == name@,
        shown matches Some(n) ==> (n@ == name@ ==> found is Some),
{
    if found is Some {
        assert(table@[table@.index_of(name@)] == name@);
    }
    if let Some(n) = shown {
        assert(table@[id.0 as int] == n@);
    }
}

/// A path that is mounted reads as what was mounted there last, and no other path reads
/// otherwise than before.
pub proof fn lemma_mounted_path_reads_back(
    store: Mounts,
    after: Mounts,
    path: String,
    contents: String,
    there: bool,
    got: Option<String>,
    other: String,
    had: Option<String>,
    has: Option<String>,
    n: usize,
    m: usize,
)
    requires
        path_mounted(store, after, path, contents),
        call_ensures(is_mounted, (&after, &path), there),
        call_ensures(read, (&after, &path), got),
        other@ != path@,
        call_ensures(read, (&store, &other), had),
        call_ensures(read, (&after, &other), has),
        call_ensures(mounted_count, (&store,), n),
        call_ensures(mounted_count, (&after,), m),
    ensures
        there,
        got is Some && got->0@ == contents@,
        had is Some == has is Some,
        had is Some ==> had->0@ == has->0@,
        store@.contains_key(path@) ==> m == n,
        !store@.contains_key(path@) ==> m == n + 1,
{
    if store@.contains_key(path@) {
        assert(after@.dom() =~= store@.dom());
    }
}

/// The definition answers to the name.
pub open spec fn goes_by(d: PrimitiveDef, name: Seq<char>) -> bool {
    d.name@ == name || exists|k: int| 0 <= k < d.aliases@.len() && (#[trigger] d.aliases@[k])@ == name
}

proof fn lemma_goes_by(d: PrimitiveDef, name: Seq<char>)
    ensures
        d.answers(name) == goes_by(d, name),
{
    let names = d.names();
    assert(names[0] == d.name@);
    assert forall|k: int| 0 <= k < d.aliases@.len() implies names[k + 1] == (#[trigger] d.aliases@[k])@ by {}
    if names.contains(name) {
        let j = names.index_of(name);
        if j > 0 {
            assert(d.aliases@[j - 1]@ == name);
        }
    }
    if goes_by(d, name) && d.name@ != name {
        let k = choose|k: int| 0 <= k < d.aliases@.len() && (#[trigger] d.aliases@[k])@ == name;
        assert(names[k + 1] == name);
    }
}

proof fn lemma_answer(defs: Seq<PrimitiveDef>, name: Seq<char>, i: int)
    requires
        0 <= i < defs.len(),
        goes_by(defs[i], name),
        forall|j: int| i < j < defs.len() ==> !goes_by(#[trigger] defs[j], name),
    ensures
        answer(defs, name) == Some(i),
    decreases defs.len(),
{
    lemma_goes_by(defs.last(), name);
    if i < defs.len() - 1 {
        assert(!goes_by(defs[defs.len() - 1], name));
        let rest = defs.drop_last();
        assert forall|j: int| i < j < rest.len() implies !goes_by(#[trigger] rest[j], name) by {
            assert(!goes_by(defs[j], name));
        }
        lemma_answer(rest, name, i);
    }
}

proof fn lemma_no_answer(defs: Seq<PrimitiveDef>, name: Seq<char>)
    requires
        forall|j: int| 0 <= j < defs.len() ==> !goes_by(#[trigger] defs[j], name),
    ensures
        answer(defs, name) is None,
    decreases defs.len(),
{
    if defs.len() > 0 {
        lemma_goes_by(defs.last(), name);
        assert(!goes_by(defs[defs.len() - 1], name));
        let rest = defs.drop_last();
        assert forall|j: int| 0 <= j < rest.len() implies !goes_by(#[trigger] rest[j], name) by {
            assert(!goes_by(defs[j], name));
        }
        lemma_no_answer(rest, name);
    }
}

/// A primitive is found by its name and by each of its aliases, the last definition that
/// goes by the name; a name that none goes by finds nothing.
pub proof fn lemma_primitive_is_found_by_its_names(
    defs: Vec<PrimitiveDef>,
    name: String,
    i: int,
    r: Option<&PrimitiveDef>,
)
    requires
        call_ensures(def_by_name, (&defs, &name), r),
    ensures
        0 <= i < defs@.len() && goes_by(defs@[i], name@) && (forall|j: int|
            i < j < defs@.len() ==> !goes_by(#[trigger] defs@[j], name@)) ==> r is Some && *(r->0) == defs@[i],
        (forall|j: int| 0 <= j < defs@.len() ==> !goes_by(#[trigger] defs@[j], name@)) ==> r is None,
{
    if 0 <= i < defs@.len() && goes_by(defs@[i], name@) && (forall|j: int|
        i < j < defs@.len() ==> !goes_by(#[trigger] defs@[j], name@)) {
        lemma_answer(defs@, name@, i);
    }
    if forall|j: int| 0 <= j < defs@.len() ==> !goes_by(#[trigger] defs@[j], name@) {
        lemma_no_answer(defs@, name@);
    }
}

/// A primitive that was registered is known by every name it goes by: the symbol of that
/// name has its signal, its arity and its number, and the name its documentation. What was
/// documented before under other names stays.
pub proof fn lemma_registered_primitive_is_known(
    docs: DocTable,
    after: DocTable,
    symbols: SymbolTable,
    symbols_after: SymbolTable,
    defs: Vec<PrimitiveDef>,
    meta: PrimitiveMeta,
    i: int,
    id: u32,
)
    requires
        primitives_registered(docs, after, symbols, symbols_after, defs, meta),
        defs@.len() <= u32::MAX,
        id < symbols_after@.len(),
    ensures
        0 <= i < defs@.len() && goes_by(defs@[i], symbols_after@[id as int]) && (forall|j: int|
            i < j < defs@.len() ==> !goes_by(#[trigger] defs@[j], symbols_after@[id as int])) ==> {
            &&& meta.signals@.contains_key(id) && meta.signals@[id] == defs@[i].signal
            &&& meta.arities@.contains_key(id) && meta.arities@[id] == defs@[i].arity
            &&& meta.functions@.contains_key(id) && meta.functions@[id] == Value::native_fn(i as u32)
            &&& meta.ret_types@.contains_key(id) && meta.ret_types@[id] == defs@[i].ret
            &&& meta.moves_out@.contains_key(id) && meta.moves_out@[id] == defs@[i].moves_out
            &&& after.doc_of(symbols_after@[id as int]) matches Some(d) && d.doc == defs@[i].doc && d.name
                == defs@[i].name && d.arity == defs@[i].arity && d.params@ == defs@[i].params@ && d.example
                == defs@[i].example && d.category == defs@[i].category
        },
        (forall|j: int| 0 <= j < defs@.len() ==> !goes_by(#[trigger] defs@[j], symbols_after@[id as int])) ==> {
            &&& !meta.signals@.contains_key(id)
            &&& !meta.functions@.contains_key(id)
            &&& after.doc_of(symbols_after@[id as int]) == docs.doc_of(symbols_after@[id as int])
        },
{
    let name = symbols_after@[id as int];
    assert(crate::registration::entry_right(meta, symbols_after@, defs@, id));
    assert(crate::registration::doc_right(after, docs, defs@, name));
    if 0 <= i < defs@.len() && goes_by(defs@[i], name) && (forall|j: int|
        i < j < defs@.len() ==> !goes_by(#[trigger] defs@[j], name)) {
        lemma_answer(defs@, name, i);
    }
    if forall|j: int| 0 <= j < defs@.len() ==> !goes_by(#[trigger] defs@[j], name) {
        lemma_no_answer(defs@, name);
    }
}

/// A primitive keeps the number it was first given, and is found under it; no number is
/// given twice.
pub proof fn lemma_primitive_keeps_its_number(
    reg: PrimRegistry,
    once: PrimRegistry,
    twice: PrimRegistry,
    key: u64,
    other: u64,
    def: PrimitiveDef,
    a: u32,
    b: u32,
    c: u32,
    more: PrimRegistry,
    found: Option<&PrimitiveDef>,
)
    requires
        reg.keys().len() == reg.defs().len(),
        primitive_numbered(reg, once, key, def, a),
        primitive_numbered(once, twice, key, def, b),
        primitive_numbered(once, more, other, def, c),
        other != key,
        call_ensures(prim_def, (&once, a), found),
    ensures
        b == a,
        c != a,
        found is Some,
        !reg.keys().contains(key) ==> (found->0).same(def),
{
    assert(once.keys().contains(key)) by {
        assert(once.keys()[a as int] == key);
    }
    assert(more.keys()[c as int] == other);
    if once.keys().contains(other) {
        assert(more == once);
    } else {
        assert(more.keys() == once.keys().push(other));
        assert(more.keys()[a as int] == key);
    }
}

/// The names of a set of signals are those whose bit is in it, and no others.
pub proof fn lemma_signals_are_named_by_their_bits(
    registry: SignalRegistry,
    bits: SignalBits,
    r: Vec<String>,
    i: int,
    name: Seq<char>,
)
    requires
        call_ensures(SignalRegistry::names, (&registry, bits), r),
    ensures
        0 <= i < registry.entries@.len() && registry.entries@[i].0 < 64 && bits.has(registry.entries@[i].0 as int)
            ==> texts(r@).contains(registry.entries@[i].1@),
        (forall|j: int|
            0 <= j < registry.entries@.len() && (#[trigger] registry.entries@[j]).1@ == name ==> !(
            registry.entries@[j].0 < 64 && bits.has(registry.entries@[j].0 as int))) ==> !texts(r@).contains(name),
{
    let entries = registry.entries@;
    if 0 <= i < entries.len() && entries[i].0 < 64 && bits.has(entries[i].0 as int) {
        lemma_name_in(entries, bits, i);
    }
    if forall|j: int|
        0 <= j < entries.len() && (#[trigger] entries[j]).1@ == name ==> !(entries[j].0 < 64 && bits.has(
            entries[j].0 as int,
        )) {
        lemma_name_not_in(entries, bits, name);
    }
}

proof fn lemma_name_in(entries: Seq<(u32, String)>, bits: SignalBits, i: int)
    requires
        0 <= i < entries.len(),
        entries[i].0 < 64,
        bits.has(entries[i].0 as int),
    ensures
        names_in(entries, bits).contains(entries[i].1@),
    decreases entries.len(),
{
    let all = names_in(entries, bits);
    let rest = names_in(entries.drop_last(), bits);
    if i == entries.len() - 1 {
        assert(all[all.len() - 1] == entries[i].1@);
    } else {
        lemma_name_in(entries.drop_last(), bits, i);
        let k = rest.index_of(entries[i].1@);
        assert(all[k] == entries[i].1@);
    }
}

proof fn lemma_name_not_in(entries: Seq<(u32, String)>, bits: SignalBits, name: Seq<char>)
    requires
        forall|j: int|
            0 <= j < entries.len() && (#[trigger] entries[j]).1@ == name ==> !(entries[j].0 < 64 && bits.has(
                entries[j].0 as int,
            )),
    ensures
        !names_in(entries, bits).contains(name),
    decreases entries.len(),
{
    if entries.len() > 0 {
        let all = names_in(entries, bits);
        let before = entries.drop_last();
        let rest = names_in(before, bits);
        assert forall|j: int| 0 <= j < before.len() && (#[trigger] before[j]).1@ == name implies !(before[j].0 < 64
            && bits.has(before[j].0 as int)) by {
            assert(entries[j] == before[j]);
        }
        lemma_name_not_in(before, bits, name);
        assert(entries[entries.len() - 1] == entries.last());
        if all.contains(name) {
            let k = all.index_of(name);
            if k < rest.len() {
                assert(rest[k] == name);
            }
        }
    }
}

/// A mask of captured slots keeps what it is made of: of a word its bits, which are its
/// low word again, and of its words itself.
pub proof fn lemma_capture_mask_round_trips(
    bits: u64,
    mask: CaptureMask,
    low: u64,
    i: usize,
    on: bool,
    any: CaptureMask,
    words: Vec<u64>,
    again: CaptureMask,
    a: bool,
    b: bool,
)
    requires
        call_ensures(CaptureMask::from_u64, (bits,), mask),
        call_ensures(CaptureMask::low_u64, (&mask,), low),
        call_ensures(CaptureMask::is_set, (&mask, i), on),
        call_ensures(CaptureMask::words, (&any,), &words),
        call_ensures(CaptureMask::from_words, (words,), again),
        call_ensures(CaptureMask::is_set, (&any, i), a),
        call_ensures(CaptureMask::is_set, (&again, i), b),
    ensures
        low == bits,
        on <==> bit(bits, i as int),
        a == b,
{
    assert forall|j: int| 0 <= j < 64 implies bit(low, j) == bit(bits, j) by {
        assert(mask.has(j) == bit(bits, j));
    }
    crate::bits::lemma_bits_extensional(low, bits);
}

/// Frames that are flattened bind each parameter once, to what the innermost frame that
/// has it binds it to.
pub proof fn lemma_flattened_frames_bind_the_innermost(
    frames: Vec<Vec<(u32, Value)>>,
    r: Vec<(u32, Value)>,
    id: u32,
    k: int,
    i: int,
)
    requires
        call_ensures(flatten_param_frames, (&frames,), r),
    ensures
        crate::laws::calling::innermost(frames@, id, k, i) ==> r@.contains((id, frames@[k]@[i].1)),
        crate::laws::calling::unbound(frames@, id) ==> (forall|j: int|
            0 <= j < r@.len() ==> (#[trigger] r@[j]).0 != id),
        forall|a: int, b: int| 0 <= a < b < r@.len() ==> r@[a].0 != r@[b].0,
{
    assert(crate::params::bound_in(r@, id) == crate::params::bound(frames@, id));
    crate::laws::calling::lemma_bound_in_is_there(r@, id);
    if crate::laws::calling::innermost(frames@, id, k, i) {
        crate::laws::calling::lemma_innermost_decides(frames@, id, k, i);
    }
    if crate::laws::calling::unbound(frames@, id) {
        crate::laws::calling::lemma_unbound_is_nothing(frames@, id);
    }
}

/// The value reads as the constant: the same word, a name of the same spelling, or an
/// object with the same text or with parts that read as the constant's, in order.
pub open spec fn reads_as_constant(s: HeapState, symbols: Seq<Seq<char>>, v: Value, t: Tree) -> bool
    decreases t,
{
    match t {
        Tree::Nil => v == Value::nil(),
        Tree::EmptyList => v == Value::empty_list(),
        Tree::Bool(b) => v == Value::bool(b),
        Tree::Int(n) => v == Value::integer(n),
        Tree::Float(f) => v == Value::float_bits(f),
        Tree::Symbol(name) => v.tag == TAG_SYMBOL && v.payload < symbols.len() && symbols[v.payload as int] == name,
        Tree::Keyword(name) => s.keywords.len() <= u32::MAX ==> keyword_text(s.keywords, v) == Some(name),
        Tree::Str(text) => string_at(s, v) == Some(text),
        Tree::StrMut(text) => s.target(v) is Some && (s.object(v) matches HeapObject::LStringMut { data, .. } && data@
            == encode_utf8(text)),
        Tree::Pair(a, b) => v.tag == TAG_CONS && s.target(v) is Some && (s.object(v) matches HeapObject::Pair(p)
            && reads_as_constant(s, symbols, p.first, *a) && reads_as_constant(s, symbols, p.rest, *b)),
        Tree::Array(items) => v.tag == TAG_ARRAY && s.target(v) is Some && (s.object(v) matches HeapObject::LArray {
            elements,
            ..
        } && elements@.len() == items.len() && forall|i: int|
            0 <= i < items.len() ==> reads_as_constant(s, symbols, elements@[i], #[trigger] items[i])),
        Tree::ArrayMut(items) => v.tag == TAG_ARRAY_MUT && s.target(v) is Some && (
        s.object(v) matches HeapObject::LArrayMut { data, .. } && data@.len() == items.len() && forall|i: int|
            0 <= i < items.len() ==> reads_as_constant(s, symbols, data@[i], #[trigger] items[i])),
        Tree::SyntaxSymbol { name, scopes, line, col, .. } => s.target(v) is Some && (
        s.object(v) matches HeapObject::Syntax { syntax, .. } && syntax.name@ == name && syntax.scopes@ == scopes
            && syntax.span.line == line && syntax.span.col == col),
    }
}

/// A constant that is materialized reads as itself.
pub proof fn lemma_materialized_constant_reads_as_itself(
    s: HeapState,
    symbols: Seq<Seq<char>>,
    lo: int,
    region: u32,
    v: Value,
    t: Tree,
)
    requires
        shows(s, symbols, lo, region, v, t),
    ensures
        reads_as_constant(s, symbols, v, t),
    decreases t,
{
    match t {
        Tree::Pair(a, b) => {
            let p = s.object(v)->Pair_0;
            lemma_materialized_constant_reads_as_itself(s, symbols, lo, region, p.first, *a);
            lemma_materialized_constant_reads_as_itself(
                s,
                symbols,
                lo + crate::materialize::nodes(*a),
                region,
                p.rest,
                *b,
            );
        },
        Tree::Array(items) => {
            let elements = s.object(v)->LArray_elements@;
            assert forall|i: int| 0 <= i < items.len() implies reads_as_constant(
                s,
                symbols,
                elements[i],
                #[trigger] items[i],
            ) by {
                let at = lo + crate::materialize::nodes_all(items.take(i));
                assert(shows(s, symbols, at, region, elements[i], items[i]));
                lemma_materialized_constant_reads_as_itself(s, symbols, at, region, elements[i], items[i]);
            }
        },
        Tree::ArrayMut(items) => {
            let data = s.object(v)->LArrayMut_data@;
            assert forall|i: int| 0 <= i < items.len() implies reads_as_constant(
                s,
                symbols,
                data[i],
                #[trigger] items[i],
            ) by {
                let at = lo + crate::materialize::nodes_all(items.take(i));
                assert(shows(s, symbols, at, region, data[i], items[i]));
                lemma_materialized_constant_reads_as_itself(s, symbols, at, region, data[i], items[i]);
            }
        },
        _ => {},
    }
}

/// The documentation of a primitive opens with its call: its name and its parameters, in
/// order. One parameter more stands last in it.
pub proof fn lemma_documented_call_lists_its_parameters(a: Doc, b: Doc, p: &'static str, x: String, y: String) -> (tail: Seq<char>)
    requires
        b == (Doc { params: b.params, ..a }),
        b.params@ == a.params@.push(p),
        call_ensures(Doc::format, (&a,), x),
        call_ensures(Doc::format, (&b,), y),
    ensures
        exists|head: Seq<char>|
            x@ == #[trigger] (head + ")\n"@) + tail && y@ == (head + " "@ + p@ + ")\n"@) + tail,
        a.params@.len() == 0 ==> x@ == ("("@ + a.name@ + ")\n"@) + tail,
{
    let pa = crate::def::literals(a.params@);
    let pb = crate::def::literals(b.params@);
    assert(pb.drop_last() =~= pa);
    assert(pb.last() == p@);
    let head = "("@ + a.name@ + crate::def::wrapped(pa, " "@, ""@);
    let tail = x@.skip((head + ")\n"@).len() as int);
    reveal_strlit("");
    assert(crate::def::wrapped(pb, " "@, ""@) =~= crate::def::wrapped(pa, " "@, ""@) + " "@ + p@);
    assert(x@ =~= (head + ")\n"@) + tail);
    assert(y@ =~= (head + " "@ + p@ + ")\n"@) + tail);
    if a.params@.len() == 0 {
        assert(head =~= "("@ + a.name@);
    }
    tail
}

/// The symbols that code cannot be moved with are exactly those it loads and that have no
/// name.
pub proof fn lemma_unnamed_symbols_are_told(lir: LirFunction, names: Vec<(u32, String)>, r: Vec<u32>, b: int, i: int, id: u32)
    requires
        call_ensures(untranslatable_lir_symbols, (&lir, &names), r),
        0 <= b < lir.blocks@.len(),
        0 <= i < lir.blocks@[b].instructions@.len(),
        lir.blocks@[b].instructions@[i] matches LirInstr::Const { value: LirConst::Symbol(s), .. } && s == id,
    ensures
        (forall|k: int| 0 <= k < names@.len() ==> (#[trigger] names@[k]).0 != id) ==> r@.contains(id),
        (exists|k: int| 0 <= k < names@.len() && (#[trigger] names@[k]).0 == id) ==> !r@.contains(id),
{
    broadcast use vstd::seq_lib::group_filter_ensures;

    let ids = block_symbols(lir.blocks@);
    lemma_symbol_loaded(lir.blocks@, b, i, id);
    let keep = |x: u32| !crate::lir::named(names@, x);
    assert(r@ == ids.filter(keep));
    if forall|k: int| 0 <= k < names@.len() ==> (#[trigger] names@[k]).0 != id {
        let j = ids.index_of(id);
        assert(keep(ids[j]));
        ids.lemma_filter_contains(keep, j);
    }
    if exists|k: int| 0 <= k < names@.len() && (#[trigger] names@[k]).0 == id {
        if r@.contains(id) {
            let j = r@.index_of(id);
            ids.lemma_filter_pred(keep, j);
        }
    }
}

proof fn lemma_symbol_loaded(blocks: Seq<BasicBlock>, b: int, i: int, id: u32)
    requires
        0 <= b < blocks.len(),
        0 <= i < blocks[b].instructions@.len(),
        blocks[b].instructions@[i] matches LirInstr::Const { value: LirConst::Symbol(s), .. } && s == id,
    ensures
        block_symbols(blocks).contains(id),
    decreases blocks.len(),
{
    let rest = block_symbols(blocks.drop_last());
    let last = symbols_of(blocks.last().instructions@);
    let all = block_symbols(blocks);
    assert(all =~= rest + last);
    if b == blocks.len() - 1 {
        lemma_symbol_in_block(blocks[b].instructions@, i, id);
        let k = last.index_of(id);
        assert(all[rest.len() + k] == id);
    } else {
        lemma_symbol_loaded(blocks.drop_last(), b, i, id);
        let k = rest.index_of(id);
        assert(all[k] == id);
    }
}

proof fn lemma_symbol_in_block(instrs: Seq<LirInstr>, i: int, id: u32)
    requires
        0 <= i < instrs.len(),
        instrs[i] matches LirInstr::Const { value: LirConst::Symbol(s), .. } && s == id,
    ensures
        symbols_of(instrs).contains(id),
    decreases instrs.len(),
{
    let rest = symbols_of(instrs.drop_last());
    let all = symbols_of(instrs);
    if i == instrs.len() - 1 {
        assert(all[all.len() - 1] == id);
    } else {
        lemma_symbol_in_block(instrs.drop_last(), i, id);
        let k = rest.index_of(id);
        assert(all[k] == id);
    }
}

} // verus!
