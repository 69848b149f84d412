//! What rebuilding a bundle does to a heap and a symbol table, one step after
//! another: which names it interns, how many objects it makes, and which closures
//! it meets for the first time.

use vstd::prelude::*;

use crate::heap::HeapState;
use crate::lir::{BasicBlock, LirConst, LirInstr};
use crate::object::TableKey;
use crate::sendvalue::{SendBundle, SendValue, SendableClosure};
use crate::symbol::{interned, interned_all, lemma_interned_all_add, lemma_interned_one};

verus! {

/// One step of rebuilding.
pub enum Deed {
    /// A symbol is interned.
    Symbol(Seq<char>),
    /// A keyword is interned.
    Keyword(Seq<char>),
    /// An object is made.
    Object,
    /// A closure is referred to.
    Closure(int),
}

/// The steps of rebuilding a value, in order: an object is made once its parts are.
pub open spec fn deeds(sv: SendValue) -> Seq<Deed>
    decreases sv,
{
    match sv {
        SendValue::Immediate(_) => Seq::empty(),
        SendValue::Keyword(name) => seq![Deed::Keyword(name@)],
        SendValue::Symbol { name, .. } => seq![Deed::Symbol(name@)],
        SendValue::Str(_) => seq![Deed::Object],
        SendValue::Syntax(_) => seq![Deed::Object],
        SendValue::Pair(a, b, t) => deeds(*a) + deeds(*b) + deeds(*t) + seq![Deed::Object],
        SendValue::Array(items, t) => deeds_all(items@) + deeds(*t) + seq![Deed::Object],
        SendValue::Tuple(items, t) => deeds_all(items@) + deeds(*t) + seq![Deed::Object],
        SendValue::Struct(entries, t) => entry_deeds(entries@) + deeds(*t) + seq![Deed::Object],
        SendValue::StructMut(entries, t) => entry_deeds(entries@) + deeds(*t) + seq![Deed::Object],
        SendValue::Buffer(_, t) => deeds(*t) + seq![Deed::Object],
        SendValue::Bytes(_, t) => deeds(*t) + seq![Deed::Object],
        SendValue::Blob(_, t) => deeds(*t) + seq![Deed::Object],
        SendValue::LBox(c, t) => deeds(*c) + deeds(*t) + seq![Deed::Object],
        SendValue::CaptureCell(c, t) => deeds(*c) + deeds(*t) + seq![Deed::Object],
        SendValue::Float(_) => seq![Deed::Object],
        SendValue::FFIType(_) => seq![Deed::Object],
        SendValue::LSet(items, t) => deeds_all(items@) + deeds(*t) + seq![Deed::Object],
        SendValue::LSetMut(items, t) => deeds_all(items@) + deeds(*t) + seq![Deed::Object],
        SendValue::ChanSender(_) => seq![Deed::Object],
        SendValue::ChanReceiver(_) => seq![Deed::Object],
        SendValue::StdioPort(_) => seq![Deed::Object],
        SendValue::Parameter { default, traits, .. } => deeds(*default) + deeds(*traits) + seq![Deed::Object],
        SendValue::Ref(k) => seq![Deed::Closure(k as int)],
    }
}

/// The steps of rebuilding some values.
pub open spec fn deeds_all(items: Seq<SendValue>) -> Seq<Deed>
    decreases items,
{
    if items.len() == 0 {
        Seq::empty()
    } else {
        deeds_all(items.drop_last()) + deeds(items.last())
    }
}

/// The steps of rebuilding some entries.
pub open spec fn entry_deeds(entries: Seq<(TableKey, SendValue)>) -> Seq<Deed>
    decreases entries,
{
    if entries.len() == 0 {
        Seq::empty()
    } else {
        entry_deeds(entries.drop_last()) + deeds(entries.last().1)
    }
}

/// The closures that some instructions load, in order.
pub open spec fn instr_deeds(s: Seq<LirInstr>) -> Seq<Deed>
    decreases s.len(),
{
    if s.len() == 0 {
        Seq::empty()
    } else {
        instr_deeds(s.drop_last()) + one_instr_deeds(s.last())
    }
}

/// The closure that an instruction loads.
pub open spec fn one_instr_deeds(instr: LirInstr) -> Seq<Deed> {
    match instr {
        LirInstr::Const { value: LirConst::ClosureRef(k), .. } => seq![Deed::Closure(k as int)],
        _ => Seq::empty(),
    }
}

/// The closures that some blocks load, in order.
pub open spec fn block_deeds(s: Seq<BasicBlock>) -> Seq<Deed>
    decreases s.len(),
{
    if s.len() == 0 {
        Seq::empty()
    } else {
        block_deeds(s.drop_last()) + instr_deeds(s.last().instructions@)
    }
}

/// The closures that the code of a template loads, in order.
pub open spec fn code_deeds(sc: SendableClosure) -> Seq<Deed> {
    match sc.lir_function {
        Some(lir) => block_deeds(lir.blocks@),
        None => Seq::empty(),
    }
}

/// The steps of rebuilding what is left of a template once its constants are.
pub open spec fn finish_deeds(sc: SendableClosure) -> Seq<Deed>
    decreases sc, 0int,
{
    deeds_all(sc.lir_value_pool@) + code_deeds(sc) + template_deeds_all(sc.child_protos@)
}

/// The steps of rebuilding some nested templates.
pub open spec fn template_deeds_all(s: Seq<SendableClosure>) -> Seq<Deed>
    decreases s, 1int,
{
    if s.len() == 0 {
        Seq::empty()
    } else {
        template_deeds_all(s.drop_last()) + (deeds_all(s.last().constants@) + finish_deeds(s.last()))
    }
}

/// The steps of rebuilding a closure.
pub open spec fn closure_deeds(sc: SendableClosure) -> Seq<Deed> {
    deeds_all(sc.constants@) + deeds_all(sc.env@) + finish_deeds(sc) + seq![Deed::Object]
}

/// How many closures were not met.
pub open spec fn unmet(met: Seq<bool>) -> nat
    decreases met.len(),
{
    if met.len() == 0 {
        0
    } else {
        unmet(met.drop_last()) + if met.last() {
            0nat
        } else {
            1nat
        }
    }
}

pub proof fn lemma_unmet(met: Seq<bool>, k: int)
    requires
        0 <= k < met.len(),
        !met[k],
    ensures
        unmet(met.update(k, true)) == unmet(met) - 1,
    decreases met.len(),
{
    if k == met.len() - 1 {
        assert(met.update(k, true).drop_last() =~= met.drop_last());
    } else {
        lemma_unmet(met.drop_last(), k);
        assert(met.update(k, true).drop_last() =~= met.drop_last().update(k, true));
    }
}

/// The steps carried out where the closures in `met` were met before: one that is
/// met for the first time is rebuilt there and then, any other costs nothing. With
/// the steps come the closures met at the end.
pub open spec fn played(work: Seq<Deed>, table: Seq<SendableClosure>, met: Seq<bool>) -> (Seq<Deed>, Seq<bool>)
    decreases unmet(met), work.len(),
{
    if work.len() == 0 {
        (Seq::empty(), met)
    } else {
        let rest = work.skip(1);
        match work[0] {
            Deed::Closure(k) => if 0 <= k < met.len() && !met[k] {
                proof {
                    lemma_unmet(met, k);
                }
                played(closure_deeds(table[k]) + rest, table, met.update(k, true))
            } else {
                played(rest, table, met)
            },
            deed => {
                let after = played(rest, table, met);
                (seq![deed] + after.0, after.1)
            },
        }
    }
}

/// Two runs of steps are carried out one behind the other.
pub proof fn lemma_played_add(a: Seq<Deed>, b: Seq<Deed>, table: Seq<SendableClosure>, met: Seq<bool>)
    ensures
        ({
            let x = played(a, table, met);
            let y = played(b, table, x.1);
            played(a + b, table, met) == (x.0 + y.0, y.1)
        }),
    decreases unmet(met), a.len(),
{
    let x = played(a, table, met);
    let y = played(b, table, x.1);
    if a.len() == 0 {
        assert(a + b =~= b);
        assert(x.0 + y.0 =~= y.0);
    } else {
        let rest = a.skip(1);
        assert((a + b).skip(1) =~= rest + b);
        assert((a + b)[0] == a[0]);
        match a[0] {
            Deed::Closure(k) => {
                if 0 <= k < met.len() && !met[k] {
                    lemma_unmet(met, k);
                    let body = closure_deeds(table[k]);
                    assert(body + (rest + b) =~= (body + rest) + b);
                    lemma_played_add(body + rest, b, table, met.update(k, true));
                } else {
                    lemma_played_add(rest, b, table, met);
                }
            },
            deed => {
                lemma_played_add(rest, b, table, met);
                let after = played(rest, table, met);
                assert(seq![deed] + (after.0 + y.0) =~= (seq![deed] + after.0) + y.0);
            },
        }
    }
}

/// The symbols that some steps intern, in order.
pub open spec fn symbols_in(s: Seq<Deed>) -> Seq<Seq<char>>
    decreases s.len(),
{
    if s.len() == 0 {
        Seq::empty()
    } else {
        match s.last() {
            Deed::Symbol(name) => symbols_in(s.drop_last()).push(name),
            _ => symbols_in(s.drop_last()),
        }
    }
}

/// The keywords that some steps intern, in order.
pub open spec fn keywords_in(s: Seq<Deed>) -> Seq<Seq<char>>
    decreases s.len(),
{
    if s.len() == 0 {
        Seq::empty()
    } else {
        match s.last() {
            Deed::Keyword(name) => keywords_in(s.drop_last()).push(name),
            _ => keywords_in(s.drop_last()),
        }
    }
}

/// How many objects some steps make.
pub open spec fn objects_in(s: Seq<Deed>) -> nat
    decreases s.len(),
{
    if s.len() == 0 {
        0
    } else {
        objects_in(s.drop_last()) + if s.last() is Object {
            1nat
        } else {
            0nat
        }
    }
}

proof fn lemma_in_add(a: Seq<Deed>, b: Seq<Deed>)
    ensures
        symbols_in(a + b) == symbols_in(a) + symbols_in(b),
        keywords_in(a + b) == keywords_in(a) + keywords_in(b),
        objects_in(a + b) == objects_in(a) + objects_in(b),
    decreases b.len(),
{
    if b.len() == 0 {
        assert(a + b =~= a);
        assert(symbols_in(a) + symbols_in(b) =~= symbols_in(a));
        assert(keywords_in(a) + keywords_in(b) =~= keywords_in(a));
    } else {
        lemma_in_add(a, b.drop_last());
        assert((a + b).drop_last() =~= a + b.drop_last());
        assert((a + b).last() == b.last());
        assert(symbols_in(a + b) =~= symbols_in(a) + symbols_in(b));
        assert(keywords_in(a + b) =~= keywords_in(a) + keywords_in(b));
    }
}

/// The steps were carried out on the heap and the names.
pub open spec fn carried_out(
    ha: HeapState,
    sa: Seq<Seq<char>>,
    hb: HeapState,
    sb: Seq<Seq<char>>,
    done: Seq<Deed>,
) -> bool {
    &&& sb == interned_all(sa, symbols_in(done))
    &&& hb.keywords == interned_all(ha.keywords, keywords_in(done))
    &&& hb.objects.len() == ha.objects.len() + objects_in(done)
}

/// The work was carried out, from the closures met before to those met after.
#[verifier::opaque]
pub open spec fn worked(
    table: Seq<SendableClosure>,
    ma: Seq<bool>,
    ha: HeapState,
    sa: Seq<Seq<char>>,
    mb: Seq<bool>,
    hb: HeapState,
    sb: Seq<Seq<char>>,
    work: Seq<Deed>,
) -> bool {
    let r = played(work, table, ma);
    r.1 == mb && carried_out(ha, sa, hb, sb, r.0)
}

pub proof fn lemma_worked_trans(
    table: Seq<SendableClosure>,
    ma: Seq<bool>,
    ha: HeapState,
    sa: Seq<Seq<char>>,
    mb: Seq<bool>,
    hb: HeapState,
    sb: Seq<Seq<char>>,
    mc: Seq<bool>,
    hc: HeapState,
    sc: Seq<Seq<char>>,
    x: Seq<Deed>,
    y: Seq<Deed>,
)
    requires
        worked(table, ma, ha, sa, mb, hb, sb, x),
        worked(table, mb, hb, sb, mc, hc, sc, y),
    ensures
        worked(table, ma, ha, sa, mc, hc, sc, x + y),
{
    reveal(worked);
    lemma_played_add(x, y, table, ma);
    let (p, q) = (played(x, table, ma).0, played(y, table, mb).0);
    lemma_in_add(p, q);
    lemma_interned_all_add(sa, symbols_in(p), symbols_in(q));
    lemma_interned_all_add(ha.keywords, keywords_in(p), keywords_in(q));
}

/// No work.
pub proof fn lemma_worked_nothing(
    table: Seq<SendableClosure>,
    met: Seq<bool>,
    h: HeapState,
    s: Seq<Seq<char>>,
)
    ensures
        worked(table, met, h, s, met, h, s, Seq::empty()),
{
    reveal(worked);
}

/// One step that is no closure.
proof fn lemma_played_one(deed: Deed, table: Seq<SendableClosure>, met: Seq<bool>)
    requires
        !(deed is Closure),
    ensures
        played(seq![deed], table, met) == (seq![deed], met),
{
    let work = seq![deed];
    assert(work.skip(1) =~= Seq::empty());
    assert(played(work.skip(1), table, met) == (Seq::<Deed>::empty(), met));
    assert(seq![deed] + Seq::empty() =~= seq![deed]);
}

pub proof fn lemma_worked_object(
    table: Seq<SendableClosure>,
    met: Seq<bool>,
    ha: HeapState,
    hb: HeapState,
    s: Seq<Seq<char>>,
)
    requires
        hb.keywords == ha.keywords,
        hb.objects.len() == ha.objects.len() + 1,
    ensures
        worked(table, met, ha, s, met, hb, s, seq![Deed::Object]),
{
    reveal(worked);
    lemma_played_one(Deed::Object, table, met);
    let one = seq![Deed::Object];
    assert(one.drop_last() =~= Seq::empty());
    assert(symbols_in(one.drop_last()).len() == 0);
    assert(keywords_in(one.drop_last()).len() == 0);
    assert(objects_in(one.drop_last()) == 0);
}

pub proof fn lemma_worked_keyword(
    table: Seq<SendableClosure>,
    met: Seq<bool>,
    ha: HeapState,
    hb: HeapState,
    s: Seq<Seq<char>>,
    name: Seq<char>,
)
    requires
        hb.keywords == interned(ha.keywords, name),
        hb.objects == ha.objects,
    ensures
        worked(table, met, ha, s, met, hb, s, seq![Deed::Keyword(name)]),
{
    reveal(worked);
    lemma_played_one(Deed::Keyword(name), table, met);
    let one = seq![Deed::Keyword(name)];
    assert(one.drop_last() =~= Seq::empty());
    assert(symbols_in(one.drop_last()).len() == 0);
    assert(keywords_in(one.drop_last()) =~= Seq::empty());
    assert(keywords_in(one) =~= seq![name]);
    assert(objects_in(one.drop_last()) == 0);
    lemma_interned_one(ha.keywords, name);
}

pub proof fn lemma_worked_symbol(
    table: Seq<SendableClosure>,
    met: Seq<bool>,
    h: HeapState,
    sa: Seq<Seq<char>>,
    name: Seq<char>,
)
    ensures
        worked(table, met, h, sa, met, h, interned(sa, name), seq![Deed::Symbol(name)]),
{
    reveal(worked);
    lemma_played_one(Deed::Symbol(name), table, met);
    let one = seq![Deed::Symbol(name)];
    assert(one.drop_last() =~= Seq::empty());
    assert(symbols_in(one.drop_last()) =~= Seq::empty());
    assert(keywords_in(one.drop_last()).len() == 0);
    assert(symbols_in(one) =~= seq![name]);
    assert(objects_in(one.drop_last()) == 0);
    lemma_interned_one(sa, name);
}

/// A closure that was met before.
pub proof fn lemma_worked_met(
    table: Seq<SendableClosure>,
    met: Seq<bool>,
    h: HeapState,
    s: Seq<Seq<char>>,
    k: int,
)
    requires
        0 <= k < met.len(),
        met[k],
    ensures
        worked(table, met, h, s, met, h, s, seq![Deed::Closure(k)]),
{
    reveal(worked);
    let work = seq![Deed::Closure(k)];
    assert(work.skip(1) =~= Seq::empty());
    assert(played(work.skip(1), table, met) == (Seq::<Deed>::empty(), met));
}

/// A closure that is met for the first time.
pub proof fn lemma_worked_closure(
    table: Seq<SendableClosure>,
    ma: Seq<bool>,
    ha: HeapState,
    sa: Seq<Seq<char>>,
    mb: Seq<bool>,
    hb: HeapState,
    sb: Seq<Seq<char>>,
    k: int,
)
    requires
        0 <= k < ma.len(),
        !ma[k],
        worked(table, ma.update(k, true), ha, sa, mb, hb, sb, closure_deeds(table[k])),
    ensures
        worked(table, ma, ha, sa, mb, hb, sb, seq![Deed::Closure(k)]),
{
    reveal(worked);
    let work = seq![Deed::Closure(k)];
    assert(work.skip(1) =~= Seq::empty());
    assert(closure_deeds(table[k]) + work.skip(1) =~= closure_deeds(table[k]));
}

impl SendBundle {
    /// The steps of rebuilding the bundle, in order.
    pub open spec fn script(self) -> Seq<Deed> {
        played(deeds(self.root), self.closures@, Seq::new(self.closures@.len(), |i: int| false)).0
    }
}

} // verus!
