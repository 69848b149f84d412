//! The primitive tables: lookup by name, numbering, and the metadata that
//! registration derives from them.

use std::collections::hash_map::DefaultHasher;
use std::hash::Hasher;

use vstd::prelude::*;
use vstd::utf8::{encode_utf8, encode_utf8_decode_utf8};

use crate::bytes::{be8, lemma_val8, occurs, push_all, push_be8};
use crate::def::{literals, Doc, PrimitiveDef, PrimitiveMeta};
use crate::symbol::{id_in, interned, SymbolTable};

verus! {

/// The last definition that goes by `name`.
pub open spec fn answer(defs: Seq<PrimitiveDef>, name: Seq<char>) -> Option<int>
    decreases defs.len(),
{
    if defs.len() == 0 {
        None
    } else if defs.last().answers(name) {
        Some(defs.len() - 1)
    } else {
        answer(defs.drop_last(), name)
    }
}

/// Whether a definition goes by `name`.
fn goes_by(def: &PrimitiveDef, name: &String) -> (r: bool)
    ensures
        r == def.answers(name@),
{
    assert(def.names()[0] == def.name@);
    if def.name.to_string() == *name {
        return true;
    }
    let mut i: usize = 0;
    while i < def.aliases.len()
        invariant
            i <= def.aliases@.len(),
            def.name@ != name@,
            forall|k: int| 0 <= k < i ==> (#[trigger] def.aliases@[k])@ != name@,
        decreases def.aliases.len() - i,
    {
        if def.aliases[i].to_string() == *name {
            assert(def.names()[i + 1] == name@);
            return true;
        }
        i = i + 1;
    }
    assert forall|k: int| 0 <= k < def.names().len() implies def.names()[k] != name@ by {
        if k > 0 {
            assert(def.names()[k] == def.aliases@[k - 1]@);
        }
    }
    false
}

/// The definition that a name or alias means: the last one of the tables that
/// goes by it.
pub fn def_by_name<'a>(defs: &'a Vec<PrimitiveDef>, name: &String) -> (r: Option<&'a PrimitiveDef>)
    ensures
        match answer(defs@, name@) {
            Some(i) => r == Some(&defs@[i]),
            None => r is None,
        },
{
    let mut i: usize = defs.len();
    assert(defs@.take(i as int) =~= defs@);
    while i > 0
        invariant
            i <= defs@.len(),
            answer(defs@, name@) == answer(defs@.take(i as int), name@),
        decreases i,
    {
        assert(defs@.take(i as int).drop_last() =~= defs@.take(i - 1));
        assert(defs@.take(i as int).last() == defs@[i - 1]);
        i = i - 1;
        if goes_by(&defs[i], name) {
            return Some(&defs[i]);
        }
    }
    None
}

/// The primitives by number. Each definition has a key of its own, and gets its
/// number when it is first asked for.
pub struct PrimRegistry {
    keys: Vec<u64>,
    defs: Vec<PrimitiveDef>,
}

impl PrimRegistry {
    /// The keys in the order of their numbers.
    pub closed spec fn keys(self) -> Seq<u64> {
        self.keys@
    }

    /// The definitions in the order of their numbers.
    pub closed spec fn defs(self) -> Seq<PrimitiveDef> {
        self.defs@
    }

    #[verifier::type_invariant]
    spec fn numbered(self) -> bool {
        self.keys@.len() == self.defs@.len() && self.keys@.no_duplicates()
    }

    /// No primitive.
    pub fn new() -> (r: PrimRegistry)
        ensures
            r.keys().len() == 0,
            r.defs().len() == 0,
    {
        PrimRegistry { keys: Vec::new(), defs: Vec::new() }
    }

    /// How many primitives have a number.
    pub fn len(&self) -> (r: usize)
        ensures
            r == self.keys().len(),
            r == self.defs().len(),
            self.keys().no_duplicates(),
    {
        proof {
            use_type_invariant(self);
        }
        self.keys.len()
    }

    /// The registry of the canonical tables: entry `i` has key and number `i`.
    pub fn seeded(defs: &Vec<PrimitiveDef>) -> (r: PrimRegistry)
        ensures
            r.keys().len() == defs@.len(),
            r.defs().len() == defs@.len(),
            forall|i: int| 0 <= i < defs@.len() ==> #[trigger] r.keys()[i] == i,
            forall|i: int| 0 <= i < defs@.len() ==> (#[trigger] r.defs()[i]).same(defs@[i]),
    {
        let mut keys: Vec<u64> = Vec::new();
        let mut copies: Vec<PrimitiveDef> = Vec::new();
        let mut i: usize = 0;
        while i < defs.len()
            invariant
                i <= defs@.len(),
                keys@.len() == i,
                copies@.len() == i,
                forall|k: int| 0 <= k < i ==> #[trigger] keys@[k] == k,
                forall|k: int| 0 <= k < i ==> (#[trigger] copies@[k]).same(defs@[k]),
            decreases defs.len() - i,
        {
            keys.push(i as u64);
            copies.push(defs[i].copy());
            i = i + 1;
        }
        PrimRegistry { keys, defs: copies }
    }
}

/// What numbering a primitive does.
pub open spec fn primitive_numbered(
    reg: PrimRegistry,
    reg_after: PrimRegistry,
    key: u64,
    def: PrimitiveDef,
    r: u32,
) -> bool {
    &&& r < reg_after.keys().len()
    &&& reg_after.keys()[r as int] == key
    &&& reg_after.defs().len() == reg_after.keys().len()
    &&& reg_after.keys().no_duplicates()
    &&& reg.keys().contains(key) ==> reg_after == reg
    &&& !reg.keys().contains(key) ==> {
            &&& r == reg.keys().len()
            &&& reg_after.keys() == reg.keys().push(key)
            &&& reg_after.defs().len() == reg.defs().len() + 1
            &&& reg_after.defs().drop_last() == reg.defs()
            &&& reg_after.defs().last().same(def)
        }
}

/// The number of a definition, by its key: the one it has, or the next one.
pub fn prim_id_of(reg: &mut PrimRegistry, key: u64, def: &PrimitiveDef) -> (r: u32)
    requires
        old(reg).keys().len() < u32::MAX,
    ensures
        primitive_numbered(
            *old(reg),
            *final(reg),
            key,
            *def,
            r,
        ),
{
    proof {
        use_type_invariant(&*reg);
    }
    let mut i: usize = 0;
    while i < reg.keys.len()
        invariant
            i <= reg.keys@.len(),
            reg.keys@.len() < u32::MAX,
            reg.keys@.len() == reg.defs@.len(),
            reg.keys@.no_duplicates(),
            *reg == *old(reg),
            forall|k: int| 0 <= k < i ==> #[trigger] reg.keys@[k] != key,
        decreases reg.keys.len() - i,
    {
        if reg.keys[i] == key {
            return i as u32;
        }
        i = i + 1;
    }
    assert(!reg.keys@.contains(key));
    let ghost had = reg.keys@;
    let mut keys: Vec<u64> = Vec::new();
    let mut defs: Vec<PrimitiveDef> = Vec::new();
    let copy = def.copy();
    let mut whole = PrimRegistry { keys, defs };
    core::mem::swap(&mut whole, reg);
    let PrimRegistry { keys: mut all_keys, defs: mut all_defs } = whole;
    let id: u32 = all_keys.len() as u32;
    all_keys.push(key);
    all_defs.push(copy);
    assert(all_keys@.no_duplicates());
    *reg = PrimRegistry { keys: all_keys, defs: all_defs };
    assert(reg.defs@.drop_last() =~= old(reg).defs@);
    id
}

/// The definition of a number, if it was given out.
pub fn prim_def(reg: &PrimRegistry, id: u32) -> (r: Option<&PrimitiveDef>)
    ensures
        r is Some == (id < reg.defs().len()),
        r is Some ==> *(r->0) == reg.defs()[id as int],
{
    if (id as usize) < reg.defs.len() {
        Some(&reg.defs[id as usize])
    } else {
        None
    }
}

/// The definitions in the order of their numbers, as they stand now.
pub fn prim_table_snapshot(reg: &PrimRegistry) -> (r: Vec<PrimitiveDef>)
    ensures
        r@.len() == reg.defs().len(),
        forall|i: int| 0 <= i < r@.len() ==> (#[trigger] r@[i]).same(reg.defs()[i]),
{
    let mut out: Vec<PrimitiveDef> = Vec::new();
    let mut i: usize = 0;
    while i < reg.defs.len()
        invariant
            i <= reg.defs@.len(),
            out@.len() == i,
            forall|k: int| 0 <= k < i ==> (#[trigger] out@[k]).same(reg.defs@[k]),
        decreases reg.defs.len() - i,
    {
        out.push(reg.defs[i].copy());
        i = i + 1;
    }
    out
}

/// The number of a key in a list that holds it once.
pub open spec fn number_of(keys: Seq<u64>, key: u64) -> int {
    keys.index_of(key)
}

/// Numbers never change: whatever is numbered later, a key keeps its number and
/// that number its key.
pub proof fn lemma_numbers_are_stable(keys: Seq<u64>, key: u64, later: u64)
    requires
        keys.no_duplicates(),
        keys.contains(key),
    ensures
        ({
            let after = if keys.contains(later) {
                keys
            } else {
                keys.push(later)
            };
            &&& after.no_duplicates()
            &&& number_of(after, key) == number_of(keys, key)
            &&& after[number_of(after, key)] == key
        }),
{
    let after = if keys.contains(later) {
        keys
    } else {
        keys.push(later)
    };
    let i = keys.index_of(key);
    assert(0 <= i < keys.len() && keys[i] == key);
    assert(after[i] == key);
    assert(after.no_duplicates()) by {
        assert forall|a: int, b: int| 0 <= a < after.len() && 0 <= b < after.len() && a != b implies after[a]
            != after[b] by {
            if a == keys.len() {
                assert(keys.contains(keys[b]));
            }
            if b == keys.len() {
                assert(keys.contains(keys[a]));
            }
        }
    }
    assert(after.contains(key));
    let k = after.index_of(key);
    assert(0 <= k < after.len() && after[k] == key);
}

/// A text as its byte length and its UTF-8 bytes.
pub open spec fn framed(s: Seq<char>) -> Seq<u8> {
    be8(encode_utf8(s).len() as u64) + encode_utf8(s)
}

/// The texts one behind the other.
pub open spec fn framed_all(parts: Seq<Seq<char>>) -> Seq<u8>
    decreases parts.len(),
{
    if parts.len() == 0 {
        Seq::empty()
    } else {
        framed(parts[0]) + framed_all(parts.skip(1))
    }
}

/// What a definition is known by: its name and its aliases.
pub open spec fn identity(def: PrimitiveDef) -> Seq<u8> {
    framed(def.name@) + be8(def.aliases@.len() as u64) + framed_all(literals(def.aliases@))
}

/// The identities of a table, in order.
pub open spec fn identities(defs: Seq<PrimitiveDef>) -> Seq<Seq<u8>> {
    Seq::new(defs.len(), |i: int| identity(defs[i]))
}

fn push_framed(out: &mut Vec<u8>, s: &str)
    ensures
        final(out)@ == old(out)@ + framed(s@),
{
    let ghost before = out@;
    let body = s.as_bytes();
    push_be8(out, body.len() as u64);
    push_all(out, body);
    assert(out@ =~= before + framed(s@));
}

fn push_framed_from(out: &mut Vec<u8>, parts: &Vec<&'static str>, i: usize)
    requires
        i <= parts@.len(),
    ensures
        final(out)@ == old(out)@ + framed_all(literals(parts@).skip(i as int)),
    decreases parts.len() - i,
{
    let ghost before = out@;
    if i < parts.len() {
        let ghost rest = literals(parts@).skip(i as int);
        assert(rest[0] == parts@[i as int]@);
        assert(rest.skip(1) =~= literals(parts@).skip(i + 1));
        push_framed(out, parts[i]);
        push_framed_from(out, parts, i + 1);
        assert(out@ =~= before + framed_all(rest));
    } else {
        assert(literals(parts@).skip(i as int) =~= Seq::empty());
        assert(out@ =~= before + framed_all(literals(parts@).skip(i as int)));
    }
}

/// Feed one definition's identity to a hasher.
pub fn hash_def_identity(def: &PrimitiveDef, hasher: &mut DefaultHasher)
    ensures
        final(hasher)@ == old(hasher)@.push(identity(*def)),
{
    let mut out: Vec<u8> = Vec::new();
    push_framed(&mut out, def.name);
    push_be8(&mut out, def.aliases.len() as u64);
    push_framed_from(&mut out, &def.aliases, 0);
    assert(literals(def.aliases@).skip(0) =~= literals(def.aliases@));
    assert(out@ =~= identity(*def));
    hasher.write(out.as_slice());
}

/// Feed the identity of the canonical tables to a hasher, in their order.
pub fn hash_prim_table_identity(defs: &Vec<PrimitiveDef>, hasher: &mut DefaultHasher)
    ensures
        final(hasher)@ == old(hasher)@ + identities(defs@),
{
    let ghost before = hasher@;
    let mut i: usize = 0;
    assert(before + identities(defs@).take(0) =~= before);
    while i < defs.len()
        invariant
            i <= defs@.len(),
            hasher@ == before + identities(defs@).take(i as int),
        decreases defs.len() - i,
    {
        hash_def_identity(&defs[i], hasher);
        i = i + 1;
        assert(hasher@ =~= before + identities(defs@).take(i as int));
    }
    assert(identities(defs@).take(i as int) =~= identities(defs@));
}

/// The byte lengths fit in their frames.
pub open spec fn framable(def: PrimitiveDef) -> bool {
    &&& encode_utf8(def.name@).len() <= u64::MAX
    &&& def.aliases@.len() <= u64::MAX
    &&& forall|i: int|
        0 <= i < def.aliases@.len() ==> encode_utf8((#[trigger] def.aliases@[i])@).len() <= u64::MAX
}

proof fn lemma_be8_injective(a: u64, b: u64)
    requires
        be8(a) == be8(b),
    ensures
        a == b,
{
    reveal(occurs);
    lemma_val8(be8(a), 0, a);
    lemma_val8(be8(b), 0, b);
}

proof fn lemma_framed_split(a: Seq<char>, x: Seq<u8>, b: Seq<char>, y: Seq<u8>)
    requires
        framed(a) + x == framed(b) + y,
        encode_utf8(a).len() <= u64::MAX,
        encode_utf8(b).len() <= u64::MAX,
    ensures
        a == b,
        x == y,
{
    let ea = encode_utf8(a);
    let eb = encode_utf8(b);
    let s = framed(a) + x;
    assert(s.take(8) =~= be8(ea.len() as u64));
    assert(s.take(8) =~= be8(eb.len() as u64)) by {
        assert(s == framed(b) + y);
    }
    lemma_be8_injective(ea.len() as u64, eb.len() as u64);
    let n = ea.len() as int;
    assert(s.subrange(8, 8 + n) =~= ea);
    assert(s.subrange(8, 8 + n) =~= eb) by {
        assert(s == framed(b) + y);
    }
    encode_utf8_decode_utf8(a);
    encode_utf8_decode_utf8(b);
    assert(s.skip(8 + n) =~= x);
    assert(s.skip(8 + n) =~= y) by {
        assert(s == framed(b) + y);
    }
}

proof fn lemma_framed_all_injective(a: Seq<Seq<char>>, b: Seq<Seq<char>>)
    requires
        a.len() == b.len(),
        framed_all(a) == framed_all(b),
        forall|i: int| 0 <= i < a.len() ==> encode_utf8(#[trigger] a[i]).len() <= u64::MAX,
        forall|i: int| 0 <= i < b.len() ==> encode_utf8(#[trigger] b[i]).len() <= u64::MAX,
    ensures
        a == b,
    decreases a.len(),
{
    if a.len() > 0 {
        lemma_framed_split(a[0], framed_all(a.skip(1)), b[0], framed_all(b.skip(1)));
        lemma_framed_all_injective(a.skip(1), b.skip(1));
        assert(a =~= seq![a[0]] + a.skip(1));
        assert(b =~= seq![b[0]] + b.skip(1));
    } else {
        assert(a =~= b);
    }
}

/// A counted run of frames tells what is in it.
proof fn lemma_counted_injective(a: Seq<Seq<char>>, b: Seq<Seq<char>>)
    requires
        a.len() <= u64::MAX,
        b.len() <= u64::MAX,
        be8(a.len() as u64) + framed_all(a) == be8(b.len() as u64) + framed_all(b),
        forall|i: int| 0 <= i < a.len() ==> encode_utf8(#[trigger] a[i]).len() <= u64::MAX,
        forall|i: int| 0 <= i < b.len() ==> encode_utf8(#[trigger] b[i]).len() <= u64::MAX,
    ensures
        a == b,
{
    let ra = be8(a.len() as u64) + framed_all(a);
    let rb = be8(b.len() as u64) + framed_all(b);
    assert(ra.take(8) =~= be8(a.len() as u64));
    assert(rb.take(8) =~= be8(b.len() as u64));
    lemma_be8_injective(a.len() as u64, b.len() as u64);
    assert(ra.skip(8) =~= framed_all(a));
    assert(rb.skip(8) =~= framed_all(b));
    lemma_framed_all_injective(a, b);
}

/// A rename or a change of aliases changes what a definition is known by.
#[verifier::rlimit(60)]
#[verifier::spinoff_prover]
pub proof fn lemma_identity_tells_names(a: PrimitiveDef, b: PrimitiveDef)
    requires
        framable(a),
        framable(b),
    ensures
        identity(a) == identity(b) <==> a.names() == b.names(),
{
    let la = literals(a.aliases@);
    let lb = literals(b.aliases@);
    if identity(a) == identity(b) {
        let ra = be8(a.aliases@.len() as u64) + framed_all(la);
        let rb = be8(b.aliases@.len() as u64) + framed_all(lb);
        assert(identity(a) =~= framed(a.name@) + ra);
        assert(identity(b) =~= framed(b.name@) + rb);
        lemma_framed_split(a.name@, ra, b.name@, rb);
        assert forall|i: int| 0 <= i < la.len() implies encode_utf8(#[trigger] la[i]).len() <= u64::MAX by {
            assert(la[i] == a.aliases@[i]@);
        }
        assert forall|i: int| 0 <= i < lb.len() implies encode_utf8(#[trigger] lb[i]).len() <= u64::MAX by {
            assert(lb[i] == b.aliases@[i]@);
        }
        lemma_counted_injective(la, lb);
    }
    if a.names() == b.names() {
        assert(a.names()[0] == a.name@);
        assert(b.names()[0] == b.name@);
        assert(a.names().skip(1) =~= la);
        assert(b.names().skip(1) =~= lb);
        assert(la.len() == lb.len());
    }
}

/// Any addition, removal, rename or reordering changes the identity of a table.
pub proof fn lemma_table_identity_tells_tables(a: Seq<PrimitiveDef>, b: Seq<PrimitiveDef>)
    requires
        forall|i: int| 0 <= i < a.len() ==> framable(#[trigger] a[i]),
        forall|i: int| 0 <= i < b.len() ==> framable(#[trigger] b[i]),
    ensures
        identities(a) == identities(b) <==> (a.len() == b.len() && forall|i: int|
            0 <= i < a.len() ==> (#[trigger] a[i]).names() == b[i].names()),
{
    if identities(a) == identities(b) {
        assert(identities(a).len() == identities(b).len());
        assert forall|i: int| 0 <= i < a.len() implies (#[trigger] a[i]).names() == b[i].names() by {
            assert(identities(a)[i] == identities(b)[i]);
            assert(framable(b[i]));
            lemma_identity_tells_names(a[i], b[i]);
        }
    }
    if a.len() == b.len() && forall|i: int| 0 <= i < a.len() ==> (#[trigger] a[i]).names() == b[i].names() {
        assert forall|i: int| 0 <= i < a.len() implies identities(a)[i] == identities(b)[i] by {
            assert(framable(a[i]));
            assert(framable(b[i]));
            lemma_identity_tells_names(a[i], b[i]);
        }
        assert(identities(a) =~= identities(b));
    }
}

/// The documentation by name.
pub struct DocTable {
    pub entries: Vec<(String, Doc)>,
}

/// The documentation of a name: its first entry.
pub open spec fn doc_in(entries: Seq<(String, Doc)>, name: Seq<char>) -> Option<Doc>
    decreases entries.len(),
{
    if entries.len() == 0 {
        None
    } else if entries[0].0@ == name {
        Some(entries[0].1)
    } else {
        doc_in(entries.skip(1), name)
    }
}

proof fn lemma_doc_in_update(entries: Seq<(String, Doc)>, i: int, d: Doc, name: Seq<char>)
    requires
        0 <= i < entries.len(),
        forall|k: int| 0 <= k < i ==> (#[trigger] entries[k]).0@ != entries[i].0@,
    ensures
        doc_in(entries.update(i, (entries[i].0, d)), name) == if name == entries[i].0@ {
            Some(d)
        } else {
            doc_in(entries, name)
        },
    decreases entries.len(),
{
    let after = entries.update(i, (entries[i].0, d));
    if i == 0 {
        assert(after.skip(1) =~= entries.skip(1));
    } else {
        assert forall|k: int| 0 <= k < i - 1 implies (#[trigger] entries.skip(1)[k]).0@
            != entries.skip(1)[i - 1].0@ by {
            assert(entries[k + 1].0@ != entries[i].0@);
        }
        lemma_doc_in_update(entries.skip(1), i - 1, d, name);
        assert(after.skip(1) =~= entries.skip(1).update(i - 1, (entries[i].0, d)));
        assert(entries[0].0@ != entries[i].0@);
    }
}

proof fn lemma_doc_in_push(entries: Seq<(String, Doc)>, e: (String, Doc), name: Seq<char>)
    ensures
        doc_in(entries.push(e), name) == match doc_in(entries, name) {
            Some(d) => Some(d),
            None => if e.0@ == name {
                Some(e.1)
            } else {
                None
            },
        },
    decreases entries.len(),
{
    let after = entries.push(e);
    if entries.len() == 0 {
        assert(after.skip(1) =~= Seq::empty());
        assert(doc_in(after.skip(1), name) is None);
    } else {
        lemma_doc_in_push(entries.skip(1), e, name);
        assert(after.skip(1) =~= entries.skip(1).push(e));
    }
}

proof fn lemma_doc_in_absent(entries: Seq<(String, Doc)>, name: Seq<char>)
    requires
        forall|k: int| 0 <= k < entries.len() ==> (#[trigger] entries[k]).0@ != name,
    ensures
        doc_in(entries, name) is None,
    decreases entries.len(),
{
    if entries.len() > 0 {
        assert(entries[0].0@ != name);
        assert forall|k: int| 0 <= k < entries.skip(1).len() implies (#[trigger] entries.skip(1)[k]).0@
            != name by {
            assert(entries[k + 1].0@ != name);
        }
        lemma_doc_in_absent(entries.skip(1), name);
    }
}

impl DocTable {
    /// What is documented under a name.
    pub open spec fn doc_of(self, name: Seq<char>) -> Option<Doc> {
        doc_in(self.entries@, name)
    }

    /// No documentation.
    pub fn new() -> (r: DocTable)
        ensures
            forall|name: Seq<char>| #[trigger] r.doc_of(name) is None,
    {
        DocTable { entries: Vec::new() }
    }

    /// Document a name, in place of what was there.
    pub fn insert(&mut self, name: String, doc: Doc)
        ensures
            final(self).doc_of(name@) == Some(doc),
            forall|other: Seq<char>|
                other != name@ ==> #[trigger] final(self).doc_of(other) == old(self).doc_of(other),
    {
        let ghost before = self.entries@;
        let mut i: usize = 0;
        while i < self.entries.len()
            invariant
                i <= self.entries@.len(),
                self.entries@ == before,
                before == old(self).entries@,
                forall|k: int| 0 <= k < i ==> (#[trigger] before[k]).0@ != name@,
            decreases self.entries.len() - i,
        {
            if self.entries[i].0 == name {
                let spelled = self.entries[i].0.clone();
                self.entries.set(i, (spelled, doc));
                proof {
                    assert(self.entries@ =~= before.update(i as int, (before[i as int].0, doc)));
                    assert forall|n: Seq<char>| #[trigger] doc_in(self.entries@, n) == if n == name@ {
                        Some(doc)
                    } else {
                        doc_in(before, n)
                    } by {
                        lemma_doc_in_update(before, i as int, doc, n);
                    }
                }
                return ;
            }
            i = i + 1;
        }
        let ghost named = name@;
        self.entries.push((name, doc));
        proof {
            lemma_doc_in_absent(before, named);
            assert forall|n: Seq<char>| #[trigger] doc_in(self.entries@, n) == if n == named {
                Some(doc)
            } else {
                doc_in(before, n)
            } by {
                lemma_doc_in_push(before, (name, doc), n);
            }
        }
    }
}

/// The names of all definitions interned, each definition's own name first.
pub open spec fn names_interned(symbols: Seq<Seq<char>>, defs: Seq<PrimitiveDef>) -> Seq<Seq<char>>
    decreases defs.len(),
{
    if defs.len() == 0 {
        symbols
    } else {
        all_interned(names_interned(symbols, defs.drop_last()), defs.last().names())
    }
}

/// Some names interned one after another.
pub open spec fn all_interned(symbols: Seq<Seq<char>>, names: Seq<Seq<char>>) -> Seq<Seq<char>>
    decreases names.len(),
{
    if names.len() == 0 {
        symbols
    } else {
        interned(all_interned(symbols, names.drop_last()), names.last())
    }
}

/// How many names the definitions have.
pub open spec fn name_count(defs: Seq<PrimitiveDef>) -> nat
    decreases defs.len(),
{
    if defs.len() == 0 {
        0
    } else {
        name_count(defs.drop_last()) + defs.last().names().len()
    }
}

/// What the metadata says of every symbol is what the definition it answers to
/// declares; it says nothing of any other.
pub open spec fn describes(meta: PrimitiveMeta, symbols: Seq<Seq<char>>, defs: Seq<PrimitiveDef>) -> bool {
    forall|id: u32| #[trigger] entry_right(meta, symbols, defs, id)
}

/// What the metadata says of one symbol is right.
pub open spec fn entry_right(
    meta: PrimitiveMeta,
    symbols: Seq<Seq<char>>,
    defs: Seq<PrimitiveDef>,
    id: u32,
) -> bool {
    if id < symbols.len() {
        match answer(defs, symbols[id as int]) {
            Some(i) => meta.says(id, defs[i], i as u32),
            None => meta.silent_on(id),
        }
    } else {
        meta.silent_on(id)
    }
}

/// A primitive name that is interned once keeps its symbol, whatever is interned
/// after it.
proof fn lemma_interned_keeps(symbols: Seq<Seq<char>>, name: Seq<char>)
    requires
        symbols.no_duplicates(),
    ensures
        interned(symbols, name).no_duplicates(),
        interned(symbols, name).len() >= symbols.len(),
        interned(symbols, name).len() <= symbols.len() + 1,
        forall|i: int| 0 <= i < symbols.len() ==> #[trigger] interned(symbols, name)[i] == symbols[i],
        0 <= id_in(interned(symbols, name), name) < interned(symbols, name).len(),
        interned(symbols, name)[id_in(interned(symbols, name), name)] == name,
        symbols.contains(name) || id_in(interned(symbols, name), name) == symbols.len(),
{
    let after = interned(symbols, name);
    if symbols.contains(name) {
        let i = choose|i: int| 0 <= i < symbols.len() && symbols[i] == name;
        assert(after[i] == name);
    } else {
        assert(after[symbols.len() as int] == name);
    }
    assert(after.contains(name));
    assert(after.no_duplicates()) by {
        assert forall|a: int, b: int| 0 <= a < after.len() && 0 <= b < after.len() && a != b implies after[a]
            != after[b] by {
            if !symbols.contains(name) {
                if a == symbols.len() {
                    assert(symbols.contains(symbols[b]));
                }
                if b == symbols.len() {
                    assert(symbols.contains(symbols[a]));
                }
            }
        }
    }
}

proof fn lemma_answer_bound(defs: Seq<PrimitiveDef>, name: Seq<char>)
    ensures
        answer(defs, name) matches Some(i) ==> 0 <= i < defs.len(),
    decreases defs.len(),
{
    if defs.len() > 0 {
        lemma_answer_bound(defs.drop_last(), name);
    }
}

proof fn lemma_name_count(defs: Seq<PrimitiveDef>, i: int)
    requires
        0 <= i < defs.len(),
    ensures
        name_count(defs.take(i)) + defs[i].names().len() <= name_count(defs),
        name_count(defs.take(i + 1)) == name_count(defs.take(i)) + defs[i].names().len(),
    decreases defs.len(),
{
    assert(defs.take(i + 1).drop_last() =~= defs.take(i));
    if i == defs.len() - 1 {
        assert(defs.take(i + 1) =~= defs);
    } else {
        lemma_name_count(defs.drop_last(), i);
        assert(defs.drop_last().take(i) =~= defs.take(i));
    }
}

/// What the metadata says of one symbol is right, once definition `i` and the
/// first `k` of its names are entered.
spec fn partly_right(
    meta: PrimitiveMeta,
    symbols: Seq<Seq<char>>,
    defs: Seq<PrimitiveDef>,
    i: int,
    k: int,
    id: u32,
) -> bool {
    if id < symbols.len() && defs[i].names().take(k).contains(symbols[id as int]) {
        meta.says(id, defs[i], i as u32)
    } else {
        entry_right(meta, symbols, defs.take(i), id)
    }
}

/// Enter definition `i` under its name `k`.
fn enter_name(
    meta: &mut PrimitiveMeta,
    symbols: &mut SymbolTable,
    defs: &Vec<PrimitiveDef>,
    i: usize,
    k: Ghost<int>,
    name: &String,
)
    requires
        i < defs@.len(),
        defs@.len() <= u32::MAX,
        0 <= k@ < defs@[i as int].names().len(),
        name@ == defs@[i as int].names()[k@],
        old(symbols)@.no_duplicates(),
        old(symbols)@.len() < u32::MAX,
        forall|id: u32| #[trigger] partly_right(*old(meta), old(symbols)@, defs@, i as int, k@, id),
    ensures
        final(symbols)@.no_duplicates(),
        final(symbols)@ == interned(old(symbols)@, name@),
        final(symbols)@.len() <= old(symbols)@.len() + 1,
        forall|id: u32| #[trigger]
            partly_right(*final(meta), final(symbols)@, defs@, i as int, k@ + 1, id),
        final(meta).docs@ == old(meta).docs@,
{
    let ghost names = defs@[i as int].names();
    let ghost before = symbols@;
    let ghost had = *meta;
    let id = symbols.intern(name);
    proof {
        lemma_interned_keeps(before, name@);
    }
    meta.enter(id.0, &defs[i], i as u32);
    proof {
        let now = names.take(k@ + 1);
        let was = names.take(k@);
        assert forall|q: u32| #[trigger] partly_right(*meta, symbols@, defs@, i as int, k@ + 1, q) by {
            assert(partly_right(had, before, defs@, i as int, k@, q));
            if q == id.0 {
                assert(now[k@] == name@);
                assert(now.contains(symbols@[q as int]));
            } else {
                assert(meta.agree(had, q));
                if q < before.len() {
                    let w = before[q as int];
                    assert(symbols@[q as int] == w);
                    assert(w != name@) by {
                        if w == name@ {
                            assert(symbols@[id.0 as int] == symbols@[q as int]);
                        }
                    }
                    assert(now.contains(w) == was.contains(w)) by {
                        if now.contains(w) {
                            let c = choose|c: int| 0 <= c < now.len() && now[c] == w;
                            assert(was[c] == w);
                        }
                        if was.contains(w) {
                            let c = choose|c: int| 0 <= c < was.len() && was[c] == w;
                            assert(now[c] == w);
                        }
                    }
                }
            }
        }
    }
}

/// Enter definition `i` under all its names.
fn enter_def(meta: &mut PrimitiveMeta, symbols: &mut SymbolTable, defs: &Vec<PrimitiveDef>, i: usize)
    requires
        i < defs@.len(),
        defs@.len() <= u32::MAX,
        old(symbols)@.no_duplicates(),
        old(symbols)@.len() + defs@[i as int].names().len() <= u32::MAX,
        describes(*old(meta), old(symbols)@, defs@.take(i as int)),
    ensures
        final(symbols)@.no_duplicates(),
        final(symbols)@ == all_interned(old(symbols)@, defs@[i as int].names()),
        final(symbols)@.len() <= old(symbols)@.len() + defs@[i as int].names().len(),
        describes(*final(meta), final(symbols)@, defs@.take(i + 1)),
        final(meta).docs@ == old(meta).docs@,
{
    let ghost start = symbols@;
    let def = &defs[i];
    let ghost names = def.names();
    let n: usize = def.aliases.len();
    proof {
        assert(names.take(0) =~= Seq::empty());
        assert forall|id: u32| #[trigger] partly_right(*meta, symbols@, defs@, i as int, 0, id) by {
            assert(entry_right(*meta, symbols@, defs@.take(i as int), id));
        }
        assert(names.take(1).drop_last() =~= Seq::empty());
        assert(names.take(1).last() == def.name@);
        assert(all_interned(start, names.take(1).drop_last()) == start);
    }
    enter_name(meta, symbols, defs, i, Ghost(0), &def.name.to_string());
    let mut k: usize = 0;
    while k < n
        invariant
            i < defs@.len(),
            defs@.len() <= u32::MAX,
            *def == defs@[i as int],
            names == def.names(),
            n == def.aliases@.len(),
            k <= n,
            symbols@.no_duplicates(),
            start.len() + names.len() <= u32::MAX,
            symbols@.len() <= start.len() + k + 1,
            symbols@ == all_interned(start, names.take(k + 1)),
            meta.docs@ == old(meta).docs@,
            forall|id: u32| #[trigger] partly_right(*meta, symbols@, defs@, i as int, k + 1, id),
        decreases n - k,
    {
        proof {
            assert(names[k + 1] == def.aliases@[k as int]@);
            assert(names.take(k + 2).drop_last() =~= names.take(k + 1));
        }
        enter_name(meta, symbols, defs, i, Ghost(k + 1), &def.aliases[k].to_string());
        k = k + 1;
    }
    proof {
        assert(names.take(n + 1) =~= names);
        let more = defs@.take(i + 1);
        assert(more.drop_last() =~= defs@.take(i as int));
        assert(more.last() == defs@[i as int]);
        assert forall|id: u32| #[trigger] entry_right(*meta, symbols@, more, id) by {
            assert(partly_right(*meta, symbols@, defs@, i as int, n + 1, id));
            if id < symbols@.len() {
                lemma_answer_bound(defs@.take(i as int), symbols@[id as int]);
            }
        }
    }
}

/// Build the metadata of the primitives, without touching any documentation.
pub fn build_primitive_meta(symbols: &mut SymbolTable, defs: &Vec<PrimitiveDef>) -> (r: PrimitiveMeta)
    requires
        defs@.len() <= u32::MAX,
        old(symbols)@.len() + name_count(defs@) <= u32::MAX,
    ensures
        final(symbols)@ == names_interned(old(symbols)@, defs@),
        describes(r, final(symbols)@, defs@),
        r.docs@.dom() == Set::<u32>::empty(),
{
    let ghost start = symbols@;
    let mut meta = PrimitiveMeta::new();
    let _n: usize = symbols.len();
    let mut i: usize = 0;
    assert(defs@.take(0) =~= Seq::empty());
    assert forall|id: u32| #[trigger] entry_right(meta, symbols@, defs@.take(0), id) by {}
    while i < defs.len()
        invariant
            i <= defs@.len(),
            defs@.len() <= u32::MAX,
            start.len() + name_count(defs@) <= u32::MAX,
            symbols@.no_duplicates(),
            symbols@.len() <= start.len() + name_count(defs@.take(i as int)),
            symbols@ == names_interned(start, defs@.take(i as int)),
            describes(meta, symbols@, defs@.take(i as int)),
            meta.docs@.dom() == Set::<u32>::empty(),
        decreases defs.len() - i,
    {
        proof {
            lemma_name_count(defs@, i as int);
            assert(defs@.take(i + 1).drop_last() =~= defs@.take(i as int));
        }
        enter_def(&mut meta, symbols, defs, i);
        i = i + 1;
    }
    assert(defs@.take(i as int) =~= defs@);
    meta
}

/// Every name of a primitive is documented by the definition it answers to, and
/// every other name as before.
pub open spec fn documented(docs: DocTable, before: DocTable, defs: Seq<PrimitiveDef>) -> bool {
    forall|name: Seq<char>| #[trigger] doc_right(docs, before, defs, name)
}

/// The documentation of one name is right.
pub open spec fn doc_right(
    docs: DocTable,
    before: DocTable,
    defs: Seq<PrimitiveDef>,
    name: Seq<char>,
) -> bool {
    match answer(defs, name) {
        Some(i) => docs.doc_of(name) is Some && defs[i].documented_by(docs.doc_of(name)->0),
        None => docs.doc_of(name) == before.doc_of(name),
    }
}

/// Document definition `i` under all its names.
fn document_def(docs: &mut DocTable, defs: &Vec<PrimitiveDef>, i: usize, before: Ghost<DocTable>)
    requires
        i < defs@.len(),
        documented(*old(docs), before@, defs@.take(i as int)),
    ensures
        documented(*final(docs), before@, defs@.take(i + 1)),
{
    let def = &defs[i];
    let ghost names = def.names();
    let n: usize = def.aliases.len();
    let ghost start = *docs;
    docs.insert(def.name.to_string(), def.documentation());
    let mut k: usize = 0;
    proof {
        assert(names[0] == def.name@);
        assert forall|name: Seq<char>| #[trigger] partly_documented(
            *docs,
            start,
            *def,
            names.take(1),
            name,
        ) by {
            if names.take(1).contains(name) {
                let c = choose|c: int| 0 <= c < 1 && names.take(1)[c] == name;
                assert(name == def.name@);
            } else {
                assert(names.take(1)[0] == def.name@);
            }
        }
    }
    while k < n
        invariant
            *def == defs@[i as int],
            names == def.names(),
            n == def.aliases@.len(),
            k <= n,
            forall|name: Seq<char>| #[trigger]
                partly_documented(*docs, start, *def, names.take(k + 1), name),
        decreases n - k,
    {
        let ghost had = *docs;
        docs.insert(def.aliases[k].to_string(), def.documentation());
        proof {
            let w = def.aliases@[k as int]@;
            assert(names[k + 1] == w);
            let was = names.take(k + 1);
            let now = names.take(k + 2);
            assert(now =~= was.push(w));
            assert forall|name: Seq<char>| #[trigger] partly_documented(*docs, start, *def, now, name) by {
                assert(partly_documented(had, start, *def, was, name));
                if name == w {
                    assert(now[k + 1] == w);
                } else {
                    assert(docs.doc_of(name) == had.doc_of(name));
                    if now.contains(name) {
                        let c = choose|c: int| 0 <= c < now.len() && now[c] == name;
                        assert(was[c] == name);
                    }
                    if was.contains(name) {
                        let c = choose|c: int| 0 <= c < was.len() && was[c] == name;
                        assert(now[c] == name);
                    }
                }
            }
        }
        k = k + 1;
    }
    proof {
        assert(names.take(n + 1) =~= names);
        let more = defs@.take(i + 1);
        assert(more.drop_last() =~= defs@.take(i as int));
        assert forall|name: Seq<char>| #[trigger] doc_right(*docs, before@, more, name) by {
            assert(partly_documented(*docs, start, *def, names.take(n + 1), name));
            assert(doc_right(start, before@, defs@.take(i as int), name));
            lemma_answer_bound(defs@.take(i as int), name);
        }
    }
}

/// A name among `names` is documented by `def`, and every other name as at the
/// start.
spec fn partly_documented(
    docs: DocTable,
    start: DocTable,
    def: PrimitiveDef,
    names: Seq<Seq<char>>,
    name: Seq<char>,
) -> bool {
    if names.contains(name) {
        docs.doc_of(name) is Some && def.documented_by(docs.doc_of(name)->0)
    } else {
        docs.doc_of(name) == start.doc_of(name)
    }
}

/// What registering primitives does.
pub open spec fn primitives_registered(
    docs: DocTable,
    docs_after: DocTable,
    symbols: SymbolTable,
    symbols_after: SymbolTable,
    defs: Vec<PrimitiveDef>,
    r: PrimitiveMeta,
) -> bool {
    &&& symbols_after@ == names_interned(symbols@, defs@)
    &&& describes(r, symbols_after@, defs@)
    &&& documented(docs_after, docs, defs@)
    &&& r.docs@.dom() == Set::<u32>::empty()
}

/// Register the primitives: build their metadata and document every name.
pub fn register_primitives(docs: &mut DocTable, symbols: &mut SymbolTable, defs: &Vec<PrimitiveDef>) -> (r:
    PrimitiveMeta)
    requires
        defs@.len() <= u32::MAX,
        old(symbols)@.len() + name_count(defs@) <= u32::MAX,
    ensures
        primitives_registered(
            *old(docs),
            *final(docs),
            *old(symbols),
            *final(symbols),
            *defs,
            r,
        ),
{
    let ghost start = symbols@;
    let ghost before = *docs;
    let mut meta = PrimitiveMeta::new();
    let _n: usize = symbols.len();
    let mut i: usize = 0;
    assert(defs@.take(0) =~= Seq::empty());
    assert forall|id: u32| #[trigger] entry_right(meta, symbols@, defs@.take(0), id) by {}
    assert forall|name: Seq<char>| #[trigger] doc_right(*docs, before, defs@.take(0), name) by {}
    while i < defs.len()
        invariant
            i <= defs@.len(),
            defs@.len() <= u32::MAX,
            start.len() + name_count(defs@) <= u32::MAX,
            symbols@.no_duplicates(),
            symbols@.len() <= start.len() + name_count(defs@.take(i as int)),
            symbols@ == names_interned(start, defs@.take(i as int)),
            describes(meta, symbols@, defs@.take(i as int)),
            documented(*docs, before, defs@.take(i as int)),
            meta.docs@.dom() == Set::<u32>::empty(),
        decreases defs.len() - i,
    {
        proof {
            lemma_name_count(defs@, i as int);
            assert(defs@.take(i + 1).drop_last() =~= defs@.take(i as int));
        }
        enter_def(&mut meta, symbols, defs, i);
        document_def(docs, defs, i, Ghost(before));
        i = i + 1;
    }
    assert(defs@.take(i as int) =~= defs@);
    meta
}

/// Intern the names and aliases of all primitives, in table order.
pub fn intern_primitive_names(symbols: &mut SymbolTable, defs: &Vec<PrimitiveDef>)
    requires
        old(symbols)@.len() + name_count(defs@) <= u32::MAX,
    ensures
        final(symbols)@ == names_interned(old(symbols)@, defs@),
{
    let ghost start = symbols@;
    let _n: usize = symbols.len();
    let mut i: usize = 0;
    assert(defs@.take(0) =~= Seq::empty());
    while i < defs.len()
        invariant
            i <= defs@.len(),
            start.len() + name_count(defs@) <= u32::MAX,
            symbols@.no_duplicates(),
            symbols@.len() <= start.len() + name_count(defs@.take(i as int)),
            symbols@ == names_interned(start, defs@.take(i as int)),
        decreases defs.len() - i,
    {
        let ghost mid = symbols@;
        let def = &defs[i];
        let ghost names = def.names();
        let n: usize = def.aliases.len();
        proof {
            lemma_name_count(defs@, i as int);
            assert(defs@.take(i + 1).drop_last() =~= defs@.take(i as int));
            lemma_interned_keeps(mid, def.name@);
            assert(names.take(1).drop_last() =~= Seq::empty());
            assert(names.take(1).last() == def.name@);
            assert(all_interned(mid, names.take(1).drop_last()) == mid);
        }
        symbols.intern(&def.name.to_string());
        let mut k: usize = 0;
        while k < n
            invariant
                *def == defs@[i as int],
                names == def.names(),
                n == def.aliases@.len(),
                k <= n,
                mid.len() + names.len() <= u32::MAX,
                symbols@.no_duplicates(),
                symbols@.len() <= mid.len() + k + 1,
                symbols@ == all_interned(mid, names.take(k + 1)),
            decreases n - k,
        {
            proof {
                lemma_interned_keeps(symbols@, def.aliases@[k as int]@);
                assert(names[k + 1] == def.aliases@[k as int]@);
                assert(names.take(k + 2).drop_last() =~= names.take(k + 1));
            }
            symbols.intern(&def.aliases[k].to_string());
            k = k + 1;
        }
        assert(names.take(n + 1) =~= names);
        i = i + 1;
    }
    assert(defs@.take(i as int) =~= defs@);
}

/// Interning the primitive names a second time changes nothing.
pub proof fn lemma_names_interned_once(symbols: Seq<Seq<char>>, defs: Seq<PrimitiveDef>)
    ensures
        names_interned(names_interned(symbols, defs), defs) == names_interned(symbols, defs),
{
    let once = names_interned(symbols, defs);
    lemma_names_present(symbols, defs, defs.len() as int);
    assert(defs.take(defs.len() as int) =~= defs);
    lemma_present_unchanged(once, defs);
}

proof fn lemma_all_interned_holds(symbols: Seq<Seq<char>>, names: Seq<Seq<char>>)
    ensures
        forall|n: Seq<char>| symbols.contains(n) ==> #[trigger] all_interned(symbols, names).contains(n),
        forall|i: int| 0 <= i < names.len() ==> all_interned(symbols, names).contains(#[trigger] names[i]),
    decreases names.len(),
{
    if names.len() > 0 {
        lemma_all_interned_holds(symbols, names.drop_last());
        let mid = all_interned(symbols, names.drop_last());
        let after = interned(mid, names.last());
        assert forall|n: Seq<char>| mid.contains(n) implies after.contains(n) by {
            let c = choose|c: int| 0 <= c < mid.len() && mid[c] == n;
            assert(after[c] == n);
        }
        assert(after.contains(names.last())) by {
            if !mid.contains(names.last()) {
                assert(after[mid.len() as int] == names.last());
            }
        }
        assert forall|i: int| 0 <= i < names.len() implies after.contains(#[trigger] names[i]) by {
            if i < names.len() - 1 {
                assert(names.drop_last()[i] == names[i]);
                assert(mid.contains(names[i]));
            }
        }
    }
}

proof fn lemma_names_present(symbols: Seq<Seq<char>>, defs: Seq<PrimitiveDef>, upto: int)
    requires
        0 <= upto <= defs.len(),
    ensures
        forall|n: Seq<char>|
            symbols.contains(n) ==> #[trigger] names_interned(symbols, defs.take(upto)).contains(n),
        forall|i: int, k: int|
            0 <= i < upto && 0 <= k < defs[i].names().len() ==> names_interned(symbols, defs.take(upto)).contains(
                #[trigger] defs[i].names()[k],
            ),
    decreases upto,
{
    if upto > 0 {
        lemma_names_present(symbols, defs, upto - 1);
        assert(defs.take(upto).drop_last() =~= defs.take(upto - 1));
        assert(defs.take(upto).last() == defs[upto - 1]);
        let mid = names_interned(symbols, defs.take(upto - 1));
        lemma_all_interned_holds(mid, defs[upto - 1].names());
    } else {
        assert(defs.take(0) =~= Seq::empty());
    }
}

proof fn lemma_present_unchanged(symbols: Seq<Seq<char>>, defs: Seq<PrimitiveDef>)
    requires
        forall|i: int, k: int|
            0 <= i < defs.len() && 0 <= k < defs[i].names().len() ==> symbols.contains(
                #[trigger] defs[i].names()[k],
            ),
    ensures
        names_interned(symbols, defs) == symbols,
    decreases defs.len(),
{
    if defs.len() > 0 {
        let init = defs.drop_last();
        assert forall|i: int, k: int|
            0 <= i < init.len() && 0 <= k < init[i].names().len() implies symbols.contains(
            #[trigger] init[i].names()[k],
        ) by {
            assert(init[i] == defs[i]);
        }
        lemma_present_unchanged(symbols, init);
        let names = defs.last().names();
        assert forall|k: int| 0 <= k < names.len() implies symbols.contains(#[trigger] names[k]) by {
            assert(defs[defs.len() - 1].names()[k] == names[k]);
        }
        lemma_all_present(symbols, names);
    }
}

proof fn lemma_all_present(symbols: Seq<Seq<char>>, names: Seq<Seq<char>>)
    requires
        forall|k: int| 0 <= k < names.len() ==> symbols.contains(#[trigger] names[k]),
    ensures
        all_interned(symbols, names) == symbols,
    decreases names.len(),
{
    if names.len() > 0 {
        let init = names.drop_last();
        assert forall|k: int| 0 <= k < init.len() implies symbols.contains(#[trigger] init[k]) by {
            assert(init[k] == names[k]);
        }
        lemma_all_present(symbols, init);
        assert(symbols.contains(names[names.len() - 1]));
    }
}

} // verus!
