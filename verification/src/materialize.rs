//! Building values from literal templates.

use vstd::prelude::*;
use vstd::utf8::encode_utf8;

use crate::ctx::{is_text, with_keyword};
use crate::heap::{
    lemma_abroad_agree, lemma_adopted, lemma_adopted_exactly, lemma_allocated, lemma_occurrences_add, lemma_taken_agree,
    lemma_taken_source, lemma_taken_split, occurrences, FiberHeap, HeapState, RuntimeRegion,
};
use crate::object::{HeapObject, HeapTag, Pair, Syntax};
use crate::span::optional_text;
use crate::symbol::{
    interned, interned_all, lemma_interned_all_add, lemma_interned_all_bound, lemma_interned_all_extends,
    lemma_interned_one, SymbolTable,
};
use crate::template::{trees, ConstTemplate, Tree};
use crate::value::{
    Value, TAG_ARRAY, TAG_ARRAY_MUT, TAG_CONS, TAG_HEAP_START, TAG_KEYWORD, TAG_STRING, TAG_STRING_MUT,
    TAG_SYMBOL, TAG_SYNTAX,
};

verus! {

/// One table of names extends another.
pub open spec fn extends(a: Seq<Seq<char>>, b: Seq<Seq<char>>) -> bool {
    a.len() <= b.len() && forall|i: int| 0 <= i < a.len() ==> #[trigger] b[i] == a[i]
}

/// The default traits are immediates, or live in `region`.
pub open spec fn local_traits(s: HeapState, region: u32) -> bool {
    forall|i: int|
        0 <= i < s.traits.len() ==> is_local(s, region, #[trigger] s.traits[i])
}

/// A value is an immediate, or lives in `region`.
pub open spec fn is_local(s: HeapState, region: u32, v: Value) -> bool {
    v.tag < TAG_HEAP_START || s.region_of(v) == Some(RuntimeRegion(region))
}

/// The objects born since, and nothing else, took references: each to the region
/// of every value it holds that lives in another region than its own, recorded and
/// counted in the order of their birth.
#[verifier::opaque]
pub open spec fn counted(a: HeapState, b: HeapState, region: u32) -> bool {
    let out = b.taken(region, a.objects.len() as int, b.objects.len() as int);
    &&& b.edges == if out.len() == 0 {
        a.edges
    } else {
        a.edges.update(region as int, a.edges[region as int] + out)
    }
    &&& out.len() == 0 || region < a.edges.len()
    &&& b.counts.len() == a.counts.len()
    &&& forall|r: u32|
        r < a.counts.len() ==> #[trigger] b.counts[r as int] == a.counts[r as int] + occurrences(out, r)
}

/// One heap comes of another by allocations in `region` alone. Where the default
/// traits are local, no reference was taken.
pub open spec fn grown(a: HeapState, b: HeapState, region: u32) -> bool {
    &&& a.objects.len() <= b.objects.len()
    &&& a.owners.len() == a.objects.len()
    &&& b.owners.len() == b.objects.len()
    &&& forall|i: int| 0 <= i < a.objects.len() ==> #[trigger] b.objects[i] == a.objects[i]
    &&& forall|i: int| 0 <= i < a.objects.len() ==> #[trigger] b.owners[i] == a.owners[i]
    &&& forall|i: int| a.objects.len() <= i < b.objects.len() ==> #[trigger] b.owners[i] == region
    &&& extends(a.keywords, b.keywords)
    &&& b.traits == a.traits
    &&& b.roots == a.roots
    &&& b.next_param == a.next_param
    &&& b.counts.len() == a.counts.len()
    &&& counted(a, b, region)
    &&& local_traits(a, region) ==> b.counts == a.counts && b.edges == a.edges
}

proof fn lemma_counted_trans(a: HeapState, b: HeapState, c: HeapState, region: u32)
    requires
        grown(a, b, region),
        grown(b, c, region),
    ensures
        counted(a, c, region),
{
    reveal(counted);
    let (la, lb, lc) = (a.objects.len() as int, b.objects.len() as int, c.objects.len() as int);
    lemma_taken_split(c, region, la, lb, lc);
    lemma_taken_agree(b, c, region, la, lb);
    let (x, y) = (b.taken(region, la, lb), c.taken(region, lb, lc));
    assert(c.taken(region, la, lc) == x + y);
    assert forall|r: u32| r < a.counts.len() implies #[trigger] c.counts[r as int] == a.counts[r as int]
        + occurrences(x + y, r) by {
        assert(c.counts[r as int] == b.counts[r as int] + occurrences(y, r));
        assert(b.counts[r as int] == a.counts[r as int] + occurrences(x, r));
        lemma_occurrences_add(x, y, r);
    }
    if x.len() == 0 {
        assert(x + y =~= y);
    } else if y.len() == 0 {
        assert(x + y =~= x);
    } else {
        let had = a.edges[region as int];
        assert((had + x) + y =~= had + (x + y));
        assert(c.edges =~= a.edges.update(region as int, had + (x + y)));
    }
}

pub proof fn lemma_grown_trans(a: HeapState, b: HeapState, c: HeapState, region: u32)
    requires
        grown(a, b, region),
        grown(b, c, region),
    ensures
        grown(a, c, region),
{
    lemma_counted_trans(a, b, c, region);
    assert forall|i: int| 0 <= i < a.objects.len() implies #[trigger] c.objects[i] == a.objects[i] by {
        assert(b.objects[i] == a.objects[i]);
    }
    assert forall|i: int| 0 <= i < a.objects.len() implies #[trigger] c.owners[i] == a.owners[i] by {
        assert(b.owners[i] == a.owners[i]);
    }
    assert forall|i: int| a.objects.len() <= i < c.objects.len() implies #[trigger] c.owners[i] == region by {
        if i < b.objects.len() {
            assert(b.owners[i] == region);
        }
    }
    assert forall|i: int| 0 <= i < a.keywords.len() implies #[trigger] c.keywords[i] == a.keywords[i] by {
        assert(b.keywords[i] == a.keywords[i]);
    }
    if local_traits(a, region) {
        assert forall|i: int| 0 <= i < b.traits.len() implies is_local(b, region, #[trigger] b.traits[i]) by {
            assert(is_local(a, region, a.traits[i]));
            lemma_local_grows(a, b, region, a.traits[i]);
        }
    }
}

pub(crate) proof fn lemma_local_grows(a: HeapState, b: HeapState, region: u32, v: Value)
    requires
        grown(a, b, region),
        is_local(a, region, v),
    ensures
        is_local(b, region, v),
{
    if v.tag >= TAG_HEAP_START {
        let i = a.target(v)->0;
        assert(b.owners[i] == a.owners[i]);
    }
}

/// A place that was filled from `lo` on, in `region`.
pub open spec fn fresh_at(s: HeapState, lo: int, region: u32, v: Value) -> bool {
    s.target(v) is Some && lo <= s.target(v)->0 && s.owners[s.target(v)->0] == region
}

/// How many objects a template becomes.
pub open spec fn nodes(t: Tree) -> nat
    decreases t,
{
    match t {
        Tree::Str(_) => 1,
        Tree::StrMut(_) => 1,
        Tree::Pair(a, b) => nodes(*a) + nodes(*b) + 1,
        Tree::Array(s) => nodes_all(s) + 1,
        Tree::ArrayMut(s) => nodes_all(s) + 1,
        Tree::SyntaxSymbol { .. } => 1,
        _ => 0,
    }
}

/// How many objects a run of templates becomes.
pub open spec fn nodes_all(s: Seq<Tree>) -> nat
    decreases s,
{
    if s.len() == 0 {
        0
    } else {
        nodes(s.last()) + nodes_all(s.drop_last())
    }
}

/// `v` is the object at place `i`, in `region`.
pub open spec fn sits(s: HeapState, i: int, region: u32, v: Value) -> bool {
    s.target(v) == Some(i) && s.owners[i] == region
}

/// `v` is what `t` says: every node of it an object of its own with the default
/// traits of its type, the objects in `region` and at the places from `lo` on, one
/// behind the other, each behind its parts.
pub open spec fn shows(
    s: HeapState,
    symbols: Seq<Seq<char>>,
    lo: int,
    region: u32,
    v: Value,
    t: Tree,
) -> bool
    decreases t,
{
    match t {
        Tree::Nil => v == Value::nil(),
        Tree::EmptyList => v == Value::empty_list(),
        Tree::Bool(b) => v == Value::bool(b),
        Tree::Int(n) => v == Value::integer(n),
        Tree::Float(f) => v == Value::float_bits(f),
        Tree::Symbol(name) => v.tag == TAG_SYMBOL && v.payload < symbols.len() && symbols[v.payload as int]
            == name,
        Tree::Keyword(name) => v.tag == TAG_KEYWORD && v.payload < s.keywords.len()
            && s.keywords[v.payload as int] == name,
        Tree::Str(text) => v.tag == TAG_STRING && sits(s, lo, region, v) && is_text(s.object(v), text)
            && s.object(v)->LString_traits == s.traits[HeapTag::LString.slot()],
        Tree::StrMut(text) => v.tag == TAG_STRING_MUT && sits(s, lo, region, v) && match s.object(v) {
            HeapObject::LStringMut { data, traits } => data@ == encode_utf8(text) && traits
                == s.traits[HeapTag::LStringMut.slot()],
            _ => false,
        },
        Tree::Pair(a, b) => v.tag == TAG_CONS && sits(s, lo + nodes(*a) + nodes(*b), region, v)
            && match s.object(v) {
            HeapObject::Pair(p) => {
                &&& shows(s, symbols, lo, region, p.first, *a)
                &&& shows(s, symbols, lo + nodes(*a), region, p.rest, *b)
                &&& p.traits == s.traits[HeapTag::Pair.slot()]
            },
            _ => false,
        },
        Tree::Array(items) => v.tag == TAG_ARRAY && sits(s, lo + nodes_all(items), region, v)
            && match s.object(v) {
            HeapObject::LArray { elements, traits } => {
                &&& elements@.len() == items.len()
                &&& forall|i: int|
                    0 <= i < items.len() ==> shows(
                        s,
                        symbols,
                        lo + nodes_all(items.take(i)),
                        region,
                        #[trigger] elements@[i],
                        items[i],
                    )
                &&& traits == s.traits[HeapTag::LArray.slot()]
            },
            _ => false,
        },
        Tree::ArrayMut(items) => v.tag == TAG_ARRAY_MUT && sits(s, lo + nodes_all(items), region, v)
            && match s.object(v) {
            HeapObject::LArrayMut { data, traits } => {
                &&& data@.len() == items.len()
                &&& forall|i: int|
                    0 <= i < items.len() ==> shows(
                        s,
                        symbols,
                        lo + nodes_all(items.take(i)),
                        region,
                        #[trigger] data@[i],
                        items[i],
                    )
                &&& traits == s.traits[HeapTag::LArrayMut.slot()]
            },
            _ => false,
        },
        Tree::SyntaxSymbol { name, scopes, start, end, line, col, file, scope_exempt } => v.tag
            == TAG_SYNTAX && sits(s, lo, region, v) && match s.object(v) {
            HeapObject::Syntax { syntax, traits } => {
                &&& syntax.name@ == name
                &&& syntax.scopes@ == scopes
                &&& syntax.span.start == start
                &&& syntax.span.end == end
                &&& syntax.span.line == line
                &&& syntax.span.col == col
                &&& optional_text(syntax.span.file) == file
                &&& syntax.scope_exempt == scope_exempt
                &&& traits == Value::nil()
            },
            _ => false,
        },
    }
}

/// The symbols that a template names, in order.
pub open spec fn symbol_names(t: Tree) -> Seq<Seq<char>>
    decreases t,
{
    match t {
        Tree::Symbol(name) => seq![name],
        Tree::Pair(a, b) => symbol_names(*a) + symbol_names(*b),
        Tree::Array(s) => symbol_names_all(s),
        Tree::ArrayMut(s) => symbol_names_all(s),
        _ => Seq::empty(),
    }
}

/// The symbols that a run of templates names, in order.
pub open spec fn symbol_names_all(s: Seq<Tree>) -> Seq<Seq<char>>
    decreases s,
{
    if s.len() == 0 {
        Seq::empty()
    } else {
        symbol_names_all(s.drop_last()) + symbol_names(s.last())
    }
}

/// The keywords that a template names, in order.
pub open spec fn keyword_names(t: Tree) -> Seq<Seq<char>>
    decreases t,
{
    match t {
        Tree::Keyword(name) => seq![name],
        Tree::Pair(a, b) => keyword_names(*a) + keyword_names(*b),
        Tree::Array(s) => keyword_names_all(s),
        Tree::ArrayMut(s) => keyword_names_all(s),
        _ => Seq::empty(),
    }
}

/// The keywords that a run of templates names, in order.
pub open spec fn keyword_names_all(s: Seq<Tree>) -> Seq<Seq<char>>
    decreases s,
{
    if s.len() == 0 {
        Seq::empty()
    } else {
        keyword_names_all(s.drop_last()) + keyword_names(s.last())
    }
}

/// What a heap holds of a template stays, whatever is allocated later in the same
/// region.
pub proof fn lemma_shows_grows(
    a: HeapState,
    b: HeapState,
    sa: Seq<Seq<char>>,
    sb: Seq<Seq<char>>,
    lo: int,
    region: u32,
    v: Value,
    t: Tree,
)
    requires
        grown(a, b, region),
        extends(sa, sb),
        shows(a, sa, lo, region, v, t),
    ensures
        shows(b, sb, lo, region, v, t),
    decreases t,
{
    if v.tag >= TAG_HEAP_START && a.target(v) is Some {
        let i = a.target(v)->0;
        assert(b.target(v) == a.target(v));
        assert(b.objects[i] == a.objects[i]);
        assert(b.owners[i] == a.owners[i]);
    }
    match t {
        Tree::Symbol(_) => {
            assert(sb[v.payload as int] == sa[v.payload as int]);
        },
        Tree::Keyword(_) => {
            assert(b.keywords[v.payload as int] == a.keywords[v.payload as int]);
        },
        Tree::Pair(x, y) => {
            let p = a.object(v)->Pair_0;
            lemma_shows_grows(a, b, sa, sb, lo, region, p.first, *x);
            lemma_shows_grows(a, b, sa, sb, lo + nodes(*x), region, p.rest, *y);
        },
        Tree::Array(items) => {
            let elements = a.object(v)->LArray_elements;
            assert forall|i: int| 0 <= i < items.len() implies shows(
                b,
                sb,
                lo + nodes_all(items.take(i)),
                region,
                #[trigger] elements@[i],
                items[i],
            ) by {
                lemma_shows_grows(a, b, sa, sb, lo + nodes_all(items.take(i)), region, elements@[i], items[i]);
            }
        },
        Tree::ArrayMut(items) => {
            let data = a.object(v)->LArrayMut_data;
            assert forall|i: int| 0 <= i < items.len() implies shows(
                b,
                sb,
                lo + nodes_all(items.take(i)),
                region,
                #[trigger] data@[i],
                items[i],
            ) by {
                lemma_shows_grows(a, b, sa, sb, lo + nodes_all(items.take(i)), region, data@[i], items[i]);
            }
        },
        _ => {},
    }
}

/// What shows a template is an immediate, or lives in the region.
proof fn lemma_shows_local(
    s: HeapState,
    symbols: Seq<Seq<char>>,
    lo: int,
    region: u32,
    v: Value,
    t: Tree,
)
    requires
        shows(s, symbols, lo, region, v, t),
    ensures
        is_local(s, region, v),
{
}

/// What building a template costs a heap at most.
pub open spec fn cost(t: Tree) -> nat
    decreases t,
{
    match t {
        Tree::Keyword(_) => 1,
        Tree::Str(_) => 2,
        Tree::StrMut(_) => 2,
        Tree::Pair(a, b) => cost(*a) + cost(*b) + 4,
        Tree::Array(s) => cost_all(s) + s.len() + 2,
        Tree::ArrayMut(s) => cost_all(s) + s.len() + 2,
        Tree::SyntaxSymbol { .. } => 2,
        _ => 0,
    }
}

/// What building a run of templates costs.
pub open spec fn cost_all(s: Seq<Tree>) -> nat
    decreases s,
{
    if s.len() == 0 {
        0
    } else {
        cost(s.last()) + cost_all(s.drop_last())
    }
}

/// How many symbols a template names.
pub open spec fn symbol_count(t: Tree) -> nat
    decreases t,
{
    match t {
        Tree::Symbol(_) => 1,
        Tree::Pair(a, b) => symbol_count(*a) + symbol_count(*b),
        Tree::Array(s) => symbol_count_all(s),
        Tree::ArrayMut(s) => symbol_count_all(s),
        _ => 0,
    }
}

/// How many symbols a run of templates names.
pub open spec fn symbol_count_all(s: Seq<Tree>) -> nat
    decreases s,
{
    if s.len() == 0 {
        0
    } else {
        symbol_count(s.last()) + symbol_count_all(s.drop_last())
    }
}

/// The template is an immediate.
pub open spec fn is_immediate(t: Tree) -> bool {
    match t {
        Tree::Nil => true,
        Tree::EmptyList => true,
        Tree::Bool(_) => true,
        Tree::Int(_) => true,
        Tree::Float(_) => true,
        Tree::Symbol(_) => true,
        Tree::Keyword(_) => true,
        _ => false,
    }
}

/// One allocation takes what the object holds of other regions.
proof fn lemma_allocated_counted(s: HeapState, obj: HeapObject, region: u32)
    requires
        s.valid(),
        region < s.counts.len(),
        s.objects.len() < crate::heap::MAX_OBJECTS,
    ensures
        counted(s, s.allocated(obj, region), region),
{
    reveal(counted);
    lemma_allocated(s, obj, region);
    let n = s.objects.len() as int;
    let base = HeapState { objects: s.objects.push(obj), owners: s.owners.push(region), ..s };
    let b = s.allocated(obj, region);
    assert(base.valid()) by {
        assert forall|i: int| 0 <= i < base.owners.len() implies base.owners[i] < base.counts.len() by {
            if i < s.owners.len() {
                assert(s.owners[i] < s.counts.len());
            }
        }
        assert forall|i: int, k: int|
            0 <= i < base.edges.len() && 0 <= k < base.edges[i].len() implies #[trigger] base.edges[i][k]
            < base.counts.len() by {
            assert(s.edges[i][k] < s.counts.len());
        }
    }
    lemma_adopted_exactly(base, region, obj.children());
    lemma_abroad_agree(base, b.upto(n), region, obj.children(), obj.children());
    assert(b.taken(region, n, n) =~= Seq::<u32>::empty());
    assert(b.taken(region, n, n + 1) =~= base.abroad(region, obj.children()));
    if base.abroad(region, obj.children()).len() == 0 {
        assert(b.edges =~= s.edges);
    }
}

/// Where nothing was born, nothing was taken.
pub(crate) proof fn lemma_nothing_counted(a: HeapState, b: HeapState, region: u32)
    requires
        b.objects.len() == a.objects.len(),
        b.counts == a.counts,
        b.edges == a.edges,
    ensures
        counted(a, b, region),
{
    reveal(counted);
}

/// What was counted does not depend on anything but what was taken.
pub(crate) proof fn lemma_same_counted(a: HeapState, b: HeapState, c: HeapState, region: u32)
    requires
        counted(a, b, region),
        c.objects.len() == b.objects.len(),
        c.counts == b.counts,
        c.edges == b.edges,
        c.taken(region, a.objects.len() as int, b.objects.len() as int) == b.taken(
            region,
            a.objects.len() as int,
            b.objects.len() as int,
        ),
    ensures
        counted(a, c, region),
{
    reveal(counted);
}

/// One allocation in `region` of an object whose parts are local.
pub(crate) proof fn lemma_node_grows(s: HeapState, obj: HeapObject, region: u32)
    requires
        s.valid(),
        region < s.counts.len(),
        s.objects.len() < crate::heap::MAX_OBJECTS,
        local_traits(s, region) ==> forall|i: int|
            0 <= i < obj.children().len() ==> is_local(s, region, #[trigger] obj.children()[i]),
    ensures
        grown(s, s.allocated(obj, region), region),
{
    lemma_allocated(s, obj, region);
    lemma_allocated_counted(s, obj, region);
    let base = HeapState { objects: s.objects.push(obj), owners: s.owners.push(region), ..s };
    assert(base.valid()) by {
        assert forall|i: int| 0 <= i < base.owners.len() implies base.owners[i] < base.counts.len() by {
            if i < s.owners.len() {
                assert(s.owners[i] < s.counts.len());
            }
        }
        assert forall|i: int, k: int|
            0 <= i < base.edges.len() && 0 <= k < base.edges[i].len() implies #[trigger] base.edges[i][k]
            < base.counts.len() by {
            assert(s.edges[i][k] < s.counts.len());
        }
    }
    lemma_adopted(base, region, obj.children());
    if local_traits(s, region) {
        let kids = obj.children();
        assert forall|i: int| 0 <= i < kids.len() implies (base.region_of(#[trigger] kids[i]) is None
            || base.region_of(kids[i]) == Some(RuntimeRegion(region))) by {
            assert(is_local(s, region, kids[i]));
            if kids[i].tag >= TAG_HEAP_START {
                assert(s.region_of(kids[i]) is Some);
                assert(base.target(kids[i]) == s.target(kids[i]));
            }
        }
    }
}

/// Interning a keyword allocates nothing.
pub(crate) proof fn lemma_keyword_grows(s: HeapState, name: Seq<char>, region: u32)
    requires
        s.valid(),
    ensures
        grown(s, with_keyword(s, name), region),
{
    lemma_nothing_counted(s, with_keyword(s, name), region);
    let after = with_keyword(s, name);
    assert forall|i: int| 0 <= i < s.keywords.len() implies #[trigger] after.keywords[i] == s.keywords[i] by {}
}

impl ConstTemplate {
    /// The value of an immediate template, its symbol interned; nothing for one
    /// that needs an allocation.
    pub fn immediate_value(&self, symbols: &mut SymbolTable, heap: &mut FiberHeap) -> (r: Option<Value>)
        requires
            old(symbols)@.len() < u32::MAX,
            old(heap)@.valid(),
            old(heap)@.room(1),
        ensures
            r is Some == is_immediate(self.tree()),
            r is Some ==> shows(
                final(heap)@,
                final(symbols)@,
                old(heap)@.objects.len() as int,
                0,
                r->0,
                self.tree(),
            ),
            final(heap)@ == match self.tree() {
                Tree::Keyword(name) => with_keyword(old(heap)@, name),
                _ => old(heap)@,
            },
            final(symbols)@ == match self.tree() {
                Tree::Symbol(name) => interned(old(symbols)@, name),
                _ => old(symbols)@,
            },
    {
        match self {
            ConstTemplate::Nil => Some(Value::nil()),
            ConstTemplate::EmptyList => Some(Value::empty_list()),
            ConstTemplate::Bool(b) => Some(Value::bool(*b)),
            ConstTemplate::Int(n) => Some(Value::integer(*n)),
            ConstTemplate::Float(f) => Some(Value::float_bits(*f)),
            ConstTemplate::Symbol(name) => {
                let id = symbols.intern(name);
                Some(Value::symbol(id.0))
            },
            ConstTemplate::Keyword(name) => Some(heap.keyword(name)),
            _ => None,
        }
    }

    /// Build a fresh value from this template into `region`, children first, so
    /// that every reference inside it stays in the region. Only a template that
    /// names a symbol needs a table.
    pub fn materialize(
        &self,
        heap: &mut FiberHeap,
        region: RuntimeRegion,
        symbols: Option<&mut SymbolTable>,
    ) -> (r: Value)
        requires
            old(heap)@.valid(),
            region.0 < old(heap)@.counts.len(),
            old(heap)@.room(cost(self.tree())),
            symbols matches Some(table) ==> table@.len() + symbol_count(self.tree()) <= u32::MAX,
            symbols is None ==> symbol_count(self.tree()) == 0,
        ensures
            shows(
                final(heap)@,
                match symbols {
                    Some(table) => final(table)@,
                    None => Seq::empty(),
                },
                old(heap)@.objects.len() as int,
                region.0,
                r,
                self.tree(),
            ),
            grown(old(heap)@, final(heap)@, region.0),
            final(heap)@.objects.len() == old(heap)@.objects.len() + nodes(self.tree()),
            final(heap)@.keywords == interned_all(old(heap)@.keywords, keyword_names(self.tree())),
            symbols matches Some(table) ==> final(table)@ == interned_all(
                table@,
                symbol_names(self.tree()),
            ),
            final(heap)@.valid(),
    {
        match symbols {
            Some(table) => self.build(heap, region, table),
            None => {
                let mut none = SymbolTable::new();
                proof {
                    lemma_symbol_count(self.tree());
                }
                self.build(heap, region, &mut none)
            },
        }
    }

    /// Build a value, where there is a table.
    #[verifier::spinoff_prover]
    #[verifier::rlimit(60)]
    fn build(&self, heap: &mut FiberHeap, region: RuntimeRegion, symbols: &mut SymbolTable) -> (r:
        Value)
        requires
            old(heap)@.valid(),
            region.0 < old(heap)@.counts.len(),
            old(heap)@.room(cost(self.tree())),
            old(symbols)@.len() + symbol_count(self.tree()) <= u32::MAX,
        ensures
            shows(
                final(heap)@,
                final(symbols)@,
                old(heap)@.objects.len() as int,
                region.0,
                r,
                self.tree(),
            ),
            grown(old(heap)@, final(heap)@, region.0),
            final(heap)@.objects.len() == old(heap)@.objects.len() + nodes(self.tree()),
            final(heap)@.keywords == interned_all(old(heap)@.keywords, keyword_names(self.tree())),
            final(symbols)@ == interned_all(old(symbols)@, symbol_names(self.tree())),
            final(heap)@.valid(),
            forall|n: nat| old(heap)@.room(n + cost(self.tree())) ==> #[trigger] final(heap)@.room(n),
        decreases self,
    {
        let ghost start = heap@;
        let ghost s0 = symbols@;
        let ghost lo = start.objects.len() as int;
        let ghost t = self.tree();
        proof {
            lemma_grown_self(start, region.0);
            lemma_symbol_count(t);
        }
        match self {
            ConstTemplate::Nil => Value::nil(),
            ConstTemplate::EmptyList => Value::empty_list(),
            ConstTemplate::Bool(b) => Value::bool(*b),
            ConstTemplate::Int(n) => Value::integer(*n),
            ConstTemplate::Float(f) => Value::float_bits(*f),
            ConstTemplate::Keyword(name) => {
                let v = heap.keyword(name);
                proof {
                    lemma_keyword_grows(start, name@, region.0);
                    lemma_interned_one(start.keywords, name@);
                }
                v
            },
            ConstTemplate::Symbol(name) => {
                let id = symbols.intern(name);
                proof {
                    lemma_interned_one(s0, name@);
                }
                Value::symbol(id.0)
            },
            ConstTemplate::Str(s) => {
                let traits = heap.default_traits_for(HeapTag::LString);
                assert(nodes(t) == 1 && keyword_names(t).len() == 0 && symbol_names(t).len() == 0);
                place(heap, HeapObject::LString { s: s.clone(), traits }, region)
            },
            ConstTemplate::StrMut(s) => {
                let traits = heap.default_traits_for(HeapTag::LStringMut);
                let mut data: Vec<u8> = Vec::new();
                crate::bytes::push_all(&mut data, s.as_str().as_bytes());
                assert(data@ =~= encode_utf8(s@));
                assert(nodes(t) == 1 && keyword_names(t).len() == 0 && symbol_names(t).len() == 0);
                place(heap, HeapObject::LStringMut { data, traits }, region)
            },
            ConstTemplate::Pair(car, cdr) => {
                let ghost (ta, tb) = (car.tree(), cdr.tree());
                let first = car.build(heap, region, symbols);
                let ghost (h1, s1) = (heap@, symbols@);
                proof {
                    assert(h1.room(cost(tb) + 4));
                    lemma_symbol_count(ta);
                    lemma_interned_all_bound(s0, symbol_names(ta));
                }
                let rest = cdr.build(heap, region, symbols);
                let ghost (h2, s2) = (heap@, symbols@);
                assert(h2.room(4));
                proof {
                    lemma_grown_trans(start, h1, h2, region.0);
                    lemma_interned_all_extends(s1, symbol_names(tb));
                    lemma_interned_all_add(s0, symbol_names(ta), symbol_names(tb));
                    lemma_interned_all_add(start.keywords, keyword_names(ta), keyword_names(tb));
                    lemma_shows_grows(h1, h2, s1, s2, lo, region.0, first, ta);
                    lemma_shows_local(h2, s2, lo, region.0, first, ta);
                    lemma_shows_local(h2, s2, lo + nodes(ta), region.0, rest, tb);
                }
                let traits = heap.default_traits_for(HeapTag::Pair);
                let v = place(heap, HeapObject::Pair(Pair { first, rest, traits }), region);
                proof {
                    lemma_grown_trans(start, h2, heap@, region.0);
                    assert(nodes(t) == nodes(ta) + nodes(tb) + 1);
                    assert(keyword_names(t) == keyword_names(ta) + keyword_names(tb));
                    assert(symbol_names(t) == symbol_names(ta) + symbol_names(tb));
                    lemma_shows_grows(h2, heap@, s2, s2, lo, region.0, first, ta);
                    lemma_shows_grows(h2, heap@, s2, s2, lo + nodes(ta), region.0, rest, tb);
                    assert forall|n: nat| start.room(n + cost(t)) implies #[trigger] heap@.room(n) by {
                        assert(h1.room(n + cost(tb) + 4));
                        assert(h2.room(n + 4));
                    }
                }
                v
            },
            ConstTemplate::Array(v) => {
                proof {
                    assert(t->Array_0 =~= trees(v@));
                    assert(t == Tree::Array(trees(v@)));
                    assert(nodes(t) == nodes_all(trees(v@)) + 1);
                    assert(keyword_names(t) == keyword_names_all(trees(v@)));
                    assert(symbol_names(t) == symbol_names_all(trees(v@)));
                }
                let elements = materialize_all(v, heap, region, symbols);
                let ghost h1 = heap@;
                assert(h1.room((elements@.len() + 2) as nat));
                proof {
                    lemma_all_local(h1, symbols@, lo, region.0, elements@, trees(v@));
                }
                let traits = heap.default_traits_for(HeapTag::LArray);
                let ghost kids = elements@;
                let r = place(heap, HeapObject::LArray { elements, traits }, region);
                proof {
                    lemma_grown_trans(start, h1, heap@, region.0);
                    lemma_all_grow(h1, heap@, symbols@, lo, region.0, kids, trees(v@));
                    assert forall|n: nat| start.room(n + cost(t)) implies #[trigger] heap@.room(n) by {
                        assert(h1.room(n + kids.len() + 2));
                    }
                }
                r
            },
            ConstTemplate::ArrayMut(v) => {
                proof {
                    assert(t->ArrayMut_0 =~= trees(v@));
                    assert(t == Tree::ArrayMut(trees(v@)));
                    assert(nodes(t) == nodes_all(trees(v@)) + 1);
                    assert(keyword_names(t) == keyword_names_all(trees(v@)));
                    assert(symbol_names(t) == symbol_names_all(trees(v@)));
                }
                let data = materialize_all(v, heap, region, symbols);
                let ghost h1 = heap@;
                assert(h1.room((data@.len() + 2) as nat));
                proof {
                    lemma_all_local(h1, symbols@, lo, region.0, data@, trees(v@));
                }
                let traits = heap.default_traits_for(HeapTag::LArrayMut);
                let ghost kids = data@;
                let r = place(heap, HeapObject::LArrayMut { data, traits }, region);
                proof {
                    lemma_grown_trans(start, h1, heap@, region.0);
                    lemma_all_grow(h1, heap@, symbols@, lo, region.0, kids, trees(v@));
                    assert forall|n: nat| start.room(n + cost(t)) implies #[trigger] heap@.room(n) by {
                        assert(h1.room(n + kids.len() + 2));
                    }
                }
                r
            },
            ConstTemplate::SyntaxSymbol { name, scopes, span, scope_exempt } => {
                let syntax = Syntax {
                    name: name.clone(),
                    scopes: scopes.clone(),
                    span: span.copy(),
                    scope_exempt: *scope_exempt,
                };
                assert(nodes(t) == 1 && keyword_names(t).len() == 0 && symbol_names(t).len() == 0);
                place(heap, HeapObject::Syntax { syntax, traits: Value::nil() }, region)
            },
        }
    }
}

/// Allocate an object whose parts are local.
pub(crate) fn place(heap: &mut FiberHeap, obj: HeapObject, region: RuntimeRegion) -> (r: Value)
    requires
        old(heap)@.valid(),
        region.0 < old(heap)@.counts.len(),
        old(heap)@.room(obj.children().len() + 1),
        obj.value_tag() >= TAG_HEAP_START,
        local_traits(old(heap)@, region.0) ==> forall|i: int|
            0 <= i < obj.children().len() ==> is_local(
                old(heap)@,
                region.0,
                #[trigger] obj.children()[i],
            ),
    ensures
        final(heap)@ == old(heap)@.allocated(obj, region.0),
        final(heap)@.objects == old(heap)@.objects.push(obj),
        final(heap)@.keywords == old(heap)@.keywords,
        final(heap)@.valid(),
        grown(old(heap)@, final(heap)@, region.0),
        final(heap)@.target(r) == Some(old(heap)@.objects.len() as int),
        final(heap)@.object(r) == obj,
        fresh_at(final(heap)@, old(heap)@.objects.len() as int, region.0, r),
        r.tag == obj.value_tag(),
        forall|n: nat|
            old(heap)@.room(n + obj.children().len() + 1) ==> #[trigger] final(heap)@.room(n),
{
    let ghost start = heap@;
    proof {
        lemma_node_grows(start, obj, region.0);
        lemma_allocated(start, obj, region.0);
    }
    let v = heap.alloc_in_region(obj, region);
    proof {
        assert forall|n: nat| start.room(n + obj.children().len() + 1) implies #[trigger] heap@.room(n) by {
            let m = n + obj.children().len() + 1;
            assert(start.allocated(obj, region.0).room((m - obj.children().len() - 1) as nat));
        }
    }
    v
}

/// Build a run of templates.
fn materialize_all(
    items: &Vec<ConstTemplate>,
    heap: &mut FiberHeap,
    region: RuntimeRegion,
    symbols: &mut SymbolTable,
) -> (r: Vec<Value>)
    requires
        old(heap)@.valid(),
        region.0 < old(heap)@.counts.len(),
        old(heap)@.room(cost_all(trees(items@))),
        old(symbols)@.len() + symbol_count_all(trees(items@)) <= u32::MAX,
    ensures
        r@.len() == items@.len(),
        all_show(
            final(heap)@,
            final(symbols)@,
            old(heap)@.objects.len() as int,
            region.0,
            r@,
            trees(items@),
        ),
        grown(old(heap)@, final(heap)@, region.0),
        final(heap)@.objects.len() == old(heap)@.objects.len() + nodes_all(trees(items@)),
        final(heap)@.keywords == interned_all(old(heap)@.keywords, keyword_names_all(trees(items@))),
        final(symbols)@ == interned_all(old(symbols)@, symbol_names_all(trees(items@))),
        final(heap)@.valid(),
        forall|n: nat|
            old(heap)@.room(n + cost_all(trees(items@))) ==> #[trigger] final(heap)@.room(n),
    decreases items,
{
    let ghost start = heap@;
    let ghost s0 = symbols@;
    let ghost lo = start.objects.len() as int;
    let ghost all = trees(items@);
    let mut out: Vec<Value> = Vec::new();
    let mut i: usize = 0;
    proof {
        assert(all.take(0) =~= Seq::empty());
        lemma_grown_self(start, region.0);
        lemma_symbol_count_all(all);
    }
    while i < items.len()
        invariant
            i <= items@.len(),
            all == trees(items@),
            lo == start.objects.len(),
            out@.len() == i,
            start.valid(),
            region.0 < start.counts.len(),
            start.room(cost_all(all)),
            s0.len() + symbol_count_all(all) <= u32::MAX,
            all_show(heap@, symbols@, lo, region.0, out@, all.take(i as int)),
            grown(start, heap@, region.0),
            heap@.valid(),
            heap@.objects.len() == lo + nodes_all(all.take(i as int)),
            heap@.keywords == interned_all(start.keywords, keyword_names_all(all.take(i as int))),
            symbols@ == interned_all(s0, symbol_names_all(all.take(i as int))),
            forall|n: nat| start.room(n + cost_all(all.take(i as int))) ==> #[trigger] heap@.room(n),
        decreases items.len() - i,
    {
        let ghost (h1, s1) = (heap@, symbols@);
        proof {
            assert(all.take(i + 1).drop_last() =~= all.take(i as int));
            assert(all.take(i + 1).last() == items@[i as int].tree());
            lemma_cost_prefix(all, i + 1);
            assert(cost_all(all) >= cost_all(all.take(i + 1)));
            lemma_room_less(start, cost_all(all), cost(items@[i as int].tree()) + cost_all(all.take(i as int)));
            lemma_symbol_count_all(all.take(i as int));
            lemma_interned_all_bound(s0, symbol_names_all(all.take(i as int)));
        }
        let v = items[i].build(heap, region, symbols);
        let ghost had = out@;
        out.push(v);
        proof {
            let (h2, s2) = (heap@, symbols@);
            let one = items@[i as int].tree();
            lemma_grown_trans(start, h1, h2, region.0);
            lemma_interned_all_extends(s1, symbol_names(one));
            lemma_interned_all_add(s0, symbol_names_all(all.take(i as int)), symbol_names(one));
            lemma_interned_all_add(start.keywords, keyword_names_all(all.take(i as int)), keyword_names(one));
            assert forall|k: int| 0 <= k < i + 1 implies shows(
                h2,
                s2,
                lo + nodes_all(all.take(i + 1).take(k)),
                region.0,
                #[trigger] out@[k],
                all.take(i + 1)[k],
            ) by {
                assert(all.take(i + 1).take(k) =~= all.take(k));
                if k < i {
                    assert(out@[k] == had[k]);
                    assert(all.take(i as int).take(k) =~= all.take(k));
                    assert(shows(
                        h1,
                        s1,
                        lo + nodes_all(all.take(i as int).take(k)),
                        region.0,
                        had[k],
                        all.take(i as int)[k],
                    ));
                    lemma_shows_grows(h1, h2, s1, s2, lo + nodes_all(all.take(k)), region.0, had[k], all[k]);
                }
            }
            assert forall|n: nat| start.room(n + cost_all(all.take(i + 1))) implies #[trigger] h2.room(n) by {
                assert(h1.room(n + cost(items@[i as int].tree())));
            }
        }
        i = i + 1;
    }
    assert(all.take(i as int) =~= all);
    out
}

/// Each value shows its template.
pub open spec fn all_show(
    s: HeapState,
    symbols: Seq<Seq<char>>,
    lo: int,
    region: u32,
    values: Seq<Value>,
    items: Seq<Tree>,
) -> bool {
    values.len() == items.len() && forall|i: int|
        0 <= i < items.len() ==> shows(
            s,
            symbols,
            lo + nodes_all(items.take(i)),
            region,
            #[trigger] values[i],
            items[i],
        )
}

proof fn lemma_all_grow(
    a: HeapState,
    b: HeapState,
    symbols: Seq<Seq<char>>,
    lo: int,
    region: u32,
    values: Seq<Value>,
    items: Seq<Tree>,
)
    requires
        grown(a, b, region),
        all_show(a, symbols, lo, region, values, items),
    ensures
        all_show(b, symbols, lo, region, values, items),
{
    assert forall|i: int| 0 <= i < items.len() implies shows(
        b,
        symbols,
        lo + nodes_all(items.take(i)),
        region,
        #[trigger] values[i],
        items[i],
    ) by {
        lemma_shows_grows(
            a,
            b,
            symbols,
            symbols,
            lo + nodes_all(items.take(i)),
            region,
            values[i],
            items[i],
        );
    }
}

proof fn lemma_all_local(
    s: HeapState,
    symbols: Seq<Seq<char>>,
    lo: int,
    region: u32,
    values: Seq<Value>,
    items: Seq<Tree>,
)
    requires
        all_show(s, symbols, lo, region, values, items),
    ensures
        forall|i: int| 0 <= i < values.len() ==> is_local(s, region, #[trigger] values[i]),
{
    assert forall|i: int| 0 <= i < values.len() implies is_local(s, region, #[trigger] values[i]) by {
        lemma_shows_local(s, symbols, lo + nodes_all(items.take(i)), region, values[i], items[i]);
    }
}

/// As many symbols are named as were counted.
proof fn lemma_symbol_count(t: Tree)
    ensures
        symbol_names(t).len() == symbol_count(t),
    decreases t,
{
    match t {
        Tree::Pair(a, b) => {
            lemma_symbol_count(*a);
            lemma_symbol_count(*b);
        },
        Tree::Array(s) => {
            lemma_symbol_count_all(s);
        },
        Tree::ArrayMut(s) => {
            lemma_symbol_count_all(s);
        },
        _ => {},
    }
}

proof fn lemma_symbol_count_all(s: Seq<Tree>)
    ensures
        symbol_names_all(s).len() == symbol_count_all(s),
    decreases s,
{
    if s.len() > 0 {
        lemma_symbol_count(s.last());
        lemma_symbol_count_all(s.drop_last());
    }
}

/// A heap comes of itself.
pub(crate) proof fn lemma_grown_self(s: HeapState, region: u32)
    requires
        s.valid(),
    ensures
        grown(s, s, region),
{
    lemma_nothing_counted(s, s, region);
}

proof fn lemma_cost_prefix(s: Seq<Tree>, k: int)
    requires
        0 <= k <= s.len(),
    ensures
        cost_all(s.take(k)) <= cost_all(s),
        symbol_count_all(s.take(k)) <= symbol_count_all(s),
    decreases s.len(),
{
    if k == s.len() {
        assert(s.take(k) =~= s);
    } else {
        lemma_cost_prefix(s.drop_last(), k);
        assert(s.drop_last().take(k) =~= s.take(k));
    }
}

pub(crate) proof fn lemma_room_less(s: HeapState, n: nat, m: nat)
    requires
        s.room(n),
        m <= n,
    ensures
        s.room(m),
{
    assert forall|r: int| 0 <= r < s.counts.len() implies #[trigger] s.counts[r] + m <= u32::MAX by {
        assert(s.counts[r] + n <= u32::MAX);
    }
}

/// What object `i` holds is an immediate, lives in `region`, or is one of the
/// default traits.
pub open spec fn keeps_home(s: HeapState, region: u32, i: int) -> bool {
    forall|k: int|
        0 <= k < s.objects[i].children().len() ==> is_local(
            s,
            region,
            #[trigger] s.objects[i].children()[k],
        ) || s.traits.contains(s.objects[i].children()[k])
}

proof fn lemma_nodes_keep_home(
    s: HeapState,
    symbols: Seq<Seq<char>>,
    lo: int,
    region: u32,
    v: Value,
    t: Tree,
)
    requires
        s.traits.len() == 30,
        shows(s, symbols, lo, region, v, t),
    ensures
        forall|i: int| lo <= i < lo + nodes(t) ==> #[trigger] keeps_home(s, region, i),
    decreases t,
{
    match t {
        Tree::Str(_) => {
            assert(s.traits.contains(s.traits[HeapTag::LString.slot()]));
        },
        Tree::StrMut(_) => {
            assert(s.traits.contains(s.traits[HeapTag::LStringMut.slot()]));
        },
        Tree::Pair(x, y) => {
            let p = s.object(v)->Pair_0;
            lemma_nodes_keep_home(s, symbols, lo, region, p.first, *x);
            lemma_nodes_keep_home(s, symbols, lo + nodes(*x), region, p.rest, *y);
            lemma_shows_local(s, symbols, lo, region, p.first, *x);
            lemma_shows_local(s, symbols, lo + nodes(*x), region, p.rest, *y);
            assert(s.traits.contains(s.traits[HeapTag::Pair.slot()]));
            assert(keeps_home(s, region, lo + nodes(*x) + nodes(*y)));
        },
        Tree::Array(items) => {
            let elements = s.object(v)->LArray_elements@;
            lemma_all_keep_home(s, symbols, lo, region, elements, items);
            lemma_all_local(s, symbols, lo, region, elements, items);
            assert(s.traits.contains(s.traits[HeapTag::LArray.slot()]));
            assert(keeps_home(s, region, lo + nodes_all(items))) by {
                assert(s.object(v).children() =~= elements.push(s.traits[HeapTag::LArray.slot()]));
            }
        },
        Tree::ArrayMut(items) => {
            let data = s.object(v)->LArrayMut_data@;
            lemma_all_keep_home(s, symbols, lo, region, data, items);
            lemma_all_local(s, symbols, lo, region, data, items);
            assert(s.traits.contains(s.traits[HeapTag::LArrayMut.slot()]));
            assert(keeps_home(s, region, lo + nodes_all(items))) by {
                assert(s.object(v).children() =~= data.push(s.traits[HeapTag::LArrayMut.slot()]));
            }
        },
        _ => {},
    }
}

proof fn lemma_all_keep_home(
    s: HeapState,
    symbols: Seq<Seq<char>>,
    lo: int,
    region: u32,
    values: Seq<Value>,
    items: Seq<Tree>,
)
    requires
        s.traits.len() == 30,
        all_show(s, symbols, lo, region, values, items),
    ensures
        forall|i: int| lo <= i < lo + nodes_all(items) ==> #[trigger] keeps_home(s, region, i),
    decreases items,
{
    if items.len() > 0 {
        let init = items.drop_last();
        let n = items.len() - 1;
        assert forall|i: int| 0 <= i < n implies shows(
            s,
            symbols,
            lo + nodes_all(init.take(i)),
            region,
            #[trigger] values.drop_last()[i],
            init[i],
        ) by {
            assert(values.drop_last()[i] == values[i]);
            assert(init.take(i) =~= items.take(i));
        }
        lemma_all_keep_home(s, symbols, lo, region, values.drop_last(), init);
        assert(items.take(n) =~= init);
        assert(shows(s, symbols, lo + nodes_all(items.take(n)), region, values[n], items[n]));
        lemma_nodes_keep_home(s, symbols, lo + nodes_all(init), region, values[n], items[n]);
    }
}

/// Every reference inside a materialized literal stays in its region: building it
/// changes the count of another region only where default traits live there.
pub proof fn lemma_materialized_counts_only_traits(
    a: HeapState,
    b: HeapState,
    symbols: Seq<Seq<char>>,
    region: u32,
    v: Value,
    t: Tree,
)
    requires
        a.valid(),
        b.valid(),
        grown(a, b, region),
        b.objects.len() == a.objects.len() + nodes(t),
        shows(b, symbols, a.objects.len() as int, region, v, t),
    ensures
        forall|r: u32|
            r < a.counts.len() && #[trigger] b.counts[r as int] != a.counts[r as int] ==> exists|i: int|
                0 <= i < 30 && b.region_of(#[trigger] b.traits[i]) == Some(RuntimeRegion(r)),
{
    reveal(counted);
    let (lo, hi) = (a.objects.len() as int, b.objects.len() as int);
    lemma_nodes_keep_home(b, symbols, lo, region, v, t);
    assert forall|r: u32|
        r < a.counts.len() && #[trigger] b.counts[r as int] != a.counts[r as int] implies exists|i: int|
        0 <= i < 30 && b.region_of(#[trigger] b.traits[i]) == Some(RuntimeRegion(r)) by {
        let (i, k) = lemma_taken_source(b, region, lo, hi, r);
        assert(keeps_home(b, region, i));
        let c = b.objects[i].children()[k];
        assert(b.upto(i).target(c) is Some);
        assert(b.region_of(c) == Some(RuntimeRegion(r)));
        assert(b.traits.contains(c));
        let j = choose|j: int| 0 <= j < b.traits.len() && b.traits[j] == c;
        assert(b.region_of(b.traits[j]) == Some(RuntimeRegion(r)));
    }
}

/// A materialized literal is one allocation unit: where the default traits are
/// immediates or live in its region, building it takes no reference to any
/// region, so giving the one region up reclaims all of it.
pub proof fn lemma_materialized_holds_only_its_region(a: HeapState, b: HeapState, region: u32)
    requires
        grown(a, b, region),
        local_traits(a, region),
    ensures
        b.counts == a.counts,
        b.edges == a.edges,
        forall|i: int| a.objects.len() <= i < b.objects.len() ==> #[trigger] b.owners[i] == region,
{
}

} // verus!
