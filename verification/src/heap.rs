//! The region heap.
//!
//! Objects are numbered in the order of their allocation, and object `i` has
//! the address `8 * (i + 1)`. Every object lives in one region; a region counts
//! the references to it, and records which regions its objects refer to. When
//! a count falls to zero the region dies and gives up the references it holds.

use vstd::prelude::*;

use crate::object::{HeapObject, HeapTag};
use crate::symbol::{id_in, interned, SymbolTable};
use crate::value::{Value, TAG_HEAP_START, TAG_KEYWORD};

verus! {

/// A region of one heap.
#[derive(Clone, Copy, PartialEq, Eq, Structural, Debug, Hash)]
pub struct RuntimeRegion(pub u32);

/// Why a reference is taken for a value that leaves its frame.
#[derive(Clone, Copy, PartialEq, Eq, Structural, Debug)]
pub enum EscapeSite {
    TerminalSignal,
    EmitEscape,
    SuspendEscape,
    ResumeDelivery,
    ParameterResolve,
    AbortDelivery,
    ParamBaseline,
    NativeCallResult,
}

/// Addresses stay below this.
pub const MAX_OBJECTS: u64 = 0x0fff_ffff_ffff_fff0;

/// What a heap holds.
pub struct HeapState {
    pub objects: Seq<HeapObject>,
    /// The region of each object.
    pub owners: Seq<u32>,
    /// The references to each region.
    pub counts: Seq<nat>,
    /// The regions that each region holds a reference to, one entry a reference.
    pub edges: Seq<Seq<u32>>,
    /// The registered process roots.
    pub roots: Seq<u32>,
    /// Keyword spellings by number.
    pub keywords: Seq<Seq<char>>,
    /// The default traits of each object type.
    pub traits: Seq<Value>,
    /// The number of the next parameter.
    pub next_param: u32,
}

/// The address of object `i`.
pub open spec fn address(i: int) -> int {
    8 * (i + 1)
}

/// The sum of all counts.
pub open spec fn total(counts: Seq<nat>) -> nat
    decreases counts.len(),
{
    if counts.len() == 0 {
        0
    } else {
        total(counts.drop_last()) + counts.last()
    }
}

pub proof fn lemma_total_update(counts: Seq<nat>, r: int, n: nat)
    requires
        0 <= r < counts.len(),
    ensures
        total(counts.update(r, n)) == total(counts) - counts[r] + n,
        counts[r] <= total(counts),
    decreases counts.len(),
{
    if r == counts.len() - 1 {
        assert(counts.update(r, n).drop_last() =~= counts.drop_last());
    } else {
        lemma_total_update(counts.drop_last(), r, n);
        assert(counts.update(r, n).drop_last() =~= counts.drop_last().update(r, n));
    }
}

impl HeapState {
    /// The tables fit together.
    pub open spec fn valid(self) -> bool {
        &&& self.owners.len() == self.objects.len()
        &&& self.edges.len() == self.counts.len()
        &&& self.traits.len() == 30
        &&& forall|i: int| 0 <= i < self.owners.len() ==> self.owners[i] < self.counts.len()
        &&& forall|i: int, k: int|
            0 <= i < self.edges.len() && 0 <= k < self.edges[i].len() ==> (#[trigger] self.edges[i][k])
                < self.counts.len() && self.edges[i][k] != i
        &&& forall|i: int| 0 <= i < self.roots.len() ==> self.roots[i] < self.counts.len()
    }

    /// `n` more objects, references, regions and keywords fit.
    pub open spec fn room(self, n: nat) -> bool {
        &&& self.objects.len() + n <= MAX_OBJECTS
        &&& self.counts.len() + n <= u32::MAX
        &&& self.keywords.len() + n < u32::MAX
        &&& forall|r: int| 0 <= r < self.counts.len() ==> #[trigger] self.counts[r] + n <= u32::MAX
    }

    /// The number of the object that `v` points to.
    pub open spec fn target(self, v: Value) -> Option<int> {
        if v.tag >= TAG_HEAP_START && v.payload % 8 == 0 && 8 <= v.payload && (v.payload / 8) - 1
            < self.objects.len() {
            Some((v.payload / 8) - 1)
        } else {
            None
        }
    }

    /// `v` points to an object of its tag.
    pub open spec fn resolves(self, v: Value) -> bool {
        self.target(v) is Some && self.objects[self.target(v)->0].value_tag() == v.tag
    }

    /// The object that `v` points to.
    pub open spec fn object(self, v: Value) -> HeapObject {
        self.objects[self.target(v)->0]
    }

    /// The region that `v` lives in; an immediate lives in none.
    pub open spec fn region_of(self, v: Value) -> Option<RuntimeRegion> {
        match self.target(v) {
            Some(i) => Some(RuntimeRegion(self.owners[i])),
            None => None,
        }
    }

    /// Nothing was put into the heap: region 0 stands for nothing, and no region
    /// is live.
    pub open spec fn untouched(self) -> bool {
        &&& self.objects.len() == 0
        &&& self.owners.len() == 0
        &&& self.counts == seq![0nat]
        &&& self.edges == seq![Seq::<u32>::empty()]
        &&& self.roots.len() == 0
        &&& self.keywords.len() == 0
        &&& forall|i: int| 0 <= i < 30 ==> #[trigger] self.traits[i] == Value::nil()
        &&& self.next_param == 0
    }

    /// The references to a region, none where the heap does not have it.
    pub open spec fn count(self, r: RuntimeRegion) -> nat {
        if r.0 < self.counts.len() {
            self.counts[r.0 as int]
        } else {
            0
        }
    }

    /// One more reference to `r`.
    pub open spec fn retained(self, r: u32) -> HeapState {
        HeapState {
            counts: self.counts.update(r as int, self.counts[r as int] + 1),
            ..self
        }
    }

    /// One more reference to `r`, if there is one.
    pub open spec fn retained_opt(self, r: Option<RuntimeRegion>) -> HeapState {
        match r {
            Some(r) if r.0 < self.counts.len() => self.retained(r.0),
            _ => self,
        }
    }

    /// `from` holds one more reference to `to`.
    pub open spec fn with_edge(self, from: u32, to: u32) -> HeapState {
        HeapState {
            edges: self.edges.update(from as int, self.edges[from as int].push(to)),
            ..self
        }
    }

    /// An edge recorded where both ends are regions of the heap and differ.
    pub open spec fn edge_recorded(
        self,
        from: Option<RuntimeRegion>,
        to: Option<RuntimeRegion>,
    ) -> HeapState {
        if from is Some && to is Some && from != to && (from->0).0 < self.counts.len() && (to->0).0
            < self.counts.len() {
            self.with_edge((from->0).0, (to->0).0)
        } else {
            self
        }
    }

    /// The first edge from `from` to `to` forgotten, if there is one.
    pub open spec fn edge_unrecorded(
        self,
        from: Option<RuntimeRegion>,
        to: Option<RuntimeRegion>,
    ) -> HeapState {
        if from is Some && to is Some && (from->0).0 < self.edges.len() {
            HeapState {
                edges: self.edges.update(
                    (from->0).0 as int,
                    without_first(self.edges[(from->0).0 as int], (to->0).0),
                ),
                ..self
            }
        } else {
            self
        }
    }

    /// Region `own` takes a counted reference to the region of every value that
    /// lives in another one.
    pub open spec fn adopted(self, own: u32, values: Seq<Value>) -> HeapState
        decreases values.len(),
    {
        if values.len() == 0 {
            self
        } else {
            let before = self.adopted(own, values.drop_last());
            match before.region_of(values.last()) {
                Some(r) if r.0 != own => before.retained(r.0).with_edge(own, r.0),
                _ => before,
            }
        }
    }

    /// The regions other than `own` that the values live in, in order and each as
    /// often as it occurs.
    pub open spec fn abroad(self, own: u32, values: Seq<Value>) -> Seq<u32>
        decreases values.len(),
    {
        if values.len() == 0 {
            Seq::empty()
        } else {
            let before = self.abroad(own, values.drop_last());
            match self.region_of(values.last()) {
                Some(r) if r.0 != own => before.push(r.0),
                _ => before,
            }
        }
    }

    /// The heap as it was when object `i` was the newest.
    pub open spec fn upto(self, i: int) -> HeapState {
        HeapState { objects: self.objects.take(i + 1), owners: self.owners.take(i + 1), ..self }
    }

    /// The regions other than `own` that the objects from `lo` up to `hi` took a
    /// counted reference to, each when it was born, in that order.
    pub open spec fn taken(self, own: u32, lo: int, hi: int) -> Seq<u32>
        decreases hi - lo,
    {
        if hi <= lo {
            Seq::empty()
        } else {
            self.taken(own, lo, hi - 1) + self.upto(hi - 1).abroad(own, self.objects[hi - 1].children())
        }
    }

    /// The heap with `obj` as its newest object, in region `own`.
    pub open spec fn allocated(self, obj: HeapObject, own: u32) -> HeapState {
        HeapState {
            objects: self.objects.push(obj),
            owners: self.owners.push(own),
            ..self
        }.adopted(own, obj.children())
    }

    /// The value of the newest object.
    pub open spec fn newest(self) -> Value {
        Value {
            tag: self.objects.last().value_tag(),
            payload: address(self.objects.len() - 1) as u64,
        }
    }

    /// The heap with one more region, held by its creator alone.
    pub open spec fn with_region(self) -> HeapState {
        HeapState { counts: self.counts.push(1), edges: self.edges.push(Seq::empty()), ..self }
    }

    /// References given up one after another: each lowers its region's count,
    /// and a count that reaches zero gives up what that region holds in turn.
    /// A region that is dead already stays so.
    pub open spec fn released(self, work: Seq<u32>) -> HeapState
        decreases total(self.counts), work.len(),
    {
        if work.len() == 0 {
            self
        } else {
            let r = work[0] as int;
            let rest = work.subrange(1, work.len() as int);
            if r >= self.counts.len() || self.counts[r] == 0 {
                self.released(rest)
            } else {
                proof {
                    lemma_total_update(self.counts, r, (self.counts[r] - 1) as nat);
                }
                let counts = self.counts.update(r, (self.counts[r] - 1) as nat);
                if self.counts[r] == 1 && r < self.edges.len() {
                    HeapState {
                        counts,
                        edges: self.edges.update(r, Seq::empty()),
                        ..self
                    }.released(rest + self.edges[r])
                } else {
                    HeapState { counts, ..self }.released(rest)
                }
            }
        }
    }

    /// One reference to `r` given up.
    pub open spec fn decref(self, r: u32) -> HeapState {
        self.released(seq![r])
    }

    /// One reference given up, if there is one to give.
    pub open spec fn decref_opt(self, r: Option<RuntimeRegion>) -> HeapState {
        match r {
            Some(r) => self.decref(r.0),
            None => self,
        }
    }

    /// Everything but the reference counts and edges is as before.
    pub open spec fn same_objects(self, other: HeapState) -> bool {
        &&& self.objects == other.objects
        &&& self.owners == other.owners
        &&& self.roots == other.roots
        &&& self.keywords == other.keywords
        &&& self.traits == other.traits
        &&& self.next_param == other.next_param
        &&& self.counts.len() == other.counts.len()
        &&& self.edges.len() == other.edges.len()
    }
}

/// Giving up references leaves objects, their regions and every other table as
/// they are, raises no count, keeps dead regions dead, and keeps the tables
/// consistent.
pub proof fn lemma_released(s: HeapState, work: Seq<u32>)
    requires
        s.valid(),
        forall|i: int| 0 <= i < work.len() ==> work[i] < s.counts.len(),
    ensures
        s.released(work).same_objects(s),
        s.released(work).valid(),
        forall|r: int| 0 <= r < s.counts.len() ==> #[trigger] s.released(work).counts[r] <= s.counts[r],
    decreases total(s.counts), work.len(),
{
    if work.len() > 0 {
        let r = work[0] as int;
        let rest = work.subrange(1, work.len() as int);
        if s.counts[r] == 0 {
            lemma_released(s, rest);
        } else {
            lemma_total_update(s.counts, r, (s.counts[r] - 1) as nat);
            let counts = s.counts.update(r, (s.counts[r] - 1) as nat);
            if s.counts[r] == 1 {
                let next = HeapState { counts, edges: s.edges.update(r, Seq::empty()), ..s };
                let more = rest + s.edges[r];
                assert forall|i: int| 0 <= i < more.len() implies more[i] < next.counts.len() by {
                    if i >= rest.len() {
                        assert(s.edges[r][i - rest.len()] < s.counts.len());
                    }
                }
                assert forall|i: int, k: int|
                    0 <= i < next.edges.len() && 0 <= k
                        < next.edges[i].len() implies #[trigger] next.edges[i][k]
                    < next.counts.len() by {
                    assert(s.edges[i][k] < s.counts.len());
                }
                lemma_released(next, more);
                assert forall|q: int| 0 <= q < s.counts.len() implies #[trigger] s.released(work).counts[q]
                    <= s.counts[q] by {
                    assert(next.released(more).counts[q] <= next.counts[q]);
                }
            } else {
                let next = HeapState { counts, ..s };
                lemma_released(next, rest);
                assert forall|q: int| 0 <= q < s.counts.len() implies #[trigger] s.released(work).counts[q]
                    <= s.counts[q] by {
                    assert(next.released(rest).counts[q] <= next.counts[q]);
                }
            }
        }
    }
}

/// Giving up one reference lowers exactly its region's count by one where the
/// region is held more than once, and in any case lowers that count by one
/// unless the region is dead.
pub proof fn lemma_decref(s: HeapState, r: u32)
    requires
        s.valid(),
        r < s.counts.len(),
    ensures
        s.counts[r as int] > 1 ==> s.decref(r) == (HeapState {
            counts: s.counts.update(r as int, (s.counts[r as int] - 1) as nat),
            ..s
        }),
        s.counts[r as int] == 0 ==> s.decref(r) == s,
        s.counts[r as int] > 0 ==> s.decref(r).counts[r as int] == s.counts[r as int] - 1,
        s.counts[r as int] == 1 && s.edges[r as int].len() == 0 ==> s.decref(r) == (HeapState {
            counts: s.counts.update(r as int, 0),
            ..s
        }),
        s.decref(r).same_objects(s),
        s.decref(r).valid(),
        forall|q: int| 0 <= q < s.counts.len() ==> #[trigger] s.decref(r).counts[q] <= s.counts[q],
{
    let work = seq![r];
    lemma_released(s, work);
    let rest = work.subrange(1, 1);
    assert(rest =~= Seq::empty());
    let k = r as int;
    if s.counts[k] == 0 {
        assert(s.released(rest) == s);
    } else {
        lemma_total_update(s.counts, k, (s.counts[k] - 1) as nat);
        let counts = s.counts.update(k, (s.counts[k] - 1) as nat);
        if s.counts[k] == 1 {
            let next = HeapState { counts, edges: s.edges.update(k, Seq::empty()), ..s };
            let more = rest + s.edges[k];
            assert(more =~= s.edges[k]);
            assert forall|i: int, j: int|
                0 <= i < next.edges.len() && 0 <= j < next.edges[i].len() implies #[trigger] next.edges[i][j]
                < next.counts.len() by {
                assert(s.edges[i][j] < s.counts.len());
            }
            assert forall|i: int| 0 <= i < more.len() implies more[i] < next.counts.len() by {
                assert(s.edges[k][i] < s.counts.len());
            }
            lemma_released(next, more);
            assert(next.released(more).counts[k] <= next.counts[k]);
            if s.edges[k].len() == 0 {
                assert(next.edges =~= s.edges);
            }
        } else {
            assert((HeapState { counts, ..s }).released(rest) == (HeapState { counts, ..s }));
        }
    }
}

/// Taking counted references to other regions leaves the objects and their
/// regions as they are, and raises no count by more than one a value.
pub proof fn lemma_adopted(s: HeapState, own: u32, values: Seq<Value>)
    requires
        s.valid(),
        own < s.counts.len(),
    ensures
        s.adopted(own, values).same_objects(s),
        s.adopted(own, values).valid(),
        forall|r: int|
            0 <= r < s.counts.len() ==> s.counts[r] <= #[trigger] s.adopted(own, values).counts[r]
                <= s.counts[r] + values.len(),
        (forall|i: int| 0 <= i < values.len() ==> (s.region_of(#[trigger] values[i]) is None || s.region_of(
            values[i],
        ) == Some(RuntimeRegion(own)))) ==> s.adopted(own, values) == s,
    decreases values.len(),
{
    if values.len() > 0 {
        let init = values.drop_last();
        lemma_adopted(s, own, init);
        let before = s.adopted(own, init);
        let v = values.last();
        assert(before.region_of(v) == s.region_of(v));
        if forall|i: int| 0 <= i < values.len() ==> (s.region_of(#[trigger] values[i]) is None || s.region_of(
            values[i],
        ) == Some(RuntimeRegion(own))) {
            assert forall|i: int| 0 <= i < init.len() implies (s.region_of(#[trigger] init[i]) is None
                || s.region_of(init[i]) == Some(RuntimeRegion(own))) by {
                assert(init[i] == values[i]);
            }
            assert(values[values.len() - 1] == v);
        }
        match before.region_of(v) {
            Some(r) if r.0 != own => {
                let i = before.target(v)->0;
                assert(before.owners[i] < before.counts.len());
                let after = before.retained(r.0).with_edge(own, r.0);
                assert forall|i: int, k: int|
                    0 <= i < after.edges.len() && 0 <= k < after.edges[i].len() implies #[trigger] after.edges[i][k]
                    < after.counts.len() by {
                    if i == own && k == before.edges[i].len() {
                    } else {
                        assert(before.edges[i][k] < before.counts.len());
                    }
                }
            },
            _ => {},
        }
    }
}

/// Taking counted references records each one, in order, and raises the count of
/// each region by as many as were taken to it.
pub proof fn lemma_adopted_exactly(s: HeapState, own: u32, values: Seq<Value>)
    requires
        s.valid(),
        own < s.counts.len(),
    ensures
        s.adopted(own, values).edges == s.edges.update(
            own as int,
            s.edges[own as int] + s.abroad(own, values),
        ),
        forall|r: u32|
            r < s.counts.len() ==> #[trigger] s.adopted(own, values).counts[r as int] == s.counts[r as int]
                + occurrences(s.abroad(own, values), r),
    decreases values.len(),
{
    if values.len() > 0 {
        let init = values.drop_last();
        lemma_adopted_exactly(s, own, init);
        lemma_adopted(s, own, init);
        let before = s.adopted(own, init);
        let v = values.last();
        assert(before.region_of(v) == s.region_of(v));
        match s.region_of(v) {
            Some(r) if r.0 != own => {
                let after = s.adopted(own, values);
                assert(s.owners[s.target(v)->0] < s.counts.len());
                assert(s.abroad(own, values).drop_last() =~= s.abroad(own, init));
                assert(after.edges =~= s.edges.update(own as int, s.edges[own as int] + s.abroad(own, values)));
            },
            _ => {},
        }
    } else {
        assert(s.edges =~= s.edges.update(own as int, s.edges[own as int] + s.abroad(own, values)));
    }
}

/// How often a region occurs in two runs together.
pub proof fn lemma_occurrences_add(a: Seq<u32>, b: Seq<u32>, x: u32)
    ensures
        occurrences(a + b, x) == occurrences(a, x) + occurrences(b, x),
    decreases b.len(),
{
    if b.len() == 0 {
        assert(a + b =~= a);
    } else {
        lemma_occurrences_add(a, b.drop_last(), x);
        assert((a + b).drop_last() =~= a + b.drop_last());
    }
}

/// What some objects took does not depend on what was born later.
pub proof fn lemma_taken_agree(a: HeapState, b: HeapState, own: u32, lo: int, hi: int)
    requires
        0 <= lo,
        hi <= a.objects.len(),
        hi <= b.objects.len(),
        a.owners.len() == a.objects.len(),
        b.owners.len() == b.objects.len(),
        forall|i: int| lo <= i < hi ==> (#[trigger] b.objects[i]) == a.objects[i],
        forall|i: int| 0 <= i < hi ==> #[trigger] b.owners[i] == a.owners[i],
    ensures
        b.taken(own, lo, hi) == a.taken(own, lo, hi),
    decreases hi - lo,
{
    if lo < hi {
        lemma_taken_agree(a, b, own, lo, hi - 1);
        assert(b.objects[hi - 1] == a.objects[hi - 1]);
        lemma_abroad_agree(
            a.upto(hi - 1),
            b.upto(hi - 1),
            own,
            a.objects[hi - 1].children(),
            b.objects[hi - 1].children(),
        );
    }
}

/// Values of the same regions are abroad alike: each is the same value, or lives
/// at home in both.
pub proof fn lemma_abroad_agree(a: HeapState, b: HeapState, own: u32, x: Seq<Value>, y: Seq<Value>)
    requires
        a.owners.len() == a.objects.len(),
        b.owners.len() == b.objects.len(),
        a.owners =~= b.owners,
        x.len() == y.len(),
        forall|i: int|
            0 <= i < x.len() ==> (#[trigger] x[i] == y[i] || at_home(a, own, x[i]) && at_home(a, own, y[i])),
    ensures
        a.abroad(own, x) == b.abroad(own, y),
    decreases x.len(),
{
    if x.len() > 0 {
        assert forall|i: int| 0 <= i < x.drop_last().len() implies (#[trigger] x.drop_last()[i]
            == y.drop_last()[i] || at_home(a, own, x.drop_last()[i]) && at_home(a, own, y.drop_last()[i])) by {
            assert(x.drop_last()[i] == x[i]);
        }
        lemma_abroad_agree(a, b, own, x.drop_last(), y.drop_last());
        assert(x.last() == x[x.len() - 1]);
    }
}

/// A value lives in no other region than `own`.
pub open spec fn at_home(s: HeapState, own: u32, v: Value) -> bool {
    s.region_of(v) is None || s.region_of(v) == Some(RuntimeRegion(own))
}

/// Object `i` holds, at place `k`, a value of region `r`.
pub open spec fn holds_of(s: HeapState, i: int, k: int, r: u32) -> bool {
    0 <= k < s.objects[i].children().len() && s.upto(i).region_of(s.objects[i].children()[k]) == Some(
        RuntimeRegion(r),
    )
}

/// What is abroad is the region of one of the values.
pub proof fn lemma_abroad_source(s: HeapState, own: u32, values: Seq<Value>, r: u32) -> (k: int)
    requires
        occurrences(s.abroad(own, values), r) > 0,
    ensures
        0 <= k < values.len(),
        s.region_of(values[k]) == Some(RuntimeRegion(r)),
        r != own,
    decreases values.len(),
{
    let before = s.abroad(own, values.drop_last());
    let now = s.abroad(own, values);
    if now.len() > before.len() {
        assert(now.drop_last() =~= before);
    }
    if now.len() > before.len() && now.last() == r {
        values.len() - 1
    } else {
        let k = lemma_abroad_source(s, own, values.drop_last(), r);
        assert(values.drop_last()[k] == values[k]);
        k
    }
}

/// A reference was taken for a value that one of the objects holds.
pub proof fn lemma_taken_source(s: HeapState, own: u32, lo: int, hi: int, r: u32) -> (at: (int, int))
    requires
        occurrences(s.taken(own, lo, hi), r) > 0,
    ensures
        lo <= at.0 < hi,
        holds_of(s, at.0, at.1, r),
        r != own,
    decreases hi - lo,
{
    let last = s.upto(hi - 1).abroad(own, s.objects[hi - 1].children());
    lemma_occurrences_add(s.taken(own, lo, hi - 1), last, r);
    if occurrences(last, r) > 0 {
        let k = lemma_abroad_source(s.upto(hi - 1), own, s.objects[hi - 1].children(), r);
        (hi - 1, k)
    } else {
        lemma_taken_source(s, own, lo, hi - 1, r)
    }
}

/// What two runs of objects took, one behind the other.
pub proof fn lemma_taken_split(s: HeapState, own: u32, lo: int, mid: int, hi: int)
    requires
        lo <= mid <= hi,
    ensures
        s.taken(own, lo, hi) == s.taken(own, lo, mid) + s.taken(own, mid, hi),
    decreases hi - mid,
{
    if mid == hi {
        assert(s.taken(own, lo, hi) =~= s.taken(own, lo, mid) + s.taken(own, mid, hi));
    } else {
        lemma_taken_split(s, own, lo, mid, hi - 1);
        assert(s.taken(own, lo, hi) =~= s.taken(own, lo, mid) + s.taken(own, mid, hi));
    }
}

/// Allocation appends one object in the named region, leaves every older object
/// in its region, and costs at most one reference a held value; where all held
/// values are immediates or live in the same region, it costs none.
pub proof fn lemma_allocated(s: HeapState, obj: HeapObject, own: u32)
    requires
        s.valid(),
        own < s.counts.len(),
        s.objects.len() < MAX_OBJECTS,
    ensures
        s.allocated(obj, own).valid(),
        s.allocated(obj, own).objects == s.objects.push(obj),
        s.allocated(obj, own).owners == s.owners.push(own),
        s.allocated(obj, own).roots == s.roots,
        s.allocated(obj, own).keywords == s.keywords,
        s.allocated(obj, own).traits == s.traits,
        s.allocated(obj, own).next_param == s.next_param,
        s.allocated(obj, own).counts.len() == s.counts.len(),
        s.allocated(obj, own).newest().payload == address(s.objects.len() as int),
        s.allocated(obj, own).newest().tag == obj.value_tag(),
        obj.value_tag() >= TAG_HEAP_START ==> s.allocated(obj, own).region_of(
            s.allocated(obj, own).newest(),
        ) == Some(RuntimeRegion(own)),
        obj.value_tag() >= TAG_HEAP_START ==> s.allocated(obj, own).resolves(
            s.allocated(obj, own).newest(),
        ),
        forall|v: Value| s.target(v) is Some ==> s.allocated(obj, own).target(v) == #[trigger] s.target(v),
        forall|v: Value|
            s.target(v) is Some ==> s.allocated(obj, own).region_of(v) == #[trigger] s.region_of(v),
        forall|r: int|
            0 <= r < s.counts.len() ==> s.counts[r] <= #[trigger] s.allocated(obj, own).counts[r]
                <= s.counts[r] + obj.children().len(),
        forall|n: nat|
            s.room(n) && obj.children().len() + 1 <= n ==> #[trigger] s.allocated(obj, own).room(
                (n - obj.children().len() - 1) as nat,
            ),
{
    let base = HeapState { objects: s.objects.push(obj), owners: s.owners.push(own), ..s };
    assert(base.valid()) by {
        assert forall|i: int| 0 <= i < base.owners.len() implies base.owners[i] < base.counts.len() by {
            if i < s.owners.len() {
                assert(s.owners[i] < s.counts.len());
            }
        }
        assert forall|i: int, k: int|
            0 <= i < base.edges.len() && 0 <= k < base.edges[i].len() implies #[trigger] base.edges[i][k]
            < base.counts.len() by {
            assert(s.edges[i][k] < s.counts.len());
        }
    }
    lemma_adopted(base, own, obj.children());
    let after = s.allocated(obj, own);
    assert forall|r: int| 0 <= r < s.counts.len() implies s.counts[r] <= #[trigger] after.counts[r]
        <= s.counts[r] + obj.children().len() by {
        assert(base.counts[r] <= base.adopted(own, obj.children()).counts[r]);
    }
    assert forall|n: nat|
        s.room(n) && obj.children().len() + 1 <= n implies #[trigger] after.room(
        (n - obj.children().len() - 1) as nat,
    ) by {
        assert forall|r: int| 0 <= r < after.counts.len() implies #[trigger] after.counts[r] + (n
            - obj.children().len() - 1) <= u32::MAX by {
            assert(s.counts[r] + n <= u32::MAX);
        }
    }
    let v = after.newest();
    assert(v.payload == address(s.objects.len() as int));
    assert(v.payload % 8 == 0);
    assert(v.payload / 8 - 1 == s.objects.len());
}

/// The region store of one instance.
pub struct FiberHeap {
    objects: Vec<HeapObject>,
    owners: Vec<u32>,
    counts: Vec<u32>,
    edges: Vec<Vec<u32>>,
    roots: Vec<u32>,
    keywords: SymbolTable,
    traits: Vec<Value>,
    next_param: u32,
}

impl View for FiberHeap {
    type V = HeapState;

    closed spec fn view(&self) -> HeapState {
        HeapState {
            objects: self.objects@,
            owners: self.owners@,
            counts: Seq::new(self.counts@.len(), |i: int| self.counts@[i] as nat),
            edges: Seq::new(self.edges@.len(), |i: int| self.edges@[i]@),
            roots: self.roots@,
            keywords: self.keywords@,
            traits: self.traits@,
            next_param: self.next_param,
        }
    }
}

/// What opening a region does.
pub open spec fn region_opened(
    heap: FiberHeap,
    heap_after: FiberHeap,
    r: RuntimeRegion,
) -> bool {
    &&& r.0 == heap@.counts.len()
    &&& heap_after@ == heap@.with_region()
    &&& heap_after@.valid()
    &&& heap_after@.count(r) == 1
}

/// What adding a reference does.
pub open spec fn reference_added(
    heap: FiberHeap,
    heap_after: FiberHeap,
    r: RuntimeRegion,
) -> bool {
    &&& heap_after@ == heap@.retained(r.0)
    &&& heap_after@.valid()
}

/// What giving up a reference does.
pub open spec fn reference_dropped(
    heap: FiberHeap,
    heap_after: FiberHeap,
    r: RuntimeRegion,
) -> bool {
    &&& heap_after@ == heap@.decref(r.0)
    &&& heap_after@.valid()
    &&& heap_after@.same_objects(heap@)
}

/// What recording an edge does.
pub open spec fn edge_added(
    heap: FiberHeap,
    heap_after: FiberHeap,
    from: Option<RuntimeRegion>,
    to: Option<RuntimeRegion>,
) -> bool {
    &&& heap_after@ == heap@.edge_recorded(from, to)
    &&& heap_after@.valid()
}

/// What forgetting an edge does.
pub open spec fn edge_dropped(
    heap: FiberHeap,
    heap_after: FiberHeap,
    from: Option<RuntimeRegion>,
    to: Option<RuntimeRegion>,
) -> bool {
    &&& heap_after@ == heap@.edge_unrecorded(from, to)
    &&& heap_after@.valid()
}

/// What adopting values does.
pub open spec fn values_adopted(
    heap: FiberHeap,
    heap_after: FiberHeap,
    region: RuntimeRegion,
    values: Vec<Value>,
) -> bool {
    &&& heap_after@ == heap@.adopted(region.0, values@)
    &&& heap_after@.valid()
    &&& heap_after@.same_objects(heap@)
}

/// What allocating an object in a region does.
pub open spec fn object_placed(
    heap: FiberHeap,
    heap_after: FiberHeap,
    obj: HeapObject,
    region: RuntimeRegion,
    r: Value,
) -> bool {
    &&& heap_after@ == heap@.allocated(obj, region.0)
    &&& heap_after@.valid()
    &&& r == heap_after@.newest()
}

/// What allocating an object in a region of its own does.
pub open spec fn object_placed_apart(
    heap: FiberHeap,
    heap_after: FiberHeap,
    obj: HeapObject,
    r: (Value, RuntimeRegion),
) -> bool {
    &&& (r.1).0 == heap@.counts.len()
    &&& heap_after@ == heap@.with_region().allocated(obj, (r.1).0)
    &&& heap_after@.valid()
    &&& r.0 == heap_after@.newest()
}

/// What interning a keyword does.
pub open spec fn keyword_interned(
    heap: FiberHeap,
    heap_after: FiberHeap,
    name: String,
    r: Value,
) -> bool {
    &&& heap_after@ == (HeapState {
            keywords: interned(heap@.keywords, name@),
            ..heap@
        })
    &&& r == keyword_value(heap_after@.keywords, name@)
    &&& heap_after@.keywords.contains(name@)
}

/// What setting the default traits of a type does.
pub open spec fn traits_set(
    heap: FiberHeap,
    heap_after: FiberHeap,
    tag: HeapTag,
    traits: Value,
) -> bool {
    &&& heap_after@ == (HeapState {
            traits: heap@.traits.update(tag.slot(), traits),
            ..heap@
        })
    &&& heap_after@.valid()
}

/// What numbering a parameter does.
pub open spec fn parameter_numbered(
    heap: FiberHeap,
    heap_after: FiberHeap,
    r: u32,
) -> bool {
    &&& r == heap@.next_param
    &&& heap_after@ == (HeapState {
            next_param: vstd::wrapping::u32_specs::wrapping_add(heap@.next_param, 1),
            ..heap@
        })
}

/// What setting a cell does.
pub open spec fn cell_set(
    heap: FiberHeap,
    heap_after: FiberHeap,
    cell: Value,
    value: Value,
) -> bool {
    &&& heap_after@ == (HeapState {
            objects: heap@.objects.update(
                heap@.target(cell)->0,
                with_cell(heap@.object(cell), value),
            ),
            ..heap@
        })
    &&& heap_after@.valid()
}

/// What pushing an item onto a mutable array does.
pub open spec fn item_pushed(
    heap: FiberHeap,
    heap_after: FiberHeap,
    coll: Value,
    item: Value,
    r: Value,
) -> bool {
    &&& r == coll
    &&& stored(heap@, heap_after@, coll, item)
    &&& heap_after@.object(coll) matches HeapObject::LArrayMut { data, traits } && data@
            == heap@.object(coll)->LArrayMut_data@.push(item) && traits == heap@.object(
            coll,
        )->LArrayMut_traits
    &&& heap_after@.valid()
}

/// What inserting an item into a mutable set does.
pub open spec fn item_inserted(
    heap: FiberHeap,
    heap_after: FiberHeap,
    coll: Value,
    at: usize,
    item: Value,
) -> bool {
    &&& stored(heap@, heap_after@, coll, item)
    &&& heap_after@.object(coll) matches HeapObject::LSetMut { data, traits } && data@
            == heap@.object(coll)->LSetMut_data@.insert(at as int, item) && traits == heap@.object(coll)->LSetMut_traits
    &&& heap_after@.valid()
}

/// What putting a set in order does.
pub open spec fn set_ordered(
    heap: FiberHeap,
    heap_after: FiberHeap,
    set: Value,
    order: Vec<usize>,
) -> bool {
    &&& heap_after@.objects == heap@.objects.update(
            heap@.target(set)->0,
            heap_after@.object(set),
        )
    &&& heap_after@ == (HeapState { objects: heap_after@.objects, ..heap@ })
    &&& reordered(heap@.object(set), heap_after@.object(set), order@)
    &&& heap_after@.valid()
}

impl FiberHeap {
    /// An empty heap: region 0 stands for nothing, and no region is live.
    pub fn new() -> (r: FiberHeap)
        ensures
            r@.valid(),
            r@.untouched(),
    {
        let mut counts: Vec<u32> = Vec::new();
        counts.push(0);
        let mut edges: Vec<Vec<u32>> = Vec::new();
        edges.push(Vec::new());
        let traits: Vec<Value> = vec![Value::nil(); 30];
        let r = FiberHeap {
            objects: Vec::new(),
            owners: Vec::new(),
            counts,
            edges,
            roots: Vec::new(),
            keywords: SymbolTable::new(),
            traits,
            next_param: 0,
        };
        assert(r@.counts =~= seq![0nat]);
        assert(r@.edges =~= seq![Seq::<u32>::empty()]);
        r
    }

    /// How many objects were allocated.
    pub fn len(&self) -> (r: usize)
        ensures
            r == self@.objects.len(),
    {
        self.objects.len()
    }

    /// Mint a region, held once by the caller.
    pub fn new_runtime_region(&mut self) -> (r: RuntimeRegion)
        requires
            old(self)@.valid(),
            old(self)@.room(1),
        ensures
            region_opened(
                *old(self),
                *final(self),
                r,
            ),
    {
        let ghost before = self@;
        let id: u32 = self.counts.len() as u32;
        self.counts.push(1);
        self.edges.push(Vec::new());
        proof {
            assert(self@.counts =~= before.counts.push(1));
            assert(self@.edges =~= before.edges.push(Seq::empty()));
            let after = self@;
            assert forall|i: int, k: int|
                0 <= i < after.edges.len() && 0 <= k < after.edges[i].len() implies #[trigger] after.edges[i][k]
                < after.counts.len() by {
                assert(before.edges[i][k] < before.counts.len());
            }
        }
        RuntimeRegion(id)
    }

    /// The number of the object that `v` points to.
    fn find(&self, v: Value) -> (r: Option<usize>)
        ensures
            r is Some == self@.target(v) is Some,
            r is Some ==> r->0 == self@.target(v)->0 && r->0 < self.objects@.len(),
    {
        if v.is_heap() && v.payload % 8 == 0 && v.payload >= 8 && v.payload / 8 - 1
            < self.objects.len() as u64 {
            Some((v.payload / 8 - 1) as usize)
        } else {
            None
        }
    }

    /// The region that `v` lives in, none for an immediate.
    pub fn region_of(&self, v: Value) -> (r: Option<RuntimeRegion>)
        requires
            self@.valid(),
        ensures
            r == self@.region_of(v),
    {
        match self.find(v) {
            Some(i) => Some(RuntimeRegion(self.owners[i])),
            None => None,
        }
    }

    /// Whether `v` points into this heap.
    pub fn value_in_region_store(&self, v: Value) -> (r: bool)
        ensures
            r == self@.target(v) is Some,
    {
        self.find(v).is_some()
    }

    /// The references to `r`.
    pub fn region_rc(&self, r: RuntimeRegion) -> (n: u32)
        ensures
            n == self@.count(r),
    {
        if (r.0 as usize) < self.counts.len() {
            self.counts[r.0 as usize]
        } else {
            0
        }
    }

    /// The object that `v` points to.
    pub fn deref(&self, v: Value) -> (r: Option<&HeapObject>)
        ensures
            r is Some == self@.target(v) is Some,
            r is Some ==> *(r->0) == self@.object(v),
    {
        match self.find(v) {
            Some(i) => Some(&self.objects[i]),
            None => None,
        }
    }

    /// Take one reference to `r`.
    pub fn incref_region(&mut self, r: RuntimeRegion)
        requires
            old(self)@.valid(),
            r.0 < old(self)@.counts.len(),
            old(self)@.count(r) < u32::MAX,
        ensures
            reference_added(
                *old(self),
                *final(self),
                r,
            ),
    {
        let ghost before = self@;
        let i: usize = r.0 as usize;
        let n: u32 = self.counts[i];
        self.counts.set(i, n + 1);
        proof {
            assert(self@.counts =~= before.retained(r.0).counts);
            assert(self@.edges =~= before.edges);
        }
    }

    /// Take one reference for a value that leaves its frame; a value without a
    /// region needs none.
    pub fn incref_for_escape(&mut self, r: Option<RuntimeRegion>, site: EscapeSite)
        requires
            old(self)@.valid(),
            old(self)@.room(1),
        ensures
            final(self)@ == old(self)@.retained_opt(r),
            final(self)@.valid(),
    {
        if let Some(r) = r {
            if (r.0 as usize) < self.counts.len() {
                self.incref_region(r);
            }
        }
    }

    /// Record that `from` holds one reference to `to`. An edge of a region to
    /// itself is not recorded, nor one without two ends.
    pub fn record_outgoing_edge(&mut self, from: Option<RuntimeRegion>, to: Option<RuntimeRegion>)
        requires
            old(self)@.valid(),
        ensures
            edge_added(
                *old(self),
                *final(self),
                from,
                to,
            ),
    {
        let ghost before = self@;
        if let Some(f) = from {
            if let Some(t) = to {
                if f.0 != t.0 && (f.0 as usize) < self.counts.len() && (t.0 as usize)
                    < self.counts.len() {
                    let i: usize = f.0 as usize;
                    let mut list: Vec<u32> = Vec::new();
                    self.edges.set_and_swap(i, &mut list);
                    list.push(t.0);
                    self.edges.set_and_swap(i, &mut list);
                    proof {
                        let after = self@;
                        assert(after.edges =~= before.with_edge(f.0, t.0).edges);
                        assert(after.counts =~= before.counts);
                        assert forall|i: int, k: int|
                            0 <= i < after.edges.len() && 0 <= k
                                < after.edges[i].len() implies #[trigger] after.edges[i][k]
                            < after.counts.len() by {
                            if i == f.0 && k == before.edges[i].len() {
                            } else {
                                assert(before.edges[i][k] < before.counts.len());
                            }
                        }
                    }
                }
            }
        }
    }

    /// Forget one reference that `from` holds to `to`, if one is recorded.
    pub fn unrecord_outgoing_edge(&mut self, from: Option<RuntimeRegion>, to: Option<RuntimeRegion>)
        requires
            old(self)@.valid(),
        ensures
            edge_dropped(
                *old(self),
                *final(self),
                from,
                to,
            ),
    {
        let ghost before = self@;
        if let Some(f) = from {
            if let Some(t) = to {
                if (f.0 as usize) < self.edges.len() {
                    let i: usize = f.0 as usize;
                    let mut list: Vec<u32> = Vec::new();
                    self.edges.set_and_swap(i, &mut list);
                    let ghost held = list@;
                    assert(held == before.edges[i as int]);
                    let mut k: usize = 0;
                    while k < list.len() && list[k] != t.0
                        invariant
                            k <= list@.len(),
                            list@ == held,
                            forall|j: int| 0 <= j < k ==> held[j] != t.0,
                        decreases list.len() - k,
                    {
                        k = k + 1;
                    }
                    proof {
                        lemma_without_first(held, t.0, k as int);
                    }
                    if k < list.len() {
                        list.remove(k);
                    }
                    self.edges.set_and_swap(i, &mut list);
                    proof {
                        let after = self@;
                        assert(after.edges =~= before.edge_unrecorded(from, to).edges);
                        assert(after.counts =~= before.counts);
                        assert forall|a: int, b: int|
                            0 <= a < after.edges.len() && 0 <= b
                                < after.edges[a].len() implies #[trigger] after.edges[a][b]
                            < after.counts.len() by {
                            if a == i {
                                assert(before.edges[a].contains(after.edges[a][b])) by {
                                    if k < held.len() && b >= k {
                                        assert(after.edges[a][b] == held[b + 1]);
                                    } else {
                                        assert(after.edges[a][b] == held[b]);
                                    }
                                }
                                let c = choose|c: int|
                                    0 <= c < before.edges[a].len() && before.edges[a][c]
                                        == after.edges[a][b];
                                assert(before.edges[a][c] < before.counts.len());
                            } else {
                                assert(before.edges[a][b] < before.counts.len());
                            }
                        }
                    }
                }
            }
        }
    }

    /// Give up one reference to `r`. The region that loses its last one dies
    /// and gives up what it holds.
    pub fn decref_region(&mut self, r: RuntimeRegion)
        requires
            old(self)@.valid(),
        ensures
            reference_dropped(
                *old(self),
                *final(self),
                r,
            ),
    {
        let ghost start = self@;
        let mut work: Vec<u32> = Vec::new();
        work.push(r.0);
        let mut at: usize = 0;
        if (r.0 as usize) >= self.counts.len() {
            proof {
                let rest = seq![r.0].subrange(1, 1);
                assert(rest =~= Seq::empty());
                assert(start.released(rest) == start);
                assert(start.decref(r.0) == start);
            }
            return ;
        }
        proof {
            lemma_decref(start, r.0);
            assert(work@.subrange(0, 1) =~= seq![r.0]);
        }
        while at < work.len()
            invariant
                at <= work@.len(),
                self@.valid(),
                self@.same_objects(start),
                forall|i: int| 0 <= i < work@.len() ==> work@[i] < self@.counts.len(),
                self@.released(work@.subrange(at as int, work@.len() as int)) == start.decref(r.0),
            decreases total(self@.counts), work@.len() - at,
        {
            let ghost before = self@;
            let ghost pending = work@.subrange(at as int, work@.len() as int);
            let q: usize = work[at] as usize;
            at = at + 1;
            proof {
                assert(pending[0] == q);
                assert(pending.subrange(1, pending.len() as int) =~= work@.subrange(
                    at as int,
                    work@.len() as int,
                ));
            }
            let n: u32 = self.counts[q];
            if n > 0 {
                proof {
                    lemma_total_update(before.counts, q as int, (n - 1) as nat);
                }
                self.counts.set(q, n - 1);
                assert(self@.counts =~= before.counts.update(q as int, (n - 1) as nat));
                if n == 1 {
                    let mut list: Vec<u32> = Vec::new();
                    self.edges.set_and_swap(q, &mut list);
                    let ghost tail = work@.subrange(at as int, work@.len() as int);
                    let ghost had = work@;
                    assert(list@ == before.edges[q as int]);
                    work.append(&mut list);
                    proof {
                        let after = self@;
                        assert(after.edges =~= before.edges.update(q as int, Seq::empty()));
                        assert(work@.subrange(at as int, work@.len() as int) =~= tail
                            + before.edges[q as int]);
                        assert forall|i: int| 0 <= i < work@.len() implies work@[i]
                            < after.counts.len() by {
                            if i >= had.len() {
                                assert(before.edges[q as int][i - had.len()] < before.counts.len());
                            } else {
                                assert(had[i] < before.counts.len());
                            }
                        }
                        assert forall|i: int, k: int|
                            0 <= i < after.edges.len() && 0 <= k
                                < after.edges[i].len() implies #[trigger] after.edges[i][k]
                            < after.counts.len() by {
                            assert(before.edges[i][k] < before.counts.len());
                        }
                    }
                } else {
                    proof {
                        assert(self@.edges =~= before.edges);
                    }
                }
            }
        }
        proof {
            assert(work@.subrange(at as int, work@.len() as int) =~= Seq::empty());
        }
    }

    /// Give up one reference where there is a region to give it up to.
    pub fn decref_region_opt(&mut self, r: Option<RuntimeRegion>)
        requires
            old(self)@.valid(),
        ensures
            final(self)@ == old(self)@.decref_opt(r),
            final(self)@.valid(),
            final(self)@.same_objects(old(self)@),
    {
        if let Some(r) = r {
            self.decref_region(r);
        }
    }

    /// Give up one reference, tolerating a region that is dead or unknown.
    pub fn decref_region_if_present(&mut self, r: RuntimeRegion)
        requires
            old(self)@.valid(),
        ensures
            final(self)@ == old(self)@.decref(r.0),
            final(self)@.valid(),
            final(self)@.same_objects(old(self)@),
    {
        self.decref_region(r);
    }

    /// `region` takes a counted reference to the region of every value that lives
    /// in another one, and records the edge.
    pub fn adopt_values(&mut self, region: RuntimeRegion, values: &Vec<Value>)
        requires
            old(self)@.valid(),
            region.0 < old(self)@.counts.len(),
            forall|r: int|
                0 <= r < old(self)@.counts.len() ==> #[trigger] old(self)@.counts[r] + values@.len()
                    <= u32::MAX,
        ensures
            values_adopted(
                *old(self),
                *final(self),
                region,
                *values,
            ),
    {
        let ghost base = self@;
        let mut i: usize = 0;
        assert(values@.take(0) =~= Seq::empty());
        while i < values.len()
            invariant
                i <= values@.len(),
                base.valid(),
                region.0 < base.counts.len(),
                self@ == base.adopted(region.0, values@.take(i as int)),
                self@.valid(),
                self@.same_objects(base),
                forall|r: int|
                    0 <= r < base.counts.len() ==> #[trigger] base.counts[r] + values@.len() <= u32::MAX,
            decreases values.len() - i,
        {
            proof {
                lemma_adopted(base, region.0, values@.take(i as int));
                assert(values@.take(i + 1).drop_last() =~= values@.take(i as int));
                assert(values@.take(i + 1).last() == values@[i as int]);
                lemma_adopted(base, region.0, values@.take(i + 1));
            }
            let here = self.region_of(values[i]);
            if let Some(r) = here {
                if r.0 != region.0 {
                    proof {
                        let t = self@.target(values@[i as int])->0;
                        assert(self@.owners[t] < self@.counts.len());
                        assert(self@.counts[r.0 as int] <= base.counts[r.0 as int] + i);
                        assert(base.counts[r.0 as int] + values@.len() <= u32::MAX);
                    }
                    self.incref_region(r);
                    self.record_outgoing_edge(Some(region), Some(r));
                }
            }
            i = i + 1;
        }
        assert(values@.take(i as int) =~= values@);
    }

    /// Allocate `obj` in `region`: the region takes a counted reference to every
    /// other region that the object refers to.
    pub fn alloc_in_region(&mut self, obj: HeapObject, region: RuntimeRegion) -> (r: Value)
        requires
            old(self)@.valid(),
            region.0 < old(self)@.counts.len(),
            old(self)@.room(obj.children().len() + 1),
        ensures
            object_placed(
                *old(self),
                *final(self),
                obj,
                region,
                r,
            ),
    {
        let ghost start = self@;
        let kids = obj.child_values();
        let tag: u64 = obj.tag();
        let payload: u64 = 8 * (self.objects.len() as u64 + 1);
        self.objects.push(obj);
        self.owners.push(region.0);
        let ghost base = self@;
        proof {
            assert(base.counts =~= start.counts);
            assert(base.edges =~= start.edges);
            assert(base == (HeapState {
                objects: start.objects.push(obj),
                owners: start.owners.push(region.0),
                ..start
            }));
            lemma_allocated(start, obj, region.0);
            assert(base.valid()) by {
                assert forall|i: int| 0 <= i < base.owners.len() implies base.owners[i]
                    < base.counts.len() by {
                    if i < start.owners.len() {
                        assert(start.owners[i] < start.counts.len());
                    }
                }
                assert forall|i: int, k: int|
                    0 <= i < base.edges.len() && 0 <= k
                        < base.edges[i].len() implies #[trigger] base.edges[i][k]
                    < base.counts.len() by {
                    assert(start.edges[i][k] < start.counts.len());
                }
            }
        }
        self.adopt_values(region, &kids);
        Value { tag, payload }
    }

    /// Allocate `obj` in a region of its own.
    pub fn alloc_in_fresh_region(&mut self, obj: HeapObject) -> (r: (Value, RuntimeRegion))
        requires
            old(self)@.valid(),
            old(self)@.room(obj.children().len() + 2),
        ensures
            object_placed_apart(
                *old(self),
                *final(self),
                obj,
                r,
            ),
    {
        let ghost start = self@;
        let region = self.new_runtime_region();
        proof {
            let mid = self@;
            assert forall|q: int| 0 <= q < mid.counts.len() implies #[trigger] mid.counts[q] + (obj.children().len()
                + 1) <= u32::MAX by {
                if q < start.counts.len() {
                    assert(start.counts[q] + (obj.children().len() + 2) <= u32::MAX);
                }
            }
        }
        let v = self.alloc_in_region(obj, region);
        (v, region)
    }

    /// Register a process root: a region that teardown gives up one reference
    /// of.
    pub fn register_root(&mut self, r: RuntimeRegion)
        requires
            old(self)@.valid(),
            r.0 < old(self)@.counts.len(),
        ensures
            final(self)@ == (HeapState { roots: old(self)@.roots.push(r.0), ..old(self)@ }),
            final(self)@.valid(),
    {
        let ghost before = self@;
        self.roots.push(r.0);
        proof {
            assert(self@.counts =~= before.counts);
            assert(self@.edges =~= before.edges);
            let after = self@;
            assert forall|i: int| 0 <= i < after.roots.len() implies after.roots[i]
                < after.counts.len() by {
                if i < before.roots.len() {
                    assert(before.roots[i] < before.counts.len());
                }
            }
        }
    }

    /// Allocate `obj` in the root region, which is minted and registered at the
    /// first root. It stays until teardown gives that region up.
    pub fn alloc_root(&mut self, obj: HeapObject) -> (r: Value)
        requires
            old(self)@.valid(),
            old(self)@.room(obj.children().len() + 2),
        ensures
            final(self)@ == rooted(old(self)@).0.allocated(obj, rooted(old(self)@).1),
            final(self)@.valid(),
            r == final(self)@.newest(),
    {
        let ghost start = self@;
        let ghost need = obj.children().len();
        let region = if self.roots.len() > 0 {
            proof {
                assert(start.roots[0] < start.counts.len());
                assert forall|q: int| 0 <= q < start.counts.len() implies #[trigger] start.counts[q] + (need
                    + 1) <= u32::MAX by {
                    assert(start.counts[q] + (need + 2) <= u32::MAX);
                }
            }
            RuntimeRegion(self.roots[0])
        } else {
            proof {
                assert forall|q: int| 0 <= q < start.counts.len() implies #[trigger] start.counts[q] + 1
                    <= u32::MAX by {
                    assert(start.counts[q] + (need + 2) <= u32::MAX);
                }
            }
            let region = self.new_runtime_region();
            self.register_root(region);
            proof {
                let mid = self@;
                assert(mid == rooted(start).0);
                assert forall|q: int| 0 <= q < mid.counts.len() implies #[trigger] mid.counts[q] + (need
                    + 1) <= u32::MAX by {
                    if q < start.counts.len() {
                        assert(start.counts[q] + (need + 2) <= u32::MAX);
                    }
                }
            }
            region
        };
        self.alloc_in_region(obj, region)
    }

    /// Give up one reference to every registered root, in order, and forget
    /// them. Returns how many there were.
    pub fn teardown_process_root_regions(&mut self) -> (r: usize)
        requires
            old(self)@.valid(),
        ensures
            r == old(self)@.roots.len(),
            final(self)@ == (HeapState { roots: Seq::empty(), ..old(self)@ }).released_each(
                old(self)@.roots,
            ),
            final(self)@.valid(),
    {
        let ghost start = self@;
        let mut roots: Vec<u32> = Vec::new();
        core::mem::swap(&mut roots, &mut self.roots);
        let ghost base = HeapState { roots: Seq::empty(), ..start };
        proof {
            assert(self@.counts =~= start.counts);
            assert(self@.edges =~= start.edges);
            assert(self@.roots =~= Seq::<u32>::empty());
            assert(self@ == base);
            assert(roots@.take(0) =~= Seq::empty());
        }
        let mut i: usize = 0;
        while i < roots.len()
            invariant
                i <= roots@.len(),
                self@.valid(),
                self@ == base.released_each(roots@.take(i as int)),
            decreases roots.len() - i,
        {
            assert(roots@.take(i + 1).drop_last() =~= roots@.take(i as int));
            self.decref_region(RuntimeRegion(roots[i]));
            i = i + 1;
        }
        assert(roots@.take(i as int) =~= roots@);
        roots.len()
    }

    /// Number, count and object count of every live region, in order.
    pub fn region_info_vec(&self) -> (r: Vec<(u32, u32, usize)>)
        requires
            self@.valid(),
            self@.counts.len() <= u32::MAX,
        ensures
            r@ == self@.live_regions(self@.counts.len()),
    {
        let mut out: Vec<(u32, u32, usize)> = Vec::new();
        let mut q: usize = 0;
        while q < self.counts.len()
            invariant
                q <= self.counts@.len(),
                self.counts@.len() == self@.counts.len(),
                self@.counts.len() <= u32::MAX,
                self@.valid(),
                out@ == self@.live_regions(q as nat),
            decreases self.counts.len() - q,
        {
            let n: u32 = self.counts[q];
            if n > 0 {
                let objects: usize = self.objects_in(q as u32);
                out.push((q as u32, n, objects));
            }
            q = q + 1;
        }
        out
    }

    fn objects_in(&self, r: u32) -> (n: usize)
        requires
            self@.valid(),
        ensures
            n == occurrences(self@.owners, r),
    {
        let mut n: usize = 0;
        let mut i: usize = 0;
        assert(self.owners@.take(0) =~= Seq::empty());
        while i < self.owners.len()
            invariant
                n <= i <= self.owners@.len(),
                n == occurrences(self.owners@.take(i as int), r),
            decreases self.owners.len() - i,
        {
            assert(self.owners@.take(i + 1).drop_last() =~= self.owners@.take(i as int));
            if self.owners[i] == r {
                n = n + 1;
            }
            i = i + 1;
        }
        assert(self.owners@.take(i as int) =~= self.owners@);
        n
    }

    /// The keyword spelled `name`.
    pub fn keyword(&mut self, name: &String) -> (r: Value)
        requires
            old(self)@.keywords.len() < u32::MAX,
        ensures
            keyword_interned(
                *old(self),
                *final(self),
                *name,
                r,
            ),
    {
        let ghost before = self@;
        let id = self.keywords.intern(name);
        proof {
            assert(self@.counts =~= before.counts);
            assert(self@.edges =~= before.edges);
        }
        Value { tag: TAG_KEYWORD, payload: id.0 as u64 }
    }

    /// The spelling of a keyword.
    pub fn keyword_spelling(&self, v: Value) -> (r: Option<String>)
        ensures
            r is Some == (v.tag == TAG_KEYWORD && v.payload < self@.keywords.len() && v.payload
                <= u32::MAX),
            r is Some ==> r->0@ == self@.keywords[v.payload as int],
    {
        if v.tag == TAG_KEYWORD && v.payload <= 0xffff_ffff {
            match self.keywords.name(crate::symbol::SymbolId(v.payload as u32)) {
                Some(s) => Some(s.clone()),
                None => None,
            }
        } else {
            None
        }
    }

    /// The traits a new object of this type gets.
    pub fn default_traits_for(&self, tag: HeapTag) -> (r: Value)
        requires
            self@.valid(),
        ensures
            r == self@.traits[tag.slot()],
    {
        self.traits[tag.index()]
    }

    /// Set the traits that new objects of this type get.
    pub fn set_default_traits(&mut self, tag: HeapTag, traits: Value)
        requires
            old(self)@.valid(),
        ensures
            traits_set(
                *old(self),
                *final(self),
                tag,
                traits,
            ),
    {
        let ghost before = self@;
        self.traits.set(tag.index(), traits);
        proof {
            assert(self@.counts =~= before.counts);
            assert(self@.edges =~= before.edges);
        }
    }

    /// Forget all default traits.
    pub fn reset_default_traits(&mut self)
        requires
            old(self)@.valid(),
        ensures
            final(self)@ == (HeapState {
                traits: Seq::new(30, |i: int| Value::nil()),
                ..old(self)@
            }),
            final(self)@.valid(),
    {
        let ghost before = self@;
        self.traits = vec![Value::nil(); 30];
        proof {
            assert(self@.traits =~= Seq::new(30, |i: int| Value::nil()));
            assert(self@.counts =~= before.counts);
            assert(self@.edges =~= before.edges);
        }
    }

    /// The number of the next parameter; the one after the largest is 0 again.
    pub fn next_parameter_id(&mut self) -> (r: u32)
        ensures
            parameter_numbered(
                *old(self),
                *final(self),
                r,
            ),
    {
        let ghost before = self@;
        let id: u32 = self.next_param;
        self.next_param = id.wrapping_add(1);
        proof {
            assert(self@.counts =~= before.counts);
            assert(self@.edges =~= before.edges);
        }
        id
    }

    /// Put `value` into the box or capture cell that `cell` points to.
    pub fn set_cell(&mut self, cell: Value, value: Value)
        requires
            old(self)@.valid(),
            old(self)@.target(cell) is Some,
            old(self)@.object(cell) is LBox || old(self)@.object(cell) is CaptureCell,
        ensures
            cell_set(
                *old(self),
                *final(self),
                cell,
                value,
            ),
    {
        let ghost before = self@;
        if let Some(i) = self.find(cell) {
            let mut obj = HeapObject::Float(0);
            self.objects.set_and_swap(i, &mut obj);
            let next = match obj {
                HeapObject::LBox { traits, .. } => HeapObject::LBox { cell: value, traits },
                HeapObject::CaptureCell { traits, .. } => HeapObject::CaptureCell {
                    cell: value,
                    traits,
                },
                other => other,
            };
            self.objects.set(i, next);
            proof {
                assert(self@.objects =~= before.objects.update(
                    i as int,
                    with_cell(before.object(cell), value),
                ));
                assert(self@.counts =~= before.counts);
                assert(self@.edges =~= before.edges);
            }
        }
    }

    /// Put the elements of a set into an order: the element at place `order[k]` goes to
    /// place `k`, and one that `order` does not name is left out. Which value goes before
    /// which, and which two are equal, is for the caller to say; sets that were rebuilt
    /// from a message, or made from a list, hold their elements as they came until then.
    pub fn order_set(&mut self, set: Value, order: &Vec<usize>)
        requires
            old(self)@.valid(),
            old(self)@.target(set) is Some,
            old(self)@.object(set) is LSet || old(self)@.object(set) is LSetMut,
            forall|k: int|
                0 <= k < order@.len() ==> (#[trigger] order@[k]) < set_items(old(self)@.object(set)).len(),
        ensures
            set_ordered(
                *old(self),
                *final(self),
                set,
                *order,
            ),
    {
        let ghost before = self@;
        if let Some(i) = self.find(set) {
            let mut obj = HeapObject::Float(0);
            self.objects.set_and_swap(i, &mut obj);
            let next = match obj {
                HeapObject::LSet { data, traits } => HeapObject::LSet { data: pick(&data, order), traits },
                HeapObject::LSetMut { data, traits } => HeapObject::LSetMut {
                    data: pick(&data, order),
                    traits,
                },
                other => other,
            };
            self.objects.set(i, next);
            proof {
                assert(self@.objects =~= before.objects.update(i as int, self@.objects[i as int]));
                assert(self@.counts =~= before.counts);
                assert(self@.edges =~= before.edges);
            }
        }
    }

    /// Mark the managed pointer that `v` points to as freed.
    pub fn mark_freed(&mut self, v: Value)
        requires
            old(self)@.valid(),
            old(self)@.target(v) is Some,
            old(self)@.object(v) is ManagedPointer,
        ensures
            final(self)@ == (HeapState {
                objects: old(self)@.objects.update(old(self)@.target(v)->0, freed(old(self)@.object(v))),
                ..old(self)@
            }),
            final(self)@.valid(),
    {
        let ghost before = self@;
        if let Some(i) = self.find(v) {
            let mut obj = HeapObject::Float(0);
            self.objects.set_and_swap(i, &mut obj);
            let next = match obj {
                HeapObject::ManagedPointer { traits, .. } => HeapObject::ManagedPointer {
                    addr: None,
                    traits,
                },
                other => other,
            };
            self.objects.set(i, next);
            proof {
                assert(self@.objects =~= before.objects.update(i as int, freed(before.object(v))));
                assert(self@.counts =~= before.counts);
                assert(self@.edges =~= before.edges);
            }
        }
    }

    /// Append to a mutable array; the array's region takes a counted reference to
    /// the item's.
    pub fn push_with_incref(&mut self, coll: Value, item: Value) -> (r: Value)
        requires
            old(self)@.valid(),
            old(self)@.room(1),
            old(self)@.target(coll) is Some,
            old(self)@.object(coll) is LArrayMut,
        ensures
            item_pushed(
                *old(self),
                *final(self),
                coll,
                item,
                r,
            ),
    {
        if let Some(i) = self.find(coll) {
            let ghost before = self@;
            let mut obj = HeapObject::Float(0);
            self.objects.set_and_swap(i, &mut obj);
            let next = match obj {
                HeapObject::LArrayMut { data, traits } => {
                    let mut data = data;
                    data.push(item);
                    HeapObject::LArrayMut { data, traits }
                },
                other => other,
            };
            self.objects.set(i, next);
            let ghost mid = self@;
            proof {
                assert(mid.counts =~= before.counts);
                assert(mid.edges =~= before.edges);
            }
            self.adopt_one(i, Ghost(before), item);
            proof {
                assert(mid.objects =~= before.objects.update(i as int, mid.objects[i as int]));
                assert(mid == (HeapState { objects: self@.objects, ..before }));
            }
        }
        coll
    }

    /// Put an item into a mutable set at its place; the set's region takes a counted
    /// reference to the item's.
    pub fn insert_with_incref(&mut self, coll: Value, at: usize, item: Value)
        requires
            old(self)@.valid(),
            old(self)@.room(1),
            old(self)@.target(coll) is Some,
            old(self)@.object(coll) is LSetMut,
            at <= old(self)@.object(coll)->LSetMut_data@.len(),
        ensures
            item_inserted(
                *old(self),
                *final(self),
                coll,
                at,
                item,
            ),
    {
        if let Some(i) = self.find(coll) {
            let ghost before = self@;
            let mut obj = HeapObject::Float(0);
            self.objects.set_and_swap(i, &mut obj);
            let next = match obj {
                HeapObject::LSetMut { data, traits } => {
                    let mut data = data;
                    data.insert(at, item);
                    HeapObject::LSetMut { data, traits }
                },
                other => other,
            };
            self.objects.set(i, next);
            let ghost mid = self@;
            proof {
                assert(mid.counts =~= before.counts);
                assert(mid.edges =~= before.edges);
            }
            self.adopt_one(i, Ghost(before), item);
            proof {
                assert(mid.objects =~= before.objects.update(i as int, mid.objects[i as int]));
                assert(mid == (HeapState { objects: self@.objects, ..before }));
            }
        }
    }

    /// The region of object `i` takes a counted reference to the item's.
    fn adopt_one(&mut self, i: usize, before: Ghost<HeapState>, item: Value)
        requires
            before@.valid(),
            before@.room(1),
            i < before@.objects.len(),
            old(self)@ == (HeapState { objects: old(self)@.objects, ..before@ }),
            old(self)@.objects.len() == before@.objects.len(),
        ensures
            final(self)@ == old(self)@.adopted(before@.owners[i as int], seq![item]),
            final(self)@.valid(),
            final(self)@.objects == old(self)@.objects,
    {
        let owner = RuntimeRegion(self.owners[i]);
        let mut items: Vec<Value> = Vec::new();
        items.push(item);
        assert(items@ =~= seq![item]);
        proof {
            let now = self@;
            assert(now.valid());
            assert(now.room(1));
            lemma_adopted(now, owner.0, seq![item]);
        }
        self.adopt_values(owner, &items);
    }
}

/// The heap with its root region, and that region.
pub open spec fn rooted(s: HeapState) -> (HeapState, u32) {
    if s.roots.len() > 0 {
        (s, s.roots[0])
    } else {
        let region = s.counts.len() as u32;
        let m = s.with_region();
        (HeapState { roots: m.roots.push(region), ..m }, region)
    }
}

/// One object was changed, and its region took a counted reference to the region of
/// an item put into it.
pub open spec fn stored(before: HeapState, after: HeapState, coll: Value, item: Value) -> bool {
    let i = before.target(coll)->0;
    &&& after.objects == before.objects.update(i, after.objects[i])
    &&& after == (HeapState { objects: after.objects, ..before }).adopted(before.owners[i], seq![item])
}

/// A managed pointer after its memory was given back.
pub open spec fn freed(obj: HeapObject) -> HeapObject {
    match obj {
        HeapObject::ManagedPointer { traits, .. } => HeapObject::ManagedPointer { addr: None, traits },
        other => other,
    }
}

/// The object with other contents, where it is a cell.
pub open spec fn with_cell(obj: HeapObject, value: Value) -> HeapObject {
    match obj {
        HeapObject::LBox { traits, .. } => HeapObject::LBox { cell: value, traits },
        HeapObject::CaptureCell { traits, .. } => HeapObject::CaptureCell { cell: value, traits },
        _ => obj,
    }
}

/// The keyword of a spelling that the table holds.
pub open spec fn keyword_value(keywords: Seq<Seq<char>>, name: Seq<char>) -> Value {
    Value { tag: TAG_KEYWORD, payload: id_in(keywords, name) as u64 }
}

/// How often `x` occurs.
pub open spec fn occurrences(s: Seq<u32>, x: u32) -> nat
    decreases s.len(),
{
    if s.len() == 0 {
        0
    } else {
        occurrences(s.drop_last(), x) + if s.last() == x {
            1nat
        } else {
            0nat
        }
    }
}

impl HeapState {
    /// One reference given up to each of `roots`, in order.
    pub open spec fn released_each(self, roots: Seq<u32>) -> HeapState
        decreases roots.len(),
    {
        if roots.len() == 0 {
            self
        } else {
            self.released_each(roots.drop_last()).decref(roots.last())
        }
    }

    /// Number, count and object count of the live regions below `upto`.
    pub open spec fn live_regions(self, upto: nat) -> Seq<(u32, u32, usize)>
        decreases upto,
    {
        if upto == 0 {
            Seq::empty()
        } else {
            let q = upto - 1;
            let rest = self.live_regions(q as nat);
            if self.counts[q] > 0 {
                rest.push(
                    (q as u32, self.counts[q] as u32, occurrences(self.owners, q as u32) as usize),
                )
            } else {
                rest
            }
        }
    }
}

/// The list without the first `x` in it.
pub open spec fn without_first(s: Seq<u32>, x: u32) -> Seq<u32>
    decreases s.len(),
{
    if s.len() == 0 {
        s
    } else if s.last() == x && !s.drop_last().contains(x) {
        s.drop_last()
    } else {
        without_first(s.drop_last(), x).push(s.last())
    }
}

/// The elements of a set.
pub open spec fn set_items(obj: HeapObject) -> Seq<Value> {
    match obj {
        HeapObject::LSet { data, .. } => data@,
        HeapObject::LSetMut { data, .. } => data@,
        _ => Seq::empty(),
    }
}

/// The values at the places that `order` names, in that order.
pub open spec fn picked(values: Seq<Value>, order: Seq<usize>) -> Seq<Value> {
    Seq::new(order.len(), |k: int| values[order[k] as int])
}

/// The same set but for its elements, which are picked.
pub open spec fn reordered(before: HeapObject, after: HeapObject, order: Seq<usize>) -> bool {
    match (before, after) {
        (HeapObject::LSet { data: x, traits: t }, HeapObject::LSet { data: y, traits: u }) => y@ == picked(
            x@,
            order,
        ) && u == t,
        (HeapObject::LSetMut { data: x, traits: t }, HeapObject::LSetMut { data: y, traits: u }) => y@
            == picked(x@, order) && u == t,
        _ => false,
    }
}

fn pick(values: &Vec<Value>, order: &Vec<usize>) -> (r: Vec<Value>)
    requires
        forall|k: int| 0 <= k < order@.len() ==> (#[trigger] order@[k]) < values@.len(),
    ensures
        r@ == picked(values@, order@),
{
    let mut out: Vec<Value> = Vec::new();
    let mut k: usize = 0;
    while k < order.len()
        invariant
            k <= order@.len(),
            out@ == picked(values@, order@).take(k as int),
            forall|k: int| 0 <= k < order@.len() ==> (#[trigger] order@[k]) < values@.len(),
        decreases order.len() - k,
    {
        assert(order@[k as int] < values@.len());
        out.push(values[order[k]]);
        k = k + 1;
        assert(out@ =~= picked(values@, order@).take(k as int));
    }
    assert(picked(values@, order@).take(k as int) =~= picked(values@, order@));
    out
}

/// An order that names every place once leaves out nothing and repeats nothing: the set
/// holds the elements that it held.
pub proof fn lemma_ordering_keeps_elements(values: Seq<Value>, order: Seq<usize>)
    requires
        forall|k: int| 0 <= k < order.len() ==> (#[trigger] order[k]) < values.len(),
        forall|i: int| 0 <= i < values.len() ==> order.contains(#[trigger] (i as usize)),
        values.len() <= usize::MAX,
    ensures
        picked(values, order).to_set() == values.to_set(),
{
    let after = picked(values, order);
    assert forall|v: Value| values.contains(v) implies after.contains(v) by {
        let i = choose|i: int| 0 <= i < values.len() && values[i] == v;
        assert(order.contains(i as usize));
        let k = choose|k: int| 0 <= k < order.len() && order[k] == i as usize;
        assert(after[k] == v);
    }
    assert forall|v: Value| after.contains(v) implies values.contains(v) by {
        let k = choose|k: int| 0 <= k < after.len() && after[k] == v;
        assert(values[order[k] as int] == v);
    }
    assert(after.to_set() =~= values.to_set());
}

/// What is left of a list comes from the list.
pub proof fn lemma_without_first_from(s: Seq<u32>, x: u32, b: int)
    requires
        0 <= b < without_first(s, x).len(),
    ensures
        exists|c: int| 0 <= c < s.len() && s[c] == without_first(s, x)[b],
    decreases s.len(),
{
    if s.len() > 0 {
        let init = s.drop_last();
        if s.last() == x && !init.contains(x) {
            assert(s[b] == without_first(s, x)[b]);
        } else {
            let w = without_first(init, x);
            if b < w.len() {
                lemma_without_first_from(init, x, b);
                let c = choose|c: int| 0 <= c < init.len() && init[c] == w[b];
                assert(s[c] == without_first(s, x)[b]);
            } else {
                assert(s[s.len() - 1] == without_first(s, x)[b]);
            }
        }
    }
}

/// What does not occur in a list is not taken out of it.
pub proof fn lemma_without_absent(s: Seq<u32>, x: u32)
    requires
        !s.contains(x),
    ensures
        without_first(s, x) == s,
{
    assert forall|j: int| 0 <= j < s.len() implies s[j] != x by {
        assert(s.contains(s[j]));
    }
    lemma_without_first(s, x, s.len() as int);
}

/// What is left of a list is the list less one occurrence.
pub proof fn lemma_without_first_counts(s: Seq<u32>, x: u32)
    requires
        s.contains(x),
    ensures
        without_first(s, x).to_multiset().insert(x) == s.to_multiset(),
    decreases s.len(),
{
    broadcast use vstd::seq_lib::group_to_multiset_ensures;

    let init = s.drop_last();
    assert(init.push(s.last()) =~= s);
    if s.last() == x && !init.contains(x) {
        assert(without_first(s, x) == init);
    } else {
        let i = choose|i: int| 0 <= i < s.len() && s[i] == x;
        if i < init.len() {
            assert(init[i] == x);
        }
        assert(init.contains(x));
        lemma_without_first_counts(init, x);
        let w = without_first(init, x);
        assert(w.push(s.last()).to_multiset() == w.to_multiset().insert(s.last()));
        assert(w.to_multiset().insert(s.last()).insert(x) =~= w.to_multiset().insert(x).insert(s.last()));
    }
}

proof fn lemma_without_first(s: Seq<u32>, x: u32, k: int)
    requires
        0 <= k <= s.len(),
        k < s.len() ==> s[k] == x,
        forall|j: int| 0 <= j < k ==> s[j] != x,
    ensures
        k < s.len() ==> without_first(s, x) == s.remove(k),
        k == s.len() ==> without_first(s, x) == s,
    decreases s.len(),
{
    if s.len() > 0 {
        let init = s.drop_last();
        if k == s.len() - 1 {
            assert forall|j: int| 0 <= j < init.len() implies init[j] != x by {
                assert(s[j] != x);
            }
            assert(s.remove(k) =~= init);
        } else if k < s.len() {
            assert(init[k] == x);
            lemma_without_first(init, x, k);
            assert(init.remove(k).push(s.last()) =~= s.remove(k));
        } else {
            assert(s[s.len() - 1] != x);
            lemma_without_first(init, x, init.len() as int);
            assert(init.push(s.last()) =~= s);
        }
    }
}

/// Forgetting an edge leaves everything else as it is.
pub proof fn lemma_edge_unrecorded(s: HeapState, from: Option<RuntimeRegion>, to: Option<RuntimeRegion>)
    requires
        s.valid(),
    ensures
        s.edge_unrecorded(from, to).valid(),
        s.edge_unrecorded(from, to).same_objects(s),
        s.edge_unrecorded(from, to).counts == s.counts,
{
    let after = s.edge_unrecorded(from, to);
    assert forall|a: int, b: int|
        0 <= a < after.edges.len() && 0 <= b < after.edges[a].len() implies (
    #[trigger] after.edges[a][b]) < after.counts.len() && after.edges[a][b] != a by {
        if from is Some && to is Some && a == (from->0).0 {
            let list = s.edges[a];
            lemma_without_first_from(list, (to->0).0, b);
            let c = choose|c: int| 0 <= c < list.len() && list[c] == after.edges[a][b];
            assert(s.edges[a][c] < s.counts.len());
        } else {
            assert(s.edges[a][b] < s.counts.len());
        }
    }
}

} // verus!
