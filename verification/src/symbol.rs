//! Interning of names.

use vstd::prelude::*;

verus! {

/// A name's index in one table.
#[derive(Clone, Copy, PartialEq, Eq, Structural, Debug, Hash)]
pub struct SymbolId(pub u32);

/// Names numbered in the order of their first interning.
pub struct SymbolTable {
    names: Vec<String>,
}

/// The names a list of strings spells.
pub open spec fn spelled(names: Seq<String>) -> Seq<Seq<char>> {
    Seq::new(names.len(), |i: int| names[i]@)
}

/// The table once `name` is interned.
pub open spec fn interned(names: Seq<Seq<char>>, name: Seq<char>) -> Seq<Seq<char>> {
    if names.contains(name) {
        names
    } else {
        names.push(name)
    }
}

/// The table once the names are interned, one after another.
pub open spec fn interned_all(known: Seq<Seq<char>>, names: Seq<Seq<char>>) -> Seq<Seq<char>>
    decreases names.len(),
{
    if names.len() == 0 {
        known
    } else {
        interned(interned_all(known, names.drop_last()), names.last())
    }
}

/// One name is interned.
pub proof fn lemma_interned_one(known: Seq<Seq<char>>, name: Seq<char>)
    ensures
        interned_all(known, seq![name]) == interned(known, name),
{
    assert(seq![name].drop_last() =~= Seq::empty());
    assert(interned_all(known, seq![name].drop_last()) == known);
}

/// Two runs of names are interned one behind the other.
pub proof fn lemma_interned_all_add(known: Seq<Seq<char>>, a: Seq<Seq<char>>, b: Seq<Seq<char>>)
    ensures
        interned_all(known, a + b) == interned_all(interned_all(known, a), b),
    decreases b.len(),
{
    if b.len() == 0 {
        assert(a + b =~= a);
    } else {
        lemma_interned_all_add(known, a, b.drop_last());
        assert((a + b).drop_last() =~= a + b.drop_last());
        assert((a + b).last() == b.last());
    }
}

/// Interning adds at most one name each.
pub proof fn lemma_interned_all_bound(known: Seq<Seq<char>>, names: Seq<Seq<char>>)
    ensures
        known.len() <= interned_all(known, names).len() <= known.len() + names.len(),
    decreases names.len(),
{
    if names.len() > 0 {
        lemma_interned_all_bound(known, names.drop_last());
    }
}

/// Interning renumbers nothing.
pub proof fn lemma_interned_all_extends(known: Seq<Seq<char>>, names: Seq<Seq<char>>)
    ensures
        known.len() <= interned_all(known, names).len(),
        forall|i: int| 0 <= i < known.len() ==> #[trigger] interned_all(known, names)[i] == known[i],
    decreases names.len(),
{
    if names.len() > 0 {
        lemma_interned_all_extends(known, names.drop_last());
    }
}

/// The number that `name` has in a table that holds it.
pub open spec fn id_in(names: Seq<Seq<char>>, name: Seq<char>) -> int {
    names.index_of(name)
}

impl View for SymbolTable {
    type V = Seq<Seq<char>>;

    closed spec fn view(&self) -> Seq<Seq<char>> {
        spelled(self.names@)
    }
}

impl SymbolTable {
    #[verifier::type_invariant]
    spec fn distinct(self) -> bool {
        spelled(self.names@).no_duplicates()
    }

    /// An empty table.
    pub fn new() -> (r: SymbolTable)
        ensures
            r@ == Seq::<Seq<char>>::empty(),
    {
        let r = SymbolTable { names: Vec::new() };
        assert(r@ =~= Seq::<Seq<char>>::empty());
        r
    }

    /// How many names the table holds.
    pub fn len(&self) -> (r: usize)
        ensures
            r == self@.len(),
            self@.no_duplicates(),
    {
        proof {
            use_type_invariant(self);
        }
        self.names.len()
    }

    /// The number of `name`, if it is interned.
    pub fn lookup(&self, name: &String) -> (r: Option<SymbolId>)
        requires
            self@.len() <= u32::MAX,
        ensures
            r is Some == self@.contains(name@),
            r is Some ==> (r->0).0 == id_in(self@, name@),
    {
        proof {
            use_type_invariant(self);
        }
        let mut i: usize = 0;
        while i < self.names.len()
            invariant
                i <= self.names.len(),
                self@ == spelled(self.names@),
                self@.len() <= u32::MAX,
                self@.no_duplicates(),
                forall|k: int| 0 <= k < i ==> self@[k] != name@,
            decreases self.names.len() - i,
        {
            if self.names[i] == *name {
                assert(self@[i as int] == name@);
                assert(self@.contains(name@));
                let ghost at = self@.index_of(name@);
                assert(self@[at] == name@ && 0 <= at < self@.len());
                assert(at == i);
                return Some(SymbolId(i as u32));
            }
            assert(self@[i as int] != name@);
            i = i + 1;
        }
        None
    }

    /// The id of `name`, which is added as the last one where it is new.
    pub fn intern(&mut self, name: &String) -> (r: SymbolId)
        requires
            old(self)@.len() < u32::MAX,
        ensures
            final(self)@ == interned(old(self)@, name@),
            r.0 == id_in(final(self)@, name@),
            final(self)@.contains(name@),
    {
        if let Some(id) = self.lookup(name) {
            return id;
        }
        proof {
            use_type_invariant(&*self);
        }
        let ghost before = self@;
        let id: u32 = self.names.len() as u32;
        let mut names: Vec<String> = Vec::new();
        core::mem::swap(&mut names, &mut self.names);
        let copy = name.clone();
        names.push(copy);
        assert(spelled(names@) =~= before.push(name@));
        proof {
            let after = before.push(name@);
            assert(after[before.len() as int] == name@);
            assert(after.no_duplicates()) by {
                assert forall|i: int, j: int|
                    0 <= i < after.len() && 0 <= j < after.len() && i != j implies after[i]
                    != after[j] by {
                    if i == before.len() {
                        assert(before.contains(before[j]));
                    }
                    if j == before.len() {
                        assert(before.contains(before[i]));
                    }
                }
            }
            assert(after.contains(name@));
            let at = after.index_of(name@);
            assert(after[at] == name@ && 0 <= at < after.len());
        }
        self.names = names;
        SymbolId(id)
    }

    /// The spelling of an id, if the table has it.
    pub fn name(&self, id: SymbolId) -> (r: Option<&String>)
        ensures
            r is Some == (id.0 < self@.len()),
            r is Some ==> r->0@ == self@[id.0 as int],
    {
        if (id.0 as usize) < self.names.len() {
            Some(&self.names[id.0 as usize])
        } else {
            None
        }
    }
}

/// Interning a name twice changes nothing the second time, keeps every earlier
/// number, and gives the name one number for good.
pub proof fn lemma_intern_idempotent(names: Seq<Seq<char>>, name: Seq<char>)
    ensures
        interned(interned(names, name), name) == interned(names, name),
        forall|i: int| 0 <= i < names.len() ==> interned(names, name)[i] == names[i],
        0 <= id_in(interned(names, name), name) < interned(names, name).len(),
        interned(names, name)[id_in(interned(names, name), name)] == name,
{
    let after = interned(names, name);
    if !names.contains(name) {
        assert(after[names.len() as int] == name);
    }
    assert(after.contains(name));
    let at = after.index_of(name);
    assert(after[at] == name && 0 <= at < after.len());
}

} // verus!
