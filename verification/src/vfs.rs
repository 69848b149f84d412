//! Source mounted in memory, consulted before the filesystem.
//!
//! Mounted source shadows a real file at the same path. A store holds the
//! sources of one program.

use vstd::prelude::*;

verus! {

/// The mounted sources of one program.
pub struct Mounts {
    paths: Vec<String>,
    sources: Vec<String>,
}

/// The path-to-source map that two parallel lists spell.
pub open spec fn mounted(paths: Seq<String>, sources: Seq<String>) -> Map<Seq<char>, Seq<char>>
    decreases paths.len(),
{
    if paths.len() == 0 || paths.len() != sources.len() {
        Map::empty()
    } else {
        mounted(paths.drop_last(), sources.drop_last()).insert(paths.last()@, sources.last()@)
    }
}

/// Two positions hold different paths.
pub open spec fn paths_differ(paths: Seq<String>) -> bool {
    forall|i: int, j: int| 0 <= i < j < paths.len() ==> paths[i]@ != paths[j]@
}

proof fn lemma_mounted(paths: Seq<String>, sources: Seq<String>)
    requires
        paths.len() == sources.len(),
        paths_differ(paths),
    ensures
        mounted(paths, sources).dom().finite(),
        mounted(paths, sources).len() == paths.len(),
        forall|i: int|
            0 <= i < paths.len() ==> #[trigger] mounted(paths, sources).dom().contains(paths[i]@)
                && mounted(paths, sources)[paths[i]@] == sources[i]@,
        forall|p: Seq<char>|
            mounted(paths, sources).dom().contains(p) ==> exists|i: int|
                0 <= i < paths.len() && paths[i]@ == p,
    decreases paths.len(),
{
    if paths.len() > 0 {
        let pi = paths.drop_last();
        let si = sources.drop_last();
        lemma_mounted(pi, si);
        let m = mounted(pi, si);
        if m.dom().contains(paths.last()@) {
            let i = choose|i: int| 0 <= i < pi.len() && pi[i]@ == paths.last()@;
            assert(paths[i]@ == paths[paths.len() - 1]@);
        }
        assert forall|i: int| 0 <= i < paths.len() implies #[trigger] mounted(
            paths,
            sources,
        ).dom().contains(paths[i]@) && mounted(paths, sources)[paths[i]@] == sources[i]@ by {
            if i < pi.len() {
                assert(pi[i] == paths[i]);
                assert(m.dom().contains(pi[i]@));
            }
        }
        assert forall|p: Seq<char>| mounted(paths, sources).dom().contains(p) implies exists|i: int|
            0 <= i < paths.len() && paths[i]@ == p by {
            if p != paths.last()@ {
                let i = choose|i: int| 0 <= i < pi.len() && pi[i]@ == p;
                assert(paths[i]@ == p);
            } else {
                assert(paths[paths.len() - 1]@ == p);
            }
        }
    }
}

impl View for Mounts {
    type V = Map<Seq<char>, Seq<char>>;

    closed spec fn view(&self) -> Map<Seq<char>, Seq<char>> {
        mounted(self.paths@, self.sources@)
    }
}

impl Mounts {
    #[verifier::type_invariant]
    spec fn parallel(self) -> bool {
        self.paths@.len() == self.sources@.len() && paths_differ(self.paths@)
    }

    /// A store with nothing mounted.
    pub fn new() -> (r: Mounts)
        ensures
            r@ == Map::<Seq<char>, Seq<char>>::empty(),
    {
        Mounts { paths: Vec::new(), sources: Vec::new() }
    }

    /// Where `path` is mounted.
    fn find(&self, path: &String) -> (r: Option<usize>)
        ensures
            r is Some ==> r->0 < self.paths@.len() && self.paths@[r->0 as int]@ == path@,
            r is None ==> forall|i: int| 0 <= i < self.paths@.len() ==> self.paths@[i]@ != path@,
    {
        let mut i: usize = 0;
        while i < self.paths.len()
            invariant
                i <= self.paths@.len(),
                forall|k: int| 0 <= k < i ==> self.paths@[k]@ != path@,
            decreases self.paths.len() - i,
        {
            if self.paths[i] == *path {
                return Some(i);
            }
            i = i + 1;
        }
        None
    }
}

/// What mounting a source does.
pub open spec fn path_mounted(
    store: Mounts,
    store_after: Mounts,
    path: String,
    contents: String,
) -> bool {
    &&& store_after@ == store@.insert(path@, contents@)
}

/// Mount `contents` at `path`, shadowing any real file there and replacing what
/// was mounted there before.
pub fn mount(store: &mut Mounts, path: String, contents: String)
    ensures
        path_mounted(
            *old(store),
            *final(store),
            path,
            contents,
        ),
{
    proof {
        use_type_invariant(&*store);
        lemma_mounted(store.paths@, store.sources@);
    }
    let ghost before = store@;
    let ghost new_map = before.insert(path@, contents@);
    let at = store.find(&path);
    let mut taken = Mounts::new();
    core::mem::swap(&mut taken, store);
    let Mounts { mut paths, mut sources } = taken;
    let ghost p0 = paths@;
    let ghost s0 = sources@;
    match at {
        Some(i) => {
            sources.set(i, contents);
            proof {
                lemma_mounted(paths@, sources@);
                let m = mounted(paths@, sources@);
                assert(m.dom().contains(paths@[i as int]@));
                assert forall|p: Seq<char>| m.dom().contains(p) == new_map.dom().contains(p) by {
                    if m.dom().contains(p) {
                        let k = choose|k: int| 0 <= k < paths@.len() && paths@[k]@ == p;
                        assert(before.dom().contains(p0[k]@));
                    }
                    if before.dom().contains(p) {
                        let k = choose|k: int| 0 <= k < p0.len() && p0[k]@ == p;
                        assert(m.dom().contains(paths@[k]@));
                    }
                }
                assert forall|p: Seq<char>| m.dom().contains(p) implies m[p] == new_map[p] by {
                    let k = choose|k: int| 0 <= k < paths@.len() && paths@[k]@ == p;
                    assert(m.dom().contains(paths@[k]@));
                    assert(before.dom().contains(p0[k]@));
                    if k != i {
                        if k < i {
                            assert(paths@[k]@ != paths@[i as int]@);
                        } else {
                            assert(paths@[i as int]@ != paths@[k]@);
                        }
                    }
                }
                assert(m =~= new_map);
            }
        },
        None => {
            paths.push(path);
            sources.push(contents);
            proof {
                assert(paths@.drop_last() =~= p0);
                assert(sources@.drop_last() =~= s0);
            }
        },
    }
    *store = Mounts { paths, sources };
}

/// Drop everything mounted.
pub fn unmount_all(store: &mut Mounts)
    ensures
        final(store)@ == Map::<Seq<char>, Seq<char>>::empty(),
{
    *store = Mounts::new();
}

/// Whether `path` names mounted source.
pub fn is_mounted(store: &Mounts, path: &String) -> (r: bool)
    ensures
        r == store@.dom().contains(path@),
{
    proof {
        use_type_invariant(store);
        lemma_mounted(store.paths@, store.sources@);
    }
    match store.find(path) {
        Some(i) => {
            assert(store@.dom().contains(store.paths@[i as int]@));
            true
        },
        None => false,
    }
}

/// The source mounted at `path`, if any.
pub fn read(store: &Mounts, path: &String) -> (r: Option<String>)
    ensures
        r is Some == store@.dom().contains(path@),
        r is Some ==> r->0@ == store@[path@],
{
    proof {
        use_type_invariant(store);
        lemma_mounted(store.paths@, store.sources@);
    }
    match store.find(path) {
        Some(i) => {
            assert(store@.dom().contains(store.paths@[i as int]@));
            Some(store.sources[i].clone())
        },
        None => None,
    }
}

/// How many sources are mounted.
pub fn mounted_count(store: &Mounts) -> (r: usize)
    ensures
        r == store@.len(),
        store@.dom().finite(),
{
    proof {
        use_type_invariant(store);
        lemma_mounted(store.paths@, store.sources@);
    }
    store.paths.len()
}

/// A mount is seen at its path and nowhere else: it replaces what was there, every other
/// path reads as before, and the count grows by one where the path was not mounted.
pub proof fn lemma_mount_is_seen(store: Map<Seq<char>, Seq<char>>, path: Seq<char>, contents: Seq<char>)
    requires
        store.dom().finite(),
    ensures
        ({
            let after = store.insert(path, contents);
            &&& after.dom().contains(path) && after[path] == contents
            &&& forall|q: Seq<char>| #![trigger after.dom().contains(q)]
                q != path ==> after.dom().contains(q) == store.dom().contains(q) && (store.dom().contains(q)
                    ==> after[q] == store[q])
            &&& after.len() == if store.dom().contains(path) {
                store.len()
            } else {
                store.len() + 1
            }
        }),
{
    let after = store.insert(path, contents);
    assert(after.dom() =~= store.dom().insert(path));
    if store.dom().contains(path) {
        assert(after.dom() =~= store.dom());
    }
}

} // verus!
