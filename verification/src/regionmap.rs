//! Which physical region each static region slot of an activation stands for.

use vstd::prelude::*;

use rustc_hash::FxHashMap;

use crate::fxmap::{fx_clone, fx_get, fx_insert, fx_new};
use crate::heap::RuntimeRegion;

verus! {

/// A physical region and the generation it was mapped in.
#[derive(Clone, Copy, PartialEq, Eq, Structural, Debug)]
pub struct MappedRegion {
    pub region: RuntimeRegion,
    pub generation: u32,
}

/// The region slots of one activation.
pub struct RegionMap {
    map: FxHashMap<u64, MappedRegion>,
}

impl View for RegionMap {
    type V = Map<u64, MappedRegion>;

    closed spec fn view(&self) -> Map<u64, MappedRegion> {
        self.map@
    }
}

impl RegionMap {
    /// No slot mapped.
    pub fn new() -> (r: RegionMap)
        ensures
            r@ == Map::<u64, MappedRegion>::empty(),
    {
        let map = fx_new();
        assert(map@ =~= Map::<u64, MappedRegion>::empty());
        RegionMap { map }
    }

    /// What `slot` stands for.
    pub fn get(&self, slot: u32) -> (r: Option<MappedRegion>)
        ensures
            r is Some == self@.dom().contains(slot as u64),
            r is Some ==> r->0 == self@[slot as u64],
    {
        fx_get(&self.map, slot as u64)
    }

    /// Map `slot` to a region.
    pub fn insert(&mut self, slot: u32, to: MappedRegion)
        ensures
            final(self)@ == old(self)@.insert(slot as u64, to),
    {
        fx_insert(&mut self.map, slot as u64, to);
    }

    /// Copy of the map.
    pub fn copy(&self) -> (r: RegionMap)
        ensures
            r@ == self@,
    {
        RegionMap { map: fx_clone(&self.map) }
    }
}

} // verus!
