//! The fibers of one instance, by number. A fiber that is running is taken out
//! of its place; one that nothing holds any more is dropped, and its number is not
//! given out again.

use vstd::prelude::*;

use crate::ctx::Alloc;
use crate::fiber::Fiber;
use crate::heap::{lemma_adopted, lemma_allocated, FiberHeap, HeapState, RuntimeRegion};
use crate::object::HeapObject;
use crate::value::Value;

verus! {

/// The place of one fiber.
pub enum Slot {
    Present(Fiber),
    /// It is running, outside the table.
    Taken,
    /// Nothing held it any more.
    Dropped,
}

/// The fibers of one instance.
pub struct FiberTable {
    pub slots: Vec<Slot>,
}

/// The values of parameter bindings, in order.
pub open spec fn bound_values(frame: Seq<(u32, Value)>) -> Seq<Value> {
    Seq::new(frame.len(), |i: int| frame[i].1)
}

/// The values a new fiber holds: its closure, and an inherited baseline.
pub open spec fn fiber_content(f: Fiber) -> Seq<Value> {
    if f.param_baseline_seeded && f.param_frames@.len() > 0 {
        seq![f.closure_value] + bound_values(f.param_frames@[0]@)
    } else {
        seq![f.closure_value]
    }
}

/// The heap once a fiber object is born for `f`, which takes the number `handle`.
pub open spec fn fiber_born(s: HeapState, region: RuntimeRegion, handle: u32, f: Fiber) -> HeapState {
    s.allocated(HeapObject::Fiber { handle, traits: Value::nil() }, region.0).adopted(
        region.0,
        fiber_content(f),
    )
}

/// What entering a fiber in the table does.
pub open spec fn fiber_entered(
    table: FiberTable,
    table_after: FiberTable,
    ctx: Alloc,
    heap: FiberHeap,
    heap_after: FiberHeap,
    f: Fiber,
    r: Value,
) -> bool {
    &&& table_after.slots@ == table.slots@.push(Slot::Present(f))
    &&& heap_after@ == fiber_born(
            heap@,
            ctx.home(),
            table.slots@.len() as u32,
            f,
        )
    &&& heap_after@.valid()
    &&& r == heap_after@.newest()
}

impl FiberTable {
    /// The fiber is in its place.
    pub open spec fn present(self, h: u32) -> bool {
        h < self.slots@.len() && self.slots@[h as int] is Present
    }

    /// The fiber has not been dropped: it is in its place, or running.
    pub open spec fn held(self, h: u32) -> bool {
        h < self.slots@.len() && !(self.slots@[h as int] is Dropped)
    }

    /// The fiber of a number.
    pub open spec fn fiber(self, h: u32) -> Fiber {
        self.slots@[h as int]->Present_0
    }

    /// The table with another state of fiber `h`.
    pub open spec fn updated(self, h: u32, f: Fiber) -> Seq<Slot> {
        self.slots@.update(h as int, Slot::Present(f))
    }

    /// No fiber yet.
    pub fn new() -> (r: FiberTable)
        ensures
            r.slots@.len() == 0,
    {
        FiberTable { slots: Vec::new() }
    }

    /// Whether the fiber is in its place.
    pub fn is_present(&self, h: u32) -> (r: bool)
        ensures
            r == self.present(h),
    {
        if (h as usize) < self.slots.len() {
            match &self.slots[h as usize] {
                Slot::Present(_) => true,
                _ => false,
            }
        } else {
            false
        }
    }

    /// Whether the fiber has not been dropped.
    pub fn is_held(&self, h: u32) -> (r: bool)
        ensures
            r == self.held(h),
    {
        if (h as usize) < self.slots.len() {
            match &self.slots[h as usize] {
                Slot::Dropped => false,
                _ => true,
            }
        } else {
            false
        }
    }

    /// Read a fiber that is in its place.
    pub fn get(&self, h: u32) -> (r: &Fiber)
        requires
            self.present(h),
        ensures
            *r == self.fiber(h),
    {
        match &self.slots[h as usize] {
            Slot::Present(f) => f,
            _ => {
                assert(false);
                vstd::pervasive::unreached()
            },
        }
    }

    /// Take a fiber out of its place.
    pub fn take(&mut self, h: u32) -> (r: Fiber)
        requires
            old(self).present(h),
        ensures
            r == old(self).fiber(h),
            final(self).slots@ == old(self).slots@.update(h as int, Slot::Taken),
    {
        let mut out = Slot::Taken;
        self.slots.set_and_swap(h as usize, &mut out);
        match out {
            Slot::Present(f) => f,
            _ => {
                assert(false);
                vstd::pervasive::unreached()
            },
        }
    }

    /// Drop a fiber that nothing holds any more.
    pub fn discard(&mut self, h: u32)
        requires
            old(self).present(h),
        ensures
            final(self).slots@ == old(self).slots@.update(h as int, Slot::Dropped),
    {
        self.slots.set(h as usize, Slot::Dropped);
    }

    /// Put a fiber into its place.
    pub fn put(&mut self, h: u32, f: Fiber)
        requires
            h < old(self).slots@.len(),
        ensures
            final(self).slots@ == old(self).slots@.update(h as int, Slot::Present(f)),
    {
        self.slots.set(h as usize, Slot::Present(f));
    }

    /// Enter a fiber, and allocate its object into the region of `ctx`. The
    /// region takes a counted reference to what the fiber holds.
    pub fn allocate(&mut self, ctx: &Alloc, heap: &mut FiberHeap, f: Fiber) -> (r: Value)
        requires
            old(self).slots@.len() < u32::MAX,
            ctx.ready(old(heap)@, fiber_content(f).len() + 2),
        ensures
            fiber_entered(
                *old(self),
                *final(self),
                *ctx,
                *old(heap),
                *final(heap),
                f,
                r,
            ),
    {
        let ghost start = heap@;
        let handle: u32 = self.slots.len() as u32;
        let mut content: Vec<Value> = Vec::new();
        content.push(f.closure_value);
        if f.param_baseline_seeded && f.param_frames.len() > 0 {
            push_bound(&mut content, &f.param_frames[0]);
        }
        assert(content@ =~= fiber_content(f));
        let ghost obj = HeapObject::Fiber { handle, traits: Value::nil() };
        proof {
            lemma_allocated(start, obj, ctx.home().0);
            let n = fiber_content(f).len() + 2;
            assert(obj.children().len() == 1);
            assert(start.allocated(obj, ctx.home().0).room((n - 1 - 1) as nat));
        }
        let v = ctx.fiber_from_handle(heap, handle);
        proof {
            lemma_adopted(heap@, ctx.home().0, content@);
        }
        heap.adopt_values(ctx.test_region(), &content);
        self.slots.push(Slot::Present(f));
        v
    }
}

impl Alloc {
    /// Enter a fiber into the table, and allocate its object into the call's region.
    pub fn fiber(&self, heap: &mut FiberHeap, fibers: &mut FiberTable, f: Fiber) -> (r: Value)
        requires
            old(fibers).slots@.len() < u32::MAX,
            self.ready(old(heap)@, fiber_content(f).len() + 2),
        ensures
            final(fibers).slots@ == old(fibers).slots@.push(Slot::Present(f)),
            final(heap)@ == fiber_born(
                old(heap)@,
                self.home(),
                old(fibers).slots@.len() as u32,
                f,
            ),
            final(heap)@.valid(),
            r == final(heap)@.newest(),
    {
        fibers.allocate(self, heap, f)
    }
}

fn push_bound(out: &mut Vec<Value>, frame: &Vec<(u32, Value)>)
    ensures
        final(out)@ == old(out)@ + bound_values(frame@),
{
    let ghost before = out@;
    let mut i: usize = 0;
    while i < frame.len()
        invariant
            i <= frame@.len(),
            out@ == before + bound_values(frame@).take(i as int),
        decreases frame.len() - i,
    {
        out.push(frame[i].1);
        i = i + 1;
        assert(out@ =~= before + bound_values(frame@).take(i as int));
    }
    assert(bound_values(frame@).take(i as int) =~= bound_values(frame@));
}

} // verus!
