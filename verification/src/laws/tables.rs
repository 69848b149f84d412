//! What the tables of primitives have in common.

use vstd::prelude::*;

use crate::def::{literals, PrimitiveDef};
use crate::object::Arity;
use crate::tables::{
    memory_defs, loading_defs, callback_defs, mlir_defs, stdio_defs, introspection_defs, module_defs, thread_defs,
    chan_defs, fiber_defs, fiber_introspection_defs, time_defs,
};

verus! {

/// The parameters are named: as many as the primitive takes, or as it takes at most.
pub open spec fn names_its_parameters(d: PrimitiveDef) -> bool {
    match d.arity {
        Arity::Exact(n) => d.params@.len() == n,
        Arity::Range(_, hi) => d.params@.len() == hi,
        Arity::AtLeast(n) => d.params@.len() >= n,
    }
}

/// The primitives of memory name their parameters.
pub proof fn lemma_memory_defs_name_their_parameters(r: Vec<PrimitiveDef>, i: int)
    requires
        call_ensures(memory_defs, (), r),
        0 <= i < r@.len(),
    ensures
        names_its_parameters(r@[i]),
{
    assert(literals(r@[0].params@).len() == r@[0].params@.len());
    assert(names_its_parameters(r@[0]));
    assert(literals(r@[1].params@).len() == r@[1].params@.len());
    assert(names_its_parameters(r@[1]));
    assert(literals(r@[2].params@).len() == r@[2].params@.len());
    assert(names_its_parameters(r@[2]));
    assert(literals(r@[3].params@).len() == r@[3].params@.len());
    assert(names_its_parameters(r@[3]));
    assert(literals(r@[4].params@).len() == r@[4].params@.len());
    assert(names_its_parameters(r@[4]));
    assert(literals(r@[5].params@).len() == r@[5].params@.len());
    assert(names_its_parameters(r@[5]));
    assert(literals(r@[6].params@).len() == r@[6].params@.len());
    assert(names_its_parameters(r@[6]));
    assert(literals(r@[7].params@).len() == r@[7].params@.len());
    assert(names_its_parameters(r@[7]));
    assert(literals(r@[8].params@).len() == r@[8].params@.len());
    assert(names_its_parameters(r@[8]));
    assert(literals(r@[9].params@).len() == r@[9].params@.len());
    assert(names_its_parameters(r@[9]));
    assert(literals(r@[10].params@).len() == r@[10].params@.len());
    assert(names_its_parameters(r@[10]));
    assert(literals(r@[11].params@).len() == r@[11].params@.len());
    assert(names_its_parameters(r@[11]));
    assert(literals(r@[12].params@).len() == r@[12].params@.len());
    assert(names_its_parameters(r@[12]));
}

/// The primitives of libraries name their parameters.
pub proof fn lemma_loading_defs_name_their_parameters(r: Vec<PrimitiveDef>, i: int)
    requires
        call_ensures(loading_defs, (), r),
        0 <= i < r@.len(),
    ensures
        names_its_parameters(r@[i]),
{
    assert(literals(r@[0].params@).len() == r@[0].params@.len());
    assert(names_its_parameters(r@[0]));
    assert(literals(r@[1].params@).len() == r@[1].params@.len());
    assert(names_its_parameters(r@[1]));
    assert(literals(r@[2].params@).len() == r@[2].params@.len());
    assert(names_its_parameters(r@[2]));
    assert(literals(r@[3].params@).len() == r@[3].params@.len());
    assert(names_its_parameters(r@[3]));
    assert(literals(r@[4].params@).len() == r@[4].params@.len());
    assert(names_its_parameters(r@[4]));
}

/// The primitives of callbacks name their parameters.
pub proof fn lemma_callback_defs_name_their_parameters(r: Vec<PrimitiveDef>, i: int)
    requires
        call_ensures(callback_defs, (), r),
        0 <= i < r@.len(),
    ensures
        names_its_parameters(r@[i]),
{
    assert(literals(r@[0].params@).len() == r@[0].params@.len());
    assert(names_its_parameters(r@[0]));
    assert(literals(r@[1].params@).len() == r@[1].params@.len());
    assert(names_its_parameters(r@[1]));
    assert(literals(r@[2].params@).len() == r@[2].params@.len());
    assert(names_its_parameters(r@[2]));
}

/// The primitives of compilation for the GPU name their parameters.
pub proof fn lemma_mlir_defs_name_their_parameters(r: Vec<PrimitiveDef>, i: int)
    requires
        call_ensures(mlir_defs, (), r),
        0 <= i < r@.len(),
    ensures
        names_its_parameters(r@[i]),
{
    assert(literals(r@[0].params@).len() == r@[0].params@.len());
    assert(names_its_parameters(r@[0]));
}

/// The primitives of the standard streams name their parameters.
pub proof fn lemma_stdio_defs_name_their_parameters(r: Vec<PrimitiveDef>, i: int)
    requires
        call_ensures(stdio_defs, (), r),
        0 <= i < r@.len(),
    ensures
        names_its_parameters(r@[i]),
{
    assert(literals(r@[0].params@).len() == r@[0].params@.len());
    assert(names_its_parameters(r@[0]));
    assert(literals(r@[1].params@).len() == r@[1].params@.len());
    assert(names_its_parameters(r@[1]));
    assert(literals(r@[2].params@).len() == r@[2].params@.len());
    assert(names_its_parameters(r@[2]));
    assert(literals(r@[3].params@).len() == r@[3].params@.len());
    assert(names_its_parameters(r@[3]));
    assert(literals(r@[4].params@).len() == r@[4].params@.len());
    assert(names_its_parameters(r@[4]));
}

/// The primitives of introspection name their parameters.
pub proof fn lemma_introspection_defs_name_their_parameters(r: Vec<PrimitiveDef>, i: int)
    requires
        call_ensures(introspection_defs, (), r),
        0 <= i < r@.len(),
    ensures
        names_its_parameters(r@[i]),
{
    assert(literals(r@[0].params@).len() == r@[0].params@.len());
    assert(names_its_parameters(r@[0]));
    assert(literals(r@[1].params@).len() == r@[1].params@.len());
    assert(names_its_parameters(r@[1]));
    assert(literals(r@[2].params@).len() == r@[2].params@.len());
    assert(names_its_parameters(r@[2]));
    assert(literals(r@[3].params@).len() == r@[3].params@.len());
    assert(names_its_parameters(r@[3]));
    assert(literals(r@[4].params@).len() == r@[4].params@.len());
    assert(names_its_parameters(r@[4]));
    assert(literals(r@[5].params@).len() == r@[5].params@.len());
    assert(names_its_parameters(r@[5]));
    assert(literals(r@[6].params@).len() == r@[6].params@.len());
    assert(names_its_parameters(r@[6]));
    assert(literals(r@[7].params@).len() == r@[7].params@.len());
    assert(names_its_parameters(r@[7]));
    assert(literals(r@[8].params@).len() == r@[8].params@.len());
    assert(names_its_parameters(r@[8]));
    assert(literals(r@[9].params@).len() == r@[9].params@.len());
    assert(names_its_parameters(r@[9]));
    assert(literals(r@[10].params@).len() == r@[10].params@.len());
    assert(names_its_parameters(r@[10]));
    assert(literals(r@[11].params@).len() == r@[11].params@.len());
    assert(names_its_parameters(r@[11]));
    assert(literals(r@[12].params@).len() == r@[12].params@.len());
    assert(names_its_parameters(r@[12]));
    assert(literals(r@[13].params@).len() == r@[13].params@.len());
    assert(names_its_parameters(r@[13]));
    assert(literals(r@[14].params@).len() == r@[14].params@.len());
    assert(names_its_parameters(r@[14]));
}

/// The primitives of modules name their parameters.
pub proof fn lemma_module_defs_name_their_parameters(r: Vec<PrimitiveDef>, i: int)
    requires
        call_ensures(module_defs, (), r),
        0 <= i < r@.len(),
    ensures
        names_its_parameters(r@[i]),
{
    assert(literals(r@[0].params@).len() == r@[0].params@.len());
    assert(names_its_parameters(r@[0]));
}

/// The primitives of threads name their parameters.
pub proof fn lemma_thread_defs_name_their_parameters(r: Vec<PrimitiveDef>, i: int)
    requires
        call_ensures(thread_defs, (), r),
        0 <= i < r@.len(),
    ensures
        names_its_parameters(r@[i]),
{
    assert(literals(r@[0].params@).len() == r@[0].params@.len());
    assert(names_its_parameters(r@[0]));
    assert(literals(r@[1].params@).len() == r@[1].params@.len());
    assert(names_its_parameters(r@[1]));
    assert(literals(r@[2].params@).len() == r@[2].params@.len());
    assert(names_its_parameters(r@[2]));
    assert(literals(r@[3].params@).len() == r@[3].params@.len());
    assert(names_its_parameters(r@[3]));
}

/// The primitives of channels name their parameters.
pub proof fn lemma_chan_defs_name_their_parameters(r: Vec<PrimitiveDef>, i: int)
    requires
        call_ensures(chan_defs, (), r),
        0 <= i < r@.len(),
    ensures
        names_its_parameters(r@[i]),
{
    assert(literals(r@[0].params@).len() == r@[0].params@.len());
    assert(names_its_parameters(r@[0]));
    assert(literals(r@[1].params@).len() == r@[1].params@.len());
    assert(names_its_parameters(r@[1]));
    assert(literals(r@[2].params@).len() == r@[2].params@.len());
    assert(names_its_parameters(r@[2]));
    assert(literals(r@[3].params@).len() == r@[3].params@.len());
    assert(names_its_parameters(r@[3]));
    assert(literals(r@[4].params@).len() == r@[4].params@.len());
    assert(names_its_parameters(r@[4]));
    assert(literals(r@[5].params@).len() == r@[5].params@.len());
    assert(names_its_parameters(r@[5]));
    assert(literals(r@[6].params@).len() == r@[6].params@.len());
    assert(names_its_parameters(r@[6]));
    assert(literals(r@[7].params@).len() == r@[7].params@.len());
    assert(names_its_parameters(r@[7]));
}

/// The primitives of fibers name their parameters.
pub proof fn lemma_fiber_defs_name_their_parameters(r: Vec<PrimitiveDef>, i: int)
    requires
        call_ensures(fiber_defs, (), r),
        0 <= i < r@.len(),
    ensures
        names_its_parameters(r@[i]),
{
    assert(literals(r@[0].params@).len() == r@[0].params@.len());
    assert(names_its_parameters(r@[0]));
    assert(literals(r@[1].params@).len() == r@[1].params@.len());
    assert(names_its_parameters(r@[1]));
    assert(literals(r@[2].params@).len() == r@[2].params@.len());
    assert(names_its_parameters(r@[2]));
    assert(literals(r@[3].params@).len() == r@[3].params@.len());
    assert(names_its_parameters(r@[3]));
    assert(literals(r@[4].params@).len() == r@[4].params@.len());
    assert(names_its_parameters(r@[4]));
    assert(literals(r@[5].params@).len() == r@[5].params@.len());
    assert(names_its_parameters(r@[5]));
    assert(literals(r@[6].params@).len() == r@[6].params@.len());
    assert(names_its_parameters(r@[6]));
    assert(literals(r@[7].params@).len() == r@[7].params@.len());
    assert(names_its_parameters(r@[7]));
}

/// The primitives of looking into fibers name their parameters.
pub proof fn lemma_fiber_introspection_defs_name_their_parameters(r: Vec<PrimitiveDef>, i: int)
    requires
        call_ensures(fiber_introspection_defs, (), r),
        0 <= i < r@.len(),
    ensures
        names_its_parameters(r@[i]),
{
    assert(literals(r@[0].params@).len() == r@[0].params@.len());
    assert(names_its_parameters(r@[0]));
    assert(literals(r@[1].params@).len() == r@[1].params@.len());
    assert(names_its_parameters(r@[1]));
    assert(literals(r@[2].params@).len() == r@[2].params@.len());
    assert(names_its_parameters(r@[2]));
    assert(literals(r@[3].params@).len() == r@[3].params@.len());
    assert(names_its_parameters(r@[3]));
    assert(literals(r@[4].params@).len() == r@[4].params@.len());
    assert(names_its_parameters(r@[4]));
    assert(literals(r@[5].params@).len() == r@[5].params@.len());
    assert(names_its_parameters(r@[5]));
    assert(literals(r@[6].params@).len() == r@[6].params@.len());
    assert(names_its_parameters(r@[6]));
    assert(literals(r@[7].params@).len() == r@[7].params@.len());
    assert(names_its_parameters(r@[7]));
    assert(literals(r@[8].params@).len() == r@[8].params@.len());
    assert(names_its_parameters(r@[8]));
}

/// The primitives of time name their parameters.
pub proof fn lemma_time_defs_name_their_parameters(r: Vec<PrimitiveDef>, i: int)
    requires
        call_ensures(time_defs, (), r),
        0 <= i < r@.len(),
    ensures
        names_its_parameters(r@[i]),
{
    assert(literals(r@[0].params@).len() == r@[0].params@.len());
    assert(names_its_parameters(r@[0]));
    assert(literals(r@[1].params@).len() == r@[1].params@.len());
    assert(names_its_parameters(r@[1]));
    assert(literals(r@[2].params@).len() == r@[2].params@.len());
    assert(names_its_parameters(r@[2]));
    assert(literals(r@[3].params@).len() == r@[3].params@.len());
    assert(names_its_parameters(r@[3]));
}

} // verus!
