//! The part of the low-level code that carries values.

use vstd::prelude::*;

use crate::object::Arity;
use crate::value::Value;

verus! {

/// A virtual register.
#[derive(Clone, Copy, PartialEq, Eq, Structural, Debug)]
pub struct Reg(pub u32);

/// A constant that needs no heap. A float is held by its bits.
pub enum LirConst {
    Nil,
    EmptyList,
    Bool(bool),
    Int(i64),
    Float(u64),
    Str(String),
    Symbol(u32),
    Keyword(String),
    /// A closure, by its index in a bundle.
    ClosureRef(usize),
    /// A compound value, by its index in a closure's value pool.
    ValueRef(usize),
}

/// An instruction, as far as it carries a constant.
#[allow(inconsistent_fields)]
pub enum LirInstr {
    Const { dst: Reg, value: LirConst },
    ValueConst { dst: Reg, value: Value },
    /// Any other instruction, by an opaque number.
    Other(u64),
}

/// How a block ends.
#[derive(Clone, Copy, PartialEq, Eq, Structural, Debug)]
pub enum Terminator {
    Return(Reg),
    Jump(u32),
    Unreachable,
    /// Any other ending, by an opaque number.
    Other(u64),
}

/// A straight run of instructions.
pub struct BasicBlock {
    pub label: u32,
    pub instructions: Vec<LirInstr>,
    pub terminator: Terminator,
}

/// The low-level form of one function.
pub struct LirFunction {
    pub arity: Arity,
    pub num_params: usize,
    pub num_locals: usize,
    pub blocks: Vec<BasicBlock>,
    pub doc: Option<String>,
    /// Whatever else there is to the function, by an opaque number.
    pub rest: u64,
}

impl LirFunction {
    /// The same function, but for its blocks and its documentation.
    pub open spec fn framed_as(self, other: LirFunction) -> bool {
        &&& self.arity == other.arity
        &&& self.num_params == other.num_params
        &&& self.num_locals == other.num_locals
        &&& self.rest == other.rest
    }

    /// The function with these blocks and this documentation instead.
    pub fn with_blocks(&self, blocks: Vec<BasicBlock>, doc: Option<String>) -> (r: LirFunction)
        ensures
            r.framed_as(*self),
            r.blocks == blocks,
            r.doc == doc,
    {
        LirFunction {
            arity: self.arity,
            num_params: self.num_params,
            num_locals: self.num_locals,
            blocks,
            doc,
            rest: self.rest,
        }
    }
}

impl LirConst {
    /// Copy of the constant.
    pub fn copy(&self) -> (r: LirConst)
        ensures
            r == *self,
    {
        match self {
            LirConst::Nil => LirConst::Nil,
            LirConst::EmptyList => LirConst::EmptyList,
            LirConst::Bool(b) => LirConst::Bool(*b),
            LirConst::Int(n) => LirConst::Int(*n),
            LirConst::Float(f) => LirConst::Float(*f),
            LirConst::Str(s) => LirConst::Str(s.clone()),
            LirConst::Symbol(id) => LirConst::Symbol(*id),
            LirConst::Keyword(s) => LirConst::Keyword(s.clone()),
            LirConst::ClosureRef(i) => LirConst::ClosureRef(*i),
            LirConst::ValueRef(i) => LirConst::ValueRef(*i),
        }
    }
}

/// Every symbol constant of an instruction run, in order.
pub open spec fn symbols_of(instrs: Seq<LirInstr>) -> Seq<u32>
    decreases instrs.len(),
{
    if instrs.len() == 0 {
        Seq::empty()
    } else {
        let rest = symbols_of(instrs.drop_last());
        match instrs.last() {
            LirInstr::Const { value: LirConst::Symbol(id), .. } => rest.push(id),
            _ => rest,
        }
    }
}

/// Every symbol constant of a run of blocks, in order.
pub open spec fn block_symbols(blocks: Seq<BasicBlock>) -> Seq<u32>
    decreases blocks.len(),
{
    if blocks.len() == 0 {
        Seq::empty()
    } else {
        block_symbols(blocks.drop_last()) + symbols_of(blocks.last().instructions@)
    }
}

/// The ids that a name table covers.
pub open spec fn named(names: Seq<(u32, String)>, id: u32) -> bool {
    exists|i: int| 0 <= i < names.len() && names[i].0 == id
}

/// The ids that the table cannot name, in order.
pub open spec fn unnamed(ids: Seq<u32>, names: Seq<(u32, String)>) -> Seq<u32> {
    ids.filter(|id: u32| !named(names, id))
}

fn is_named(names: &Vec<(u32, String)>, id: u32) -> (r: bool)
    ensures
        r == named(names@, id),
{
    let mut i: usize = 0;
    while i < names.len()
        invariant
            i <= names@.len(),
            forall|k: int| 0 <= k < i ==> names@[k].0 != id,
        decreases names.len() - i,
    {
        if names[i].0 == id {
            return true;
        }
        i = i + 1;
    }
    false
}

/// The symbol constants of `lir` that `names` cannot name, in the order they
/// occur. An id without a name cannot be carried into another process.
pub fn untranslatable_lir_symbols(lir: &LirFunction, names: &Vec<(u32, String)>) -> (r: Vec<u32>)
    ensures
        r@ == unnamed(block_symbols(lir.blocks@), names@),
{
    let mut out: Vec<u32> = Vec::new();
    let mut b: usize = 0;
    let ghost keep = |id: u32| !named(names@, id);
    proof {
        reveal(Seq::filter);
        assert(lir.blocks@.take(0) =~= Seq::empty());
    }
    while b < lir.blocks.len()
        invariant
            b <= lir.blocks@.len(),
            keep == (|id: u32| !named(names@, id)),
            out@ == block_symbols(lir.blocks@.take(b as int)).filter(keep),
        decreases lir.blocks.len() - b,
    {
        let instrs = &lir.blocks[b].instructions;
        let ghost before = block_symbols(lir.blocks@.take(b as int));
        let mut i: usize = 0;
        assert(instrs@.take(0) =~= Seq::empty());
        assert(before + symbols_of(instrs@.take(0)) =~= before);
        while i < instrs.len()
            invariant
                i <= instrs@.len(),
                keep == (|id: u32| !named(names@, id)),
                out@ == (before + symbols_of(instrs@.take(i as int))).filter(keep),
            decreases instrs.len() - i,
        {
            let ghost sofar = before + symbols_of(instrs@.take(i as int));
            assert(instrs@.take(i + 1).drop_last() =~= instrs@.take(i as int));
            if let LirInstr::Const { value: LirConst::Symbol(id), .. } = &instrs[i] {
                proof {
                    assert(before + symbols_of(instrs@.take(i + 1)) =~= sofar.push(*id));
                    assert(sofar.push(*id).drop_last() =~= sofar);
                    reveal(Seq::filter);
                }
                if !is_named(names, *id) {
                    out.push(*id);
                }
            }
            i = i + 1;
        }
        proof {
            assert(instrs@.take(i as int) =~= instrs@);
            assert(lir.blocks@.take(b + 1).drop_last() =~= lir.blocks@.take(b as int));
        }
        b = b + 1;
    }
    assert(lir.blocks@.take(b as int) =~= lir.blocks@);
    out
}

} // verus!
