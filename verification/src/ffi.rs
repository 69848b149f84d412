//! Foreign types and signatures.

use vstd::prelude::*;

verus! {

/// A foreign type.
pub enum TypeDesc {
    Void,
    Bool,
    I8,
    U8,
    I16,
    U16,
    I32,
    U32,
    I64,
    U64,
    Float,
    Double,
    Ptr,
    Str,
    Struct(Vec<TypeDesc>),
    Array(Box<TypeDesc>, usize),
}

impl TypeDesc {
    /// The same type.
    pub open spec fn same(self, other: TypeDesc) -> bool
        decreases self,
    {
        match (self, other) {
            (TypeDesc::Struct(a), TypeDesc::Struct(b)) => a@.len() == b@.len() && forall|i: int|
                0 <= i < a@.len() ==> (#[trigger] a@[i]).same(b@[i]),
            (TypeDesc::Array(a, n), TypeDesc::Array(b, m)) => n == m && a.same(*b),
            _ => self == other,
        }
    }

    /// Copy of the type.
    pub fn copy(&self) -> (r: TypeDesc)
        ensures
            r.same(*self),
        decreases self,
    {
        match self {
            TypeDesc::Void => TypeDesc::Void,
            TypeDesc::Bool => TypeDesc::Bool,
            TypeDesc::I8 => TypeDesc::I8,
            TypeDesc::U8 => TypeDesc::U8,
            TypeDesc::I16 => TypeDesc::I16,
            TypeDesc::U16 => TypeDesc::U16,
            TypeDesc::I32 => TypeDesc::I32,
            TypeDesc::U32 => TypeDesc::U32,
            TypeDesc::I64 => TypeDesc::I64,
            TypeDesc::U64 => TypeDesc::U64,
            TypeDesc::Float => TypeDesc::Float,
            TypeDesc::Double => TypeDesc::Double,
            TypeDesc::Ptr => TypeDesc::Ptr,
            TypeDesc::Str => TypeDesc::Str,
            TypeDesc::Struct(fields) => {
                let mut out: Vec<TypeDesc> = Vec::new();
                let mut i: usize = 0;
                while i < fields.len()
                    invariant
                        i <= fields@.len(),
                        out@.len() == i,
                        self matches TypeDesc::Struct(f) && f == fields,
                        forall|k: int| 0 <= k < i ==> (#[trigger] out@[k]).same(fields@[k]),
                    decreases fields.len() - i,
                {
                    out.push(fields[i].copy());
                    i = i + 1;
                }
                TypeDesc::Struct(out)
            },
            TypeDesc::Array(of, n) => TypeDesc::Array(Box::new(of.copy()), *n),
        }
    }
}

/// Being the same type goes both ways.
pub proof fn lemma_same_type_symmetric(a: TypeDesc, b: TypeDesc)
    requires
        a.same(b),
    ensures
        b.same(a),
    decreases a,
{
    match (a, b) {
        (TypeDesc::Struct(x), TypeDesc::Struct(y)) => {
            assert forall|i: int| 0 <= i < y@.len() implies (#[trigger] y@[i]).same(x@[i]) by {
                assert(x@[i].same(y@[i]));
                lemma_same_type_symmetric(x@[i], y@[i]);
            }
        },
        (TypeDesc::Array(x, _), TypeDesc::Array(y, _)) => lemma_same_type_symmetric(*x, *y),
        _ => {},
    }
}

/// A foreign function's type; a variadic one fixes its first arguments.
pub struct Signature {
    pub ret: TypeDesc,
    pub args: Vec<TypeDesc>,
    pub fixed_args: Option<usize>,
}

} // verus!
