//! Scalar values as plain data, for a store that outlives the process.
//!
//! A keyword is kept by its spelling and a primitive by its number, which the
//! registry fixes. A symbol's number means nothing elsewhere and no name travels
//! with it, so a symbol is refused, and so is every heap value. Data that cannot
//! be read back is an error, never a crash: the store treats it as absent.

use vstd::prelude::*;

use crate::ctx::with_keyword;
use crate::heap::{keyword_value, FiberHeap, HeapState};
use crate::registration::{prim_def, PrimRegistry};
use crate::symbol::interned;
use crate::text::{decimal, push_decimal};
use crate::value::{
    Value, TAG_FALSE, TAG_FLOAT, TAG_HEAP_START, TAG_INT, TAG_KEYWORD, TAG_NATIVE_FN, TAG_NIL, TAG_SYMBOL,
    TAG_TRUE,
};

verus! {

/// What kind of scalar is stored.
#[derive(Clone, Copy, PartialEq, Eq, Structural, Debug)]
pub enum ScalarKind {
    Nil,
    Bool,
    Int,
    Float,
    Symbol,
    Keyword,
    NativeFn,
}

/// What is stored of a scalar. A float is held by its IEEE-754 bits.
pub enum ScalarPayload {
    Nil,
    Bool(bool),
    Int(i64),
    Float(u64),
    Symbol(u32),
    Keyword(String),
    NativeFn(u32),
}

impl ScalarKind {
    /// The byte that stands for the kind.
    pub open spec fn byte(self) -> u8 {
        match self {
            ScalarKind::Nil => 0,
            ScalarKind::Bool => 1,
            ScalarKind::Int => 2,
            ScalarKind::Float => 3,
            ScalarKind::Symbol => 4,
            ScalarKind::Keyword => 5,
            ScalarKind::NativeFn => 6,
        }
    }

    /// The byte that stands for the kind.
    pub fn to_byte(self) -> (r: u8)
        ensures
            r == self.byte(),
    {
        match self {
            ScalarKind::Nil => 0,
            ScalarKind::Bool => 1,
            ScalarKind::Int => 2,
            ScalarKind::Float => 3,
            ScalarKind::Symbol => 4,
            ScalarKind::Keyword => 5,
            ScalarKind::NativeFn => 6,
        }
    }

    /// The kind that a byte stands for, if it stands for one.
    pub fn from_byte(b: u8) -> (r: Option<ScalarKind>)
        ensures
            r is Some == (b <= 6),
            r is Some ==> (r->0).byte() == b,
    {
        match b {
            0 => Some(ScalarKind::Nil),
            1 => Some(ScalarKind::Bool),
            2 => Some(ScalarKind::Int),
            3 => Some(ScalarKind::Float),
            4 => Some(ScalarKind::Symbol),
            5 => Some(ScalarKind::Keyword),
            6 => Some(ScalarKind::NativeFn),
            _ => None,
        }
    }
}

/// `name` is the spelling of the keyword `v`.
pub open spec fn keyword_spelled(s: HeapState, v: Value) -> bool {
    v.tag == TAG_KEYWORD && v.payload < s.keywords.len() && v.payload <= u32::MAX
}

/// The value can be stored.
pub open spec fn storable(s: HeapState, v: Value) -> bool {
    ||| keyword_spelled(s, v)
    ||| v.tag == TAG_TRUE
    ||| v.tag == TAG_FALSE
    ||| v.tag == TAG_NATIVE_FN
    ||| v.tag == TAG_NIL
    ||| v.tag == TAG_INT
    ||| v.tag == TAG_FLOAT
}

/// The kind and the payload that store `v`.
pub open spec fn stores(s: HeapState, v: Value, kind: u8, payload: ScalarPayload) -> bool {
    match payload {
        ScalarPayload::Nil => v.tag == TAG_NIL && kind == ScalarKind::Nil.byte(),
        ScalarPayload::Bool(b) => v.tag == (if b {
            TAG_TRUE
        } else {
            TAG_FALSE
        }) && kind == ScalarKind::Bool.byte(),
        ScalarPayload::Int(n) => v.tag == TAG_INT && n == v.payload as i64 && kind == ScalarKind::Int.byte(),
        ScalarPayload::Float(bits) => v.tag == TAG_FLOAT && bits == v.payload && kind
            == ScalarKind::Float.byte(),
        ScalarPayload::Symbol(_) => false,
        ScalarPayload::Keyword(name) => keyword_spelled(s, v) && name@ == s.keywords[v.payload as int]
            && kind == ScalarKind::Keyword.byte(),
        ScalarPayload::NativeFn(id) => v.tag == TAG_NATIVE_FN && id == v.payload as u32 && kind
            == ScalarKind::NativeFn.byte(),
    }
}

/// Take a scalar apart for storing.
pub fn scalar_parts(heap: &FiberHeap, v: Value) -> (r: Result<(u8, ScalarPayload), String>)
    ensures
        match r {
            Ok((kind, payload)) => storable(heap@, v) && stores(heap@, v, kind, payload),
            Err(e) => !storable(heap@, v) && e@ == if v.tag >= TAG_HEAP_START {
                "cannot serialize heap Value"@
            } else {
                "unsupported scalar Value"@
            },
        },
{
    if v.tag >= TAG_HEAP_START {
        return Err("cannot serialize heap Value".to_string());
    }
    if let Some(name) = heap.keyword_spelling(v) {
        return Ok((ScalarKind::Keyword.to_byte(), ScalarPayload::Keyword(name)));
    }
    if let Some(b) = v.as_bool() {
        return Ok((ScalarKind::Bool.to_byte(), ScalarPayload::Bool(b)));
    }
    if v.tag == TAG_NATIVE_FN {
        return Ok((ScalarKind::NativeFn.to_byte(), ScalarPayload::NativeFn(v.payload as u32)));
    }
    if v.is_nil() {
        return Ok((ScalarKind::Nil.to_byte(), ScalarPayload::Nil));
    }
    if let Some(n) = v.as_int() {
        return Ok((ScalarKind::Int.to_byte(), ScalarPayload::Int(n)));
    }
    if v.tag == TAG_FLOAT {
        return Ok((ScalarKind::Float.to_byte(), ScalarPayload::Float(v.payload)));
    }
    Err("unsupported scalar Value".to_string())
}

/// The kind byte belongs to the payload, and the payload can be read back.
pub open spec fn readable(kind: u8, payload: ScalarPayload, prims: nat) -> bool {
    match payload {
        ScalarPayload::Nil => kind == 0,
        ScalarPayload::Bool(_) => kind == 1,
        ScalarPayload::Int(_) => kind == 2,
        ScalarPayload::Float(_) => kind == 3,
        ScalarPayload::Symbol(_) => false,
        ScalarPayload::Keyword(_) => kind == 5,
        ScalarPayload::NativeFn(id) => kind == 6 && id < prims,
    }
}

/// The value that stored data stands for.
pub open spec fn restored(s: HeapState, payload: ScalarPayload) -> Value {
    match payload {
        ScalarPayload::Nil => Value::nil(),
        ScalarPayload::Bool(b) => Value::bool(b),
        ScalarPayload::Int(n) => Value::integer(n),
        ScalarPayload::Float(bits) => Value::float_bits(bits),
        ScalarPayload::Symbol(id) => Value::symbol(id),
        ScalarPayload::Keyword(name) => keyword_value(interned(s.keywords, name@), name@),
        ScalarPayload::NativeFn(id) => Value::native_fn(id),
    }
}

/// Put a stored scalar together again. A keyword is interned; a primitive must be
/// one of the registry's.
pub fn scalar_from_parts(
    heap: &mut FiberHeap,
    registry: &PrimRegistry,
    kind: u8,
    payload: &ScalarPayload,
) -> (r: Result<Value, String>)
    requires
        old(heap)@.keywords.len() < u32::MAX,
    ensures
        r is Ok == readable(kind, *payload, registry.defs().len()),
        match r {
            Ok(v) => {
                &&& v == restored(old(heap)@, *payload)
                &&& final(heap)@ == match *payload {
                    ScalarPayload::Keyword(name) => with_keyword(old(heap)@, name@),
                    _ => old(heap)@,
                }
            },
            Err(e) => {
                &&& final(heap)@ == old(heap)@
                &&& e@ == if kind > 6 {
                    "invalid scalar kind "@ + decimal(kind as nat)
                } else if kind == 6 && payload is NativeFn {
                    "unknown prim id "@ + decimal(payload->NativeFn_0 as nat)
                } else {
                    "scalar kind/payload mismatch"@
                }
            },
        },
{
    let k = match ScalarKind::from_byte(kind) {
        Some(k) => k,
        None => {
            let mut msg = "invalid scalar kind ".to_string();
            push_decimal(&mut msg, kind as u64);
            return Err(msg);
        },
    };
    match (k, payload) {
        (ScalarKind::Nil, ScalarPayload::Nil) => Ok(Value::nil()),
        (ScalarKind::Bool, ScalarPayload::Bool(b)) => Ok(Value::bool(*b)),
        (ScalarKind::Int, ScalarPayload::Int(n)) => Ok(Value::integer(*n)),
        (ScalarKind::Float, ScalarPayload::Float(bits)) => Ok(Value::float_bits(*bits)),
        (ScalarKind::Keyword, ScalarPayload::Keyword(name)) => Ok(heap.keyword(name)),
        (ScalarKind::NativeFn, ScalarPayload::NativeFn(id)) => match prim_def(registry, *id) {
            Some(_) => Ok(Value::native_fn(*id)),
            None => {
                let mut msg = "unknown prim id ".to_string();
                push_decimal(&mut msg, *id as u64);
                Err(msg)
            },
        },
        _ => Err("scalar kind/payload mismatch".to_string()),
    }
}

/// The word is what the constructors make of a scalar: no stray bits beside the
/// tag, and a primitive is one of `prims`.
pub open spec fn canonical(v: Value, prims: nat) -> bool {
    &&& v.tag == TAG_NIL || v.tag == TAG_TRUE || v.tag == TAG_FALSE ==> v.payload == 0
    &&& v.tag == TAG_NATIVE_FN ==> v.payload < prims && v.payload <= u32::MAX
}

/// A stored scalar comes back as itself.
pub proof fn lemma_scalar_round_trip(s: HeapState, v: Value, kind: u8, payload: ScalarPayload, prims: nat)
    requires
        s.keywords.no_duplicates(),
        storable(s, v),
        stores(s, v, kind, payload),
        canonical(v, prims),
    ensures
        readable(kind, payload, prims),
        restored(s, payload) == v,
        payload is Keyword ==> with_keyword(s, payload->Keyword_0@) == s,
{
    match payload {
        ScalarPayload::Int(n) => {
            let w = v.payload;
            assert((w as i64) as u64 == w) by (bit_vector);
        },
        ScalarPayload::Keyword(name) => {
            let at = v.payload as int;
            assert(s.keywords[at] == name@);
            assert(s.keywords.contains(name@));
            let k = s.keywords.index_of(name@);
            assert(s.keywords[k] == name@ && 0 <= k < s.keywords.len());
            assert(k == at);
        },
        ScalarPayload::NativeFn(id) => {
            let w = v.payload;
            assert(w <= 0xffff_ffff ==> (w as u32) as u64 == w) by (bit_vector);
        },
        _ => {},
    }
}

/// No symbol and no heap value is ever stored.
pub proof fn lemma_symbols_are_refused(s: HeapState, v: Value)
    requires
        v.tag == TAG_SYMBOL || v.tag >= TAG_HEAP_START,
    ensures
        !storable(s, v),
{
}

} // verus!
