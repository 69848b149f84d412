//! Heap objects: everything a value word cannot hold itself.

use std::rc::Rc;

use vstd::prelude::*;

use crate::capturemask::CaptureMask;
use crate::ffi::{Signature, TypeDesc};
use crate::lir::LirFunction;
use crate::signalbits::SignalBits;
use crate::signals::Signal;
use crate::span::Span;
use crate::text::{decimal, push_decimal};
use crate::token::SourceLoc;
use crate::value::{
    Value, TAG_ARRAY, TAG_ARRAY_MUT, TAG_BYTES, TAG_BYTES_MUT, TAG_CAPTURE_CELL, TAG_CLOSURE,
    TAG_CLOSURE_TEMPLATE, TAG_CONS, TAG_EXTERNAL, TAG_FFI_SIG, TAG_FFI_TYPE, TAG_FIBER, TAG_FLOAT, TAG_LBOX,
    TAG_LIB_HANDLE, TAG_MANAGED_PTR, TAG_PARAMETER, TAG_SET, TAG_SET_MUT, TAG_STRING, TAG_STRING_MUT,
    TAG_STRUCT, TAG_STRUCT_MUT, TAG_SYNTAX, TAG_THREAD,
};

verus! {

/// How many arguments a callable takes.
#[derive(Clone, Copy, PartialEq, Eq, Structural, Debug)]
pub enum Arity {
    Exact(usize),
    AtLeast(usize),
    Range(usize, usize),
}

impl Arity {
    /// `n` arguments are accepted.
    pub open spec fn accepts(self, n: nat) -> bool {
        match self {
            Arity::Exact(k) => n == k,
            Arity::AtLeast(k) => n >= k,
            Arity::Range(lo, hi) => lo <= n <= hi,
        }
    }

    /// How the arity reads: the number, `n+`, or `lo-hi`.
    pub open spec fn text(self) -> Seq<char> {
        match self {
            Arity::Exact(k) => decimal(k as nat),
            Arity::AtLeast(k) => decimal(k as nat) + "+"@,
            Arity::Range(lo, hi) => decimal(lo as nat) + "-"@ + decimal(hi as nat),
        }
    }

    /// Whether `n` arguments are accepted.
    pub fn matches(&self, n: usize) -> (r: bool)
        ensures
            r == self.accepts(n as nat),
    {
        match self {
            Arity::Exact(k) => n == *k,
            Arity::AtLeast(k) => n >= *k,
            Arity::Range(lo, hi) => *lo <= n && n <= *hi,
        }
    }

    /// Append the readable form.
    pub fn push_text(&self, out: &mut String)
        ensures
            final(out)@ == old(out)@ + self.text(),
    {
        let ghost before = out@;
        match self {
            Arity::Exact(k) => {
                push_decimal(out, *k as u64);
            },
            Arity::AtLeast(k) => {
                push_decimal(out, *k as u64);
                out.append("+");
            },
            Arity::Range(lo, hi) => {
                push_decimal(out, *lo as u64);
                out.append("-");
                push_decimal(out, *hi as u64);
            },
        }
        assert(out@ =~= before + self.text());
    }
}

/// A struct key.
pub enum TableKey {
    Bool(bool),
    Int(i64),
    Symbol(u32),
    Keyword(String),
    Str(String),
    /// A key by object identity.
    Identity(Value),
}

impl TableKey {
    /// The same key data.
    pub open spec fn same(self, other: TableKey) -> bool {
        match (self, other) {
            (TableKey::Keyword(a), TableKey::Keyword(b)) => a@ == b@,
            (TableKey::Str(a), TableKey::Str(b)) => a@ == b@,
            _ => self == other,
        }
    }

    /// Whether the key means the same on another heap.
    pub fn is_sendable(&self) -> (r: bool)
        ensures
            r == !(self is Identity),
    {
        match self {
            TableKey::Identity(_) => false,
            _ => true,
        }
    }

    /// Copy of the key.
    pub fn copy(&self) -> (r: TableKey)
        ensures
            r.same(*self),
            r is Identity == self is Identity,
    {
        match self {
            TableKey::Bool(b) => TableKey::Bool(*b),
            TableKey::Int(n) => TableKey::Int(*n),
            TableKey::Symbol(n) => TableKey::Symbol(*n),
            TableKey::Keyword(s) => TableKey::Keyword(s.clone()),
            TableKey::Str(s) => TableKey::Str(s.clone()),
            TableKey::Identity(v) => TableKey::Identity(*v),
        }
    }
}

/// Pair cell for list construction.
#[derive(Clone, Copy, PartialEq, Eq, Structural, Debug)]
pub struct Pair {
    pub first: Value,
    pub rest: Value,
    pub traits: Value,
}

impl Pair {
    /// A pair without traits.
    pub fn new(first: Value, rest: Value) -> (r: Pair)
        ensures
            r == (Pair { first, rest, traits: Value::nil() }),
    {
        Pair { first, rest, traits: Value::nil() }
    }
}

/// A syntax object: a symbol with its scope set.
pub struct Syntax {
    pub name: String,
    pub scopes: Vec<u32>,
    pub span: Span,
    pub scope_exempt: bool,
}

/// How a variadic callable takes its surplus arguments.
#[derive(Clone, Copy, PartialEq, Eq, Structural, Debug)]
pub enum VarargKind {
    List,
    Struct,
    StrictStruct,
}

/// A code object.
pub struct ClosureTemplate {
    pub bytecode: Vec<u8>,
    pub arity: Arity,
    pub num_locals: usize,
    pub num_captures: usize,
    pub num_params: usize,
    pub constants: Vec<Value>,
    pub signal: Signal,
    pub capture_params_mask: u64,
    pub capture_locals_mask: CaptureMask,
    pub symbol_names: Vec<(u32, String)>,
    pub location_map: Vec<(usize, SourceLoc)>,
    pub lir_function: Option<LirFunction>,
    pub doc: Option<String>,
    pub vararg_kind: VarargKind,
    pub name: Option<String>,
    /// The nested lambdas, by the index their construction names.
    pub child_protos: Vec<Rc<ClosureTemplate>>,
    pub merged_slots: Vec<u32>,
    /// Local slots whose values an abandoned frame still owes a release.
    pub frame_release_slots: Vec<u16>,
    /// Static region slots that an abandoned frame still owes a release.
    pub frame_release_regions: Vec<u32>,
}

impl ClosureTemplate {
    /// A nested template.
    pub open spec fn proto(self, i: int) -> ClosureTemplate {
        *self.child_protos@[i]
    }

    /// A template with code, arity and constants, everything else empty.
    pub fn new(bytecode: Vec<u8>, arity: Arity, constants: Vec<Value>) -> (r: ClosureTemplate)
        ensures
            r.bytecode == bytecode,
            r.arity == arity,
            r.constants == constants,
            r.num_locals == 0,
            r.num_captures == 0,
            r.num_params == 0,
            r.signal == crate::signals::plain(0),
            r.capture_params_mask == 0,
            r.capture_locals_mask@.len() == 0,
            r.symbol_names@.len() == 0,
            r.location_map@.len() == 0,
            r.lir_function is None,
            r.doc is None,
            r.vararg_kind == VarargKind::List,
            r.name is None,
            r.child_protos@.len() == 0,
            r.merged_slots@.len() == 0,
            r.frame_release_slots@.len() == 0,
            r.frame_release_regions@.len() == 0,
    {
        ClosureTemplate {
            bytecode,
            arity,
            num_locals: 0,
            num_captures: 0,
            num_params: 0,
            constants,
            signal: Signal::silent(),
            capture_params_mask: 0,
            capture_locals_mask: CaptureMask::empty(),
            symbol_names: Vec::new(),
            location_map: Vec::new(),
            lir_function: None,
            doc: None,
            vararg_kind: VarargKind::List,
            name: None,
            child_protos: Vec::new(),
            merged_slots: Vec::new(),
            frame_release_slots: Vec::new(),
            frame_release_regions: Vec::new(),
        }
    }
}

/// A closure instance: code, captured values, and the signals its boundary
/// squelches.
pub struct Closure {
    pub template: Rc<ClosureTemplate>,
    pub env: Vec<Value>,
    pub squelch_mask: SignalBits,
}

impl Closure {
    /// The same code, captured values and boundary.
    pub open spec fn same(self, other: Closure) -> bool {
        self.template == other.template && self.env@ == other.env@ && self.squelch_mask
            == other.squelch_mask
    }

    /// The code.
    pub open spec fn code(self) -> ClosureTemplate {
        *self.template
    }

    /// Copy of the instance; the code is shared.
    pub fn copy(&self) -> (r: Closure)
        ensures
            r.same(*self),
    {
        let mut env: Vec<Value> = Vec::new();
        push_values(&mut env, &self.env);
        assert(env@ =~= self.env@);
        Closure { template: self.template.clone(), env, squelch_mask: self.squelch_mask }
    }
}

/// What a port is connected to.
#[derive(Clone, Copy, PartialEq, Eq, Structural, Debug)]
pub enum PortKind {
    Stdin,
    Stdout,
    Stderr,
    File,
    Socket,
}

/// One end of a channel: which channel, and whether this end is still open.
#[derive(Clone, Copy, PartialEq, Eq, Structural, Debug)]
pub struct ChanEnd {
    pub channel: u64,
    pub open: bool,
}

/// The payload of an external object, as far as the runtime looks into it.
#[derive(Clone, Copy, PartialEq, Eq, Structural, Debug)]
pub enum ExternalData {
    Port(PortKind),
    Channel(ChanEnd),
    /// Anything else, by an opaque number.
    Opaque(u64),
}

/// Opaque external object with a type name for identity.
pub struct ExternalObject {
    pub kind_name: String,
    pub data: ExternalData,
}

impl ExternalObject {
    /// Copy of the object: the same name, the same payload.
    pub fn copy(&self) -> (r: ExternalObject)
        ensures
            r.kind_name@ == self.kind_name@,
            r.data == self.data,
    {
        ExternalObject { kind_name: self.kind_name.clone(), data: self.data }
    }
}

/// Discriminant for heap object types.
#[derive(Clone, Copy, PartialEq, Eq, Structural, Debug, Hash)]
pub enum HeapTag {
    LString,
    Pair,
    LArrayMut,
    LStructMut,
    LStruct,
    Closure,
    Syntax,
    LArray,
    LBox,
    Float,
    LibHandle,
    ThreadHandle,
    Fiber,
    FFISignature,
    FFIType,
    ManagedPointer,
    LStringMut,
    LBytes,
    LBytesMut,
    External,
    Parameter,
    LSet,
    LSetMut,
    CaptureCell,
    ClosureTemplate,
}

impl HeapTag {
    /// The tag's place in a per-tag table.
    pub open spec fn slot(self) -> int {
        match self {
            HeapTag::LString => 0,
            HeapTag::Pair => 1,
            HeapTag::LArrayMut => 2,
            HeapTag::LStructMut => 3,
            HeapTag::LStruct => 4,
            HeapTag::Closure => 5,
            HeapTag::Syntax => 6,
            HeapTag::LArray => 7,
            HeapTag::LBox => 8,
            HeapTag::Float => 9,
            HeapTag::LibHandle => 12,
            HeapTag::ThreadHandle => 14,
            HeapTag::Fiber => 16,
            HeapTag::FFISignature => 18,
            HeapTag::FFIType => 19,
            HeapTag::ManagedPointer => 20,
            HeapTag::LStringMut => 21,
            HeapTag::LBytes => 22,
            HeapTag::LBytesMut => 23,
            HeapTag::External => 24,
            HeapTag::Parameter => 25,
            HeapTag::LSet => 26,
            HeapTag::LSetMut => 27,
            HeapTag::CaptureCell => 28,
            HeapTag::ClosureTemplate => 29,
        }
    }

    /// The tag's place in a per-tag table.
    pub fn index(self) -> (r: usize)
        ensures
            r == self.slot(),
            r < 30,
    {
        match self {
            HeapTag::LString => 0,
            HeapTag::Pair => 1,
            HeapTag::LArrayMut => 2,
            HeapTag::LStructMut => 3,
            HeapTag::LStruct => 4,
            HeapTag::Closure => 5,
            HeapTag::Syntax => 6,
            HeapTag::LArray => 7,
            HeapTag::LBox => 8,
            HeapTag::Float => 9,
            HeapTag::LibHandle => 12,
            HeapTag::ThreadHandle => 14,
            HeapTag::Fiber => 16,
            HeapTag::FFISignature => 18,
            HeapTag::FFIType => 19,
            HeapTag::ManagedPointer => 20,
            HeapTag::LStringMut => 21,
            HeapTag::LBytes => 22,
            HeapTag::LBytesMut => 23,
            HeapTag::External => 24,
            HeapTag::Parameter => 25,
            HeapTag::LSet => 26,
            HeapTag::LSetMut => 27,
            HeapTag::CaptureCell => 28,
            HeapTag::ClosureTemplate => 29,
        }
    }
}

/// All heap-allocated value types. A float is held by its IEEE-754 bits, a
/// fiber and a thread by their numbers in the tables that own them.
#[allow(inconsistent_fields)]
pub enum HeapObject {
    LString { s: String, traits: Value },
    Pair(Pair),
    LArrayMut { data: Vec<Value>, traits: Value },
    LStructMut { data: Vec<(TableKey, Value)>, traits: Value },
    LStruct { data: Vec<(TableKey, Value)>, traits: Value },
    Closure { closure: Closure, traits: Value },
    LArray { elements: Vec<Value>, traits: Value },
    LStringMut { data: Vec<u8>, traits: Value },
    LBytes { data: Vec<u8>, traits: Value },
    LBytesMut { data: Vec<u8>, traits: Value },
    LBox { cell: Value, traits: Value },
    CaptureCell { cell: Value, traits: Value },
    Float(u64),
    LibHandle(u32),
    ThreadHandle { handle: u32, traits: Value },
    Fiber { handle: u32, traits: Value },
    Syntax { syntax: Syntax, traits: Value },
    FFISignature(Signature),
    FFIType(TypeDesc),
    ManagedPointer { addr: Option<u64>, traits: Value },
    External { obj: ExternalObject, traits: Value },
    Parameter { id: u32, default: Value, traits: Value },
    LSet { data: Vec<Value>, traits: Value },
    LSetMut { data: Vec<Value>, traits: Value },
    ClosureTemplate(ClosureTemplate),
}

/// The values of key-value entries.
pub open spec fn entry_values(data: Seq<(TableKey, Value)>) -> Seq<Value> {
    Seq::new(data.len(), |i: int| data[i].1)
}

impl HeapObject {
    /// The tag of the values that point to the object.
    pub open spec fn value_tag(self) -> u64 {
        match self {
            HeapObject::LString { .. } => TAG_STRING,
            HeapObject::Pair(_) => TAG_CONS,
            HeapObject::LArrayMut { .. } => TAG_ARRAY_MUT,
            HeapObject::LStructMut { .. } => TAG_STRUCT_MUT,
            HeapObject::LStruct { .. } => TAG_STRUCT,
            HeapObject::Closure { .. } => TAG_CLOSURE,
            HeapObject::LArray { .. } => TAG_ARRAY,
            HeapObject::LStringMut { .. } => TAG_STRING_MUT,
            HeapObject::LBytes { .. } => TAG_BYTES,
            HeapObject::LBytesMut { .. } => TAG_BYTES_MUT,
            HeapObject::LBox { .. } => TAG_LBOX,
            HeapObject::CaptureCell { .. } => TAG_CAPTURE_CELL,
            HeapObject::Float(_) => TAG_FLOAT,
            HeapObject::LibHandle(_) => TAG_LIB_HANDLE,
            HeapObject::ThreadHandle { .. } => TAG_THREAD,
            HeapObject::Fiber { .. } => TAG_FIBER,
            HeapObject::Syntax { .. } => TAG_SYNTAX,
            HeapObject::FFISignature(_) => TAG_FFI_SIG,
            HeapObject::FFIType(_) => TAG_FFI_TYPE,
            HeapObject::ManagedPointer { .. } => TAG_MANAGED_PTR,
            HeapObject::External { .. } => TAG_EXTERNAL,
            HeapObject::Parameter { .. } => TAG_PARAMETER,
            HeapObject::LSet { .. } => TAG_SET,
            HeapObject::LSetMut { .. } => TAG_SET_MUT,
            HeapObject::ClosureTemplate(_) => TAG_CLOSURE_TEMPLATE,
        }
    }

    /// The values the object holds, its traits last.
    pub open spec fn children(self) -> Seq<Value> {
        match self {
            HeapObject::LString { traits, .. } => seq![traits],
            HeapObject::Pair(p) => seq![p.first, p.rest, p.traits],
            HeapObject::LArrayMut { data, traits } => data@.push(traits),
            HeapObject::LStructMut { data, traits } => entry_values(data@).push(traits),
            HeapObject::LStruct { data, traits } => entry_values(data@).push(traits),
            HeapObject::Closure { closure, traits } => (closure.env@ + closure.template.constants@).push(
                traits,
            ),
            HeapObject::LArray { elements, traits } => elements@.push(traits),
            HeapObject::LStringMut { traits, .. } => seq![traits],
            HeapObject::LBytes { traits, .. } => seq![traits],
            HeapObject::LBytesMut { traits, .. } => seq![traits],
            HeapObject::LBox { cell, traits } => seq![cell, traits],
            HeapObject::CaptureCell { cell, traits } => seq![cell, traits],
            HeapObject::ThreadHandle { traits, .. } => seq![traits],
            HeapObject::Fiber { traits, .. } => seq![traits],
            HeapObject::Syntax { traits, .. } => seq![traits],
            HeapObject::ManagedPointer { traits, .. } => seq![traits],
            HeapObject::External { traits, .. } => seq![traits],
            HeapObject::Parameter { default, traits, .. } => seq![default, traits],
            HeapObject::LSet { data, traits } => data@.push(traits),
            HeapObject::LSetMut { data, traits } => data@.push(traits),
            HeapObject::ClosureTemplate(t) => t.constants@,
            _ => Seq::empty(),
        }
    }

    /// The tag of the values that point to the object.
    pub fn tag(&self) -> (r: u64)
        ensures
            r == self.value_tag(),
    {
        match self {
            HeapObject::LString { .. } => TAG_STRING,
            HeapObject::Pair(_) => TAG_CONS,
            HeapObject::LArrayMut { .. } => TAG_ARRAY_MUT,
            HeapObject::LStructMut { .. } => TAG_STRUCT_MUT,
            HeapObject::LStruct { .. } => TAG_STRUCT,
            HeapObject::Closure { .. } => TAG_CLOSURE,
            HeapObject::LArray { .. } => TAG_ARRAY,
            HeapObject::LStringMut { .. } => TAG_STRING_MUT,
            HeapObject::LBytes { .. } => TAG_BYTES,
            HeapObject::LBytesMut { .. } => TAG_BYTES_MUT,
            HeapObject::LBox { .. } => TAG_LBOX,
            HeapObject::CaptureCell { .. } => TAG_CAPTURE_CELL,
            HeapObject::Float(_) => TAG_FLOAT,
            HeapObject::LibHandle(_) => TAG_LIB_HANDLE,
            HeapObject::ThreadHandle { .. } => TAG_THREAD,
            HeapObject::Fiber { .. } => TAG_FIBER,
            HeapObject::Syntax { .. } => TAG_SYNTAX,
            HeapObject::FFISignature(_) => TAG_FFI_SIG,
            HeapObject::FFIType(_) => TAG_FFI_TYPE,
            HeapObject::ManagedPointer { .. } => TAG_MANAGED_PTR,
            HeapObject::External { .. } => TAG_EXTERNAL,
            HeapObject::Parameter { .. } => TAG_PARAMETER,
            HeapObject::LSet { .. } => TAG_SET,
            HeapObject::LSetMut { .. } => TAG_SET_MUT,
            HeapObject::ClosureTemplate(_) => TAG_CLOSURE_TEMPLATE,
        }
    }

    /// The values the object holds.
    pub fn child_values(&self) -> (r: Vec<Value>)
        ensures
            r@ == self.children(),
    {
        let mut out: Vec<Value> = Vec::new();
        match self {
            HeapObject::LString { traits, .. } => {
                out.push(*traits);
            },
            HeapObject::Pair(p) => {
                out.push(p.first);
                out.push(p.rest);
                out.push(p.traits);
            },
            HeapObject::LArrayMut { data, traits } => {
                push_values(&mut out, data);
                out.push(*traits);
            },
            HeapObject::LStructMut { data, traits } => {
                push_entries(&mut out, data);
                out.push(*traits);
            },
            HeapObject::LStruct { data, traits } => {
                push_entries(&mut out, data);
                out.push(*traits);
            },
            HeapObject::Closure { closure, traits } => {
                push_values(&mut out, &closure.env);
                push_values(&mut out, &closure.template.constants);
                out.push(*traits);
            },
            HeapObject::LArray { elements, traits } => {
                push_values(&mut out, elements);
                out.push(*traits);
            },
            HeapObject::LStringMut { traits, .. } => {
                out.push(*traits);
            },
            HeapObject::LBytes { traits, .. } => {
                out.push(*traits);
            },
            HeapObject::LBytesMut { traits, .. } => {
                out.push(*traits);
            },
            HeapObject::LBox { cell, traits } => {
                out.push(*cell);
                out.push(*traits);
            },
            HeapObject::CaptureCell { cell, traits } => {
                out.push(*cell);
                out.push(*traits);
            },
            HeapObject::ThreadHandle { traits, .. } => {
                out.push(*traits);
            },
            HeapObject::Fiber { traits, .. } => {
                out.push(*traits);
            },
            HeapObject::Syntax { traits, .. } => {
                out.push(*traits);
            },
            HeapObject::ManagedPointer { traits, .. } => {
                out.push(*traits);
            },
            HeapObject::External { traits, .. } => {
                out.push(*traits);
            },
            HeapObject::Parameter { default, traits, .. } => {
                out.push(*default);
                out.push(*traits);
            },
            HeapObject::LSet { data, traits } => {
                push_values(&mut out, data);
                out.push(*traits);
            },
            HeapObject::LSetMut { data, traits } => {
                push_values(&mut out, data);
                out.push(*traits);
            },
            HeapObject::ClosureTemplate(t) => {
                push_values(&mut out, &t.constants);
            },
            _ => {},
        }
        assert(out@ =~= self.children());
        out
    }
}

/// Append all of `data`.
pub fn push_values(out: &mut Vec<Value>, data: &Vec<Value>)
    ensures
        final(out)@ == old(out)@ + data@,
{
    let ghost before = out@;
    let mut i: usize = 0;
    while i < data.len()
        invariant
            i <= data@.len(),
            out@ == before + data@.take(i as int),
        decreases data.len() - i,
    {
        out.push(data[i]);
        i = i + 1;
        assert(out@ =~= before + data@.take(i as int));
    }
    assert(data@.take(i as int) =~= data@);
}

fn push_entries(out: &mut Vec<Value>, data: &Vec<(TableKey, Value)>)
    ensures
        final(out)@ == old(out)@ + entry_values(data@),
{
    let ghost before = out@;
    let mut i: usize = 0;
    while i < data.len()
        invariant
            i <= data@.len(),
            out@ == before + entry_values(data@).take(i as int),
        decreases data.len() - i,
    {
        out.push(data[i].1);
        i = i + 1;
        assert(out@ =~= before + entry_values(data@).take(i as int));
    }
    assert(entry_values(data@).take(i as int) =~= entry_values(data@));
}

} // verus!
