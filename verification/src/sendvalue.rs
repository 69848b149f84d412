//! Values in a form that can leave their heap.
//!
//! A `SendValue` holds no pointer: strings, symbols and keywords travel by their
//! text, aggregates by their parts. Closures are kept in a table of their own
//! and named by their index, so that shared and cyclic ones travel once.

use std::rc::Rc;

use vstd::prelude::*;

use crate::capturemask::CaptureMask;
use crate::ffi::TypeDesc;
use crate::lir::{LirConst, LirFunction, LirInstr};
use crate::object::{Arity, ChanEnd, ClosureTemplate, PortKind, Syntax, TableKey, VarargKind};
use crate::signalbits::SignalBits;
use crate::signals::Signal;
use crate::span::{clone_optional, optional_text};
use crate::token::SourceLoc;
use crate::value::{Value, TAG_HEAP_START};

verus! {

/// A value in transit. The last part of an aggregate is its traits.
pub enum SendValue {
    /// A value that means the same everywhere.
    Immediate(Value),
    Keyword(String),
    Symbol { name: String, id: u32 },
    Str(String),
    Syntax(Box<Syntax>),
    Pair(Box<SendValue>, Box<SendValue>, Box<SendValue>),
    Array(Vec<SendValue>, Box<SendValue>),
    Tuple(Vec<SendValue>, Box<SendValue>),
    Struct(Vec<(TableKey, SendValue)>, Box<SendValue>),
    StructMut(Vec<(TableKey, SendValue)>, Box<SendValue>),
    Buffer(Vec<u8>, Box<SendValue>),
    Bytes(Vec<u8>, Box<SendValue>),
    Blob(Vec<u8>, Box<SendValue>),
    LBox(Box<SendValue>, Box<SendValue>),
    CaptureCell(Box<SendValue>, Box<SendValue>),
    Float(u64),
    FFIType(TypeDesc),
    LSet(Vec<SendValue>, Box<SendValue>),
    LSetMut(Vec<SendValue>, Box<SendValue>),
    ChanSender(ChanEnd),
    ChanReceiver(ChanEnd),
    StdioPort(PortKind),
    Parameter { id: u32, default: Box<SendValue>, traits: Box<SendValue> },
    /// A closure, by its index in the bundle's table.
    Ref(usize),
}

/// A closure in transit.
pub struct SendableClosure {
    pub bytecode: Vec<u8>,
    pub arity: Arity,
    pub num_locals: usize,
    pub num_captures: usize,
    pub num_params: usize,
    pub constants: Vec<SendValue>,
    pub signal: Signal,
    pub capture_params_mask: u64,
    pub capture_locals_mask: CaptureMask,
    pub symbol_names: Vec<(u32, String)>,
    pub location_map: Vec<(usize, SourceLoc)>,
    pub doc: Option<String>,
    pub vararg_kind: VarargKind,
    pub name: Option<String>,
    pub squelch_mask: SignalBits,
    pub env: Vec<SendValue>,
    pub lir_function: Option<LirFunction>,
    /// The compound values lifted out of the low-level code.
    pub lir_value_pool: Vec<SendValue>,
    pub child_protos: Vec<SendableClosure>,
    pub merged_slots: Vec<u32>,
    pub frame_release_slots: Vec<u16>,
    pub frame_release_regions: Vec<u32>,
}

/// A value with the closures it refers to.
pub struct SendBundle {
    pub root: SendValue,
    pub closures: Vec<SendableClosure>,
}

/// Everything of a template that is not a value is the same.
pub open spec fn carries(sc: SendableClosure, t: ClosureTemplate) -> bool {
    &&& sc.bytecode@ == t.bytecode@
    &&& sc.arity == t.arity
    &&& sc.num_locals == t.num_locals
    &&& sc.num_captures == t.num_captures
    &&& sc.num_params == t.num_params
    &&& sc.signal == t.signal
    &&& sc.capture_params_mask == t.capture_params_mask
    &&& sc.capture_locals_mask@ == t.capture_locals_mask@
    &&& sc.symbol_names@ == t.symbol_names@
    &&& sc.location_map@ == t.location_map@
    &&& optional_text(sc.doc) == optional_text(t.doc)
    &&& sc.vararg_kind == t.vararg_kind
    &&& optional_text(sc.name) == optional_text(t.name)
    &&& sc.merged_slots@ == t.merged_slots@
    &&& sc.frame_release_slots@ == t.frame_release_slots@
    &&& sc.frame_release_regions@ == t.frame_release_regions@
}

/// Copy a table of names.
fn copy_names(names: &Vec<(u32, String)>) -> (r: Vec<(u32, String)>)
    ensures
        r@ == names@,
{
    let mut out: Vec<(u32, String)> = Vec::new();
    let mut i: usize = 0;
    while i < names.len()
        invariant
            i <= names@.len(),
            out@ == names@.take(i as int),
        decreases names.len() - i,
    {
        out.push((names[i].0, names[i].1.clone()));
        i = i + 1;
        assert(out@ =~= names@.take(i as int));
    }
    assert(names@.take(i as int) =~= names@);
    out
}

/// Copy a location map.
fn copy_locations(map: &Vec<(usize, SourceLoc)>) -> (r: Vec<(usize, SourceLoc)>)
    ensures
        r@ == map@,
{
    let mut out: Vec<(usize, SourceLoc)> = Vec::new();
    let mut i: usize = 0;
    while i < map.len()
        invariant
            i <= map@.len(),
            out@ == map@.take(i as int),
        decreases map.len() - i,
    {
        let loc = &map[i].1;
        out.push((map[i].0, SourceLoc { file: loc.file.clone(), line: loc.line, col: loc.col }));
        i = i + 1;
        assert(out@ =~= map@.take(i as int));
    }
    assert(map@.take(i as int) =~= map@);
    out
}

impl SendableClosure {
    /// The parts of a template that are not values, with no values yet.
    pub fn plain(t: &ClosureTemplate, squelch_mask: SignalBits) -> (r: SendableClosure)
        ensures
            carries(r, *t),
            r.squelch_mask == squelch_mask,
            r.constants@.len() == 0,
            r.env@.len() == 0,
            r.lir_function is None,
            r.lir_value_pool@.len() == 0,
            r.child_protos@.len() == 0,
    {
        SendableClosure {
            bytecode: t.bytecode.clone(),
            arity: t.arity,
            num_locals: t.num_locals,
            num_captures: t.num_captures,
            num_params: t.num_params,
            constants: Vec::new(),
            signal: t.signal,
            capture_params_mask: t.capture_params_mask,
            capture_locals_mask: t.capture_locals_mask.clone(),
            symbol_names: copy_names(&t.symbol_names),
            location_map: copy_locations(&t.location_map),
            doc: clone_optional(&t.doc),
            vararg_kind: t.vararg_kind,
            name: clone_optional(&t.name),
            squelch_mask,
            env: Vec::new(),
            lir_function: None,
            lir_value_pool: Vec::new(),
            child_protos: Vec::new(),
            merged_slots: t.merged_slots.clone(),
            frame_release_slots: t.frame_release_slots.clone(),
            frame_release_regions: t.frame_release_regions.clone(),
        }
    }
}

/// A template with the parts of a closure in transit that are not values, and
/// these values.
pub fn template_with(
    sc: &SendableClosure,
    constants: Vec<Value>,
    lir_function: Option<LirFunction>,
    child_protos: Vec<Rc<ClosureTemplate>>,
) -> (r: ClosureTemplate)
    ensures
        carries(*sc, r),
        r.constants == constants,
        r.lir_function == lir_function,
        r.child_protos == child_protos,
{
    ClosureTemplate {
        bytecode: sc.bytecode.clone(),
        arity: sc.arity,
        num_locals: sc.num_locals,
        num_captures: sc.num_captures,
        num_params: sc.num_params,
        constants,
        signal: sc.signal,
        capture_params_mask: sc.capture_params_mask,
        capture_locals_mask: sc.capture_locals_mask.clone(),
        symbol_names: copy_names(&sc.symbol_names),
        location_map: copy_locations(&sc.location_map),
        lir_function,
        doc: clone_optional(&sc.doc),
        vararg_kind: sc.vararg_kind,
        name: clone_optional(&sc.name),
        child_protos,
        merged_slots: sc.merged_slots.clone(),
        frame_release_slots: sc.frame_release_slots.clone(),
        frame_release_regions: sc.frame_release_regions.clone(),
    }
}

impl Syntax {
    /// The same syntax object.
    pub open spec fn same(self, other: Syntax) -> bool {
        &&& self.name@ == other.name@
        &&& self.scopes@ == other.scopes@
        &&& self.span.same(other.span)
        &&& self.scope_exempt == other.scope_exempt
    }

    /// Copy of the syntax object.
    pub fn copy(&self) -> (r: Syntax)
        ensures
            r.same(*self),
    {
        Syntax {
            name: self.name.clone(),
            scopes: self.scopes.clone(),
            span: self.span.copy(),
            scope_exempt: self.scope_exempt,
        }
    }
}

/// Every closure index is below `n`, and the code's value indices below `pool`.
pub open spec fn lir_fits(lir: LirFunction, n: nat, pool: nat) -> bool {
    forall|b: int, i: int|
        0 <= b < lir.blocks@.len() && 0 <= i < lir.blocks@[b].instructions@.len() ==> instr_fits(
            #[trigger] lir.blocks@[b].instructions@[i],
            n,
            pool,
        )
}

/// The indices of an instruction are in range.
pub open spec fn instr_fits(instr: LirInstr, n: nat, pool: nat) -> bool {
    match instr {
        LirInstr::Const { value: LirConst::ClosureRef(k), .. } => k < n,
        LirInstr::Const { value: LirConst::ValueRef(k), .. } => k < pool,
        _ => true,
    }
}

/// Every closure index of a value in transit is below `n`, and what is said to
/// be an immediate is one.
pub open spec fn fits(sv: SendValue, n: nat) -> bool
    decreases sv,
{
    match sv {
        SendValue::Immediate(v) => v.tag < TAG_HEAP_START,
        SendValue::Pair(a, b, t) => fits(*a, n) && fits(*b, n) && fits(*t, n),
        SendValue::Array(items, t) => fits(*t, n) && forall|i: int|
            0 <= i < items@.len() ==> fits(#[trigger] items@[i], n),
        SendValue::Tuple(items, t) => fits(*t, n) && forall|i: int|
            0 <= i < items@.len() ==> fits(#[trigger] items@[i], n),
        SendValue::Struct(entries, t) => fits(*t, n) && forall|i: int|
            0 <= i < entries@.len() ==> fits((#[trigger] entries@[i]).1, n),
        SendValue::StructMut(entries, t) => fits(*t, n) && forall|i: int|
            0 <= i < entries@.len() ==> fits((#[trigger] entries@[i]).1, n),
        SendValue::Buffer(_, t) => fits(*t, n),
        SendValue::Bytes(_, t) => fits(*t, n),
        SendValue::Blob(_, t) => fits(*t, n),
        SendValue::LBox(c, t) => fits(*c, n) && fits(*t, n),
        SendValue::CaptureCell(c, t) => fits(*c, n) && fits(*t, n),
        SendValue::LSet(items, t) => fits(*t, n) && forall|i: int|
            0 <= i < items@.len() ==> fits(#[trigger] items@[i], n),
        SendValue::LSetMut(items, t) => fits(*t, n) && forall|i: int|
            0 <= i < items@.len() ==> fits(#[trigger] items@[i], n),
        SendValue::Parameter { default, traits, .. } => fits(*default, n) && fits(*traits, n),
        SendValue::Ref(idx) => idx < n,
        _ => true,
    }
}

/// Every closure index of a run of values is below `n`.
pub open spec fn all_fit(items: Seq<SendValue>, n: nat) -> bool {
    forall|i: int| 0 <= i < items.len() ==> fits(#[trigger] items[i], n)
}

/// Every index of a closure in transit is in range.
pub open spec fn closure_fits(sc: SendableClosure, n: nat) -> bool
    decreases sc,
{
    &&& all_fit(sc.constants@, n)
    &&& all_fit(sc.env@, n)
    &&& all_fit(sc.lir_value_pool@, n)
    &&& sc.lir_function is Some ==> lir_fits(sc.lir_function->0, n, sc.lir_value_pool@.len())
    &&& forall|i: int| 0 <= i < sc.child_protos@.len() ==> closure_fits(#[trigger] sc.child_protos@[i], n)
}

impl SendBundle {
    /// Every index of the bundle is in range.
    pub open spec fn well_formed(self) -> bool {
        &&& fits(self.root, self.closures@.len())
        &&& forall|i: int|
            0 <= i < self.closures@.len() ==> closure_fits(
                #[trigger] self.closures@[i],
                self.closures@.len(),
            )
    }
}

/// Whether every closure index of a value in transit is below `n`.
fn value_fits(sv: &SendValue, n: usize) -> (r: bool)
    ensures
        r == fits(*sv, n as nat),
    decreases *sv,
{
    match sv {
        SendValue::Immediate(v) => v.tag < TAG_HEAP_START,
        SendValue::Pair(a, b, t) => value_fits(a, n) && value_fits(b, n) && value_fits(t, n),
        SendValue::Array(items, t) => value_fits(t, n) && items_fit(items, n),
        SendValue::Tuple(items, t) => value_fits(t, n) && items_fit(items, n),
        SendValue::Struct(entries, t) => value_fits(t, n) && entries_fit(entries, n),
        SendValue::StructMut(entries, t) => value_fits(t, n) && entries_fit(entries, n),
        SendValue::Buffer(_, t) => value_fits(t, n),
        SendValue::Bytes(_, t) => value_fits(t, n),
        SendValue::Blob(_, t) => value_fits(t, n),
        SendValue::LBox(c, t) => value_fits(c, n) && value_fits(t, n),
        SendValue::CaptureCell(c, t) => value_fits(c, n) && value_fits(t, n),
        SendValue::LSet(items, t) => value_fits(t, n) && items_fit(items, n),
        SendValue::LSetMut(items, t) => value_fits(t, n) && items_fit(items, n),
        SendValue::Parameter { default, traits, .. } => value_fits(default, n) && value_fits(traits, n),
        SendValue::Ref(idx) => *idx < n,
        _ => true,
    }
}

fn items_fit(items: &Vec<SendValue>, n: usize) -> (r: bool)
    ensures
        r == all_fit(items@, n as nat),
    decreases *items,
{
    let mut i: usize = 0;
    while i < items.len()
        invariant
            i <= items@.len(),
            forall|k: int| 0 <= k < i ==> fits(#[trigger] items@[k], n as nat),
        decreases items.len() - i,
    {
        assert(decreases_to!(*items => items@[i as int]));
        if !value_fits(&items[i], n) {
            return false;
        }
        i = i + 1;
    }
    true
}

fn entries_fit(entries: &Vec<(TableKey, SendValue)>, n: usize) -> (r: bool)
    ensures
        r == (forall|i: int| 0 <= i < entries@.len() ==> fits((#[trigger] entries@[i]).1, n as nat)),
    decreases *entries,
{
    let mut i: usize = 0;
    while i < entries.len()
        invariant
            i <= entries@.len(),
            forall|k: int| 0 <= k < i ==> fits((#[trigger] entries@[k]).1, n as nat),
        decreases entries.len() - i,
    {
        assert(decreases_to!(*entries => entries@[i as int].1));
        if !value_fits(&entries[i].1, n) {
            return false;
        }
        i = i + 1;
    }
    true
}

fn code_fits(lir: &LirFunction, n: usize, pool: usize) -> (r: bool)
    ensures
        r == lir_fits(*lir, n as nat, pool as nat),
{
    let mut b: usize = 0;
    while b < lir.blocks.len()
        invariant
            b <= lir.blocks@.len(),
            forall|c: int, i: int|
                0 <= c < b && 0 <= i < lir.blocks@[c].instructions@.len() ==> instr_fits(
                    #[trigger] lir.blocks@[c].instructions@[i],
                    n as nat,
                    pool as nat,
                ),
        decreases lir.blocks.len() - b,
    {
        let run = &lir.blocks[b].instructions;
        let mut i: usize = 0;
        while i < run.len()
            invariant
                b < lir.blocks@.len(),
                *run == lir.blocks@[b as int].instructions,
                i <= run@.len(),
                forall|c: int, i: int|
                    0 <= c < b && 0 <= i < lir.blocks@[c].instructions@.len() ==> instr_fits(
                        #[trigger] lir.blocks@[c].instructions@[i],
                        n as nat,
                        pool as nat,
                    ),
                forall|k: int|
                    0 <= k < i ==> instr_fits(
                        #[trigger] lir.blocks@[b as int].instructions@[k],
                        n as nat,
                        pool as nat,
                    ),
            decreases run.len() - i,
        {
            let good = match &run[i] {
                LirInstr::Const { value: LirConst::ClosureRef(k), .. } => *k < n,
                LirInstr::Const { value: LirConst::ValueRef(k), .. } => *k < pool,
                _ => true,
            };
            assert(good == instr_fits(lir.blocks@[b as int].instructions@[i as int], n as nat, pool as nat));
            if !good {
                return false;
            }
            i = i + 1;
        }
        b = b + 1;
    }
    true
}

fn whole_closure_fits(sc: &SendableClosure, n: usize) -> (r: bool)
    ensures
        r == closure_fits(*sc, n as nat),
    decreases *sc,
{
    if !items_fit(&sc.constants, n) || !items_fit(&sc.env, n) || !items_fit(&sc.lir_value_pool, n) {
        return false;
    }
    if let Some(lir) = &sc.lir_function {
        if !code_fits(lir, n, sc.lir_value_pool.len()) {
            return false;
        }
    }
    let mut i: usize = 0;
    while i < sc.child_protos.len()
        invariant
            i <= sc.child_protos@.len(),
            forall|k: int| 0 <= k < i ==> closure_fits(#[trigger] sc.child_protos@[k], n as nat),
        decreases sc.child_protos.len() - i,
    {
        if !whole_closure_fits(&sc.child_protos[i], n) {
            return false;
        }
        i = i + 1;
    }
    true
}

impl SendBundle {
    /// Whether every index of the bundle is in range, so that it can be rebuilt.
    pub fn is_well_formed(&self) -> (r: bool)
        ensures
            r == self.well_formed(),
    {
        let n: usize = self.closures.len();
        if !value_fits(&self.root, n) {
            return false;
        }
        let mut i: usize = 0;
        while i < self.closures.len()
            invariant
                n == self.closures@.len(),
                i <= n,
                forall|k: int| 0 <= k < i ==> closure_fits(#[trigger] self.closures@[k], n as nat),
            decreases self.closures.len() - i,
        {
            if !whole_closure_fits(&self.closures[i], n) {
                return false;
            }
            i = i + 1;
        }
        true
    }
}

} // verus!
