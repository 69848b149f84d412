//! The 16-byte tagged value word.
//!
//! `tag` is one of the `TAG_*` constants. `payload` depends on it: an integer's
//! two's-complement bits, a float's IEEE-754 bits, a symbol or keyword number,
//! a primitive number, a foreign address, or the address of a heap object.

use vstd::prelude::*;

use crate::text::{digits, join, joined, push_hex, texts};

verus! {

pub const TAG_INT: u64 = 0;
pub const TAG_FLOAT: u64 = 1;
pub const TAG_NIL: u64 = 2;
pub const TAG_TRUE: u64 = 3;
pub const TAG_FALSE: u64 = 4;
pub const TAG_EMPTY_LIST: u64 = 5;
pub const TAG_SYMBOL: u64 = 6;
pub const TAG_KEYWORD: u64 = 7;
pub const TAG_UNDEFINED: u64 = 8;
pub const TAG_CPOINTER: u64 = 9;

/// A primitive is an immediate: its payload is its number in the registry.
pub const TAG_NATIVE_FN: u64 = 10;

/// Every tag from here on is a heap tag.
pub const TAG_HEAP_START: u64 = 11;
pub const TAG_STRING_MUT: u64 = 11;
pub const TAG_ARRAY: u64 = 12;
pub const TAG_ARRAY_MUT: u64 = 13;
pub const TAG_STRUCT: u64 = 14;
pub const TAG_STRUCT_MUT: u64 = 15;
pub const TAG_CONS: u64 = 16;
pub const TAG_CLOSURE: u64 = 17;
pub const TAG_BYTES: u64 = 18;
pub const TAG_BYTES_MUT: u64 = 19;
pub const TAG_SET: u64 = 20;
pub const TAG_SET_MUT: u64 = 21;
pub const TAG_LBOX: u64 = 22;
pub const TAG_FIBER: u64 = 23;
pub const TAG_SYNTAX: u64 = 24;
pub const TAG_STRING: u64 = 26;
pub const TAG_FFI_SIG: u64 = 27;
pub const TAG_FFI_TYPE: u64 = 28;
pub const TAG_LIB_HANDLE: u64 = 29;
pub const TAG_MANAGED_PTR: u64 = 30;
pub const TAG_EXTERNAL: u64 = 31;
pub const TAG_PARAMETER: u64 = 32;
pub const TAG_THREAD: u64 = 33;
pub const TAG_CAPTURE_CELL: u64 = 34;
pub const TAG_CLOSURE_TEMPLATE: u64 = 35;

/// Core value word. Equality is representation identity: for a heap value, the
/// same object.
#[derive(Clone, Copy, PartialEq, Eq, Structural, Debug, Hash)]
pub struct Value {
    pub tag: u64,
    pub payload: u64,
}

/// The name of a tag.
pub open spec fn tag_text(tag: u64) -> Seq<char> {
    if tag == TAG_INT {
        "int"@
    } else if tag == TAG_FLOAT {
        "float"@
    } else if tag == TAG_NIL {
        "nil"@
    } else if tag == TAG_TRUE || tag == TAG_FALSE {
        "bool"@
    } else if tag == TAG_EMPTY_LIST {
        "empty"@
    } else if tag == TAG_SYMBOL {
        "sym"@
    } else if tag == TAG_KEYWORD {
        "kw"@
    } else if tag == TAG_UNDEFINED {
        "undef"@
    } else if tag == TAG_CPOINTER {
        "cptr"@
    } else if tag == TAG_NATIVE_FN {
        "native"@
    } else if tag == TAG_STRING_MUT {
        "@string"@
    } else if tag == TAG_ARRAY {
        "array"@
    } else if tag == TAG_ARRAY_MUT {
        "@array"@
    } else if tag == TAG_STRUCT {
        "struct"@
    } else if tag == TAG_STRUCT_MUT {
        "@struct"@
    } else if tag == TAG_CONS {
        "cons"@
    } else if tag == TAG_CLOSURE {
        "closure"@
    } else if tag == TAG_BYTES {
        "bytes"@
    } else if tag == TAG_BYTES_MUT {
        "@bytes"@
    } else if tag == TAG_SET {
        "set"@
    } else if tag == TAG_SET_MUT {
        "@set"@
    } else if tag == TAG_LBOX {
        "lbox"@
    } else if tag == TAG_FIBER {
        "fiber"@
    } else if tag == TAG_SYNTAX {
        "syntax"@
    } else if tag == TAG_STRING {
        "string"@
    } else if tag == TAG_FFI_SIG {
        "ffi-sig"@
    } else if tag == TAG_FFI_TYPE {
        "ffi-type"@
    } else if tag == TAG_LIB_HANDLE {
        "lib"@
    } else if tag == TAG_MANAGED_PTR {
        "managed"@
    } else if tag == TAG_EXTERNAL {
        "external"@
    } else if tag == TAG_PARAMETER {
        "param"@
    } else if tag == TAG_THREAD {
        "thread"@
    } else if tag == TAG_CAPTURE_CELL {
        "cell"@
    } else if tag == TAG_CLOSURE_TEMPLATE {
        "template"@
    } else {
        "invalid"@
    }
}

/// One of the `TAG_*` constants. They are numbered without a gap but for one, which
/// parts the parsed syntax from the immutable strings.
pub open spec fn known_tag(tag: u64) -> bool {
    tag <= TAG_SYNTAX || TAG_STRING <= tag <= TAG_CLOSURE_TEMPLATE
}

/// Why two words cannot be a live value.
pub open spec fn malformation(v: Value) -> Option<Seq<char>> {
    if !known_tag(v.tag) {
        Some("tag out of range"@)
    } else if v.tag >= TAG_HEAP_START && v.payload == 0 {
        Some("heap tag with null payload"@)
    } else if v.tag >= TAG_HEAP_START && v.payload % 8 != 0 {
        Some("heap tag with unaligned payload"@)
    } else {
        None
    }
}

/// A value in a trace: its tag name, or its raw bits where it is malformed.
pub open spec fn trace_text(v: Value) -> Seq<char> {
    if malformation(v) is Some {
        "bad(0x"@ + digits(v.tag as nat, 16) + ",0x"@ + digits(v.payload as nat, 16) + ")"@
    } else {
        tag_text(v.tag)
    }
}

impl Value {
    /// Nothing.
    #[verifier::allow_in_spec]
    pub fn nil() -> Value
        returns
            (Value { tag: TAG_NIL, payload: 0 }),
    {
        Value { tag: TAG_NIL, payload: 0 }
    }

    /// The end of a list.
    #[verifier::allow_in_spec]
    pub fn empty_list() -> Value
        returns
            (Value { tag: TAG_EMPTY_LIST, payload: 0 }),
    {
        Value { tag: TAG_EMPTY_LIST, payload: 0 }
    }

    /// The sentinel of an uninitialised slot.
    #[verifier::allow_in_spec]
    pub fn undefined() -> Value
        returns
            (Value { tag: TAG_UNDEFINED, payload: 0 }),
    {
        Value { tag: TAG_UNDEFINED, payload: 0 }
    }

    /// A boolean.
    #[verifier::allow_in_spec]
    pub fn bool(b: bool) -> Value
        returns
            (Value {
                tag: if b {
                    TAG_TRUE
                } else {
                    TAG_FALSE
                },
                payload: 0,
            }),
    {
        Value { tag: if b { TAG_TRUE } else { TAG_FALSE }, payload: 0 }
    }

    /// An integer.
    #[verifier::allow_in_spec]
    pub fn integer(n: i64) -> Value
        returns
            (Value { tag: TAG_INT, payload: n as u64 }),
    {
        Value { tag: TAG_INT, payload: n as u64 }
    }

    /// A float, by its IEEE-754 bits.
    #[verifier::allow_in_spec]
    pub fn float_bits(bits: u64) -> Value
        returns
            (Value { tag: TAG_FLOAT, payload: bits }),
    {
        Value { tag: TAG_FLOAT, payload: bits }
    }

    /// A symbol, by its number in a table.
    #[verifier::allow_in_spec]
    pub fn symbol(id: u32) -> Value
        returns
            (Value { tag: TAG_SYMBOL, payload: id as u64 }),
    {
        Value { tag: TAG_SYMBOL, payload: id as u64 }
    }

    /// A primitive, by its number in the registry.
    #[verifier::allow_in_spec]
    pub fn native_fn(id: u32) -> Value
        returns
            (Value { tag: TAG_NATIVE_FN, payload: id as u64 }),
    {
        Value { tag: TAG_NATIVE_FN, payload: id as u64 }
    }

    /// A foreign address; the null address is nil.
    #[verifier::allow_in_spec]
    pub fn pointer(addr: u64) -> Value
        returns
            (if addr == 0 {
                Value { tag: TAG_NIL, payload: 0 }
            } else {
                Value { tag: TAG_CPOINTER, payload: addr }
            }),
    {
        if addr == 0 {
            Value::nil()
        } else {
            Value { tag: TAG_CPOINTER, payload: addr }
        }
    }

    /// The same two words: for a heap value, the same object.
    pub fn bit_identical(self, other: Value) -> (r: bool)
        ensures
            r == (self == other),
    {
        self.tag == other.tag && self.payload == other.payload
    }

    /// Check if this is the nil value.
    pub fn is_nil(&self) -> (r: bool)
        ensures
            r == (self.tag == TAG_NIL),
    {
        self.tag == TAG_NIL
    }

    /// Check if this is an empty list.
    pub fn is_empty_list(&self) -> (r: bool)
        ensures
            r == (self.tag == TAG_EMPTY_LIST),
    {
        self.tag == TAG_EMPTY_LIST
    }

    /// Check if this is the undefined sentinel value.
    pub fn is_undefined(&self) -> (r: bool)
        ensures
            r == (self.tag == TAG_UNDEFINED),
    {
        self.tag == TAG_UNDEFINED
    }

    /// Check if this is a boolean (true or false).
    pub fn is_bool(&self) -> (r: bool)
        ensures
            r == (self.tag == TAG_TRUE || self.tag == TAG_FALSE),
    {
        self.tag == TAG_TRUE || self.tag == TAG_FALSE
    }

    /// Check if this is an integer.
    pub fn is_int(&self) -> (r: bool)
        ensures
            r == (self.tag == TAG_INT),
    {
        self.tag == TAG_INT
    }

    /// Check if this is a float.
    pub fn is_float(&self) -> (r: bool)
        ensures
            r == (self.tag == TAG_FLOAT),
    {
        self.tag == TAG_FLOAT
    }

    /// Check if this is a number (int or float).
    pub fn is_number(&self) -> (r: bool)
        ensures
            r == (self.tag == TAG_INT || self.tag == TAG_FLOAT),
    {
        self.is_int() || self.is_float()
    }

    /// Check if this is a symbol.
    pub fn is_symbol(&self) -> (r: bool)
        ensures
            r == (self.tag == TAG_SYMBOL),
    {
        self.tag == TAG_SYMBOL
    }

    /// Check if this is a keyword.
    pub fn is_keyword(&self) -> (r: bool)
        ensures
            r == (self.tag == TAG_KEYWORD),
    {
        self.tag == TAG_KEYWORD
    }

    /// Check if this is a raw C pointer.
    pub fn is_pointer(&self) -> (r: bool)
        ensures
            r == (self.tag == TAG_CPOINTER),
    {
        self.tag == TAG_CPOINTER
    }

    /// Check if this is a primitive.
    pub fn is_native_fn(&self) -> (r: bool)
        ensures
            r == (self.tag == TAG_NATIVE_FN),
    {
        self.tag == TAG_NATIVE_FN
    }

    /// Check if this is a heap pointer.
    pub fn is_heap(&self) -> (r: bool)
        ensures
            r == (self.tag >= TAG_HEAP_START),
    {
        self.tag >= TAG_HEAP_START
    }

    /// Everything except nil and false is truthy. The undefined sentinel never
    /// reaches a truth test.
    pub fn is_truthy(&self) -> (r: bool)
        requires
            self.tag != TAG_UNDEFINED,
        ensures
            r == (self.tag != TAG_NIL && self.tag != TAG_FALSE),
    {
        self.tag != TAG_NIL && self.tag != TAG_FALSE
    }

    /// The integer, if this is one.
    pub fn as_int(&self) -> (r: Option<i64>)
        ensures
            r == if self.tag == TAG_INT { Some(self.payload as i64) } else { None::<i64> },
            forall|n: i64| *self == Value::integer(n) ==> r == Some(n),
    {
        if self.tag == TAG_INT {
            proof {
                assert forall|n: i64| *self == Value::integer(n) implies self.payload as i64 == n by {
                    assert((n as u64) as i64 == n) by (bit_vector);
                }
            }
            Some(self.payload as i64)
        } else {
            None
        }
    }

    /// The boolean, if this is one.
    pub fn as_bool(&self) -> (r: Option<bool>)
        ensures
            r is Some == (self.tag == TAG_TRUE || self.tag == TAG_FALSE),
            r is Some ==> r->0 == (self.tag == TAG_TRUE),
    {
        if self.tag == TAG_TRUE {
            Some(true)
        } else if self.tag == TAG_FALSE {
            Some(false)
        } else {
            None
        }
    }

    /// The symbol's number, if this is one.
    pub fn as_symbol(&self) -> (r: Option<u32>)
        ensures
            r == if self.tag == TAG_SYMBOL { Some(self.payload as u32) } else { None::<u32> },
            forall|id: u32| *self == Value::symbol(id) ==> r == Some(id),
    {
        if self.tag == TAG_SYMBOL {
            Some(self.payload as u32)
        } else {
            None
        }
    }

    /// The foreign address, if this is one.
    pub fn as_pointer(&self) -> (r: Option<u64>)
        ensures
            r == if self.tag == TAG_CPOINTER { Some(self.payload) } else { None::<u64> },
    {
        if self.tag == TAG_CPOINTER {
            Some(self.payload)
        } else {
            None
        }
    }

    /// The reason these bits cannot be a live value, or `None` when they can: a
    /// conservative structural check that catches torn or zeroed slots, not
    /// misplaced ones.
    pub fn malformed_reason(&self) -> (r: Option<&'static str>)
        ensures
            r is Some == malformation(*self) is Some,
            r is Some ==> r->0@ == malformation(*self)->0,
    {
        if self.tag > TAG_CLOSURE_TEMPLATE || (self.tag > TAG_SYNTAX && self.tag < TAG_STRING) {
            return Some("tag out of range");
        }
        if self.is_heap() {
            if self.payload == 0 {
                return Some("heap tag with null payload");
            }
            if self.payload % 8 != 0 {
                return Some("heap tag with unaligned payload");
            }
        }
        None
    }

    /// The static name of this value's tag, without a heap dereference.
    pub fn tag_name(&self) -> (r: &'static str)
        ensures
            r@ == tag_text(self.tag),
    {
        match self.tag {
            TAG_INT => "int",
            TAG_FLOAT => "float",
            TAG_NIL => "nil",
            TAG_TRUE => "bool",
            TAG_FALSE => "bool",
            TAG_EMPTY_LIST => "empty",
            TAG_SYMBOL => "sym",
            TAG_KEYWORD => "kw",
            TAG_UNDEFINED => "undef",
            TAG_CPOINTER => "cptr",
            TAG_NATIVE_FN => "native",
            TAG_STRING_MUT => "@string",
            TAG_ARRAY => "array",
            TAG_ARRAY_MUT => "@array",
            TAG_STRUCT => "struct",
            TAG_STRUCT_MUT => "@struct",
            TAG_CONS => "cons",
            TAG_CLOSURE => "closure",
            TAG_BYTES => "bytes",
            TAG_BYTES_MUT => "@bytes",
            TAG_SET => "set",
            TAG_SET_MUT => "@set",
            TAG_LBOX => "lbox",
            TAG_FIBER => "fiber",
            TAG_SYNTAX => "syntax",
            TAG_STRING => "string",
            TAG_FFI_SIG => "ffi-sig",
            TAG_FFI_TYPE => "ffi-type",
            TAG_LIB_HANDLE => "lib",
            TAG_MANAGED_PTR => "managed",
            TAG_EXTERNAL => "external",
            TAG_PARAMETER => "param",
            TAG_THREAD => "thread",
            TAG_CAPTURE_CELL => "cell",
            TAG_CLOSURE_TEMPLATE => "template",
            _ => "invalid",
        }
    }

    /// Render `values` as a comma-joined tag-name list for trace output; raw
    /// bits are shown for a malformed value.
    pub fn type_name_line(values: &Vec<Value>) -> (r: String)
        ensures
            r@ == joined(Seq::new(values@.len(), |i: int| trace_text(values@[i])), ","@),
    {
        let mut names: Vec<String> = Vec::new();
        let mut i: usize = 0;
        while i < values.len()
            invariant
                i <= values.len(),
                names@.len() == i,
                forall|k: int| 0 <= k < i ==> names@[k]@ == trace_text(values@[k]),
            decreases values.len() - i,
        {
            let v = values[i];
            if v.malformed_reason().is_some() {
                let mut out = "bad(0x".to_string();
                push_hex(&mut out, v.tag);
                out.append(",0x");
                push_hex(&mut out, v.payload);
                out.append(")");
                names.push(out);
            } else {
                names.push(v.tag_name().to_string());
            }
            i = i + 1;
        }
        assert(texts(names@) =~= Seq::new(values@.len(), |i: int| trace_text(values@[i])));
        join(&names, ",")
    }

    /// A heap value from an object's address and an explicit tag.
    pub fn from_heap_ptr(addr: u64, tag: u64) -> (r: Value)
        ensures
            r == (Value { tag, payload: addr }),
    {
        Value { tag, payload: addr }
    }
}

} // verus!
