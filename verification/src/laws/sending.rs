//! Values that cross to another heap: what gets there, and what is refused.

use vstd::prelude::*;

use crate::chan::{clone_receiver, clone_sender};
use crate::ffi::TypeDesc;
use crate::fibers::keyword_text;
use crate::heap::{FiberHeap, HeapState};
use crate::object::{ChanEnd, ExternalData, ExternalObject, HeapObject, HeapTag, PortKind, TableKey};
use crate::sendarrive::{arrived, arrived_as, cell_rebuilt, rebuilt, traits_rebuilt, Arrival};
use crate::sendmirror::{
    is_part, leads, lemma_sent_reaches_only_sendable, mirrors, object_refusal, own, reached, reached_within, refuses,
    refuses_within, sent, sent_as, traits_mirror, traits_travel,
};
use crate::sendvalue::{SendBundle, SendValue};
use crate::symbol::SymbolTable;
use crate::value::{Value, TAG_EXTERNAL, TAG_HEAP_START, TAG_KEYWORD, TAG_SYMBOL};

verus! {

/// The object that an external value stands for.
pub open spec fn external_at(s: HeapState, v: Value) -> Option<ExternalObject> {
    if v.tag == TAG_EXTERNAL && s.target(v) is Some {
        match s.object(v) {
            HeapObject::External { obj, .. } => Some(obj),
            _ => None,
        }
    } else {
        None
    }
}

/// An open end of a channel, or a standard stream: the external objects that can leave
/// their heap.
pub open spec fn travels(obj: ExternalObject) -> bool {
    match obj.data {
        ExternalData::Channel(end) => end.open && (obj.kind_name@ == "chan/sender"@ || obj.kind_name@
            == "chan/receiver"@),
        ExternalData::Port(kind) => obj.kind_name@ == "port"@ && (kind == PortKind::Stdin || kind == PortKind::Stdout
            || kind == PortKind::Stderr),
        _ => false,
    }
}

/// A key by which an object is found, and so no other heap can find anything.
pub open spec fn keyed_by_identity(data: Seq<(TableKey, Value)>) -> bool {
    exists|i: int| 0 <= i < data.len() && (#[trigger] data[i]).0 is Identity
}

/// An object that cannot leave its heap: a closed end of a channel, a file or socket
/// port or another external object, a library or thread handle, a fiber, an FFI
/// signature, a managed pointer, a bare template, or a struct keyed by identity.
pub open spec fn homebound(obj: HeapObject) -> bool {
    match obj {
        HeapObject::External { obj, .. } => !travels(obj),
        HeapObject::LibHandle(_) => true,
        HeapObject::ThreadHandle { .. } => true,
        HeapObject::Fiber { .. } => true,
        HeapObject::FFISignature(_) => true,
        HeapObject::ManagedPointer { .. } => true,
        HeapObject::ClosureTemplate(_) => true,
        HeapObject::LStruct { data, .. } => keyed_by_identity(data@),
        HeapObject::LStructMut { data, .. } => keyed_by_identity(data@),
        _ => false,
    }
}

proof fn lemma_kind_names_differ()
    ensures
        "chan/sender"@ != "chan/receiver"@,
        "chan/sender"@ != "port"@,
        "chan/receiver"@ != "port"@,
{
    reveal_strlit("chan/sender");
    reveal_strlit("chan/receiver");
    reveal_strlit("port");
    assert("chan/sender"@.len() == 11);
    assert("chan/receiver"@.len() == 13);
    assert("port"@.len() == 4);
}

proof fn lemma_homebound_is_refused(obj: HeapObject)
    ensures
        homebound(obj) <==> object_refusal(obj) is Some,
{
    lemma_kind_names_differ();
}

proof fn lemma_reached_through(s: HeapState, v: Value, q: Value, p: Value, depth: nat)
    requires
        leads(s, v, q),
        reached_within(s, q, p, depth),
    ensures
        reached_within(s, v, p, depth + 1),
    decreases depth,
{
    let next = depth + 1;
    assert((next - 1) as nat == depth);
    if p == q {
        assert(reached_within(s, v, v, (next - 1) as nat));
        assert(leads(s, v, p) && reached_within(s, v, v, (next - 1) as nat));
    } else {
        let m = choose|m: Value| #[trigger] leads(s, m, p) && reached_within(s, q, m, (depth - 1) as nat);
        lemma_reached_through(s, v, q, m, (depth - 1) as nat);
        assert(leads(s, m, p) && reached_within(s, v, m, (next - 1) as nat));
    }
}

proof fn lemma_refusal_is_reached(s: HeapState, v: Value, depth: nat, why: Seq<char>) -> (p: Value)
    requires
        refuses_within(s, v, depth, why),
    ensures
        reached(s, v, p),
        p.tag >= TAG_HEAP_START,
        s.target(p) is Some,
        object_refusal(s.object(p)) == Some(why),
    decreases depth,
{
    if object_refusal(s.object(v)) == Some(why) {
        assert(reached_within(s, v, v, 0));
        v
    } else {
        let q = choose|q: Value|
            #[trigger] is_part(s, s.object(v), q) && refuses_within(s, q, (depth - 1) as nat, why);
        let p = lemma_refusal_is_reached(s, q, (depth - 1) as nat, why);
        let d = choose|d: nat| reached_within(s, q, p, d);
        assert(leads(s, v, q));
        lemma_reached_through(s, v, q, p, d);
        p
    }
}

proof fn lemma_reached_refuses(s: HeapState, v: Value, p: Value, depth: nat, why: Seq<char>, more: nat)
    requires
        reached_within(s, v, p, depth),
        refuses_within(s, p, more, why),
    ensures
        refuses_within(s, v, depth + more, why),
    decreases depth,
{
    if p == v {
        lemma_refuses_deeper(s, v, more, depth + more, why);
    } else {
        let q = choose|q: Value| #[trigger] leads(s, q, p) && reached_within(s, v, q, (depth - 1) as nat);
        assert(((more + 1) - 1) as nat == more);
        assert(is_part(s, s.object(q), p) && refuses_within(s, p, ((more + 1) - 1) as nat, why));
        assert(refuses_within(s, q, more + 1, why));
        lemma_reached_refuses(s, v, q, (depth - 1) as nat, why, more + 1);
    }
}

proof fn lemma_refuses_deeper(s: HeapState, v: Value, a: nat, b: nat, why: Seq<char>)
    requires
        refuses_within(s, v, a, why),
        a <= b,
    ensures
        refuses_within(s, v, b, why),
    decreases a,
{
    if object_refusal(s.object(v)) != Some(why) {
        let q = choose|q: Value| #[trigger] is_part(s, s.object(v), q) && refuses_within(s, q, (a - 1) as nat, why);
        lemma_refuses_deeper(s, q, (a - 1) as nat, (b - 1) as nat, why);
        assert(is_part(s, s.object(v), q) && refuses_within(s, q, (b - 1) as nat, why));
    }
}

/// A value is refused exactly where it reaches something that cannot leave its heap.
pub proof fn lemma_refused_where_something_is_homebound(
    heap: FiberHeap,
    symbols: SymbolTable,
    value: Value,
    r: Result<SendBundle, String>,
)
    requires
        call_ensures(SendBundle::from_value, (value, &heap, &symbols), r),
    ensures
        r is Err <==> exists|p: Value| #[trigger]
            reached(heap@, value, p) && p.tag >= TAG_HEAP_START && heap@.target(p) is Some && homebound(
                heap@.object(p),
            ),
{
    let s = heap@;
    match r {
        Err(why) => {
            let depth = choose|depth: nat| refuses_within(s, value, depth, why@);
            let p = lemma_refusal_is_reached(s, value, depth, why@);
            lemma_homebound_is_refused(s.object(p));
        },
        Ok(b) => {
            assert forall|p: Value| #[trigger]
                reached(s, value, p) && p.tag >= TAG_HEAP_START && s.target(p) is Some implies !homebound(s.object(p)) by {
                lemma_homebound_is_refused(s.object(p));
                if object_refusal(s.object(p)) is Some {
                    let why = object_refusal(s.object(p))->0;
                    let depth = choose|depth: nat| reached_within(s, value, p, depth);
                    assert(refuses_within(s, p, 0, why));
                    lemma_reached_refuses(s, value, p, depth, why, 0);
                    assert(refuses(s, value, why));
                    lemma_sent_reaches_only_sendable(s, own(symbols@), value, b, why);
                }
            }
        },
    }
}

/// A value that is itself such an object is refused by the name of its kind.
pub proof fn lemma_refusal_names_the_kind(
    heap: FiberHeap,
    symbols: SymbolTable,
    value: Value,
    r: Result<SendBundle, String>,
)
    requires
        call_ensures(SendBundle::from_value, (value, &heap, &symbols), r),
        value.tag >= TAG_HEAP_START,
        heap@.target(value) is Some,
    ensures
        heap@.object(value) is Fiber ==> r is Err && r->Err_0@ == "Cannot send fiber"@,
        heap@.object(value) is LibHandle ==> r is Err && r->Err_0@ == "Cannot send library handle"@,
        heap@.object(value) is ThreadHandle ==> r is Err && r->Err_0@ == "Cannot send thread handle"@,
        heap@.object(value) is FFISignature ==> r is Err && r->Err_0@ == "Cannot send FFI signature"@,
        heap@.object(value) is ManagedPointer ==> r is Err && r->Err_0@ == "Cannot send managed pointer"@,
        heap@.object(value) is ClosureTemplate ==> r is Err && r->Err_0@ == "Cannot send a bare closure template"@,
        heap@.object(value) matches HeapObject::External { obj, .. } ==> !travels(obj) ==> r is Err && r->Err_0@
            == if obj.kind_name@ == "chan/sender"@ {
            "Cannot send closed channel sender"@
        } else if obj.kind_name@ == "chan/receiver"@ {
            "Cannot send closed channel receiver"@
        } else if obj.kind_name@ == "port"@ {
            if obj.data is Port {
                "Cannot send a file or socket port (only stdin/stdout/stderr)"@
            } else {
                "Cannot send port: not a port object"@
            }
        } else {
            "Cannot send external object: "@ + obj.kind_name@
        },
{
    let s = heap@;
    lemma_kind_names_differ();
    lemma_homebound_is_refused(s.object(value));
    if object_refusal(s.object(value)) is Some {
        let own_why = object_refusal(s.object(value))->0;
        assert(refuses_within(s, value, 0, own_why));
        assert(refuses(s, value, own_why));
        match r {
            Ok(b) => {
                lemma_sent_reaches_only_sendable(s, own(symbols@), value, b, own_why);
            },
            Err(why) => {
                let depth = choose|depth: nat| refuses_within(s, value, depth, why@);
                assert(refuses_within(s, value, depth, why@));
            },
        }
    }
}

/// An external object that can leave its heap does, and is refused nowhere.
proof fn lemma_travelling_is_sent(heap: FiberHeap, symbols: SymbolTable, value: Value, r: Result<SendBundle, String>)
    requires
        call_ensures(SendBundle::from_value, (value, &heap, &symbols), r),
        external_at(heap@, value) is Some,
        travels(external_at(heap@, value)->0),
    ensures
        r is Ok,
{
    let s = heap@;
    if let Err(why) = r {
        let depth = choose|depth: nat| refuses_within(s, value, depth, why@);
        lemma_homebound_is_refused(s.object(value));
        assert(refuses_within(s, value, depth, why@));
    }
}

/// An open sender can be sent, whatever channel it is an end of, and is a sender of
/// that same channel where it arrives.
pub proof fn lemma_sender_arrives(
    heap: FiberHeap,
    symbols: SymbolTable,
    value: Value,
    end: ChanEnd,
    r: Result<SendBundle, String>,
    there: FiberHeap,
    names: Seq<Seq<char>>,
    lo: int,
    region: u32,
    v: Value,
    found: Option<ChanEnd>,
)
    requires
        call_ensures(clone_sender, (&heap, value), Some(end)),
        call_ensures(SendBundle::from_value, (value, &heap, &symbols), r),
        r matches Ok(b) ==> arrived(there@, names, lo, region, b, v),
        call_ensures(clone_sender, (&there, v), found),
    ensures
        r is Ok,
        found == Some(end),
{
    lemma_kind_names_differ();
    lemma_travelling_is_sent(heap, symbols, value, r);
    lemma_external_trip(heap@, symbols@, value, r->Ok_0, there@, names, lo, region, v);
}

/// An open receiver can be sent, whatever channel it is an end of, and is a receiver of
/// that same channel where it arrives.
pub proof fn lemma_receiver_arrives(
    heap: FiberHeap,
    symbols: SymbolTable,
    value: Value,
    end: ChanEnd,
    r: Result<SendBundle, String>,
    there: FiberHeap,
    names: Seq<Seq<char>>,
    lo: int,
    region: u32,
    v: Value,
    found: Option<ChanEnd>,
)
    requires
        call_ensures(clone_receiver, (&heap, value), Some(end)),
        call_ensures(SendBundle::from_value, (value, &heap, &symbols), r),
        r matches Ok(b) ==> arrived(there@, names, lo, region, b, v),
        call_ensures(clone_receiver, (&there, v), found),
    ensures
        r is Ok,
        found == Some(end),
{
    lemma_kind_names_differ();
    lemma_travelling_is_sent(heap, symbols, value, r);
    lemma_external_trip(heap@, symbols@, value, r->Ok_0, there@, names, lo, region, v);
}

/// A standard stream can be sent, and is the same stream where it arrives.
pub proof fn lemma_standard_stream_arrives(
    heap: FiberHeap,
    symbols: SymbolTable,
    value: Value,
    kind: PortKind,
    r: Result<SendBundle, String>,
    there: HeapState,
    names: Seq<Seq<char>>,
    lo: int,
    region: u32,
    v: Value,
)
    requires
        external_at(heap@, value) is Some,
        (external_at(heap@, value)->0).kind_name@ == "port"@,
        (external_at(heap@, value)->0).data == ExternalData::Port(kind),
        kind == PortKind::Stdin || kind == PortKind::Stdout || kind == PortKind::Stderr,
        call_ensures(SendBundle::from_value, (value, &heap, &symbols), r),
        r matches Ok(b) ==> arrived(there, names, lo, region, b, v),
    ensures
        r is Ok,
        external_at(there, v) is Some,
        (external_at(there, v)->0).kind_name@ == "port"@,
        (external_at(there, v)->0).data == ExternalData::Port(kind),
{
    lemma_travelling_is_sent(heap, symbols, value, r);
    lemma_external_trip(heap@, symbols@, value, r->Ok_0, there, names, lo, region, v);
}

/// An external object arrives as the same kind with the same data.
proof fn lemma_external_trip(
    s: HeapState,
    symbols: Seq<Seq<char>>,
    value: Value,
    b: SendBundle,
    there: HeapState,
    names: Seq<Seq<char>>,
    lo: int,
    region: u32,
    v: Value,
)
    requires
        external_at(s, value) is Some,
        sent(s, own(symbols), value, b),
        arrived(there, names, lo, region, b, v),
    ensures
        external_at(there, v) is Some,
        (external_at(there, v)->0).kind_name@ == (external_at(s, value)->0).kind_name@,
        (external_at(there, v)->0).data == (external_at(s, value)->0).data,
{
    let keys = choose|keys: Seq<u64>| sent_as(s, own(symbols), value, b, keys);
    let (w, paths) = choose|w: Arrival, paths: Map<int, Set<int>>|
        #[trigger] arrived_as(w, paths, b, v) && w.heap == there && w.symbols == names && w.lo == lo && w.region
            == region;
    assert(mirrors(s, own(symbols), keys, value, b.root));
    assert(rebuilt(w, Set::empty(), v, b.root));
}

/// A tree of data, at most `depth` objects deep: numbers and other immediates, keywords,
/// symbols that have a name, strings, bytes, pairs, arrays, sets, structs, boxes,
/// parameters, and what is mutable of these, traits that travel included. There is no
/// closure in it.
pub open spec fn data_tree(s: HeapState, names: Seq<Seq<char>>, v: Value, depth: nat) -> bool
    decreases depth,
{
    if v.tag < TAG_HEAP_START {
        &&& v.tag == TAG_KEYWORD ==> keyword_text(s.keywords, v) is Some
        &&& v.tag == TAG_SYMBOL ==> (v.payload as u32) < names.len()
    } else {
        let d = (depth - 1) as nat;
        depth > 0 && s.resolves(v) && match s.object(v) {
            HeapObject::LString { .. } => true,
            HeapObject::Syntax { .. } => true,
            HeapObject::FFIType(_) => true,
            HeapObject::Pair(p) => data_tree(s, names, p.first, d) && data_tree(s, names, p.rest, d) && (traits_travel(s, p.traits, HeapTag::Pair) ==> data_tree(s, names, p.traits, d)),
            HeapObject::LArray { elements, traits } => {
                &&& forall|i: int| 0 <= i < elements@.len() ==> data_tree(s, names, #[trigger] elements@[i], d)
                &&& (traits_travel(s, traits, HeapTag::LArray) ==> data_tree(s, names, traits, d))
            },
            HeapObject::LArrayMut { data, traits } => {
                &&& forall|i: int| 0 <= i < data@.len() ==> data_tree(s, names, #[trigger] data@[i], d)
                &&& (traits_travel(s, traits, HeapTag::LArrayMut) ==> data_tree(s, names, traits, d))
            },
            HeapObject::LSet { data, traits } => {
                &&& forall|i: int| 0 <= i < data@.len() ==> data_tree(s, names, #[trigger] data@[i], d)
                &&& (traits_travel(s, traits, HeapTag::LSet) ==> data_tree(s, names, traits, d))
            },
            HeapObject::LSetMut { data, traits } => {
                &&& forall|i: int| 0 <= i < data@.len() ==> data_tree(s, names, #[trigger] data@[i], d)
                &&& (traits_travel(s, traits, HeapTag::LSetMut) ==> data_tree(s, names, traits, d))
            },
            HeapObject::LStruct { data, traits } => {
                &&& forall|i: int| 0 <= i < data@.len() ==> !((#[trigger] data@[i]).0 is Identity) && data_tree(s, names, data@[i].1, d)
                &&& (traits_travel(s, traits, HeapTag::LStruct) ==> data_tree(s, names, traits, d))
            },
            HeapObject::LStructMut { data, traits } => {
                &&& forall|i: int| 0 <= i < data@.len() ==> !((#[trigger] data@[i]).0 is Identity) && data_tree(s, names, data@[i].1, d)
                &&& (traits_travel(s, traits, HeapTag::LStructMut) ==> data_tree(s, names, traits, d))
            },
            HeapObject::LStringMut { traits, .. } => (traits_travel(s, traits, HeapTag::LStringMut) ==> data_tree(s, names, traits, d)),
            HeapObject::LBytes { traits, .. } => (traits_travel(s, traits, HeapTag::LBytes) ==> data_tree(s, names, traits, d)),
            HeapObject::LBytesMut { traits, .. } => (traits_travel(s, traits, HeapTag::LBytesMut) ==> data_tree(s, names, traits, d)),
            HeapObject::LBox { cell, traits } => data_tree(s, names, cell, d) && (traits_travel(s, traits, HeapTag::LBox) ==> data_tree(s, names, traits, d)),
            HeapObject::CaptureCell { cell, traits } => data_tree(s, names, cell, d) && (traits_travel(s, traits, HeapTag::CaptureCell) ==> data_tree(s, names, traits, d)),
            HeapObject::Parameter { default, traits, .. } => data_tree(s, names, default, d) && data_tree(s, names, traits, d),
            _ => false,
        }
    }
}

/// Keys that find the same entry.
pub open spec fn same_key(a: TableKey, b: TableKey) -> bool {
    match (a, b) {
        (TableKey::Keyword(x), TableKey::Keyword(y)) => x@ == y@,
        (TableKey::Str(x), TableKey::Str(y)) => x@ == y@,
        _ => a == b,
    }
}

/// Two values of two heaps are equal, as far as `depth` objects down: the same
/// immediate, a keyword or symbol of the same name, or objects of one kind with equal
/// contents, in the same order. Traits that do not travel are the other heap's defaults.
pub open spec fn equal_data(
    s: HeapState,
    names: Seq<Seq<char>>,
    a: Value,
    t: HeapState,
    there: Seq<Seq<char>>,
    b: Value,
    depth: nat,
) -> bool
    decreases depth,
{
    if a.tag == TAG_KEYWORD {
        keyword_text(s.keywords, a) is Some && keyword_text(t.keywords, b) == keyword_text(s.keywords, a)
    } else if a.tag == TAG_SYMBOL {
        b.tag == TAG_SYMBOL && (b.payload as u32) < there.len() && there[(b.payload as u32) as int] == names[(
        a.payload as u32) as int]
    } else if a.tag < TAG_HEAP_START || b.tag < TAG_HEAP_START {
        a == b
    } else {
        let d = (depth - 1) as nat;
        depth > 0 ==> a.tag == b.tag && match (s.object(a), t.object(b)) {
            (HeapObject::LString { s: x, .. }, HeapObject::LString { s: y, .. }) => x@ == y@,
            (HeapObject::Syntax { syntax: x, .. }, HeapObject::Syntax { syntax: y, .. }) => y.same(x),
            (HeapObject::FFIType(x), HeapObject::FFIType(y)) => y.same(x),
            (HeapObject::Pair(x), HeapObject::Pair(y)) => {
                &&& equal_data(s, names, x.first, t, there, y.first, d)
                &&& equal_data(s, names, x.rest, t, there, y.rest, d)
                &&& (if traits_travel(s, x.traits, HeapTag::Pair) { equal_data(s, names, x.traits, t, there, y.traits, d) } else { y.traits == t.traits[HeapTag::Pair.slot()] })
            },
            (HeapObject::LArray { elements: x, traits: xt }, HeapObject::LArray { elements: y, traits: yt }) => {
                &&& x@.len() == y@.len()
                &&& forall|i: int| 0 <= i < x@.len() ==> equal_data(s, names, #[trigger] x@[i], t, there, y@[i], d)
                &&& (if traits_travel(s, xt, HeapTag::LArray) { equal_data(s, names, xt, t, there, yt, d) } else { yt == t.traits[HeapTag::LArray.slot()] })
            },
            (HeapObject::LArrayMut { data: x, traits: xt }, HeapObject::LArrayMut { data: y, traits: yt }) => {
                &&& x@.len() == y@.len()
                &&& forall|i: int| 0 <= i < x@.len() ==> equal_data(s, names, #[trigger] x@[i], t, there, y@[i], d)
                &&& (if traits_travel(s, xt, HeapTag::LArrayMut) { equal_data(s, names, xt, t, there, yt, d) } else { yt == t.traits[HeapTag::LArrayMut.slot()] })
            },
            (HeapObject::LSet { data: x, traits: xt }, HeapObject::LSet { data: y, traits: yt }) => {
                &&& x@.len() == y@.len()
                &&& forall|i: int| 0 <= i < x@.len() ==> equal_data(s, names, #[trigger] x@[i], t, there, y@[i], d)
                &&& (if traits_travel(s, xt, HeapTag::LSet) { equal_data(s, names, xt, t, there, yt, d) } else { yt == t.traits[HeapTag::LSet.slot()] })
            },
            (HeapObject::LSetMut { data: x, traits: xt }, HeapObject::LSetMut { data: y, traits: yt }) => {
                &&& x@.len() == y@.len()
                &&& forall|i: int| 0 <= i < x@.len() ==> equal_data(s, names, #[trigger] x@[i], t, there, y@[i], d)
                &&& (if traits_travel(s, xt, HeapTag::LSetMut) { equal_data(s, names, xt, t, there, yt, d) } else { yt == t.traits[HeapTag::LSetMut.slot()] })
            },
            (HeapObject::LStruct { data: x, traits: xt }, HeapObject::LStruct { data: y, traits: yt }) => {
                &&& x@.len() == y@.len()
                &&& forall|i: int| 0 <= i < x@.len() ==> same_key((#[trigger] x@[i]).0, y@[i].0) && equal_data(s, names, x@[i].1, t, there, y@[i].1, d)
                &&& (if traits_travel(s, xt, HeapTag::LStruct) { equal_data(s, names, xt, t, there, yt, d) } else { yt == t.traits[HeapTag::LStruct.slot()] })
            },
            (HeapObject::LStructMut { data: x, traits: xt }, HeapObject::LStructMut { data: y, traits: yt }) => {
                &&& x@.len() == y@.len()
                &&& forall|i: int| 0 <= i < x@.len() ==> same_key((#[trigger] x@[i]).0, y@[i].0) && equal_data(s, names, x@[i].1, t, there, y@[i].1, d)
                &&& (if traits_travel(s, xt, HeapTag::LStructMut) { equal_data(s, names, xt, t, there, yt, d) } else { yt == t.traits[HeapTag::LStructMut.slot()] })
            },
            (HeapObject::LStringMut { data: x, traits: xt }, HeapObject::LStringMut { data: y, traits: yt }) => x@ == y@ && (if traits_travel(s, xt, HeapTag::LStringMut) { equal_data(s, names, xt, t, there, yt, d) } else { yt == t.traits[HeapTag::LStringMut.slot()] }),
            (HeapObject::LBytes { data: x, traits: xt }, HeapObject::LBytes { data: y, traits: yt }) => x@ == y@ && (if traits_travel(s, xt, HeapTag::LBytes) { equal_data(s, names, xt, t, there, yt, d) } else { yt == t.traits[HeapTag::LBytes.slot()] }),
            (HeapObject::LBytesMut { data: x, traits: xt }, HeapObject::LBytesMut { data: y, traits: yt }) => x@ == y@ && (if traits_travel(s, xt, HeapTag::LBytesMut) { equal_data(s, names, xt, t, there, yt, d) } else { yt == t.traits[HeapTag::LBytesMut.slot()] }),
            (HeapObject::LBox { cell: x, traits: xt }, HeapObject::LBox { cell: y, traits: yt }) => equal_data(s, names, x, t, there, y, d) && (if traits_travel(s, xt, HeapTag::LBox) { equal_data(s, names, xt, t, there, yt, d) } else { yt == Value::nil() }),
            (HeapObject::CaptureCell { cell: x, traits: xt }, HeapObject::CaptureCell { cell: y, traits: yt }) => equal_data(s, names, x, t, there, y, d) && (if traits_travel(s, xt, HeapTag::CaptureCell) { equal_data(s, names, xt, t, there, yt, d) } else { yt == Value::nil() }),
            (HeapObject::Parameter { id: x, default: xd, traits: xt }, HeapObject::Parameter { id: y, default: yd, traits: yt }) => {
                &&& x == y
                &&& equal_data(s, names, xd, t, there, yd, d)
                &&& equal_data(s, names, xt, t, there, yt, d)
            },
            _ => false,
        }
    }
}

proof fn lemma_data_is_not_refused(s: HeapState, names: Seq<Seq<char>>, v: Value, depth: nat, more: nat, why: Seq<char>)
    requires
        data_tree(s, names, v, depth),
    ensures
        !refuses_within(s, v, more, why),
    decreases depth,
{
    if refuses_within(s, v, more, why) {
        lemma_homebound_is_refused(s.object(v));
        let p = choose|p: Value| #[trigger] is_part(s, s.object(v), p) && refuses_within(s, p, (more - 1) as nat, why);
        assert(data_tree(s, names, p, (depth - 1) as nat));
        lemma_data_is_not_refused(s, names, p, (depth - 1) as nat, (more - 1) as nat, why);
    }
}

/// Types that are the same as one are the same as each other.
proof fn lemma_same_type_through(a: TypeDesc, b: TypeDesc, c: TypeDesc)
    requires
        a.same(b),
        b.same(c),
    ensures
        a.same(c),
    decreases a,
{
    match (a, b, c) {
        (TypeDesc::Struct(x), TypeDesc::Struct(y), TypeDesc::Struct(z)) => {
            assert forall|i: int| 0 <= i < x@.len() implies (#[trigger] x@[i]).same(z@[i]) by {
                lemma_same_type_through(x@[i], y@[i], z@[i]);
            }
        },
        (TypeDesc::Array(x, _), TypeDesc::Array(y, _), TypeDesc::Array(z, _)) => lemma_same_type_through(*x, *y, *z),
        _ => {},
    }
}

/// Traits that travel are sent and rebuilt as any value is; for others the receiver has
/// its own.
proof fn lemma_traits_trip(
    s: HeapState,
    names: Seq<Seq<char>>,
    keys: Seq<u64>,
    w: Arrival,
    traits: Value,
    tag: HeapTag,
    got: Value,
    sv: SendValue,
)
    requires
        traits_mirror(s, own(names), keys, traits, tag, sv),
    ensures
        traits_travel(s, traits, tag) ==> mirrors(s, own(names), keys, traits, sv),
        traits_rebuilt(w, Set::empty(), got, tag, sv) && traits_travel(s, traits, tag) ==> rebuilt(w, Set::empty(), got, sv),
        traits_rebuilt(w, Set::empty(), got, tag, sv) && !traits_travel(s, traits, tag) ==> got == w.heap.traits[tag.slot()],
        rebuilt(w, Set::empty(), got, sv) && !traits_travel(s, traits, tag) ==> got == Value::nil(),
{
}

proof fn lemma_cell_trip(w: Arrival, cell: Value, contents: Value, sv: SendValue)
    requires
        cell_rebuilt(w, Set::empty(), cell, contents, sv),
    ensures
        rebuilt(w, Set::empty(), contents, sv),
{
}

proof fn lemma_data_trip(
    s: HeapState,
    names: Seq<Seq<char>>,
    keys: Seq<u64>,
    w: Arrival,
    a: Value,
    b: Value,
    sv: SendValue,
    depth: nat,
)
    requires
        data_tree(s, names, a, depth),
        mirrors(s, own(names), keys, a, sv),
        rebuilt(w, Set::empty(), b, sv),
    ensures
        equal_data(s, names, a, w.heap, w.symbols, b, depth),
    decreases depth,
{
    if a.tag >= TAG_HEAP_START {
        let d = (depth - 1) as nat;
        match s.object(a) {
            HeapObject::Pair(p) => {
                let q = w.heap.object(b)->Pair_0;
                lemma_data_trip(s, names, keys, w, p.first, q.first, *sv->Pair_0, d);
                lemma_data_trip(s, names, keys, w, p.rest, q.rest, *sv->Pair_1, d);
                lemma_traits_trip(s, names, keys, w, p.traits, HeapTag::Pair, q.traits, *sv->Pair_2);
                if traits_travel(s, p.traits, HeapTag::Pair) {
                    lemma_data_trip(s, names, keys, w, p.traits, q.traits, *sv->Pair_2, d);
                }
            },
            HeapObject::LArray { elements, traits } => {
                let items = sv->Tuple_0@;
                let got = w.heap.object(b)->LArray_elements@;
                assert forall|i: int| 0 <= i < elements@.len() implies equal_data(s, names, #[trigger] elements@[i], w.heap, w.symbols, got[i], d) by {
                    assert(mirrors(s, own(names), keys, elements@[i], items[i]));
                    assert(rebuilt(w, Set::empty(), got[i], items[i]));
                    lemma_data_trip(s, names, keys, w, elements@[i], got[i], items[i], d);
                }
                lemma_traits_trip(s, names, keys, w, traits, HeapTag::LArray, w.heap.object(b)->LArray_traits, *sv->Tuple_1);
                if traits_travel(s, traits, HeapTag::LArray) {
                    lemma_data_trip(s, names, keys, w, traits, w.heap.object(b)->LArray_traits, *sv->Tuple_1, d);
                }
            },
            HeapObject::LArrayMut { data, traits } => {
                let items = sv->Array_0@;
                let got = w.heap.object(b)->LArrayMut_data@;
                assert forall|i: int| 0 <= i < data@.len() implies equal_data(s, names, #[trigger] data@[i], w.heap, w.symbols, got[i], d) by {
                    assert(mirrors(s, own(names), keys, data@[i], items[i]));
                    assert(rebuilt(w, Set::empty(), got[i], items[i]));
                    lemma_data_trip(s, names, keys, w, data@[i], got[i], items[i], d);
                }
                lemma_traits_trip(s, names, keys, w, traits, HeapTag::LArrayMut, w.heap.object(b)->LArrayMut_traits, *sv->Array_1);
                if traits_travel(s, traits, HeapTag::LArrayMut) {
                    lemma_data_trip(s, names, keys, w, traits, w.heap.object(b)->LArrayMut_traits, *sv->Array_1, d);
                }
            },
            HeapObject::LSet { data, traits } => {
                let items = sv->LSet_0@;
                let got = w.heap.object(b)->LSet_data@;
                assert forall|i: int| 0 <= i < data@.len() implies equal_data(s, names, #[trigger] data@[i], w.heap, w.symbols, got[i], d) by {
                    assert(mirrors(s, own(names), keys, data@[i], items[i]));
                    assert(rebuilt(w, Set::empty(), got[i], items[i]));
                    lemma_data_trip(s, names, keys, w, data@[i], got[i], items[i], d);
                }
                lemma_traits_trip(s, names, keys, w, traits, HeapTag::LSet, w.heap.object(b)->LSet_traits, *sv->LSet_1);
                if traits_travel(s, traits, HeapTag::LSet) {
                    lemma_data_trip(s, names, keys, w, traits, w.heap.object(b)->LSet_traits, *sv->LSet_1, d);
                }
            },
            HeapObject::LSetMut { data, traits } => {
                let items = sv->LSetMut_0@;
                let got = w.heap.object(b)->LSetMut_data@;
                assert forall|i: int| 0 <= i < data@.len() implies equal_data(s, names, #[trigger] data@[i], w.heap, w.symbols, got[i], d) by {
                    assert(mirrors(s, own(names), keys, data@[i], items[i]));
                    assert(rebuilt(w, Set::empty(), got[i], items[i]));
                    lemma_data_trip(s, names, keys, w, data@[i], got[i], items[i], d);
                }
                lemma_traits_trip(s, names, keys, w, traits, HeapTag::LSetMut, w.heap.object(b)->LSetMut_traits, *sv->LSetMut_1);
                if traits_travel(s, traits, HeapTag::LSetMut) {
                    lemma_data_trip(s, names, keys, w, traits, w.heap.object(b)->LSetMut_traits, *sv->LSetMut_1, d);
                }
            },
            HeapObject::LStruct { data, traits } => {
                let items = sv->Struct_0@;
                let got = w.heap.object(b)->LStruct_data@;
                assert forall|i: int| 0 <= i < data@.len() implies same_key((#[trigger] data@[i]).0, got[i].0) && equal_data(s, names, data@[i].1, w.heap, w.symbols, got[i].1, d) by {
                    assert(items[i].0.same(data@[i].0) && mirrors(s, own(names), keys, data@[i].1, items[i].1));
                    assert(got[i].0.same(items[i].0) && rebuilt(w, Set::empty(), got[i].1, items[i].1));
                    lemma_data_trip(s, names, keys, w, data@[i].1, got[i].1, items[i].1, d);
                }
                lemma_traits_trip(s, names, keys, w, traits, HeapTag::LStruct, w.heap.object(b)->LStruct_traits, *sv->Struct_1);
                if traits_travel(s, traits, HeapTag::LStruct) {
                    lemma_data_trip(s, names, keys, w, traits, w.heap.object(b)->LStruct_traits, *sv->Struct_1, d);
                }
            },
            HeapObject::LStructMut { data, traits } => {
                let items = sv->StructMut_0@;
                let got = w.heap.object(b)->LStructMut_data@;
                assert forall|i: int| 0 <= i < data@.len() implies same_key((#[trigger] data@[i]).0, got[i].0) && equal_data(s, names, data@[i].1, w.heap, w.symbols, got[i].1, d) by {
                    assert(items[i].0.same(data@[i].0) && mirrors(s, own(names), keys, data@[i].1, items[i].1));
                    assert(got[i].0.same(items[i].0) && rebuilt(w, Set::empty(), got[i].1, items[i].1));
                    lemma_data_trip(s, names, keys, w, data@[i].1, got[i].1, items[i].1, d);
                }
                lemma_traits_trip(s, names, keys, w, traits, HeapTag::LStructMut, w.heap.object(b)->LStructMut_traits, *sv->StructMut_1);
                if traits_travel(s, traits, HeapTag::LStructMut) {
                    lemma_data_trip(s, names, keys, w, traits, w.heap.object(b)->LStructMut_traits, *sv->StructMut_1, d);
                }
            },
            HeapObject::LStringMut { traits, .. } => {
                lemma_traits_trip(s, names, keys, w, traits, HeapTag::LStringMut, w.heap.object(b)->LStringMut_traits, *sv->Buffer_1);
                if traits_travel(s, traits, HeapTag::LStringMut) {
                    lemma_data_trip(s, names, keys, w, traits, w.heap.object(b)->LStringMut_traits, *sv->Buffer_1, d);
                }
            },
            HeapObject::LBytes { traits, .. } => {
                lemma_traits_trip(s, names, keys, w, traits, HeapTag::LBytes, w.heap.object(b)->LBytes_traits, *sv->Bytes_1);
                if traits_travel(s, traits, HeapTag::LBytes) {
                    lemma_data_trip(s, names, keys, w, traits, w.heap.object(b)->LBytes_traits, *sv->Bytes_1, d);
                }
            },
            HeapObject::LBytesMut { traits, .. } => {
                lemma_traits_trip(s, names, keys, w, traits, HeapTag::LBytesMut, w.heap.object(b)->LBytesMut_traits, *sv->Blob_1);
                if traits_travel(s, traits, HeapTag::LBytesMut) {
                    lemma_data_trip(s, names, keys, w, traits, w.heap.object(b)->LBytesMut_traits, *sv->Blob_1, d);
                }
            },
            HeapObject::LBox { cell, traits } => {
                lemma_cell_trip(w, b, w.heap.object(b)->LBox_cell, *sv->LBox_0);
                lemma_data_trip(s, names, keys, w, cell, w.heap.object(b)->LBox_cell, *sv->LBox_0, d);
                lemma_traits_trip(s, names, keys, w, traits, HeapTag::LBox, w.heap.object(b)->LBox_traits, *sv->LBox_1);
                if traits_travel(s, traits, HeapTag::LBox) {
                    lemma_data_trip(s, names, keys, w, traits, w.heap.object(b)->LBox_traits, *sv->LBox_1, d);
                }
            },
            HeapObject::CaptureCell { cell, traits } => {
                lemma_cell_trip(w, b, w.heap.object(b)->CaptureCell_cell, *sv->CaptureCell_0);
                lemma_data_trip(s, names, keys, w, cell, w.heap.object(b)->CaptureCell_cell, *sv->CaptureCell_0, d);
                lemma_traits_trip(s, names, keys, w, traits, HeapTag::CaptureCell, w.heap.object(b)->CaptureCell_traits, *sv->CaptureCell_1);
                if traits_travel(s, traits, HeapTag::CaptureCell) {
                    lemma_data_trip(s, names, keys, w, traits, w.heap.object(b)->CaptureCell_traits, *sv->CaptureCell_1, d);
                }
            },
            HeapObject::Parameter { default, traits, .. } => {
                lemma_data_trip(s, names, keys, w, default, w.heap.object(b)->Parameter_default, *sv->default, d);
                lemma_data_trip(s, names, keys, w, traits, w.heap.object(b)->Parameter_traits, *sv->traits, d);
            },
            HeapObject::FFIType(desc) => lemma_same_type_through(w.heap.object(b)->FFIType_0, sv->FFIType_0, desc),
            _ => {},
        }
    } else if a.tag == TAG_SYMBOL {
        let n = b.payload;
        assert(n <= 0xffff_ffff ==> (n as u32) as u64 == n) by (bit_vector);
    }
}

/// A tree of data can be sent, and arrives equal to the one that was sent.
pub proof fn lemma_data_arrives_equal(
    heap: FiberHeap,
    symbols: SymbolTable,
    value: Value,
    r: Result<SendBundle, String>,
    there: HeapState,
    names: Seq<Seq<char>>,
    lo: int,
    region: u32,
    v: Value,
    depth: nat,
)
    requires
        data_tree(heap@, symbols@, value, depth),
        call_ensures(SendBundle::from_value, (value, &heap, &symbols), r),
        r matches Ok(b) ==> arrived(there, names, lo, region, b, v),
    ensures
        r is Ok,
        equal_data(heap@, symbols@, value, there, names, v, depth),
{
    let s = heap@;
    match r {
        Err(why) => {
            let more = choose|more: nat| refuses_within(s, value, more, why@);
            lemma_data_is_not_refused(s, symbols@, value, depth, more, why@);
        },
        Ok(b) => {
            let keys = choose|keys: Seq<u64>| sent_as(s, own(symbols@), value, b, keys);
            let (w, paths) = choose|w: Arrival, paths: Map<int, Set<int>>|
                #[trigger] arrived_as(w, paths, b, v) && w.heap == there && w.symbols == names && w.lo == lo && w.region
                    == region;
            lemma_data_trip(s, symbols@, keys, w, value, v, b.root, depth);
        },
    }
}

} // verus!
