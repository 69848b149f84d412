//! The standard ports where there is nothing but an output buffer to write to.

use vstd::prelude::*;
use vstd::utf8::encode_utf8;

use crate::ctx::{birth, born, Alloc};
use crate::heap::{FiberHeap, HeapState, RuntimeRegion};
use crate::object::{ExternalData, HeapObject, PortKind};
use crate::prim::{as_string, fail, failed, returned, string_at};
use crate::signalbits::SignalBits;
use crate::signals::SIG_OK;
use crate::value::{Value, TAG_EXTERNAL};

verus! {

/// One of the two output buffers.
#[derive(Clone, Copy, PartialEq, Eq, Structural, Debug)]
pub enum Stream {
    Output,
    Error,
}

/// A fresh standard port was returned.
pub open spec fn port_given(
    before: HeapState,
    after: HeapState,
    home: RuntimeRegion,
    kind: PortKind,
    r: (SignalBits, Value),
) -> bool {
    &&& r.0 == SignalBits::new(SIG_OK)
    &&& born(before, after, home, r.1)
    &&& match birth(after) {
        HeapObject::External { obj, traits } => obj.kind_name@ == "port"@ && obj.data == ExternalData::Port(kind)
            && traits == Value::nil(),
        _ => false,
    }
}

fn standard_port(ctx: &Alloc, heap: &mut FiberHeap, kind: PortKind) -> (r: (SignalBits, Value))
    requires
        ctx.ready(old(heap)@, 2),
    ensures
        port_given(old(heap)@, final(heap)@, ctx.home(), kind, r),
{
    let v = ctx.external(heap, "port".to_string(), ExternalData::Port(kind));
    (SignalBits::new(SIG_OK), v)
}

/// `(port/stdin)`: a port for standard input.
pub fn prim_port_stdin(ctx: &Alloc, heap: &mut FiberHeap) -> (r: (SignalBits, Value))
    requires
        ctx.ready(old(heap)@, 2),
    ensures
        port_given(old(heap)@, final(heap)@, ctx.home(), PortKind::Stdin, r),
{
    standard_port(ctx, heap, PortKind::Stdin)
}

/// `(port/stdout)`: a port for standard output.
pub fn prim_port_stdout(ctx: &Alloc, heap: &mut FiberHeap) -> (r: (SignalBits, Value))
    requires
        ctx.ready(old(heap)@, 2),
    ensures
        port_given(old(heap)@, final(heap)@, ctx.home(), PortKind::Stdout, r),
{
    standard_port(ctx, heap, PortKind::Stdout)
}

/// `(port/stderr)`: a port for standard error.
pub fn prim_port_stderr(ctx: &Alloc, heap: &mut FiberHeap) -> (r: (SignalBits, Value))
    requires
        ctx.ready(old(heap)@, 2),
    ensures
        port_given(old(heap)@, final(heap)@, ctx.home(), PortKind::Stderr, r),
{
    standard_port(ctx, heap, PortKind::Stderr)
}

/// The buffer that a port's writes go to; none for anything that is no standard
/// output port.
pub open spec fn stream_at(s: HeapState, v: Value) -> Option<Stream> {
    if v.tag == TAG_EXTERNAL && s.target(v) is Some {
        match s.object(v) {
            HeapObject::External { obj, .. } => match obj.data {
                ExternalData::Port(PortKind::Stdout) => Some(Stream::Output),
                ExternalData::Port(PortKind::Stderr) => Some(Stream::Error),
                _ => None,
            },
            _ => None,
        }
    } else {
        None
    }
}

/// The buffer that a port's writes go to.
pub fn stream_of(heap: &FiberHeap, v: Value) -> (r: Option<Stream>)
    ensures
        r == stream_at(heap@, v),
{
    if v.tag != TAG_EXTERNAL {
        return None;
    }
    match heap.deref(v) {
        Some(HeapObject::External { obj, .. }) => match obj.data {
            ExternalData::Port(PortKind::Stdout) => Some(Stream::Output),
            ExternalData::Port(PortKind::Stderr) => Some(Stream::Error),
            _ => None,
        },
        _ => None,
    }
}

/// What `port/write` does.
pub open spec fn write_asked(
    ctx: Alloc,
    heap: FiberHeap,
    heap_after: FiberHeap,
    args: Vec<Value>,
    kinds: Vec<String>,
    r: (Option<(Stream, String)>, (SignalBits, Value)),
) -> bool {
    &&& ({
            let s = heap@;
            let t = heap_after@;
            let h = ctx.home();
            match (stream_at(s, args@[0]), string_at(s, args@[1])) {
                (None, _) => {
                    let msg = "port/write: wasm32 can only write to stdout or stderr"@;
                    r.0 is None && failed(s, t, h, "unsupported"@, msg, r.1)
                },
                (Some(_), None) => {
                    let msg = "port/write: expected string, got "@ + kinds@[1]@;
                    r.0 is None && failed(s, t, h, "type-error"@, msg, r.1)
                },
                (Some(stream), Some(text)) => {
                    &&& r.0 is Some
                    &&& (r.0->0).0 == stream
                    &&& (r.0->0).1@ == text
                    &&& r.1 == returned(Value::integer(encode_utf8(text).len() as i64))
                    &&& t == s
                },
            }
        })
}

/// `(port/write port data)`: what goes to which buffer, and the primitive's
/// result: the data's length in bytes, never less.
pub fn prim_port_write(
    ctx: &Alloc,
    heap: &mut FiberHeap,
    args: &Vec<Value>,
    kinds: &Vec<String>,
) -> (r: (Option<(Stream, String)>, (SignalBits, Value)))
    requires
        kinds@.len() == args@.len(),
        ctx.ready(old(heap)@, 8),
        args@.len() >= 2,
    ensures
        write_asked(
            *ctx,
            *old(heap),
            *final(heap),
            *args,
            *kinds,
            r,
        ),
{
    let stream = match stream_of(heap, args[0]) {
        Some(stream) => stream,
        None => {
            let msg = "port/write: wasm32 can only write to stdout or stderr".to_string();
            return (None, fail(ctx, heap, "unsupported", &msg));
        },
    };
    match as_string(heap, args[1]) {
        Some(text) => {
            let written = text.as_str().as_bytes().len();
            (Some((stream, text)), (SignalBits::new(SIG_OK), Value::integer(written as i64)))
        },
        None => {
            let mut msg = "port/write: expected string, got ".to_string();
            msg.append(kinds[1].as_str());
            (None, fail(ctx, heap, "type-error", &msg))
        },
    }
}

/// What `port/flush` does.
pub open spec fn flush_asked(
    ctx: Alloc,
    heap: FiberHeap,
    heap_after: FiberHeap,
    args: Vec<Value>,
    r: (SignalBits, Value),
) -> bool {
    &&& if stream_at(heap@, args@[0]) is Some {
            r == returned(Value::nil()) && heap_after@ == heap@
        } else {
            failed(
                heap@,
                heap_after@,
                ctx.home(),
                "unsupported"@,
                "port/flush: wasm32 can only flush stdout or stderr"@,
                r,
            )
        }
}

/// `(port/flush port)`: nothing is left to flush by then.
pub fn prim_port_flush(ctx: &Alloc, heap: &mut FiberHeap, args: &Vec<Value>) -> (r: (SignalBits, Value))
    requires
        ctx.ready(old(heap)@, 8),
        args@.len() >= 1,
    ensures
        flush_asked(
            *ctx,
            *old(heap),
            *final(heap),
            *args,
            r,
        ),
{
    match stream_of(heap, args[0]) {
        Some(_) => (SignalBits::new(SIG_OK), Value::nil()),
        None => {
            let msg = "port/flush: wasm32 can only flush stdout or stderr".to_string();
            fail(ctx, heap, "unsupported", &msg)
        },
    }
}

/// What every primitive answers that needs more of the system than there is.
pub fn prim_unsupported(ctx: &Alloc, heap: &mut FiberHeap) -> (r: (SignalBits, Value))
    requires
        ctx.ready(old(heap)@, 8),
    ensures
        failed(
            old(heap)@,
            final(heap)@,
            ctx.home(),
            "unsupported"@,
            "this primitive needs OS facilities that wasm32 does not provide"@,
            r,
        ),
{
    let msg = "this primitive needs OS facilities that wasm32 does not provide".to_string();
    fail(ctx, heap, "unsupported", &msg)
}

} // verus!
