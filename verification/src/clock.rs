//! Clocks and sleeping: what a call asks for and what its result is. The clocks
//! themselves, and the arithmetic on seconds, are outside; a float crosses by its
//! IEEE-754 bits.

use vstd::prelude::*;

use crate::ctx::Alloc;
use crate::heap::FiberHeap;
use crate::prim::{fail, failed, returned};
use crate::signalbits::SignalBits;
use crate::signals::SIG_OK;
use crate::value::{Value, TAG_FLOAT, TAG_INT};

verus! {

/// The bits of a number that is neither infinite nor no number.
pub open spec fn finite(bits: u64) -> bool {
    (bits >> 52) & 0x7ff != 0x7ff
}

/// The bits of a number below zero; minus zero is not.
pub open spec fn below_zero(bits: u64) -> bool {
    bits > 0x8000_0000_0000_0000
}

/// `(clock/monotonic)`: the seconds since the process started.
pub fn prim_clock_monotonic(seconds: u64) -> (r: (SignalBits, Value))
    ensures
        r == returned(Value::float_bits(seconds)),
{
    (SignalBits::new(SIG_OK), Value::float_bits(seconds))
}

/// What `clock/cpu` gives.
pub open spec fn cpu_time_told(
    ctx: Alloc,
    heap: FiberHeap,
    heap_after: FiberHeap,
    seconds: Option<u64>,
    r: (SignalBits, Value),
) -> bool {
    &&& match seconds {
            Some(bits) => r == returned(Value::float_bits(bits)) && heap_after@ == heap@,
            None => failed(
                heap@,
                heap_after@,
                ctx.home(),
                "io-error"@,
                "clock/cpu: clock_gettime failed"@,
                r,
            ),
        }
}

/// `(clock/cpu)`: the thread's processor time in seconds, `None` where the system
/// would not tell.
pub fn prim_clock_cpu(ctx: &Alloc, heap: &mut FiberHeap, seconds: Option<u64>) -> (r: (SignalBits, Value))
    requires
        ctx.ready(old(heap)@, 8),
    ensures
        cpu_time_told(
            *ctx,
            *old(heap),
            *final(heap),
            seconds,
            r,
        ),
{
    match seconds {
        Some(bits) => (SignalBits::new(SIG_OK), Value::float_bits(bits)),
        None => {
            let msg = "clock/cpu: clock_gettime failed".to_string();
            fail(ctx, heap, "io-error", &msg)
        },
    }
}

/// What `clock/realtime` gives.
pub open spec fn real_time_told(
    ctx: Alloc,
    heap: FiberHeap,
    heap_after: FiberHeap,
    seconds: Option<u64>,
    r: (SignalBits, Value),
) -> bool {
    &&& match seconds {
            Some(bits) => r == returned(Value::float_bits(bits)) && heap_after@ == heap@,
            None => failed(
                heap@,
                heap_after@,
                ctx.home(),
                "io-error"@,
                "clock/realtime: system clock is before Unix epoch"@,
                r,
            ),
        }
}

/// `(clock/realtime)`: the seconds since the epoch, `None` where the clock stands
/// before it.
pub fn prim_clock_realtime(ctx: &Alloc, heap: &mut FiberHeap, seconds: Option<u64>) -> (r: (
    SignalBits,
    Value,
))
    requires
        ctx.ready(old(heap)@, 8),
    ensures
        real_time_told(
            *ctx,
            *old(heap),
            *final(heap),
            seconds,
            r,
        ),
{
    match seconds {
        Some(bits) => (SignalBits::new(SIG_OK), Value::float_bits(bits)),
        None => {
            let msg = "clock/realtime: system clock is before Unix epoch".to_string();
            fail(ctx, heap, "io-error", &msg)
        },
    }
}

/// What a sleep asks for; after it the primitive returns nil.
pub enum SleepStep {
    /// The primitive is done.
    Done((SignalBits, Value)),
    /// Sleep for whole seconds.
    Seconds(u64),
    /// Sleep for the seconds that these bits are.
    Fraction(u64),
}

/// How `time/sleep` begins.
pub open spec fn sleep_asked(
    ctx: Alloc,
    heap: FiberHeap,
    heap_after: FiberHeap,
    args: Vec<Value>,
    r: SleepStep,
) -> bool {
    &&& ({
            let s = heap@;
            let t = heap_after@;
            let h = ctx.home();
            let v = args@[0];
            if v.tag == TAG_INT {
                if (v.payload as i64) < 0 {
                    let msg = "time/sleep: duration must be non-negative"@;
                    r is Done && failed(s, t, h, "argument-error"@, msg, r->Done_0)
                } else {
                    r == SleepStep::Seconds((v.payload as i64) as u64) && t == s
                }
            } else if v.tag == TAG_FLOAT {
                if below_zero(v.payload) || !finite(v.payload) {
                    let msg = "time/sleep: duration must be a finite non-negative number"@;
                    r is Done && failed(s, t, h, "argument-error"@, msg, r->Done_0)
                } else {
                    r == SleepStep::Fraction(v.payload) && t == s
                }
            } else {
                let msg = "time/sleep: argument must be a number"@;
                r is Done && failed(s, t, h, "type-error"@, msg, r->Done_0)
            }
        })
}

/// `(time/sleep seconds)`: a finite number that is not below zero.
pub fn prim_sleep(ctx: &Alloc, heap: &mut FiberHeap, args: &Vec<Value>) -> (r: SleepStep)
    requires
        ctx.ready(old(heap)@, 8),
        args@.len() == 1,
    ensures
        sleep_asked(
            *ctx,
            *old(heap),
            *final(heap),
            *args,
            r,
        ),
{
    if let Some(n) = args[0].as_int() {
        if n < 0 {
            let msg = "time/sleep: duration must be non-negative".to_string();
            return SleepStep::Done(fail(ctx, heap, "argument-error", &msg));
        }
        return SleepStep::Seconds(n as u64);
    }
    if args[0].tag == TAG_FLOAT {
        let bits = args[0].payload;
        if bits > 0x8000_0000_0000_0000 || (bits >> 52) & 0x7ff == 0x7ff {
            let msg = "time/sleep: duration must be a finite non-negative number".to_string();
            return SleepStep::Done(fail(ctx, heap, "argument-error", &msg));
        }
        return SleepStep::Fraction(bits);
    }
    let msg = "time/sleep: argument must be a number".to_string();
    SleepStep::Done(fail(ctx, heap, "type-error", &msg))
}

/// The result of a sleep that ended.
pub fn slept() -> (r: (SignalBits, Value))
    ensures
        r == returned(Value::nil()),
{
    (SignalBits::new(SIG_OK), Value::nil())
}

/// The timing mark of a phase, where marks are on. `elapsed` is the time it took
/// as the clock prints it, or that there is no clock.
pub fn phase(enabled: bool, subsystem: &str, label: &str, elapsed: &str) -> (r: Option<String>)
    ensures
        match r {
            Some(line) => enabled && line@ == "[trace:"@ + subsystem@ + "] "@ + label@ + " "@ + elapsed@,
            None => !enabled,
        },
{
    if !enabled {
        return None;
    }
    let mut line = "[trace:".to_string();
    line.append(subsystem);
    line.append("] ");
    line.append(label);
    line.append(" ");
    line.append(elapsed);
    Some(line)
}

} // verus!
