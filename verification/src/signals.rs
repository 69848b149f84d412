//! Which signals a function may emit.
//!
//! `Signal` is a compile-time classification: the bits a function itself may
//! emit, and the parameters whose signals flow through it. `SignalBits` is the
//! runtime bitset.
//!
//! Bit layout: 0 error, 1 yield, 2 debug, 3 resume, 4 ffi, 5 propagate, 7
//! query, 8 halt, 9 io, 10 terminal, 11 exec, 12 fuel, 13 switch, 14 wait, 15
//! gpu, 16 posix signal, 17 filesystem; 18 to 31 are reserved for the runtime
//! and 32 to 63 are user-defined.

use vstd::prelude::*;

use crate::bits::{
    bit, lemma_bit_and, lemma_bit_not, lemma_bit_or, lemma_bit_single, lemma_bit_zero, lemma_mask_single,
};
use crate::signalbits::SignalBits;
use crate::text::{decimal, join, joined, push_decimal, texts};

verus! {

/// No bits: a normal return.
pub const SIG_OK: u64 = 0;

/// Exception.
pub const SIG_ERROR: u64 = 0x1;

/// Cooperative suspension.
pub const SIG_YIELD: u64 = 0x2;

/// Breakpoint or trace.
pub const SIG_DEBUG: u64 = 0x4;

/// Fiber resumption, raised by the VM only.
pub const SIG_RESUME: u64 = 0x8;

/// Calls foreign code.
pub const SIG_FFI: u64 = 0x10;

/// Propagation of a caught signal, raised by the VM only.
pub const SIG_PROPAGATE: u64 = 0x20;

/// Graceful fiber termination with error injection: error and terminal.
pub const SIG_ABORT: u64 = 0x401;

/// VM state query, raised by the VM only.
pub const SIG_QUERY: u64 = 0x80;

/// Graceful VM termination.
pub const SIG_HALT: u64 = 0x100;

/// I/O request to the scheduler.
pub const SIG_IO: u64 = 0x200;

/// Terminal (non-resumable) signal.
pub const SIG_TERMINAL: u64 = 0x400;

/// Subprocess capability.
pub const SIG_EXEC: u64 = 0x800;

/// Instruction budget exhaustion.
pub const SIG_FUEL: u64 = 0x1000;

/// Fiber switch trampoline, raised by the VM only.
pub const SIG_SWITCH: u64 = 0x2000;

/// Structured concurrency wait request.
pub const SIG_WAIT: u64 = 0x4000;

/// GPU hardware dispatch.
pub const SIG_GPU: u64 = 0x8000;

/// POSIX signal send.
pub const SIG_OS_SIGNAL: u64 = 0x10000;

/// Filesystem access.
pub const SIG_FS: u64 = 0x20000;

/// The scheduler round trip: the dispatch bit of a request and the error it may
/// come back with. The yield bit is deliberately absent.
pub const IO_ROUND_TRIP: u64 = SIG_IO | SIG_ERROR;

/// Signals that user code cannot produce.
pub const VM_INTERNAL: u64 = SIG_RESUME | SIG_PROPAGATE | SIG_QUERY | SIG_TERMINAL | SIG_FUEL | SIG_SWITCH
    | SIG_WAIT;

/// Suspensions the VM injects under whatever code is running.
pub const SIG_PAUSE: u64 = SIG_FUEL;

/// All signals that user code can produce.
pub const CAP_MASK: u64 = !VM_INTERNAL;

/// The bits a boundary with `mask` converts into a violation when a closure
/// produces `bits`: none where `bits` carry an error or a halt or are exactly
/// the switch trampoline, otherwise the masked bits but for the pause bits.
pub open spec fn squelched(bits: SignalBits, mask: SignalBits) -> SignalBits {
    if bits.meets(SignalBits::new(SIG_ERROR)) || bits.meets(SignalBits::new(SIG_HALT)) || bits
        == SignalBits::new(SIG_SWITCH) {
        SignalBits::empty()
    } else {
        SignalBits { bits: (bits.bits & mask.bits) & !SIG_PAUSE }
    }
}

/// The bits a `squelch`/`attune` boundary converts into a `signal-violation`.
/// An empty result means the signal crosses the boundary untouched.
pub fn squelched_bits(bits: SignalBits, mask: SignalBits) -> (r: SignalBits)
    ensures
        r == squelched(bits, mask),
{
    if bits.intersects(SignalBits::new(SIG_ERROR)) || bits.intersects(SignalBits::new(SIG_HALT)) || bits
        == SignalBits::new(SIG_SWITCH) {
        return SignalBits::empty();
    }
    bits.intersection(mask).subtract(SignalBits::new(SIG_PAUSE))
}

/// Signal classification for expressions and functions.
#[derive(Clone, Copy, PartialEq, Eq, Structural, Debug, Hash)]
pub struct Signal {
    /// Signal bits this function itself might emit.
    pub bits: SignalBits,
    /// Bitmask of parameter indices whose signals this function propagates.
    pub propagates: u32,
}

/// The parameter indices below `n` whose bit is set in `mask`, in order.
pub open spec fn params_below(mask: u32, n: nat) -> Seq<usize>
    decreases n,
{
    if n == 0 {
        Seq::empty()
    } else {
        let p = (n - 1) as nat;
        let rest = params_below(mask, p);
        if bit(mask as u64, p as int) {
            rest.push(p as usize)
        } else {
            rest
        }
    }
}

/// A single emitted set that propagates no parameter.
pub open spec fn plain(bits: u64) -> Signal {
    Signal { bits: SignalBits { bits }, propagates: 0 }
}

/// The decimal names of parameter indices.
pub open spec fn index_names(params: Seq<usize>) -> Seq<Seq<char>> {
    Seq::new(params.len(), |i: int| decimal(params[i] as nat))
}

/// One flag of a rendered signal.
pub open spec fn flag_text(on: bool, name: Seq<char>) -> Seq<char> {
    if on {
        name
    } else {
        Seq::empty()
    }
}

impl Signal {
    /// Sequencing of two signals: bits and propagation masks are joined.
    pub open spec fn joined_with(self, other: Signal) -> Signal {
        Signal {
            bits: SignalBits { bits: self.bits.bits | other.bits.bits },
            propagates: self.propagates | other.propagates,
        }
    }

    /// Sequencing of a whole run of signals, the silent one for none.
    pub open spec fn joined_all(signals: Seq<Signal>) -> Signal
        decreases signals.len(),
    {
        if signals.len() == 0 {
            plain(0)
        } else {
            Signal::joined_all(signals.drop_last()).joined_with(signals.last())
        }
    }

    /// The emitted bits once a boundary squelches `mask`: where it suppresses
    /// something, those bits go and the error bit comes in their place.
    pub open spec fn squelched_by(self, mask: SignalBits) -> Signal {
        if self.bits.meets(mask) {
            Signal {
                bits: SignalBits { bits: (self.bits.bits & !mask.bits) | SIG_ERROR },
                propagates: self.propagates,
            }
        } else {
            self
        }
    }

    /// What the signal reads as.
    pub open spec fn text(self) -> Seq<char> {
        let head = if self.propagates != 0 {
            "polymorphic("@ + joined(index_names(params_below(self.propagates, 32)), ","@) + ")"@
        } else if self.bits.meets(SignalBits::new(SIG_YIELD)) {
            "yields"@
        } else if self.bits.meets(SignalBits::new(SIG_IO)) {
            "io"@
        } else {
            "silent"@
        };
        head + flag_text(self.bits.meets(SignalBits::new(SIG_ERROR)), "+errors"@) + flag_text(
            self.bits.meets(SignalBits::new(SIG_HALT)),
            "+halts"@,
        ) + flag_text(self.bits.meets(SignalBits::new(SIG_FFI)), "+ffi"@) + flag_text(
            self.bits.meets(SignalBits::new(SIG_DEBUG)),
            "+debug"@,
        )
    }

    /// No signals: does not signal, does not propagate.
    pub fn silent() -> (r: Signal)
        ensures
            r == plain(0),
    {
        Signal::of(SignalBits::empty())
    }

    /// May error (most primitives: arity and type errors).
    pub fn errors() -> (r: Signal)
        ensures
            r == plain(SIG_ERROR),
    {
        Signal::of(SignalBits::new(SIG_ERROR))
    }

    /// May yield (cooperative suspension).
    pub fn yields() -> (r: Signal)
        ensures
            r == plain(SIG_YIELD),
    {
        Signal::of(SignalBits::new(SIG_YIELD))
    }

    /// May yield and may error.
    pub fn yields_errors() -> (r: Signal)
        ensures
            r == plain(SIG_YIELD | SIG_ERROR),
    {
        Signal::of(SignalBits::new(SIG_YIELD | SIG_ERROR))
    }

    /// May halt the VM (non-resumable termination with return value).
    pub fn halts() -> (r: Signal)
        ensures
            r == plain(SIG_HALT | SIG_ERROR),
    {
        Signal::of(SignalBits::new(SIG_HALT | SIG_ERROR))
    }

    /// Calls foreign code via FFI.
    pub fn ffi() -> (r: Signal)
        ensures
            r == plain(SIG_FFI),
    {
        Signal::of(SignalBits::new(SIG_FFI))
    }

    /// Calls foreign code and may error.
    pub fn ffi_errors() -> (r: Signal)
        ensures
            r == plain(SIG_FFI | SIG_ERROR),
    {
        Signal::of(SignalBits::new(SIG_FFI | SIG_ERROR))
    }

    /// Performs asynchronous I/O: raises a request and may error.
    pub fn io_yields_errors() -> (r: Signal)
        ensures
            r == plain(IO_ROUND_TRIP),
    {
        Signal::of(SignalBits::new(IO_ROUND_TRIP))
    }

    /// Resolves a filesystem path synchronously and may error.
    pub fn fs_errors() -> (r: Signal)
        ensures
            r == plain(SIG_FS | SIG_ERROR),
    {
        Signal::of(SignalBits::new(SIG_FS | SIG_ERROR))
    }

    /// Opens a filesystem path through the I/O scheduler.
    pub fn fs_io_yields_errors() -> (r: Signal)
        ensures
            r == plain(IO_ROUND_TRIP | SIG_FS),
    {
        Signal::of(SignalBits::new(IO_ROUND_TRIP | SIG_FS))
    }

    /// Runs a subprocess: asynchronous I/O under the exec capability.
    pub fn subprocess() -> (r: Signal)
        ensures
            r == plain(IO_ROUND_TRIP | SIG_EXEC),
    {
        Signal::of(SignalBits::new(IO_ROUND_TRIP | SIG_EXEC))
    }

    /// Asks the VM about the current fiber and may error.
    pub fn query_errors() -> (r: Signal)
        ensures
            r == plain(SIG_QUERY | SIG_ERROR),
    {
        Signal::of(SignalBits::new(SIG_QUERY | SIG_ERROR))
    }

    /// An arbitrary set of emitted bits, propagating no parameter.
    pub fn of(bits: SignalBits) -> (r: Signal)
        ensures
            r == (Signal { bits, propagates: 0 }),
    {
        Signal { bits, propagates: 0 }
    }

    /// Sends a POSIX signal (capability-gated) and may error.
    pub fn os_signal_errors() -> (r: Signal)
        ensures
            r == plain(SIG_OS_SIGNAL | SIG_ERROR),
    {
        Signal::of(SignalBits::new(SIG_OS_SIGNAL | SIG_ERROR))
    }

    /// Maximally conservative signal for a callee whose effects are unknown.
    pub fn unknown() -> (r: Signal)
        ensures
            r == plain(CAP_MASK),
    {
        Signal::of(SignalBits::new(CAP_MASK))
    }

    /// Polymorphic: signal depends on a single parameter (no error signal).
    pub fn polymorphic(param: usize) -> (r: Signal)
        requires
            param < 32,
        ensures
            r == (Signal { bits: SignalBits::empty(), propagates: 1u32 << param }),
    {
        Signal { bits: SignalBits::empty(), propagates: 1u32 << param }
    }

    /// Polymorphic: signal depends on a single parameter (may error).
    pub fn polymorphic_errors(param: usize) -> (r: Signal)
        requires
            param < 32,
        ensures
            r == (Signal { bits: SignalBits::new(SIG_ERROR), propagates: 1u32 << param }),
    {
        Signal { bits: SignalBits::new(SIG_ERROR), propagates: 1u32 << param }
    }

    /// Combine two signals (used for sequencing).
    pub fn combine(self, other: Signal) -> (r: Signal)
        ensures
            r == self.joined_with(other),
    {
        Signal {
            bits: self.bits.union(other.bits),
            propagates: self.propagates | other.propagates,
        }
    }

    /// Combine multiple signals.
    pub fn combine_all(signals: &Vec<Signal>) -> (r: Signal)
        ensures
            r == Signal::joined_all(signals@),
    {
        let mut acc = Signal::silent();
        let mut i: usize = 0;
        while i < signals.len()
            invariant
                i <= signals.len(),
                acc == Signal::joined_all(signals@.take(i as int)),
            decreases signals.len() - i,
        {
            assert(signals@.take(i + 1).drop_last() =~= signals@.take(i as int));
            acc = acc.combine(signals[i]);
            i = i + 1;
        }
        assert(signals@.take(i as int) =~= signals@);
        acc
    }

    /// The compile-time signal after squelching the given mask.
    pub fn squelch(self, mask: SignalBits) -> (r: Signal)
        ensures
            r == self.squelched_by(mask),
    {
        let actually_squelched = self.bits.intersection(mask);
        if actually_squelched.is_empty() {
            return self;
        }
        Signal {
            bits: self.bits.subtract(mask).union(SignalBits::new(SIG_ERROR)),
            propagates: self.propagates,
        }
    }

    /// Can this function suspend execution? Any signal emission is a potential
    /// suspension point, and so is a parameter whose signal flows through.
    pub fn may_suspend(&self) -> (r: bool)
        ensures
            r == (self.bits != SignalBits::empty() || self.propagates != 0),
    {
        !self.bits.is_empty() || self.propagates != 0
    }

    /// Can this function yield (cooperative suspension)?
    pub fn may_yield(&self) -> (r: bool)
        ensures
            r == self.bits.meets(SignalBits::new(SIG_YIELD)),
    {
        self.bits.intersects(SignalBits::new(SIG_YIELD))
    }

    /// Can this function error?
    pub fn may_error(&self) -> (r: bool)
        ensures
            r == self.bits.meets(SignalBits::new(SIG_ERROR)),
    {
        self.bits.intersects(SignalBits::new(SIG_ERROR))
    }

    /// Can this function halt the VM?
    pub fn may_halt(&self) -> (r: bool)
        ensures
            r == self.bits.meets(SignalBits::new(SIG_HALT)),
    {
        self.bits.intersects(SignalBits::new(SIG_HALT))
    }

    /// Does this function call foreign code?
    pub fn may_ffi(&self) -> (r: bool)
        ensures
            r == self.bits.meets(SignalBits::new(SIG_FFI)),
    {
        self.bits.intersects(SignalBits::new(SIG_FFI))
    }

    /// Can this function perform I/O?
    pub fn may_io(&self) -> (r: bool)
        ensures
            r == self.bits.meets(SignalBits::new(SIG_IO)),
    {
        self.bits.intersects(SignalBits::new(SIG_IO))
    }

    /// Does this function's signal depend on its arguments?
    pub fn is_polymorphic(&self) -> (r: bool)
        ensures
            r == (self.propagates != 0),
    {
        self.propagates != 0
    }

    /// The parameter indices this signal propagates, in ascending order.
    pub fn propagated_params(&self) -> (r: Vec<usize>)
        ensures
            r@ == params_below(self.propagates, 32),
    {
        let mut out: Vec<usize> = Vec::new();
        let mut i: usize = 0;
        let mask: u64 = self.propagates as u64;
        while i < 32
            invariant
                i <= 32,
                mask == self.propagates as u64,
                out@ == params_below(self.propagates, i as nat),
            decreases 32 - i,
        {
            proof {
                lemma_mask_single(mask, i as u64);
            }
            if mask & (1u64 << (i as u64)) != 0 {
                out.push(i);
            }
            i = i + 1;
        }
        out
    }

    /// Readable form: what kind of signal, and its capability flags.
    pub fn render(&self) -> (r: String)
        ensures
            r@ == self.text(),
    {
        let mut out = String::new();
        if self.propagates != 0 {
            let params = self.propagated_params();
            let mut names: Vec<String> = Vec::new();
            let mut i: usize = 0;
            while i < params.len()
                invariant
                    i <= params.len(),
                    names@.len() == i,
                    forall|k: int| 0 <= k < i ==> names@[k]@ == decimal(params@[k] as nat),
                decreases params.len() - i,
            {
                let mut name = String::new();
                push_decimal(&mut name, params[i] as u64);
                assert(name@ =~= decimal(params@[i as int] as nat));
                names.push(name);
                i = i + 1;
            }
            assert(texts(names@) =~= index_names(params@));
            out.append("polymorphic(");
            out.append(join(&names, ",").as_str());
            out.append(")");
        } else if self.may_yield() {
            out.append("yields");
        } else if self.may_io() {
            out.append("io");
        } else {
            out.append("silent");
        }
        if self.may_error() {
            out.append("+errors");
        }
        if self.may_halt() {
            out.append("+halts");
        }
        if self.may_ffi() {
            out.append("+ffi");
        }
        if self.bits.intersects(SignalBits::new(SIG_DEBUG)) {
            out.append("+debug");
        }
        assert(out@ =~= self.text());
        out
    }
}

impl Default for Signal {
    fn default() -> (r: Signal)
        ensures
            r == plain(0),
    {
        Signal::silent()
    }
}

/// Sequencing is commutative, associative and idempotent, and the silent
/// signal changes nothing.
pub proof fn lemma_combine_laws(a: Signal, b: Signal, c: Signal)
    ensures
        a.joined_with(b) == b.joined_with(a),
        a.joined_with(b).joined_with(c) == a.joined_with(b.joined_with(c)),
        a.joined_with(a) == a,
        a.joined_with(plain(0)) == a,
{
    let (x, y, z) = (a.bits.bits, b.bits.bits, c.bits.bits);
    let (p, q, r) = (a.propagates, b.propagates, c.propagates);
    assert(x | y == y | x && (x | y) | z == x | (y | z) && x | x == x && x | 0 == x) by (bit_vector);
    assert(p | q == q | p && (p | q) | r == p | (q | r) && p | p == p && p | 0 == p) by (bit_vector);
}

/// A combined run emits a signal exactly when one of its members does.
pub proof fn lemma_combine_all_emits(signals: Seq<Signal>, i: int)
    ensures
        Signal::joined_all(signals).bits.has(i) == (exists|k: int|
            0 <= k < signals.len() && signals[k].bits.has(i)),
    decreases signals.len(),
{
    if signals.len() == 0 {
        lemma_bit_zero(i);
    } else {
        let init = signals.drop_last();
        lemma_combine_all_emits(init, i);
        lemma_bit_or(Signal::joined_all(init).bits.bits, signals.last().bits.bits, i);
        if Signal::joined_all(init).bits.has(i) {
            let k = choose|k: int| 0 <= k < init.len() && init[k].bits.has(i);
            assert(signals[k].bits.has(i));
        }
        if signals.last().bits.has(i) {
            assert(signals[signals.len() - 1].bits.has(i));
        }
        if exists|k: int| 0 <= k < signals.len() && signals[k].bits.has(i) {
            let k = choose|k: int| 0 <= k < signals.len() && signals[k].bits.has(i);
            if k < init.len() {
                assert(init[k].bits.has(i));
            }
        }
    }
}

/// An error or halt crosses every boundary whole, and so does the exact switch
/// signal; the pause bits cross by subtraction, so any other masked bit that
/// rides alongside one of them is still caught.
pub proof fn lemma_squelch_exemptions(bits: SignalBits, mask: SignalBits)
    ensures
        bits.has(0) || bits.has(8) ==> squelched(bits, mask) == SignalBits::empty(),
        bits == SignalBits::new(SIG_SWITCH) ==> squelched(bits, mask) == SignalBits::empty(),
        !squelched(bits, mask).has(12),
        forall|i: int|
            !bits.has(0) && !bits.has(8) && bits != SignalBits::new(SIG_SWITCH) && i != 12 ==> #[trigger] squelched(
                bits,
                mask,
            ).has(i) == (bits.has(i) && mask.has(i)),
{
    lemma_mask_single(bits.bits, 0);
    lemma_mask_single(bits.bits, 8);
    assert(1u64 << 0u64 == 1 && 1u64 << 8u64 == 0x100 && 1u64 << 12u64 == 0x1000) by (bit_vector);
    lemma_bit_zero(12);
    lemma_bit_and(bits.bits & mask.bits, !SIG_PAUSE, 12);
    lemma_bit_not(SIG_PAUSE, 12);
    lemma_bit_single(12, 12);
    assert forall|i: int|
        !bits.has(0) && !bits.has(8) && bits != SignalBits::new(SIG_SWITCH) && i != 12 implies #[trigger] squelched(
        bits,
        mask,
    ).has(i) == (bits.has(i) && mask.has(i)) by {
        lemma_bit_and(bits.bits & mask.bits, !SIG_PAUSE, i);
        lemma_bit_and(bits.bits, mask.bits, i);
        lemma_bit_single(12, i);
        if 0 <= i < 64 {
            lemma_bit_not(SIG_PAUSE, i);
        }
    }
}

} // verus!
