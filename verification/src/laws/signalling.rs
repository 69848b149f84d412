//! The signals that code may raise, and what becomes of them.

use vstd::prelude::*;

use crate::bits::{
    bit, lemma_bit_and, lemma_bit_not, lemma_bit_or, lemma_bit_single, lemma_bit_zero, lemma_nonzero_has_bit,
};
use crate::signalbits::{lemma_meets, SignalBits};
use crate::signals::{
    squelched_bits, Signal, SIG_ERROR, SIG_EXEC, SIG_FFI, SIG_FS, SIG_HALT, SIG_IO, SIG_OS_SIGNAL, SIG_PAUSE,
    SIG_QUERY, SIG_SWITCH, SIG_YIELD,
};

verus! {

/// Two signals combine into what either may raise and either passes on.
pub proof fn lemma_combined_signal_raises_either(a: Signal, b: Signal, ab: Signal, ba: Signal, i: int)
    requires
        call_ensures(Signal::combine, (a, b), ab),
        call_ensures(Signal::combine, (b, a), ba),
        0 <= i < 64,
    ensures
        ab.bits.has(i) <==> a.bits.has(i) || b.bits.has(i),
        bit(ab.propagates as u64, i) <==> bit(a.propagates as u64, i) || bit(b.propagates as u64, i),
        ab.bits.has(i) == ba.bits.has(i),
        bit(ab.propagates as u64, i) == bit(ba.propagates as u64, i),
{
    lemma_bit_or(a.bits.bits, b.bits.bits, i);
    lemma_bit_or(b.bits.bits, a.bits.bits, i);
    lemma_bit_or(a.propagates as u64, b.propagates as u64, i);
    lemma_bit_or(b.propagates as u64, a.propagates as u64, i);
}

/// A boundary that masks something the code may raise takes exactly that away, and makes
/// it an error; one that masks nothing of it changes nothing. What is passed on from
/// parameters stays.
pub proof fn lemma_squelched_signal_errors_instead(a: Signal, mask: SignalBits, r: Signal, i: int)
    requires
        call_ensures(Signal::squelch, (a, mask), r),
        0 <= i < 64,
    ensures
        (exists|j: int| a.bits.has(j) && mask.has(j)) ==> r.bits.has(0),
        (exists|j: int| a.bits.has(j) && mask.has(j)) && i != 0 ==> (r.bits.has(i) <==> a.bits.has(i) && !mask.has(i)),
        !(exists|j: int| a.bits.has(j) && mask.has(j)) ==> r == a,
        r.propagates == a.propagates,
{
    let (x, m) = (a.bits.bits, mask.bits);
    lemma_meets(a.bits, mask);
    lemma_error_bit(i);
    lemma_error_bit(0);
    lemma_bit_not(m, i);
    lemma_bit_and(x, !m, i);
    lemma_bit_or(x & !m, SIG_ERROR, i);
    lemma_bit_or(x & !m, SIG_ERROR, 0);
    if exists|j: int| a.bits.has(j) && mask.has(j) {
        let j = choose|j: int| a.bits.has(j) && mask.has(j);
        assert(a.bits.has(j) && mask.has(j));
    }
}

/// The place of each signal's bit.
proof fn lemma_places()
    ensures
        SIG_ERROR == 1u64 << 0u64,
        SIG_YIELD == 1u64 << 1u64,
        SIG_FFI == 1u64 << 4u64,
        SIG_QUERY == 1u64 << 7u64,
        SIG_HALT == 1u64 << 8u64,
        SIG_IO == 1u64 << 9u64,
        SIG_EXEC == 1u64 << 11u64,
        SIG_OS_SIGNAL == 1u64 << 16u64,
        SIG_FS == 1u64 << 17u64,
{
    assert(0x1u64 == 1u64 << 0u64 && 0x2u64 == 1u64 << 1u64 && 0x10u64 == 1u64 << 4u64 && 0x80u64 == 1u64 << 7u64
        && 0x100u64 == 1u64 << 8u64 && 0x200u64 == 1u64 << 9u64 && 0x800u64 == 1u64 << 11u64 && 0x10000u64 == 1u64
        << 16u64 && 0x20000u64 == 1u64 << 17u64) by (bit_vector);
}

proof fn lemma_error_bit(i: int)
    ensures
        bit(SIG_ERROR, i) == (i == 0),
{
    lemma_places();
    lemma_bit_single(0, i);
}

/// Each named signal raises what its name says, and nothing else; none of them passes
/// anything on.
pub proof fn lemma_named_signals_raise_what_they_say(
    silent: Signal,
    errors: Signal,
    yields: Signal,
    yields_errors: Signal,
    halts: Signal,
    ffi: Signal,
    ffi_errors: Signal,
    fs_errors: Signal,
    query_errors: Signal,
    os_errors: Signal,
    i: int,
)
    requires
        call_ensures(Signal::silent, (), silent),
        call_ensures(Signal::errors, (), errors),
        call_ensures(Signal::yields, (), yields),
        call_ensures(Signal::yields_errors, (), yields_errors),
        call_ensures(Signal::halts, (), halts),
        call_ensures(Signal::ffi, (), ffi),
        call_ensures(Signal::ffi_errors, (), ffi_errors),
        call_ensures(Signal::fs_errors, (), fs_errors),
        call_ensures(Signal::query_errors, (), query_errors),
        call_ensures(Signal::os_signal_errors, (), os_errors),
        0 <= i < 64,
    ensures
        !silent.bits.has(i),
        errors.bits.has(i) <==> i == 0,
        yields.bits.has(i) <==> i == 1,
        yields_errors.bits.has(i) <==> i == 1 || i == 0,
        halts.bits.has(i) <==> i == 8 || i == 0,
        ffi.bits.has(i) <==> i == 4,
        ffi_errors.bits.has(i) <==> i == 4 || i == 0,
        fs_errors.bits.has(i) <==> i == 17 || i == 0,
        query_errors.bits.has(i) <==> i == 7 || i == 0,
        os_errors.bits.has(i) <==> i == 16 || i == 0,
        silent.propagates == 0 && errors.propagates == 0 && yields.propagates == 0 && halts.propagates == 0
            && ffi.propagates == 0 && fs_errors.propagates == 0 && query_errors.propagates == 0
            && os_errors.propagates == 0,
{
    lemma_places();
    lemma_bit_zero(i);
    lemma_bit_single(0, i);
    lemma_bit_single(1, i);
    lemma_bit_single(4, i);
    lemma_bit_single(7, i);
    lemma_bit_single(8, i);
    lemma_bit_single(16, i);
    lemma_bit_single(17, i);
    lemma_bit_or(SIG_YIELD, SIG_ERROR, i);
    lemma_bit_or(SIG_HALT, SIG_ERROR, i);
    lemma_bit_or(SIG_FFI, SIG_ERROR, i);
    lemma_bit_or(SIG_FS, SIG_ERROR, i);
    lemma_bit_or(SIG_QUERY, SIG_ERROR, i);
    lemma_bit_or(SIG_OS_SIGNAL, SIG_ERROR, i);
}

/// A signal may do what its bits say: each question is about one bit, and it may suspend
/// where it raises or passes on anything at all.
pub proof fn lemma_signal_may_what_its_bits_say(
    a: Signal,
    suspend: bool,
    yields: bool,
    errors: bool,
    halts: bool,
    ffi: bool,
    io: bool,
    poly: bool,
)
    requires
        call_ensures(Signal::may_suspend, (&a,), suspend),
        call_ensures(Signal::may_yield, (&a,), yields),
        call_ensures(Signal::may_error, (&a,), errors),
        call_ensures(Signal::may_halt, (&a,), halts),
        call_ensures(Signal::may_ffi, (&a,), ffi),
        call_ensures(Signal::may_io, (&a,), io),
        call_ensures(Signal::is_polymorphic, (&a,), poly),
    ensures
        errors <==> a.bits.has(0),
        yields <==> a.bits.has(1),
        ffi <==> a.bits.has(4),
        halts <==> a.bits.has(8),
        io <==> a.bits.has(9),
        poly <==> a.propagates != 0,
        suspend <==> poly || (exists|i: int| a.bits.has(i)),
{
    lemma_places();
    crate::bits::lemma_mask_single(a.bits.bits, 0);
    crate::bits::lemma_mask_single(a.bits.bits, 1);
    crate::bits::lemma_mask_single(a.bits.bits, 4);
    crate::bits::lemma_mask_single(a.bits.bits, 8);
    crate::bits::lemma_mask_single(a.bits.bits, 9);
    if a.bits.bits != 0 {
        let i = lemma_nonzero_has_bit(a.bits.bits);
        assert(a.bits.has(i));
    } else {
        assert forall|i: int| !a.bits.has(i) by {
            lemma_bit_zero(i);
        }
    }
}

proof fn lemma_params(mask: u32, n: nat, p: usize)
    requires
        n <= 32,
    ensures
        crate::signals::params_below(mask, n).contains(p) <==> p < n && bit(mask as u64, p as int),
        forall|i: int, j: int|
            0 <= i < j < crate::signals::params_below(mask, n).len() ==> crate::signals::params_below(mask, n)[i]
                < crate::signals::params_below(mask, n)[j],
        forall|i: int|
            0 <= i < crate::signals::params_below(mask, n).len() ==> #[trigger] crate::signals::params_below(mask, n)[i]
                < n,
    decreases n,
{
    if n > 0 {
        let q = (n - 1) as nat;
        lemma_params(mask, q, p);
        let rest = crate::signals::params_below(mask, q);
        let all = crate::signals::params_below(mask, n);
        if bit(mask as u64, q as int) {
            assert(all =~= rest.push(q as usize));
            if all.contains(p) {
                let k = all.index_of(p);
                if k < rest.len() {
                    assert(rest[k] == p);
                }
            }
            if rest.contains(p) {
                let k = rest.index_of(p);
                assert(all[k] == p);
            }
            assert(all[all.len() - 1] == q);
        }
    }
}

/// The parameters that a signal passes on are those whose bit is set, each once and in
/// order; a signal that is polymorphic in one passes on that one.
pub proof fn lemma_propagated_params_are_its_bits(a: Signal, r: Vec<usize>, p: usize, one: Signal)
    requires
        call_ensures(Signal::propagated_params, (&a,), r),
        p < 32,
        call_ensures(Signal::polymorphic, (p,), one),
    ensures
        r@.contains(p) <==> bit(a.propagates as u64, p as int),
        forall|i: int, j: int| 0 <= i < j < r@.len() ==> r@[i] < r@[j],
        forall|i: int| 0 <= i < 64 ==> !one.bits.has(i),
        forall|i: int| 0 <= i < 64 ==> (#[trigger] bit(one.propagates as u64, i) <==> i == p),
{
    lemma_params(a.propagates, 32, p);
    assert forall|i: int| 0 <= i < 64 implies !one.bits.has(i) by {
        lemma_bit_zero(i);
    }
    let q = p as u64;
    let w = 1u32 << p;
    assert((1u32 << p) as u64 == 1u64 << q) by (bit_vector)
        requires
            p < 32,
            q == p as u64,
    ;
    assert forall|i: int| 0 <= i < 64 implies (#[trigger] bit(one.propagates as u64, i) <==> i == p) by {
        lemma_bit_single(q, i);
    }
}

/// What a boundary stops of a signal: the bits it masks, but for a pause; nothing of an
/// error, of a halt, or of the bare switch between fibers.
pub proof fn lemma_boundary_stops_masked_bits(bits: SignalBits, mask: SignalBits, r: SignalBits, i: int)
    requires
        call_ensures(squelched_bits, (bits, mask), r),
        0 <= i < 64,
    ensures
        bits.has(0) || bits.has(8) || bits == SignalBits::new(SIG_SWITCH) ==> !r.has(i),
        !bits.has(0) && !bits.has(8) && bits != SignalBits::new(SIG_SWITCH) ==> (r.has(i) <==> bits.has(i) && mask.has(
            i,
        ) && i != 12),
{
    let (b, m, p) = (bits.bits, mask.bits, SIG_PAUSE);
    lemma_places();
    crate::bits::lemma_mask_single(b, 0);
    crate::bits::lemma_mask_single(b, 8);
    lemma_bit_zero(i);
    lemma_bit_and(b, m, i);
    lemma_bit_not(p, i);
    lemma_bit_and(b & m, !p, i);
    assert(0x1000u64 == 1u64 << 12u64) by (bit_vector);
    lemma_bit_single(12, i);
}

} // verus!
