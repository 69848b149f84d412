//! Which parks owe their payload a release at the resume.

use elle_core::heap::{FiberHeap, RuntimeRegion};
use elle_core::object::{HeapObject, Pair};
use elle_core::refcount::{
    record_terminal_signal_park, release_displaced_terminal_signal, release_parked_signal,
};
use elle_core::signalbits::SignalBits;
use elle_core::signals::{SIG_ERROR, SIG_IO, SIG_YIELD};
use elle_core::value::Value;

fn cons() -> HeapObject {
    HeapObject::Pair(Pair::new(Value::nil(), Value::nil()))
}

fn payload(heap: &mut FiberHeap) -> (Value, RuntimeRegion) {
    heap.alloc_in_fresh_region(cons())
}

fn foreign(heap: &mut FiberHeap) -> Value {
    heap.alloc_in_fresh_region(cons()).0
}

#[test]
fn a_recorded_denial_park_is_released_at_the_resume() {
    let mut heap = FiberHeap::new();
    let (p, rid) = payload(&mut heap);
    let resume_value = foreign(&mut heap);
    let before = heap.region_rc(rid);
    release_parked_signal(&mut heap, Some((SignalBits::new(SIG_YIELD), p)), Some(p), resume_value);
    assert_eq!(heap.region_rc(rid), before - 1);
}

#[test]
fn a_record_that_no_longer_names_the_parked_signal_releases_nothing() {
    let mut heap = FiberHeap::new();
    let (parked, rid) = payload(&mut heap);
    let (stale, _) = payload(&mut heap);
    let resume_value = foreign(&mut heap);
    let before = heap.region_rc(rid);
    release_parked_signal(&mut heap, Some((SignalBits::new(SIG_YIELD), parked)), Some(stale), resume_value);
    assert_eq!(heap.region_rc(rid), before);
}

#[test]
fn an_unrecorded_yield_park_releases_nothing() {
    let mut heap = FiberHeap::new();
    let (p, rid) = payload(&mut heap);
    let resume_value = foreign(&mut heap);
    let before = heap.region_rc(rid);
    release_parked_signal(&mut heap, Some((SignalBits::new(SIG_YIELD), p)), None, resume_value);
    assert_eq!(heap.region_rc(rid), before);
}

#[test]
fn an_io_park_whose_resume_value_shares_its_region_releases_nothing() {
    let mut heap = FiberHeap::new();
    let (request, rid) = payload(&mut heap);
    let completion = heap.alloc_in_region(cons(), rid);
    let before = heap.region_rc(rid);
    release_parked_signal(&mut heap, Some((SignalBits::new(SIG_IO), request)), None, completion);
    assert_eq!(heap.region_rc(rid), before);
}

#[test]
fn an_io_park_whose_resume_value_is_foreign_is_released() {
    let mut heap = FiberHeap::new();
    let (request, rid) = payload(&mut heap);
    let completion = foreign(&mut heap);
    let before = heap.region_rc(rid);
    release_parked_signal(&mut heap, Some((SignalBits::new(SIG_IO), request)), None, completion);
    assert_eq!(heap.region_rc(rid), before - 1);
}

#[test]
fn displacing_a_terminal_result_undoes_its_park() {
    let mut heap = FiberHeap::new();
    let (p, rid) = payload(&mut heap);
    let (f, fid) = payload(&mut heap);
    heap.record_outgoing_edge(Some(fid), Some(rid));
    let before = heap.region_info_vec();
    let signal = Some((SignalBits::new(SIG_ERROR), p));
    record_terminal_signal_park(&mut heap, f, &signal);
    assert_eq!(heap.region_rc(rid), 2);
    release_displaced_terminal_signal(&mut heap, f, signal);
    assert_eq!(heap.region_info_vec(), before);
    let paused = Some((SignalBits::new(SIG_YIELD), p));
    record_terminal_signal_park(&mut heap, f, &paused);
    release_displaced_terminal_signal(&mut heap, f, paused);
    assert_eq!(heap.region_info_vec(), before);
    // The edge that was there before still carries the release of the fiber's region.
    heap.incref_region(rid);
    heap.decref_region(fid);
    assert_eq!(heap.region_rc(rid), 1);
}
