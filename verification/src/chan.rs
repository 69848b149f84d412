//! Waking fibers that wait on channels.
//!
//! Every channel has a wake list: the descriptors to write to when something
//! happens on it. A fiber that selects registers one descriptor with each of its
//! channels, and its guard takes it out again. The lists stand in a table, by the
//! numbers of their channels; reading and writing descriptors is outside.

use vstd::prelude::*;

use crate::ctx::{birth, born, Alloc};
use crate::heap::{lemma_allocated, FiberHeap, HeapState};
use crate::object::{ChanEnd, ExternalData, HeapObject};
use crate::value::{Value, TAG_EXTERNAL};

verus! {

/// Whether the channel trace is on: its bit is among the instance's trace bits.
pub fn chan_trace_enabled(trace: u64, chan_bit: u64) -> (r: bool)
    ensures
        r == (trace & chan_bit != 0),
{
    trace & chan_bit != 0
}

/// The trace line of an event, where the trace is on.
pub fn chan_trace(enabled: bool, event: &String) -> (r: Option<String>)
    ensures
        match r {
            Some(line) => enabled && line@ == "[trace:chan] "@ + event@ + "\n"@,
            None => !enabled,
        },
{
    if !enabled {
        return None;
    }
    let mut line = "[trace:chan] ".to_string();
    line.append(event.as_str());
    line.append("\n");
    Some(line)
}

/// The descriptors other than `fd`, in order.
pub open spec fn without(fds: Seq<i32>, fd: i32) -> Seq<i32>
    decreases fds.len(),
{
    if fds.len() == 0 {
        fds
    } else if fds.last() == fd {
        without(fds.drop_last(), fd)
    } else {
        without(fds.drop_last(), fd).push(fds.last())
    }
}

/// The descriptors to write to when something happens on a channel.
pub struct WakeList {
    wake_fds: Vec<i32>,
    /// Whether there is one, to be asked without looking at the list.
    nonempty: bool,
}

impl View for WakeList {
    type V = Seq<i32>;

    closed spec fn view(&self) -> Seq<i32> {
        self.wake_fds@
    }
}

impl WakeList {
    #[verifier::type_invariant]
    spec fn marked(self) -> bool {
        self.nonempty == (self.wake_fds@.len() > 0)
    }

    /// Nobody waits.
    pub fn new() -> (r: WakeList)
        ensures
            r@ == Seq::<i32>::empty(),
    {
        WakeList { wake_fds: Vec::new(), nonempty: false }
    }

    /// How many descriptors are registered.
    pub fn len(&self) -> (r: usize)
        ensures
            r == self@.len(),
    {
        self.wake_fds.len()
    }

    /// Register a descriptor, the one that is written to.
    pub fn register(&mut self, wake_fd: i32)
        requires
            wake_fd >= 0,
        ensures
            final(self)@ == old(self)@.push(wake_fd),
    {
        let mut fds = self.wake_fds.clone();
        fds.push(wake_fd);
        *self = WakeList { wake_fds: fds, nonempty: true };
    }

    /// Take every registration of a descriptor out.
    pub fn deregister(&mut self, wake_fd: i32)
        requires
            wake_fd >= 0,
        ensures
            final(self)@ == without(old(self)@, wake_fd),
    {
        let mut kept: Vec<i32> = Vec::new();
        let mut i: usize = 0;
        let ghost all = self@;
        assert(all.take(0) =~= Seq::empty());
        while i < self.wake_fds.len()
            invariant
                i <= all.len(),
                self@ == all,
                self.wake_fds@ == all,
                kept@ == without(all.take(i as int), wake_fd),
            decreases self.wake_fds.len() - i,
        {
            assert(all.take(i + 1).drop_last() =~= all.take(i as int));
            let fd = self.wake_fds[i];
            if fd != wake_fd {
                kept.push(fd);
            }
            i = i + 1;
        }
        assert(all.take(i as int) =~= all);
        let nonempty = kept.len() > 0;
        *self = WakeList { wake_fds: kept, nonempty };
    }

    /// The descriptors to write to so that everybody who waits looks again.
    pub fn wake_all(&self) -> (r: Vec<i32>)
        ensures
            r@ == self@,
    {
        proof {
            use_type_invariant(self);
        }
        if !self.nonempty {
            assert(self@ =~= Seq::<i32>::empty());
            return Vec::new();
        }
        self.wake_fds.clone()
    }
}

/// After a deregistration a descriptor is not woken, and every other one is as
/// often as before.
pub proof fn lemma_deregistered(fds: Seq<i32>, fd: i32, other: i32)
    ensures
        !without(fds, fd).contains(fd),
        other != fd ==> without(fds, fd).contains(other) == fds.contains(other),
        without(fds, fd).len() <= fds.len(),
    decreases fds.len(),
{
    if fds.len() > 0 {
        let rest = fds.drop_last();
        lemma_deregistered(rest, fd, other);
        let w = without(rest, fd);
        let x = fds.last();
        assert(fds =~= rest.push(x));
        assert(rest.push(x)[rest.len() as int] == x);
        assert(fds.contains(other) == (rest.contains(other) || x == other)) by {
            if rest.contains(other) {
                let k = rest.index_of(other);
                assert(fds[k] == other);
            }
            if x == other {
                assert(fds[fds.len() - 1] == other);
            }
        }
        if x != fd {
            let p = w.push(x);
            assert(p.contains(other) == (w.contains(other) || x == other)) by {
                if w.contains(other) {
                    let k = w.index_of(other);
                    assert(p[k] == other);
                }
                if x == other {
                    assert(p[w.len() as int] == other);
                }
            }
            assert(!p.contains(fd)) by {
                if p.contains(fd) {
                    let k = p.index_of(fd);
                    assert(p[k] == fd);
                    if k < w.len() {
                        assert(w.contains(w[k]));
                    }
                }
            }
        }
    }
}

/// One fiber's wait on some channels: the descriptor it polls, the descriptor
/// that wakes it, and the channels it is registered with.
pub struct ChanSelectGuard {
    pub poll_fd: i32,
    pub wake_fd: i32,
    pub channels: Vec<usize>,
}

/// What the end of a wait leaves to be done, in this order: write to the wake
/// descriptor, so that a poll in flight returns, then close the descriptors.
pub struct GuardRelease {
    pub signal: i32,
    pub close: Vec<i32>,
}

/// The wake lists after a guard was released: its descriptor is in none of the
/// lists that it was registered with, the others are as they were.
pub open spec fn guard_released(before: Seq<WakeList>, after: Seq<WakeList>, g: ChanSelectGuard) -> bool {
    &&& after.len() == before.len()
    &&& forall|i: int|
        0 <= i < before.len() ==> (#[trigger] after[i])@ == if g.channels@.contains(i as usize) {
            without(before[i]@, g.wake_fd)
        } else {
            before[i]@
        }
}

/// Taking a descriptor out twice is taking it out once.
proof fn lemma_without_twice(fds: Seq<i32>, fd: i32)
    ensures
        without(without(fds, fd), fd) == without(fds, fd),
    decreases fds.len(),
{
    if fds.len() > 0 {
        lemma_without_twice(fds.drop_last(), fd);
        if fds.last() != fd {
            let w = without(fds.drop_last(), fd).push(fds.last());
            assert(w.drop_last() =~= without(fds.drop_last(), fd));
        }
    }
}

/// What letting go of a guard does.
pub open spec fn guard_let_go(
    guard: ChanSelectGuard,
    lists: Vec<WakeList>,
    lists_after: Vec<WakeList>,
    r: GuardRelease,
) -> bool {
    &&& guard_released(lists@, lists_after@, guard)
    &&& r.signal == guard.wake_fd
    &&& r.close@ == if guard.wake_fd == guard.poll_fd {
            seq![guard.poll_fd]
        } else {
            seq![guard.poll_fd, guard.wake_fd]
        }
}

impl ChanSelectGuard {
    /// The descriptor to poll.
    pub fn poll_fd(&self) -> (r: i32)
        ensures
            r == self.poll_fd,
    {
        self.poll_fd
    }

    /// End the wait: take the descriptor out of every list first, so that no new
    /// sender writes to it, then say what is to be signalled and closed. Where
    /// the two descriptors are one it is closed once.
    pub fn release(&self, lists: &mut Vec<WakeList>) -> (r: GuardRelease)
        requires
            self.poll_fd >= 0,
            self.wake_fd >= 0,
            forall|i: int| 0 <= i < self.channels@.len() ==> self.channels@[i] < old(lists)@.len(),
        ensures
            guard_let_go(
                *self,
                *old(lists),
                *final(lists),
                r,
            ),
    {
        let ghost start = lists@;
        let _n: usize = lists.len();
        let mut k: usize = 0;
        while k < self.channels.len()
            invariant
                k <= self.channels@.len(),
                start.len() <= usize::MAX,
                self.wake_fd >= 0,
                lists@.len() == start.len(),
                forall|i: int| 0 <= i < self.channels@.len() ==> self.channels@[i] < start.len(),
                forall|i: int|
                    0 <= i < start.len() ==> (#[trigger] lists@[i])@ == if self.channels@.take(
                        k as int,
                    ).contains(i as usize) {
                        without(start[i]@, self.wake_fd)
                    } else {
                        start[i]@
                    },
            decreases self.channels.len() - k,
        {
            let ghost done = self.channels@.take(k as int);
            let ghost next = self.channels@.take(k + 1);
            let ghost before = lists@;
            let at = self.channels[k];
            let mut list = WakeList::new();
            lists.set_and_swap(at, &mut list);
            list.deregister(self.wake_fd);
            lists.set(at, list);
            proof {
                assert(next =~= done.push(at));
                lemma_without_twice(start[at as int]@, self.wake_fd);
                assert forall|i: int| 0 <= i < start.len() implies (#[trigger] lists@[i])@ == if next.contains(
                    i as usize,
                ) {
                    without(start[i]@, self.wake_fd)
                } else {
                    start[i]@
                } by {
                    assert(next[k as int] == at);
                    assert(next.contains(at));
                    if i != at {
                        assert(lists@[i] == before[i]);
                        assert(next.contains(i as usize) == done.contains(i as usize)) by {
                            if done.contains(i as usize) {
                                let j = done.index_of(i as usize);
                                assert(next[j] == i as usize);
                            }
                            if next.contains(i as usize) {
                                let j = next.index_of(i as usize);
                                assert(next[j] == i as usize);
                                assert(j < k);
                                assert(done[j] == i as usize);
                            }
                        }
                    } else {
                        assert(before[i]@ == start[i]@ || before[i]@ == without(start[i]@, self.wake_fd));
                    }
                }
            }
            k = k + 1;
        }
        assert(self.channels@.take(k as int) =~= self.channels@);
        let mut close: Vec<i32> = Vec::new();
        close.push(self.poll_fd);
        if self.wake_fd != self.poll_fd {
            close.push(self.wake_fd);
        }
        assert(close@ =~= if self.wake_fd == self.poll_fd {
            seq![self.poll_fd]
        } else {
            seq![self.poll_fd, self.wake_fd]
        });
        GuardRelease { signal: self.wake_fd, close }
    }
}

/// A guard that is taken at most once.
pub struct ChanSelectGuardCell {
    pub guard: Option<ChanSelectGuard>,
}

impl ChanSelectGuardCell {
    /// A cell with a guard.
    pub fn new(guard: ChanSelectGuard) -> (r: ChanSelectGuardCell)
        ensures
            r.guard == Some(guard),
    {
        ChanSelectGuardCell { guard: Some(guard) }
    }

    /// Move the guard out; the next call finds none.
    pub fn take(&mut self) -> (r: Option<ChanSelectGuard>)
        ensures
            r == old(self).guard,
            final(self).guard is None,
    {
        self.guard.take()
    }
}

/// The next thing to do to make a pipe a pair of wake descriptors.
#[derive(Clone, Copy, PartialEq, Eq, Structural, Debug)]
pub enum PipeStep {
    /// Read the status flags.
    GetStatus { fd: i32 },
    /// Write the status flags.
    SetStatus { fd: i32, flags: i32 },
    /// Read the descriptor flags.
    GetDescriptor { fd: i32 },
    /// Write the descriptor flags.
    SetDescriptor { fd: i32, flags: i32 },
    /// Give up: close both ends and report the last error.
    Fail { read_fd: i32, write_fd: i32 },
    /// Done: poll the read end, write to the write end.
    Ready { poll_fd: i32, wake_fd: i32 },
}

/// A pipe whose ends become non-blocking and close on exec, one call at a time.
pub struct WakePipe {
    pub read_fd: i32,
    pub write_fd: i32,
    /// The call that was asked for last.
    pub asked: PipeStep,
    pub nonblock: i32,
    pub cloexec: i32,
}

/// What follows `asked` once its call returned `reply`: the status flags of an end
/// are read and written with the non-blocking bit, then its descriptor flags with
/// the close-on-exec bit, the read end first. A negative reply ends it.
pub open spec fn pipe_next(p: WakePipe, reply: i32) -> PipeStep {
    if reply < 0 {
        PipeStep::Fail { read_fd: p.read_fd, write_fd: p.write_fd }
    } else {
        match p.asked {
            PipeStep::GetStatus { fd } => PipeStep::SetStatus { fd, flags: reply | p.nonblock },
            PipeStep::SetStatus { fd, .. } => PipeStep::GetDescriptor { fd },
            PipeStep::GetDescriptor { fd } => PipeStep::SetDescriptor { fd, flags: reply | p.cloexec },
            PipeStep::SetDescriptor { fd, .. } => if fd == p.read_fd && p.read_fd != p.write_fd {
                PipeStep::GetStatus { fd: p.write_fd }
            } else {
                PipeStep::Ready { poll_fd: p.read_fd, wake_fd: p.write_fd }
            },
            other => other,
        }
    }
}

/// Begin with the two ends that the system made. `nonblock` and `cloexec` are the
/// system's bits.
pub fn make_wake_fd(read_fd: i32, write_fd: i32, nonblock: i32, cloexec: i32) -> (r: WakePipe)
    requires
        read_fd >= 0,
        write_fd >= 0,
    ensures
        r.read_fd == read_fd,
        r.write_fd == write_fd,
        r.nonblock == nonblock,
        r.cloexec == cloexec,
        r.asked == (PipeStep::GetStatus { fd: read_fd }),
{
    WakePipe { read_fd, write_fd, asked: PipeStep::GetStatus { fd: read_fd }, nonblock, cloexec }
}

/// What a reply does to a wake pipe.
pub open spec fn pipe_replied(
    pipe: WakePipe,
    pipe_after: WakePipe,
    reply: i32,
    r: PipeStep,
) -> bool {
    &&& r == pipe_next(pipe, reply)
    &&& pipe_after == (WakePipe { asked: r, ..pipe })
}

impl WakePipe {
    /// Go on with what the last call returned.
    pub fn replied(&mut self, reply: i32) -> (r: PipeStep)
        ensures
            pipe_replied(
                *old(self),
                *final(self),
                reply,
                r,
            ),
    {
        let next = if reply < 0 {
            PipeStep::Fail { read_fd: self.read_fd, write_fd: self.write_fd }
        } else {
            match self.asked {
                PipeStep::GetStatus { fd } => PipeStep::SetStatus { fd, flags: reply | self.nonblock },
                PipeStep::SetStatus { fd, .. } => PipeStep::GetDescriptor { fd },
                PipeStep::GetDescriptor { fd } => PipeStep::SetDescriptor { fd, flags: reply | self.cloexec },
                PipeStep::SetDescriptor { fd, .. } => if fd == self.read_fd && self.read_fd != self.write_fd {
                    PipeStep::GetStatus { fd: self.write_fd }
                } else {
                    PipeStep::Ready { poll_fd: self.read_fd, wake_fd: self.write_fd }
                },
                other => other,
            }
        };
        self.asked = next;
        next
    }
}

/// The pipe after some replies.
pub open spec fn pipe_after(p: WakePipe, replies: Seq<i32>) -> WakePipe
    decreases replies.len(),
{
    if replies.len() == 0 {
        p
    } else {
        let q = pipe_after(p, replies.drop_last());
        WakePipe { asked: pipe_next(q, replies.last()), ..q }
    }
}

/// A pipe of two ends is ready after its eight calls where none of them failed,
/// and polls the read end.
pub proof fn lemma_pipe_ready(p: WakePipe, replies: Seq<i32>)
    requires
        p.asked == (PipeStep::GetStatus { fd: p.read_fd }),
        p.read_fd != p.write_fd,
        replies.len() == 8,
        forall|i: int| 0 <= i < 8 ==> replies[i] >= 0,
    ensures
        pipe_after(p, replies).asked == (PipeStep::Ready { poll_fd: p.read_fd, wake_fd: p.write_fd }),
{
    let r7 = replies.drop_last();
    let r6 = r7.drop_last();
    let r5 = r6.drop_last();
    let r4 = r5.drop_last();
    let r3 = r4.drop_last();
    let r2 = r3.drop_last();
    let r1 = r2.drop_last();
    assert(r1.drop_last().len() == 0);
    assert(pipe_after(p, r1.drop_last()) == p);
    assert(pipe_after(p, r1).asked is SetStatus);
    assert(pipe_after(p, r2).asked is GetDescriptor);
    assert(pipe_after(p, r3).asked is SetDescriptor);
    assert(pipe_after(p, r4).asked == (PipeStep::GetStatus { fd: p.write_fd }));
    assert(pipe_after(p, r5).asked is SetStatus);
    assert(pipe_after(p, r6).asked is GetDescriptor);
    assert(pipe_after(p, r7).asked is SetDescriptor);
}

/// The open end of a channel that a value stands for, by its kind's name.
pub open spec fn end_at(s: HeapState, v: Value, kind: Seq<char>) -> Option<ChanEnd> {
    if v.tag == TAG_EXTERNAL && s.target(v) is Some {
        match s.object(v) {
            HeapObject::External { obj, .. } => match obj.data {
                ExternalData::Channel(end) => if obj.kind_name@ == kind && end.open {
                    Some(end)
                } else {
                    None
                },
                _ => None,
            },
            _ => None,
        }
    } else {
        None
    }
}

fn open_end(heap: &FiberHeap, v: Value, kind: &str) -> (r: Option<ChanEnd>)
    ensures
        r == end_at(heap@, v, kind@),
{
    if v.tag != TAG_EXTERNAL {
        return None;
    }
    match heap.deref(v) {
        Some(HeapObject::External { obj, .. }) => match obj.data {
            ExternalData::Channel(end) => {
                if obj.kind_name == kind.to_string() && end.open {
                    Some(end)
                } else {
                    None
                }
            },
            _ => None,
        },
        _ => None,
    }
}

/// Another handle on the sending end that a value stands for; none where it is no
/// sender or is closed.
pub fn clone_sender(heap: &FiberHeap, v: Value) -> (r: Option<ChanEnd>)
    ensures
        r == end_at(heap@, v, "chan/sender"@),
{
    open_end(heap, v, "chan/sender")
}

/// Another handle on the receiving end that a value stands for; none where it is
/// no receiver or is closed.
pub fn clone_receiver(heap: &FiberHeap, v: Value) -> (r: Option<ChanEnd>)
    ensures
        r == end_at(heap@, v, "chan/receiver"@),
{
    open_end(heap, v, "chan/receiver")
}

/// A sender of an open channel.
pub fn sender_value(ctx: &Alloc, heap: &mut FiberHeap, channel: u64) -> (r: Value)
    requires
        ctx.ready(old(heap)@, 2),
    ensures
        born(old(heap)@, final(heap)@, ctx.home(), r),
        end_at(final(heap)@, r, "chan/sender"@) == Some(ChanEnd { channel, open: true }),
        birth(final(heap)@)->External_traits == Value::nil(),
{
    let ghost before = heap@;
    let end = ChanEnd { channel, open: true };
    let r = ctx.external(heap, "chan/sender".to_string(), ExternalData::Channel(end));
    proof {
        lemma_allocated(before, birth(heap@), ctx.home().0);
    }
    r
}

/// A receiver of an open channel.
pub fn receiver_value(ctx: &Alloc, heap: &mut FiberHeap, channel: u64) -> (r: Value)
    requires
        ctx.ready(old(heap)@, 2),
    ensures
        born(old(heap)@, final(heap)@, ctx.home(), r),
        end_at(final(heap)@, r, "chan/receiver"@) == Some(ChanEnd { channel, open: true }),
        birth(final(heap)@)->External_traits == Value::nil(),
{
    let ghost before = heap@;
    let end = ChanEnd { channel, open: true };
    let r = ctx.external(heap, "chan/receiver".to_string(), ExternalData::Channel(end));
    proof {
        lemma_allocated(before, birth(heap@), ctx.home().0);
    }
    r
}

} // verus!
