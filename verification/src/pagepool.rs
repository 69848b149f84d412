//! Per-thread page cache for region allocation.
//!
//! The pool keeps released pages by size class. A claim is answered with a
//! cached page or with the size to map; a release is answered with what to do
//! with the page. A page moves between a region and the cache untouched: the
//! claimant stamps the header and writes every slot it hands out.

use vstd::arithmetic::power2::{lemma2_to64, lemma_pow2_pos, lemma_pow2_unfold, pow2};
use vstd::prelude::*;

use crate::text::{decimal, push_decimal};

verus! {

/// The smallest page, and the unit of every page size.
pub const BASE_PAGE: usize = 4096;

/// Size classes the pool keeps: 4 KiB to 4 MiB.
pub const NUM_CLASSES: usize = 11;

/// Default limit on cached bytes.
pub const DEFAULT_MAX_CACHED: usize = 4194304;

/// The page size of class `c`: the base page doubled `c` times.
pub open spec fn class_size(c: nat) -> nat {
    4096 * pow2(c)
}

/// The class whose pages answer a request for `size` bytes: the least that is
/// large enough.
pub open spec fn is_class_of(c: nat, size: nat) -> bool {
    size <= class_size(c) && forall|d: nat| d < c ==> #[trigger] class_size(d) < size
}

proof fn lemma_class_size_grows(c: nat, d: nat)
    requires
        c < d,
    ensures
        0 < class_size(c),
        2 * class_size(c) <= class_size(d),
        class_size(c + 1) == 2 * class_size(c),
    decreases d - c,
{
    lemma_pow2_pos(c);
    lemma_pow2_unfold(c + 1);
    if c + 1 < d {
        lemma_class_size_grows(c + 1, d);
    }
}

proof fn lemma_class_unique(c: nat, d: nat)
    requires
        class_size(c) == class_size(d),
    ensures
        c == d,
{
    if c < d {
        lemma_class_size_grows(c, d);
    }
    if d < c {
        lemma_class_size_grows(d, c);
    }
}

/// A half-open byte span.
#[derive(Clone, Copy, PartialEq, Eq, Structural, Debug)]
pub struct ByteSpan {
    pub start: usize,
    pub end: usize,
}

impl ByteSpan {
    /// The span cut off at `len`.
    pub open spec fn clamped(self, len: usize) -> ByteSpan {
        ByteSpan {
            start: if self.start <= len {
                self.start
            } else {
                len
            },
            end: if self.end <= len {
                self.end
            } else {
                len
            },
        }
    }

    /// Position `i` lies in the span.
    pub open spec fn covers(self, i: int) -> bool {
        self.start <= i < self.end
    }

    /// Bytes in the span, none where it runs backwards.
    pub open spec fn count(self) -> nat {
        if self.start <= self.end {
            (self.end - self.start) as nat
        } else {
            0
        }
    }

    fn clamp(self, len: usize) -> (r: ByteSpan)
        ensures
            r == self.clamped(len),
    {
        ByteSpan {
            start: if self.start <= len {
                self.start
            } else {
                len
            },
            end: if self.end <= len {
                self.end
            } else {
                len
            },
        }
    }
}

/// What a dying region wrote into one of its pages: the object slots it filled,
/// bumping up, and the inline-data suffix it filled, bumping down. The page
/// header is in neither span.
#[derive(Clone, Copy, PartialEq, Eq, Structural, Debug)]
pub struct PageDirty {
    pub objects: ByteSpan,
    pub data: ByteSpan,
}

impl PageDirty {
    /// The spans of a page whose object slots filled `objects` and whose inline
    /// data filled `data`; the first ends at or before the second begins.
    pub fn new(objects: ByteSpan, data: ByteSpan) -> (r: PageDirty)
        requires
            objects.end <= data.start,
        ensures
            r == (PageDirty { objects, data }),
    {
        PageDirty { objects, data }
    }

    /// Every byte of a `len`-byte page, header included.
    pub fn whole(len: usize) -> (r: PageDirty)
        ensures
            r.objects == (ByteSpan { start: 0, end: len }),
            r.data == (ByteSpan { start: len, end: len }),
    {
        PageDirty::new(ByteSpan { start: 0, end: len }, ByteSpan { start: len, end: len })
    }

    /// The bytes that blanking a `len`-byte page writes.
    pub open spec fn footprint(self, len: usize) -> nat {
        self.objects.clamped(len).count() + self.data.clamped(len).count()
    }

    /// The two spans clamped to a `len`-byte page.
    pub fn spans(&self, len: usize) -> (r: (ByteSpan, ByteSpan))
        ensures
            r.0 == self.objects.clamped(len),
            r.1 == self.data.clamped(len),
    {
        (self.objects.clamp(len), self.data.clamp(len))
    }
}

/// Blank one span of a page that holds it; returns the bytes written.
fn blank(page: &mut [u8], span: ByteSpan) -> (r: usize)
    requires
        span.end <= old(page)@.len(),
    ensures
        r == span.count(),
        final(page)@.len() == old(page)@.len(),
        forall|i: int|
            0 <= i < old(page)@.len() ==> #[trigger] final(page)@[i] == if span.covers(i) {
                0
            } else {
                old(page)@[i]
            },
{
    if span.end < span.start {
        return 0;
    }
    let ghost before = page@;
    let mut i: usize = span.start;
    while i < span.end
        invariant
            span.start <= i <= span.end,
            span.end <= page@.len(),
            page@.len() == before.len(),
            forall|k: int|
                0 <= k < before.len() ==> #[trigger] page@[k] == if span.start <= k < i {
                    0
                } else {
                    before[k]
                },
        decreases span.end - i,
    {
        page[i] = 0;
        i = i + 1;
    }
    span.end - span.start
}

/// Blank what a dying region wrote into a page, and nothing else, so that a read
/// through a pointer that outlived the region finds zeros. Returns the bytes
/// written.
pub fn reset(page: &mut [u8], dirty: &PageDirty) -> (r: usize)
    requires
        dirty.objects.end <= dirty.data.start,
    ensures
        r == dirty.footprint(old(page)@.len() as usize),
        final(page)@.len() == old(page)@.len(),
        forall|i: int|
            0 <= i < old(page)@.len() ==> #[trigger] final(page)@[i] == if dirty.objects.covers(i)
                || dirty.data.covers(i) {
                0
            } else {
                old(page)@[i]
            },
{
    let len: usize = page.len();
    let (objects, data) = dirty.spans(len);
    let a = blank(page, objects);
    let b = blank(page, data);
    a + b
}

/// A mapped page: its base address and its size.
#[derive(PartialEq, Eq, Structural, Debug)]
pub struct MmapPage {
    pub ptr: usize,
    pub len: usize,
}

impl MmapPage {
    /// The page has the size of class `c`.
    pub open spec fn of_class(self, c: nat) -> bool {
        self.len == class_size(c)
    }

    /// The page as the system mapped it.
    pub fn mapped(ptr: usize, len: usize) -> (r: MmapPage)
        ensures
            r == (MmapPage { ptr, len }),
    {
        MmapPage { ptr, len }
    }

    /// Base address, for writing.
    pub fn as_mut_ptr(&mut self) -> (r: usize)
        ensures
            r == old(self).ptr,
            *final(self) == *old(self),
    {
        self.ptr
    }

    /// Base address.
    pub fn as_ptr(&self) -> (r: usize)
        ensures
            r == self.ptr,
    {
        self.ptr
    }

    /// Size in bytes.
    pub fn len(&self) -> (r: usize)
        ensures
            r == self.len,
    {
        self.len
    }
}

/// The part of a mapping of twice `len` bytes at `addr` that becomes a page
/// aligned to its own size: where it starts, and how much goes before and after
/// it.
#[derive(Clone, Copy, PartialEq, Eq, Structural, Debug)]
pub struct AlignedCut {
    pub start: usize,
    pub prefix: usize,
    pub suffix: usize,
}

/// Cut a self-aligned page of `len` bytes out of a mapping of `2 * len` bytes.
pub fn align_within(addr: usize, len: usize) -> (r: AlignedCut)
    requires
        exists|c: nat| len == class_size(c),
        addr + 2 * len <= usize::MAX,
    ensures
        r.start % len == 0,
        r.start == addr + r.prefix,
        r.prefix < len,
        r.prefix + len + r.suffix == 2 * len,
{
    proof {
        let c = choose|c: nat| len == class_size(c);
        lemma_pow2_pos(c);
    }
    let rem: usize = addr % len;
    let prefix: usize = if rem == 0 {
        0
    } else {
        len - rem
    };
    let start: usize = addr + prefix;
    proof {
        let q = addr / len;
        assert(addr == q * len + rem) by (nonlinear_arith)
            requires
                len > 0,
                q == addr / len,
                rem == addr % len,
        ;
        if rem != 0 {
            assert(start == (q + 1) * len) by (nonlinear_arith)
                requires
                    addr == q * len + rem,
                    start == addr + (len - rem),
            ;
            assert(((q + 1) * len) % (len as int) == 0) by (nonlinear_arith)
                requires
                    len > 0,
            ;
        }
    }
    let suffix: usize = len - prefix;
    AlignedCut { start, prefix, suffix }
}

/// Bytes that region pages hold from the system: raised by each mapping,
/// lowered by each unmapping.
pub struct MapGauge {
    bytes: u64,
}

impl View for MapGauge {
    type V = u64;

    closed spec fn view(&self) -> u64 {
        self.bytes
    }
}

impl MapGauge {
    /// Nothing mapped.
    pub fn new() -> (r: MapGauge)
        ensures
            r@ == 0,
    {
        MapGauge { bytes: 0 }
    }

    /// A page of `len` bytes was mapped.
    pub fn mapped(&mut self, len: usize)
        requires
            old(self)@ + len <= u64::MAX,
        ensures
            final(self)@ == old(self)@ + len,
    {
        self.bytes = self.bytes + len as u64;
    }

    /// A page of `len` bytes was unmapped.
    pub fn unmapped(&mut self, len: usize)
        requires
            len <= old(self)@,
        ensures
            final(self)@ == old(self)@ - len,
    {
        self.bytes = self.bytes - len as u64;
    }
}

/// The gauge's reading.
pub fn mapped_bytes(gauge: &MapGauge) -> (r: u64)
    ensures
        r == gauge@,
{
    gauge.bytes
}

/// A request's page size and its class.
fn page_for(size: usize) -> (r: (usize, usize))
    requires
        size <= usize::MAX / 2,
    ensures
        r.0 == class_size(r.1 as nat),
        is_class_of(r.1 as nat, size as nat),
{
    let mut p: usize = BASE_PAGE;
    let mut c: usize = 0;
    proof {
        lemma2_to64();
        assert(usize::MAX >= 0xffff_ffff);
    }
    while p < size
        invariant
            size <= usize::MAX / 2,
            usize::MAX >= 0xffff_ffff,
            p == class_size(c as nat),
            c < p,
            forall|d: nat| d < c ==> #[trigger] class_size(d) < size,
        decreases usize::MAX - p,
    {
        proof {
            lemma_class_size_grows(c as nat, (c + 1) as nat);
        }
        p = p * 2;
        c = c + 1;
    }
    (p, c)
}

/// Claims and bytes by size class; the last bucket takes the larger pages.
pub struct PageHist {
    counts: Vec<u64>,
    bytes: Vec<u64>,
}

/// The bucket of a page of class `c`.
pub open spec fn bucket_of(c: nat) -> int {
    if c < NUM_CLASSES {
        c as int
    } else {
        NUM_CLASSES as int
    }
}

/// One line of the histogram.
pub open spec fn hist_line(class: int, n: u64, bytes: u64) -> Seq<char> {
    "[stats] page-claim size="@ + decimal(
        if class < NUM_CLASSES {
            class_size(class as nat)
        } else {
            0
        },
    ) + " claims="@ + decimal(n as nat) + " bytes="@ + decimal(bytes as nat)
}

/// The lines of the non-empty buckets below `upto`.
pub open spec fn hist_lines(counts: Seq<u64>, bytes: Seq<u64>, upto: nat) -> Seq<Seq<char>>
    decreases upto,
{
    if upto == 0 {
        Seq::empty()
    } else {
        let c = upto - 1;
        let rest = hist_lines(counts, bytes, c as nat);
        if counts[c] == 0 {
            rest
        } else {
            rest.push(hist_line(c, counts[c], bytes[c]))
        }
    }
}

impl PageHist {
    pub closed spec fn counts(self) -> Seq<u64> {
        self.counts@
    }

    pub closed spec fn bytes(self) -> Seq<u64> {
        self.bytes@
    }

    #[verifier::type_invariant]
    spec fn sized(self) -> bool {
        self.counts@.len() == NUM_CLASSES + 1 && self.bytes@.len() == NUM_CLASSES + 1
    }

    /// An empty histogram.
    pub fn new() -> (r: PageHist)
        ensures
            r.counts() == Seq::new(12, |i: int| 0u64),
            r.bytes() == Seq::new(12, |i: int| 0u64),
    {
        let counts: Vec<u64> = vec![0; 12];
        let bytes: Vec<u64> = vec![0; 12];
        assert(counts@ =~= Seq::new(12, |i: int| 0u64));
        assert(bytes@ =~= Seq::new(12, |i: int| 0u64));
        PageHist { counts, bytes }
    }

    /// Count one claim answered by a page of the class of `size`.
    pub fn record_claim(&mut self, size: usize)
        requires
            size <= usize::MAX / 2,
        ensures
            exists|c: nat| #[trigger]
                is_class_of(c, size as nat) && final(self).counts() == old(self).counts().update(
                    bucket_of(c),
                    vstd::wrapping::u64_specs::wrapping_add(old(self).counts()[bucket_of(c)], 1),
                ) && final(self).bytes() == old(self).bytes().update(
                    bucket_of(c),
                    vstd::wrapping::u64_specs::wrapping_add(
                        old(self).bytes()[bucket_of(c)],
                        class_size(c) as u64,
                    ),
                ),
    {
        proof {
            use_type_invariant(&*self);
        }
        let (page, class) = page_for(size);
        let bucket: usize = if class < NUM_CLASSES {
            class
        } else {
            NUM_CLASSES
        };
        let mut taken = PageHist::new();
        core::mem::swap(&mut taken, self);
        let PageHist { mut counts, mut bytes } = taken;
        let n: u64 = counts[bucket].wrapping_add(1);
        let b: u64 = bytes[bucket].wrapping_add(page as u64);
        counts.set(bucket, n);
        bytes.set(bucket, b);
        assert(is_class_of(class as nat, size as nat));
        *self = PageHist { counts, bytes };
    }

    /// One line per non-empty bucket, smallest pages first; the bucket of the
    /// larger pages has size zero.
    pub fn dump_page_hist(&self) -> (r: Vec<String>)
        ensures
            crate::text::texts(r@) == hist_lines(self.counts(), self.bytes(), 12),
    {
        proof {
            use_type_invariant(self);
            lemma2_to64();
        }
        let mut out: Vec<String> = Vec::new();
        let mut c: usize = 0;
        let mut size: u64 = 4096;
        assert(crate::text::texts(out@) =~= hist_lines(self.counts(), self.bytes(), 0));
        while c <= NUM_CLASSES
            invariant
                c <= 12,
                self.counts@.len() == 12,
                self.bytes@.len() == 12,
                size == class_size(c as nat),
                size <= 4096 * 4096,
                c <= 11 ==> size <= 4096 * 2048,
                crate::text::texts(out@) == hist_lines(self.counts(), self.bytes(), c as nat),
            decreases 12 - c,
        {
            proof {
                lemma2_to64();
                lemma_class_size_grows(c as nat, (c + 1) as nat);
            }
            let n: u64 = self.counts[c];
            if n != 0 {
                let mut line = "[stats] page-claim size=".to_string();
                push_decimal(&mut line, if c < NUM_CLASSES { size } else { 0 });
                line.append(" claims=");
                push_decimal(&mut line, n);
                line.append(" bytes=");
                push_decimal(&mut line, self.bytes[c]);
                let ghost before = out@;
                assert(line@ =~= hist_line(c as int, n, self.bytes@[c as int]));
                out.push(line);
                assert(crate::text::texts(out@) =~= crate::text::texts(before).push(line@));
            }
            size = size * 2;
            c = c + 1;
            proof {
                if c <= 11 {
                    assert(class_size(c as nat) <= 4096 * 2048) by {
                        if c < 11 {
                            lemma_class_size_grows(c as nat, 11);
                        }
                    }
                }
            }
        }
        out
    }
}

/// Live counters of one pool. Both only grow.
#[derive(Clone, Copy, PartialEq, Eq, Structural, Debug)]
pub struct PoolCounters {
    /// Pages handed out, fresh and recycled alike.
    pub claims: u64,
    /// Claims served from a free list.
    pub recycles: u64,
}

impl PoolCounters {
    /// Pages handed out, fresh and recycled alike.
    pub fn claims(&self) -> (r: u64)
        ensures
            r == self.claims,
    {
        self.claims
    }

    /// Claims served from a free list.
    pub fn recycles(&self) -> (r: u64)
        ensures
            r == self.recycles,
    {
        self.recycles
    }
}

/// How a claim is answered.
pub enum Claimed {
    /// A cached page, as its last region left it.
    Recycled(MmapPage),
    /// Nothing cached: map a page of this size.
    MapFresh(usize),
}

/// What becomes of a released page.
pub enum Released {
    /// Make it inaccessible and never reuse its address.
    Leaked(MmapPage),
    /// It is in the cache; blank these spans at this address first.
    Cached { addr: usize, blank: Option<(ByteSpan, ByteSpan)> },
    /// Unmap it.
    Unmapped(MmapPage),
}

/// Bytes in the lists below class `upto`, each page at its class's size.
pub open spec fn bytes_below(lists: Seq<Seq<MmapPage>>, upto: nat) -> nat
    decreases upto,
{
    if upto == 0 {
        0
    } else {
        let c = (upto - 1) as nat;
        bytes_below(lists, c) + lists[c as int].len() * class_size(c)
    }
}

proof fn lemma_bytes_update(lists: Seq<Seq<MmapPage>>, upto: nat, c: nat, list: Seq<MmapPage>)
    requires
        upto <= lists.len(),
        c < lists.len(),
    ensures
        c >= upto ==> bytes_below(lists.update(c as int, list), upto) == bytes_below(lists, upto),
        c < upto ==> bytes_below(lists.update(c as int, list), upto) == bytes_below(lists, upto)
            - lists[c as int].len() * class_size(c) + list.len() * class_size(c),
    decreases upto,
{
    if upto > 0 {
        lemma_bytes_update(lists, (upto - 1) as nat, c, list);
    }
}

/// Per-thread page cache by size class, bounded in bytes.
pub struct PagePool {
    free_lists: Vec<Vec<MmapPage>>,
    cached_bytes: usize,
    max_cached: usize,
    initial_page_size: usize,
    counters: PoolCounters,
}

/// What a pool holds.
pub struct PoolState {
    /// Cached pages by class; the last of a list is handed out first.
    pub lists: Seq<Seq<MmapPage>>,
    pub max_cached: nat,
    pub initial_page_size: nat,
    pub claims: nat,
    pub recycles: nat,
}

impl PoolState {
    /// Total cached bytes.
    pub open spec fn cached(self) -> nat {
        bytes_below(self.lists, 11)
    }

    /// Every cached page is in the list of its class, and the cache is within
    /// its limit.
    pub open spec fn valid(self) -> bool {
        &&& self.lists.len() == 11
        &&& forall|c: int, i: int|
            0 <= c < 11 && 0 <= i < self.lists[c].len() ==> #[trigger] self.lists[c][i].of_class(
                c as nat,
            )
        &&& self.cached() <= self.max_cached
    }

    /// The page that a claim of class `c` hands out, if one is cached.
    pub open spec fn next_page(self, c: nat) -> Option<MmapPage> {
        if c < 11 && self.lists[c as int].len() > 0 {
            Some(self.lists[c as int].last())
        } else {
            None
        }
    }

    /// The pool after a claim of class `c`.
    pub open spec fn claimed(self, c: nat) -> PoolState {
        if self.next_page(c) is Some {
            PoolState {
                lists: self.lists.update(c as int, self.lists[c as int].drop_last()),
                claims: self.claims + 1,
                recycles: self.recycles + 1,
                ..self
            }
        } else {
            PoolState { claims: self.claims + 1, ..self }
        }
    }

    /// The cache has room for a page of class `c`.
    pub open spec fn has_room(self, c: nat) -> bool {
        c < 11 && self.cached() + class_size(c) <= self.max_cached
    }

    /// The pool after `page` of class `c` went into the cache.
    pub open spec fn with_cached(self, c: nat, page: MmapPage) -> PoolState {
        PoolState { lists: self.lists.update(c as int, self.lists[c as int].push(page)), ..self }
    }
}

/// The contents of nested lists.
pub open spec fn list_views(lists: Seq<Vec<MmapPage>>) -> Seq<Seq<MmapPage>> {
    Seq::new(lists.len(), |i: int| lists[i]@)
}

impl View for PagePool {
    type V = PoolState;

    closed spec fn view(&self) -> PoolState {
        PoolState {
            lists: list_views(self.free_lists@),
            max_cached: self.max_cached as nat,
            initial_page_size: self.initial_page_size as nat,
            claims: self.counters.claims as nat,
            recycles: self.counters.recycles as nat,
        }
    }
}

impl PagePool {
    /// Internal consistency: the contents are valid and the byte count is kept.
    pub closed spec fn wf(&self) -> bool {
        self@.valid() && self.cached_bytes == self@.cached()
    }

    /// A well-formed pool's contents are valid.
    pub proof fn lemma_valid(&self)
        requires
            self.wf(),
        ensures
            self@.valid(),
    {
    }

    /// An empty pool.
    pub fn new(initial_page_size: usize, max_cached: usize) -> (r: PagePool)
        ensures
            r.wf(),
            r@.lists == Seq::new(11, |i: int| Seq::<MmapPage>::empty()),
            r@.max_cached == max_cached,
            r@.initial_page_size == initial_page_size,
            r@.claims == 0,
            r@.recycles == 0,
    {
        let mut free_lists: Vec<Vec<MmapPage>> = Vec::new();
        let mut i: usize = 0;
        while i < NUM_CLASSES
            invariant
                i <= 11,
                free_lists@.len() == i,
                forall|k: int| 0 <= k < i ==> free_lists@[k]@ == Seq::<MmapPage>::empty(),
            decreases 11 - i,
        {
            free_lists.push(Vec::new());
            i = i + 1;
        }
        let r = PagePool {
            free_lists,
            cached_bytes: 0,
            max_cached,
            initial_page_size,
            counters: PoolCounters { claims: 0, recycles: 0 },
        };
        proof {
            assert(r@.lists =~= Seq::new(11, |i: int| Seq::<MmapPage>::empty()));
            lemma_empty_bytes(r@.lists, 11);
        }
        r
    }

    /// A pool with the default sizes.
    pub fn default_pool() -> (r: PagePool)
        ensures
            r.wf(),
            r@.lists == Seq::new(11, |i: int| Seq::<MmapPage>::empty()),
            r@.max_cached == DEFAULT_MAX_CACHED,
            r@.initial_page_size == BASE_PAGE,
            r@.claims == 0,
            r@.recycles == 0,
    {
        PagePool::new(BASE_PAGE, DEFAULT_MAX_CACHED)
    }

    /// This pool's live traffic counters.
    pub fn counters(&self) -> (r: &PoolCounters)
        ensures
            r.claims == self@.claims,
            r.recycles == self@.recycles,
    {
        &self.counters
    }

    /// Initial page size for new regions.
    pub fn initial_page_size(&self) -> (r: usize)
        ensures
            r == self@.initial_page_size,
    {
        self.initial_page_size
    }

    /// Claim a page for `size` bytes: the least class that holds them. The last
    /// page released to that class is handed out untouched; with none cached,
    /// the answer is the size to map.
    pub fn claim(&mut self, size: usize) -> (r: Claimed)
        requires
            old(self).wf(),
            old(self)@.claims < u64::MAX,
            old(self)@.recycles < u64::MAX,
            size <= usize::MAX / 2,
        ensures
            final(self).wf(),
            exists|c: nat| #[trigger]
                is_class_of(c, size as nat) && final(self)@ == old(self)@.claimed(c) && match r {
                    Claimed::Recycled(page) => old(self)@.next_page(c) == Some(page),
                    Claimed::MapFresh(n) => old(self)@.next_page(c) is None && n == class_size(c),
                },
    {
        let (size, class) = page_for(size);
        let ghost before = self@;
        self.counters = PoolCounters {
            claims: self.counters.claims + 1,
            recycles: self.counters.recycles,
        };
        if class < NUM_CLASSES {
            assert(before.lists[class as int] == self.free_lists@[class as int]@);
            let mut list: Vec<MmapPage> = Vec::new();
            self.free_lists.set_and_swap(class, &mut list);
            assert(list@ == before.lists[class as int]);
            assert(before.valid());
            let taken = list.pop();
            self.free_lists.set_and_swap(class, &mut list);
            match taken {
                Some(page) => {
                    proof {
                        lemma_bytes_update(
                            before.lists,
                            11,
                            class as nat,
                            before.lists[class as int].drop_last(),
                        );
                        let k = before.lists[class as int].len();
                        let at = class as int;
                        assert(before.lists[at][k - 1].of_class(at as nat));
                        assert(k * class_size(class as nat) == (k - 1) * class_size(class as nat)
                            + class_size(class as nat)) by (nonlinear_arith);
                    }
                    self.cached_bytes = self.cached_bytes - page.len();
                    self.counters = PoolCounters {
                        claims: self.counters.claims,
                        recycles: self.counters.recycles + 1,
                    };
                    assert(self@.lists =~= before.claimed(class as nat).lists);
                    return Claimed::Recycled(page);
                },
                None => {
                    assert(self@.lists =~= before.lists);
                },
            }
        }
        assert(self@.lists =~= before.lists);
        Claimed::MapFresh(size)
    }

    /// Return a page to the cache, `dirty` naming the spans its region wrote.
    /// With the guard armed the page is given up for good. A page the cache has
    /// no room for is to be unmapped, and is never blanked.
    pub fn release(&mut self, page: MmapPage, dirty: PageDirty, guard_armed: bool, scrub_armed: bool)
        -> (r: Released)
        requires
            old(self).wf(),
            exists|c: nat| #[trigger] page.of_class(c),
            page.len <= usize::MAX / 2,
        ensures
            final(self).wf(),
            guard_armed ==> r == Released::Leaked(page) && final(self)@ == old(self)@,
            !guard_armed ==> forall|c: nat| #[trigger]
                page.of_class(c) ==> {
                    if old(self)@.has_room(c) {
                        &&& final(self)@ == old(self)@.with_cached(c, page)
                        &&& r == (Released::Cached {
                            addr: page.ptr,
                            blank: if scrub_armed {
                                Some(
                                    (
                                        dirty.objects.clamped(page.len),
                                        dirty.data.clamped(page.len),
                                    ),
                                )
                            } else {
                                None
                            },
                        })
                    } else {
                        &&& final(self)@ == old(self)@
                        &&& r == Released::Unmapped(page)
                    }
                },
    {
        if guard_armed {
            return Released::Leaked(page);
        }
        let ghost before = self@;
        let size: usize = page.len();
        let (_, class) = page_for(size);
        proof {
            let c = choose|c: nat| #[trigger] page.of_class(c);
            if c < class {
                assert(class_size(c) < size);
            }
            if class < c {
                lemma_class_size_grows(class as nat, c);
            }
            assert(c == class);
            assert forall|d: nat| #[trigger] page.of_class(d) implies d == class by {
                lemma_class_unique(d, class as nat);
            }
        }
        if class < NUM_CLASSES && size <= self.max_cached - self.cached_bytes {
            self.cached_bytes = self.cached_bytes + size;
            let addr: usize = page.as_ptr();
            let blank = if scrub_armed {
                Some(dirty.spans(size))
            } else {
                None
            };
            let mut list: Vec<MmapPage> = Vec::new();
            self.free_lists.set_and_swap(class, &mut list);
            list.push(page);
            self.free_lists.set_and_swap(class, &mut list);
            proof {
                let k = before.lists[class as int].len();
                lemma_bytes_update(
                    before.lists,
                    11,
                    class as nat,
                    before.lists[class as int].push(page),
                );
                assert((k + 1) * class_size(class as nat) == k * class_size(class as nat) + class_size(
                    class as nat,
                )) by (nonlinear_arith);
                assert(self@.lists =~= before.with_cached(class as nat, page).lists);
            }
            Released::Cached { addr, blank }
        } else {
            Released::Unmapped(page)
        }
    }

    /// Total cached bytes.
    pub fn cached_bytes(&self) -> (r: usize)
        requires
            self.wf(),
        ensures
            r == self@.cached(),
            r <= self@.max_cached,
    {
        self.cached_bytes
    }

    /// The page that a claim for `size` bytes would recycle next.
    pub fn peek_cached(&self, size: usize) -> (r: Option<&MmapPage>)
        requires
            self.wf(),
            size <= usize::MAX / 2,
        ensures
            exists|c: nat| #[trigger]
                is_class_of(c, size as nat) && match r {
                    Some(page) => self@.next_page(c) == Some(*page),
                    None => self@.next_page(c) is None,
                },
    {
        let (_, class) = page_for(size);
        assert(is_class_of(class as nat, size as nat));
        if class < NUM_CLASSES {
            let list = &self.free_lists[class];
            assert(self@.lists[class as int] == list@);
            if list.len() > 0 {
                return Some(&list[list.len() - 1]);
            }
        }
        None
    }
}

proof fn lemma_empty_bytes(lists: Seq<Seq<MmapPage>>, upto: nat)
    requires
        upto <= lists.len(),
        forall|i: int| 0 <= i < lists.len() ==> lists[i].len() == 0,
    ensures
        bytes_below(lists, upto) == 0,
    decreases upto,
{
    if upto > 0 {
        lemma_empty_bytes(lists, (upto - 1) as nat);
    }
}

/// A released page that finds room is the next one claimed of its class, and
/// the claim leaves the cache as it was before the release.
pub proof fn lemma_release_claim(pool: PoolState, c: nat, page: MmapPage)
    requires
        pool.valid(),
        pool.has_room(c),
        page.of_class(c),
    ensures
        pool.with_cached(c, page).valid(),
        pool.with_cached(c, page).cached() == pool.cached() + class_size(c),
        pool.with_cached(c, page).next_page(c) == Some(page),
        pool.with_cached(c, page).claimed(c).lists == pool.lists,
        pool.with_cached(c, page).claimed(c).recycles == pool.recycles + 1,
{
    let after = pool.with_cached(c, page);
    lemma_bytes_update(pool.lists, 11, c, pool.lists[c as int].push(page));
    let k = pool.lists[c as int].len();
    assert((k + 1) * class_size(c) == k * class_size(c) + class_size(c)) by (nonlinear_arith);
    assert forall|d: int, i: int|
        0 <= d < 11 && 0 <= i < after.lists[d].len() implies #[trigger] after.lists[d][i].of_class(
        d as nat,
    ) by {
        if d != c || i < k {
            assert(pool.lists[d][i].of_class(d as nat));
        }
    }
    assert(after.lists[c as int].drop_last() =~= pool.lists[c as int]);
    assert(after.claimed(c).lists =~= pool.lists);
}

/// What the cache is once a page of class `c` came back to it.
pub open spec fn given_back(pool: PoolState, c: nat, page: MmapPage) -> PoolState {
    if pool.has_room(c) {
        pool.with_cached(c, page)
    } else {
        pool
    }
}

/// The cache keeps to its limit: a page of at most four mebibytes that fits is cached,
/// any other leaves the cache as it was, and neither counter moves.
pub proof fn lemma_release_keeps_the_limit(pool: PoolState, c: nat, page: MmapPage)
    requires
        pool.valid(),
        page.of_class(c),
    ensures
        ({
            let after = given_back(pool, c, page);
            &&& after.valid()
            &&& after.cached() <= after.max_cached
            &&& after.max_cached == pool.max_cached
            &&& after.cached() as int == if page.len <= 0x40_0000 && pool.cached() + page.len <= pool.max_cached {
                pool.cached() + page.len
            } else {
                pool.cached() as int
            }
            &&& after.claims == pool.claims
            &&& after.recycles == pool.recycles
        }),
{
    lemma_class_limit(c);
    if pool.has_room(c) {
        lemma_release_claim(pool, c, page);
    }
}

/// The cached classes are those of up to four mebibytes.
proof fn lemma_class_limit(c: nat)
    ensures
        c < 11 <==> class_size(c) <= 0x40_0000,
{
    assert(class_size(10) == 0x40_0000) by {
        vstd::arithmetic::power2::lemma2_to64();
    }
    if c < 10 {
        lemma_class_size_grows(c, 10);
    } else if c > 10 {
        lemma_class_size_grows(10, c);
    }
}

/// No claim makes the cache larger, and neither counter ever falls.
pub proof fn lemma_claim_shrinks(pool: PoolState, c: nat)
    requires
        pool.valid(),
    ensures
        pool.claimed(c).valid(),
        pool.claimed(c).cached() <= pool.cached(),
        pool.claimed(c).claims == pool.claims + 1,
        pool.claimed(c).recycles >= pool.recycles,
{
    if pool.next_page(c) is Some {
        let after = pool.claimed(c);
        lemma_bytes_update(pool.lists, 11, c, pool.lists[c as int].drop_last());
        let k = pool.lists[c as int].len();
        assert(k * class_size(c) == (k - 1) * class_size(c) + class_size(c)) by (nonlinear_arith);
        assert forall|d: int, i: int|
            0 <= d < 11 && 0 <= i < after.lists[d].len() implies #[trigger] after.lists[d][i].of_class(
            d as nat,
        ) by {
            assert(pool.lists[d][i].of_class(d as nat));
        }
    }
}

} // verus!
