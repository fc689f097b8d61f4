//! Physical memory at boot: the kernel heap and stack layout, and the frame
//! allocator that hands out the 4 KiB frames of the usable memory regions
//! in order, region by region, never the same frame twice.

use vstd::prelude::*;

verus! {

/// Size of a page and of a physical frame.
pub const PAGE_SIZE: u64 = 4096;

/// Where the kernel heap is mapped, and its size.
pub const HEAP_START: u64 = 0xffff_9000_0000_0000;
pub const HEAP_SIZE: u64 = 32 * 1024 * 1024;

/// Physical addresses are below 2^52.
pub const PHYS_LIMIT: u64 = 0x10_0000_0000_0000;

/// One entry of the bootloader's memory map.
#[derive(Copy, Clone, PartialEq, Eq, Structural, Debug)]
pub struct MemoryRegion {
    pub base: u64,
    pub length: u64,
    pub usable: bool,
}

/// `a` rounded down to a multiple of 4096: the frame (or page) holding it.
pub open spec fn align_down(a: int) -> int {
    a - a % 4096
}

/// The frame (or page) that holds address `a`.
pub fn containing_frame(a: u64) -> (r: u64)
    ensures
        r == align_down(a as int),
{
    a - a % PAGE_SIZE
}

/// Number of frames that a region contributes: its whole length in 4 KiB
/// steps from its base for a usable region, none otherwise.
pub open spec fn frame_count(r: MemoryRegion) -> nat {
    if r.usable { ((r.length + 4095) / 4096) as nat } else { 0 }
}

/// The frames of one region, in address order.
pub open spec fn region_frames(r: MemoryRegion) -> Seq<u64> {
    Seq::new(frame_count(r), |k: int| align_down(r.base + 4096 * k) as u64)
}

/// All frames the allocator can hand out, in the order it hands them out.
pub open spec fn frames(es: Seq<MemoryRegion>) -> Seq<u64>
    decreases es.len(),
{
    if es.len() == 0 {
        Seq::empty()
    } else {
        region_frames(es[0]) + frames(es.drop_first())
    }
}

/// A region whose end address fits in 64 bits and whose usable addresses
/// are physical addresses.
pub open spec fn region_ok(r: MemoryRegion) -> bool {
    &&& r.base + r.length <= u64::MAX
    &&& r.usable ==> r.base + r.length <= PHYS_LIMIT
}

/// The regions are page aligned, in address order and do not overlap.
pub open spec fn sorted_disjoint(es: Seq<MemoryRegion>) -> bool {
    &&& forall|i: int| 0 <= i < es.len() ==> (#[trigger] es[i]).base % 4096 == 0
    &&& forall|i: int, j: int| 0 <= i < j < es.len() ==> #[trigger] es[i].base + es[i].length <= #[trigger] es[j].base
}

/// The `k`-th frame of an aligned region is `k` pages past its base and
/// lies inside the region.
proof fn lemma_region_frame(r: MemoryRegion, k: int)
    requires
        r.base % 4096 == 0,
        0 <= k < frame_count(r),
        region_ok(r),
    ensures
        region_frames(r)[k] == r.base + 4096 * k,
        r.base <= region_frames(r)[k] < r.base + r.length,
{
    let b = r.base as int;
    let l = r.length as int;
    assert((b + 4096 * k) % 4096 == 0) by (nonlinear_arith) requires b % 4096 == 0, k >= 0;
    assert(4096 * k < l) by (nonlinear_arith) requires k < (l + 4095) / 4096, k >= 0, l >= 0;
}

/// With aligned regions in order, the frames are handed out in strictly
/// increasing order and each lies at or above the first region's base.
proof fn lemma_frames_increasing(es: Seq<MemoryRegion>)
    requires
        sorted_disjoint(es),
        forall|i: int| 0 <= i < es.len() ==> region_ok(#[trigger] es[i]),
    ensures
        forall|i: int, j: int| 0 <= i < j < frames(es).len() ==> #[trigger] frames(es)[i] < #[trigger] frames(es)[j],
        es.len() > 0 ==> forall|i: int| 0 <= i < frames(es).len() ==> es[0].base <= #[trigger] frames(es)[i],
    decreases es.len(),
{
    if es.len() > 0 {
        let rest = es.drop_first();
        assert forall|i: int, j: int| 0 <= i < j < rest.len() implies #[trigger] rest[i].base + rest[i].length <= #[trigger] rest[j].base by {
            assert(rest[i] == es[i + 1] && rest[j] == es[j + 1]);
        }
        assert forall|i: int| 0 <= i < rest.len() implies (#[trigger] rest[i]).base % 4096 == 0 && region_ok(rest[i]) by {
            assert(rest[i] == es[i + 1]);
        }
        lemma_frames_increasing(rest);
        let rf = region_frames(es[0]);
        let fr = frames(rest);
        assert(frames(es) == rf + fr);
        assert forall|i: int| 0 <= i < rf.len() implies es[0].base <= #[trigger] rf[i] < es[0].base + es[0].length by {
            lemma_region_frame(es[0], i);
        }
        if rest.len() > 0 {
            assert(es[0].base + es[0].length <= es[1].base);
            assert(rest[0] == es[1]);
        }
        assert forall|i: int, j: int| 0 <= i < j < frames(es).len() implies #[trigger] frames(es)[i] < #[trigger] frames(es)[j] by {
            if j < rf.len() {
                lemma_region_frame(es[0], i);
                lemma_region_frame(es[0], j);
            } else if i < rf.len() {
                assert(frames(es)[j] == fr[j - rf.len()]);
            } else {
                assert(frames(es)[i] == fr[i - rf.len()]);
                assert(frames(es)[j] == fr[j - rf.len()]);
            }
        }
        assert forall|i: int| 0 <= i < frames(es).len() implies es[0].base <= #[trigger] frames(es)[i] by {
            if i >= rf.len() {
                assert(frames(es)[i] == fr[i - rf.len()]);
            }
        }
    }
}

/// With an ordered, aligned, non-overlapping memory map the allocator never
/// hands out the same frame twice.
pub proof fn law_frames_distinct(es: Seq<MemoryRegion>)
    requires
        sorted_disjoint(es),
        forall|i: int| 0 <= i < es.len() ==> region_ok(#[trigger] es[i]),
    ensures
        frames(es).no_duplicates(),
{
    lemma_frames_increasing(es);
}

/// Every frame handed out lies inside a usable region.
pub proof fn law_frames_usable(es: Seq<MemoryRegion>, i: int)
    requires
        forall|j: int| 0 <= j < es.len() ==> (#[trigger] es[j]).base % 4096 == 0 && region_ok(es[j]),
        0 <= i < frames(es).len(),
    ensures
        exists|j: int| 0 <= j < es.len() && (#[trigger] es[j]).usable
            && es[j].base <= frames(es)[i] < es[j].base + es[j].length,
    decreases es.len(),
{
    let rf = region_frames(es[0]);
    let rest = es.drop_first();
    assert(frames(es) == rf + frames(rest));
    if i < rf.len() {
        lemma_region_frame(es[0], i);
        assert(es[0].usable);
    } else {
        assert forall|j: int| 0 <= j < rest.len() implies (#[trigger] rest[j]).base % 4096 == 0 && region_ok(rest[j]) by {
            assert(rest[j] == es[j + 1]);
        }
        law_frames_usable(rest, i - rf.len());
        let j = choose|j: int| 0 <= j < rest.len() && (#[trigger] rest[j]).usable
            && rest[j].base <= frames(rest)[i - rf.len()] < rest[j].base + rest[j].length;
        assert(es[j + 1] == rest[j]);
    }
}

/// Whether a frame allocator can be built over `entries`: every region is
/// well formed and the number of frames fits a `usize`.
pub fn regions_valid(entries: &[MemoryRegion]) -> (r: bool)
    ensures
        r == ((forall|i: int| 0 <= i < entries@.len() ==> region_ok(#[trigger] entries@[i]))
            && frames(entries@).len() <= usize::MAX),
{
    let ghost es = entries@;
    let mut i: usize = entries.len();
    let mut total: usize = 0;
    assert(es.skip(es.len() as int) =~= Seq::<MemoryRegion>::empty());
    while i > 0
        invariant
            i <= es.len(),
            es == entries@,
            total == frames(es.skip(i as int)).len(),
            forall|j: int| i <= j < es.len() ==> region_ok(#[trigger] es[j]),
        decreases i,
    {
        let r = entries[i - 1];
        if r.base > u64::MAX - r.length || (r.usable && r.base + r.length > PHYS_LIMIT) {
            return false;
        }
        let count = if r.usable { r.length / PAGE_SIZE + if r.length % PAGE_SIZE != 0 { 1 } else { 0 } } else { 0 };
        proof {
            assert(es.skip(i - 1).drop_first() =~= es.skip(i as int));
            assert(es.skip(i - 1)[0] == r);
            assert(count == frame_count(r));
        }
        if count as u128 > usize::MAX as u128 - total as u128 {
            proof { lemma_frames_suffix_len(es, i - 1); }
            return false;
        }
        total = total + count as usize;
        i = i - 1;
    }
    assert(es.skip(0) =~= es);
    true
}

/// A suffix of the regions never has more frames than all of them.
proof fn lemma_frames_suffix_len(es: Seq<MemoryRegion>, k: int)
    requires
        0 <= k <= es.len(),
    ensures
        frames(es.skip(k)).len() <= frames(es).len(),
    decreases k,
{
    if k > 0 {
        lemma_frames_suffix_len(es, k - 1);
        assert(es.skip(k - 1).drop_first() =~= es.skip(k));
    } else {
        assert(es.skip(0) =~= es);
    }
}

/// Hands out the frames of the usable regions one by one.
pub struct BootFrameAllocator {
    entries: Vec<MemoryRegion>,
    next: usize,
}

impl BootFrameAllocator {
    /// The regions.
    pub closed spec fn spec_entries(&self) -> Seq<MemoryRegion> {
        self.entries@
    }

    /// How many frames were handed out so far.
    pub closed spec fn spec_next(&self) -> nat {
        self.next as nat
    }

    /// Every region is well formed and the frame count fits a `usize`.
    pub open spec fn wf(&self) -> bool {
        &&& forall|i: int| 0 <= i < self.spec_entries().len() ==> region_ok(#[trigger] self.spec_entries()[i])
        &&& frames(self.spec_entries()).len() <= usize::MAX
        &&& self.spec_next() <= frames(self.spec_entries()).len()
    }

    /// An allocator over the memory map `entries` that has handed out nothing.
    pub fn new(entries: Vec<MemoryRegion>) -> (r: Self)
        requires
            forall|i: int| 0 <= i < entries@.len() ==> region_ok(#[trigger] entries@[i]),
            frames(entries@).len() <= usize::MAX,
        ensures
            r.wf(),
            r.spec_entries() == entries@,
            r.spec_next() == 0,
    {
        BootFrameAllocator { entries, next: 0 }
    }

    /// How many frames were handed out so far.
    pub fn allocated(&self) -> (n: usize)
        ensures
            n == self.spec_next(),
    {
        self.next
    }

    /// The next frame, or `None` when all frames are handed out.
    pub fn allocate_frame(&mut self) -> (r: Option<u64>)
        requires
            old(self).wf(),
        ensures
            final(self).wf(),
            final(self).spec_entries() == old(self).spec_entries(),
            old(self).spec_next() < frames(old(self).spec_entries()).len() ==>
                r == Some(frames(old(self).spec_entries())[old(self).spec_next() as int])
                && final(self).spec_next() == old(self).spec_next() + 1,
            old(self).spec_next() >= frames(old(self).spec_entries()).len() ==>
                r is None && final(self).spec_next() == old(self).spec_next(),
    {
        let ghost es = self.entries@;
        let ghost all = frames(es);
        let mut n: u64 = self.next as u64;
        let mut i: usize = 0;
        assert(es.skip(0) =~= es);
        while i < self.entries.len()
            invariant
                es == self.entries@,
                all == frames(es),
                self.wf(),
                i <= es.len(),
                forall|j: int| 0 <= j < es.len() ==> region_ok(#[trigger] es[j]),
                self.next < all.len() <==> n < frames(es.skip(i as int)).len(),
                self.next < all.len() ==> all[self.next as int] == frames(es.skip(i as int))[n as int],
                n <= self.next,
                self.next == old(self).next,
                self.entries@ == old(self).entries@,
            decreases es.len() - i,
        {
            let r = self.entries[i];
            let count = if r.usable { r.length / PAGE_SIZE + if r.length % PAGE_SIZE != 0 { 1 } else { 0 } } else { 0 };
            proof {
                assert(es.skip(i as int).drop_first() =~= es.skip(i + 1));
                assert(es.skip(i as int)[0] == r);
                assert(count == frame_count(r));
            }
            if n < count {
                proof {
                    assert(frames(es.skip(i as int))[n as int] == region_frames(r)[n as int]);
                    assert(r.base + 4096 * n <= u64::MAX);
                }
                let frame = containing_frame(r.base + PAGE_SIZE * n);
                self.next = self.next + 1;
                return Some(frame);
            }
            n = n - count;
            i = i + 1;
        }
        proof {
            assert(es.skip(es.len() as int) =~= Seq::<MemoryRegion>::empty());
        }
        None
    }
}

/// The first and the last page of the address range that starts at
/// `start` and is `size` bytes long.
pub fn page_span(start: u64, size: u64) -> (r: (u64, u64))
    requires
        size >= 1,
        start + size - 1 <= u64::MAX,
    ensures
        r.0 == align_down(start as int),
        r.1 == align_down(start + size - 1),
{
    (containing_frame(start), containing_frame(start + (size - 1)))
}

/// Total length of the usable regions.
pub open spec fn usable_total(es: Seq<MemoryRegion>) -> int
    decreases es.len(),
{
    if es.len() == 0 {
        0
    } else {
        usable_total(es.drop_last()) + if es.last().usable { es.last().length as int } else { 0 }
    }
}

/// Total usable memory in bytes, as the boot log reports it (`None` when the
/// sum does not fit in 64 bits).
pub fn total_usable(regions: &[MemoryRegion]) -> (r: Option<u64>)
    ensures
        match r {
            Some(t) => t == usable_total(regions@),
            None => usable_total(regions@) > u64::MAX,
        },
{
    let mut total: u64 = 0;
    let mut i: usize = 0;
    while i < regions.len()
        invariant
            i <= regions@.len(),
            total == usable_total(regions@.take(i as int)),
        decreases regions@.len() - i,
    {
        assert(regions@.take(i + 1).drop_last() =~= regions@.take(i as int));
        let r = regions[i];
        if r.usable {
            match total.checked_add(r.length) {
                Some(t) => total = t,
                None => {
                    proof { lemma_usable_total_prefix(regions@, i + 1); }
                    return None;
                },
            }
        }
        i = i + 1;
    }
    assert(regions@.take(i as int) =~= regions@);
    Some(total)
}

/// The usable total never shrinks as regions are added.
proof fn lemma_usable_total_prefix(es: Seq<MemoryRegion>, n: int)
    requires
        0 <= n <= es.len(),
    ensures
        usable_total(es.take(n)) <= usable_total(es),
    decreases es.len() - n,
{
    if n < es.len() {
        lemma_usable_total_prefix(es, n + 1);
        assert(es.take(n + 1).drop_last() =~= es.take(n));
    } else {
        assert(es.take(n) =~= es);
    }
}

} // verus!
