//! Physical frame numbers and the allocator that hands frames out.

use crate::kernel::memory::addr::{Page, PhysAddr, PhysFrame, VirtAddr, PAGE_SIZE};
use crate::kernel::memory::addr_space::{
    AddrSpaceManager, KERNEL_VIRTUAL_PAGES, KERNEL_VIRTUAL_START,
};
use crate::kernel::memory::page_table::{Mapping, PageTable, PRESENT, WRITABLE};
use crate::kernel::memory::links::FrameLinks;
use crate::kernel::memory::pool::{
    alloc_step, can_dealloc, dealloc_step, is_chain, lemma_alloc_step_wf, lemma_chain_pop_front,
    lemma_bitmap_matches_list, lemma_chain_push_front, lemma_dealloc_step_wf, pool_wf,
    PoolState,
};
use crate::kernel::memory::ranges::{
    frame_total, frames_from, frames_of, in_ranges, lemma_frames_contains,
    lemma_frames_increasing, lemma_ordered_within_last, lemma_take_many, lemma_take_one,
    lemma_untaken_frames_stay, taken,
    lemma_frames_push, lemma_trim, lemma_usable_ranges_prefix, range_items, range_ok, ranges_get, ranges_len,
    ranges_new, ranges_ordered, ranges_pop, ranges_push, ranges_set, ranges_within, span,
    take_many, take_one, trim, usable_ranges, MemoryRegion, MemoryRegionType,
};
use crate::util::integer::{div_ceil, div_ceil_spec};
use crate::util::bit_set::{bits_of, fill_range, BitSet};
use vstd::prelude::*;

verus! {

/// The largest number of frames the allocator can track: 64M frames, or
/// 256 GiB of physical memory.
pub const MAX_FRAME_COUNT: u64 = 0x400_0000;

/// The number of a physical frame: its start address divided by the frame
/// size. Number 0 is reserved and stands for "no frame".
#[derive(Clone, Copy, Debug, PartialEq, Eq, Structural)]
pub struct FrameNumber(u64);

impl View for FrameNumber {
    type V = u64;

    closed spec fn view(&self) -> u64 {
        self.0
    }
}

impl FrameNumber {
    /// The reserved number that stands for "no frame".
    pub fn none() -> (r: Self)
        ensures
            r@ == 0,
    {
        FrameNumber(0)
    }

    /// Whether this is the reserved "no frame" number.
    pub fn is_none(self) -> (r: bool)
        ensures
            r == (self@ == 0),
    {
        self.0 == 0
    }

    /// The frame with number `idx`.
    pub fn from_u64(idx: u64) -> (r: Self)
        ensures
            r@ == idx,
    {
        FrameNumber(idx)
    }

    /// The number of the frame.
    pub fn into_u64(self) -> (r: u64)
        ensures
            r == self@,
    {
        self.0
    }

    /// The number of the frame that holds `addr`.
    pub fn from_addr(addr: PhysAddr) -> (r: Self)
        ensures
            r@ == addr@ / PAGE_SIZE,
    {
        let a: u64 = addr.as_u64();
        assert(a >> 12 == a / 4096) by (bit_vector);
        FrameNumber(a >> 12)
    }

    /// The address of the first byte of the frame. The address must fit in
    /// 52 bits, so the number must be below 2^40.
    pub fn into_addr(self) -> (r: PhysAddr)
        requires
            self@ < 0x100_0000_0000,
        ensures
            r@ == self@ * PAGE_SIZE,
    {
        let n: u64 = self.0;
        assert(n << 12 == n * 4096 && n * 4096 < 0x10_0000_0000_0000) by (bit_vector)
            requires
                n < 0x100_0000_0000,
        ;
        PhysAddr::new(n << 12)
    }

    /// The number of `frame`.
    pub fn from_frame(frame: PhysFrame) -> (r: Self)
        ensures
            r@ == frame.start() / PAGE_SIZE,
    {
        FrameNumber::from_addr(frame.start_address())
    }

    /// The frame with this number, which must be below 2^40.
    pub fn into_frame(self) -> (r: PhysFrame)
        requires
            self@ < 0x100_0000_0000,
        ensures
            r.start() == self@ * PAGE_SIZE,
            r.start() / PAGE_SIZE == self@,
    {
        let addr = self.into_addr();
        assert((self@ * 4096) % 4096 == 0 && (self@ * 4096) / 4096 == self@) by (nonlinear_arith);
        PhysFrame::containing_address(addr)
    }
}

/// The numbers of the frames that an allocation result names.
pub open spec fn frame_of(r: Option<FrameNumber>) -> Option<u64> {
    match r {
        Some(f) => Some(f@),
        None => None,
    }
}

/// The number of frames that the steady state tracks: every frame below
/// the end of the last usable range.
pub open spec fn tracked_frames(usable: Seq<(u64, u64)>) -> u64 {
    usable.last().1
}

/// The size in bytes of the bitmap for `frames` frames: a bit for every
/// frame, rounded up to whole bytes.
pub open spec fn bitmap_size(frames: u64) -> u64 {
    div_ceil_spec(frames, 8) as u64
}

/// The size in bytes of the bookkeeping record for `frames` frames: eight
/// bytes for the count, followed by the bitmap.
pub open spec fn storage_size(frames: u64) -> u64 {
    (8 + bitmap_size(frames)) as u64
}

/// The number of pages, and so of frames, that the bookkeeping record
/// takes: its size rounded up to whole pages.
pub open spec fn storage_pages(usable: Seq<(u64, u64)>) -> nat {
    div_ceil_spec(storage_size(tracked_frames(usable)), PAGE_SIZE) as nat
}

/// The address of the kernel page that comes after `allocated` pages of the
/// kernel region.
pub open spec fn kernel_page_address(allocated: int) -> u64 {
    (KERNEL_VIRTUAL_START + allocated * PAGE_SIZE) as u64
}

/// The page table after the first `n` pages of the bookkeeping record have
/// been mapped: page `j` of the record, counted from `base`, is backed by
/// the `j`-th highest of `frames`, present and writable.
pub open spec fn storage_mappings(
    table: Map<u64, Mapping>,
    base: int,
    frames: Seq<u64>,
    n: nat,
) -> Map<u64, Mapping>
    decreases n,
{
    if n == 0 {
        table
    } else {
        storage_mappings(table, base, frames, (n - 1) as nat).insert(
            kernel_page_address(base + n - 1),
            Mapping { frame: frames[frames.len() - n], flags: PRESENT | WRITABLE },
        )
    }
}

/// What the bootstrap state needs of a memory map: at most sixteen usable
/// ranges, in ascending order and apart from each other, none of them
/// holding frame 0 or a frame past the limit. The last range is then the
/// highest, and its end bounds the bitmap. A map that lists its usable
/// ranges in another order is refused.
pub open spec fn can_bootstrap(usable: Seq<(u64, u64)>) -> bool {
    usable.len() <= 16 && ranges_ordered(usable)
}

/// What setting up the steady state needs: between one and sixteen usable
/// ranges, in order; enough frames in them for the bookkeeping record;
/// enough room in the kernel region for its pages; and none of those pages
/// mapped yet.
pub open spec fn can_set_up(usable: Seq<(u64, u64)>, table: Map<u64, Mapping>, allocated: u64) -> bool {
    &&& 0 < usable.len() <= 16
    &&& ranges_ordered(usable)
    &&& storage_pages(usable) <= frame_total(usable)
    &&& allocated + storage_pages(usable) <= KERNEL_VIRTUAL_PAGES
    &&& forall|j: int|
        0 <= j < storage_pages(usable) ==> !table.contains_key(
            #[trigger] kernel_page_address(allocated + j),
        )
}

/// The bookkeeping record never takes more than 2049 pages.
pub proof fn lemma_storage_pages_bound(usable: Seq<(u64, u64)>)
    requires
        ranges_ordered(usable),
        usable.len() > 0,
    ensures
        storage_pages(usable) <= 2049,
{
    assert(range_ok(usable[usable.len() - 1]));
}

/// Setting up the steady state keeps the usable frames: a frame of the
/// usable ranges that was not taken for the bookkeeping record is tracked,
/// still lies in the ranges afterwards, and so is marked free in the
/// bitmap that the steady state starts with.
pub proof fn lemma_setup_keeps_usable_frames(usable: Seq<(u64, u64)>, f: u64)
    requires
        ranges_ordered(usable),
        storage_pages(usable) <= frame_total(usable),
        in_ranges(usable, f),
        !taken(usable, storage_pages(usable)).contains(Some(f)),
    ensures
        f < tracked_frames(usable),
        in_ranges(take_many(usable, storage_pages(usable)), f),
{
    lemma_untaken_frames_stay(usable, storage_pages(usable), f);
    lemma_ordered_within_last(usable);
    let i = choose|i: int| 0 <= i < usable.len() && (#[trigger] usable[i]).0 <= f < usable[i].1;
    assert(usable[i].1 <= usable.last().1);
}

/// Where the pages of the kernel region lie: page `base + i` starts `i`
/// pages after page `base`, on a page boundary inside the region, and
/// later pages have higher addresses.
pub proof fn lemma_kernel_pages(base: int, i: int)
    requires
        0 <= base,
        0 <= i,
        base + i <= KERNEL_VIRTUAL_PAGES,
    ensures
        kernel_page_address(base + i) == KERNEL_VIRTUAL_START + (base + i) * PAGE_SIZE,
        kernel_page_address(base + i) == kernel_page_address(base) + i * PAGE_SIZE,
        kernel_page_address(base + i) % PAGE_SIZE == 0,
        kernel_page_address(base + i) <= 0xc00_0000_0000,
        i > 0 ==> kernel_page_address(base) < kernel_page_address(base + i),
{
    assert(0 <= base * 4096 <= (base + i) * 4096 <= 0x2000_0000 * 4096 && (base + i) * 4096
        == base * 4096 + i * 4096 && (i > 0 ==> i * 4096 > 0) && (0xa00_0000_0000 + (base + i)
        * 4096) % 4096 == 0) by (nonlinear_arith)
        requires
            0 <= base,
            0 <= i,
            base + i <= 0x2000_0000,
    ;
}

/// Mapping the first `m` pages of the record does not touch a later page.
proof fn lemma_storage_mappings_keys(
    table: Map<u64, Mapping>,
    base: int,
    frames: Seq<u64>,
    m: nat,
    n: nat,
)
    requires
        m <= n,
        0 <= base,
        base + n < KERNEL_VIRTUAL_PAGES,
        !table.contains_key(kernel_page_address(base + n)),
    ensures
        !storage_mappings(table, base, frames, m).contains_key(kernel_page_address(base + n)),
    decreases m,
{
    if m > 0 {
        lemma_storage_mappings_keys(table, base, frames, (m - 1) as nat, n);
        lemma_kernel_pages(base + m - 1, n - m + 1);
    }
}

/// Every frame of `list` has number `floor` or higher.
spec fn above(list: Seq<u64>, floor: int) -> bool {
    forall|i: int| 0 <= i < list.len() ==> list[i] >= floor
}

/// The link words `now` differ from `start` only at frames of `list`.
spec fn untouched_off_list(start: Seq<u64>, now: Seq<u64>, list: Seq<u64>) -> bool {
    forall|x: u64| x < now.len() && !list.contains(x) ==> now[x as int] == start[x as int]
}

/// One step of threading: linking frame `g`, which lies below every frame
/// threaded so far, to the head puts it in front of the list and writes no
/// other link word.
proof fn lemma_thread_step(start: Seq<u64>, links: Seq<u64>, head: u64, list: Seq<u64>, g: u64)
    requires
        is_chain(links, head, list),
        1 <= g < links.len(),
        above(list, g + 1),
        start.len() == links.len(),
        untouched_off_list(start, links, list),
    ensures
        is_chain(links.update(g as int, head), g, seq![g] + list),
        above(seq![g] + list, g as int),
        untouched_off_list(start, links.update(g as int, head), seq![g] + list),
{
    let longer = seq![g] + list;
    let after = links.update(g as int, head);
    if list.contains(g) {
        let j = choose|j: int| 0 <= j < list.len() && list[j] == g;
        assert(list[j] >= g + 1);
    }
    lemma_chain_push_front(links, head, list, g);
    assert forall|i: int| 0 <= i < longer.len() implies longer[i] >= g by {
        if i > 0 {
            assert(longer[i] == list[i - 1]);
            assert(list[i - 1] >= g + 1);
        } else {
            assert(longer[0] == g);
        }
    }
    assert forall|x: u64| x < after.len() && !longer.contains(x) implies after[x as int]
        == start[x as int] by {
        assert(longer[0] == g);
        if list.contains(x) {
            let j = choose|j: int| 0 <= j < list.len() && list[j] == x;
            assert(longer[j + 1] == x);
        }
    }
}

/// Before range `k - 1` is threaded, every frame threaded so far lies at or
/// above its end, and its end lies within the tracked frames.
proof fn lemma_thread_range_start(rs: Seq<(u64, u64)>, k: int, frames: u64)
    requires
        ranges_ordered(rs),
        ranges_within(rs, frames),
        0 < k <= rs.len(),
    ensures
        1 <= rs[k - 1].0 <= rs[k - 1].1 <= frames,
        above(frames_from(rs, k), rs[k - 1].1 as int),
        span(rs[k - 1].1, rs[k - 1].1) + frames_from(rs, k) == frames_from(rs, k),
        span(rs[k - 1].0, rs[k - 1].1) + frames_from(rs, k) == frames_from(rs, k - 1),
{
    lemma_frames_increasing(rs, k);
    assert(range_ok(rs[k - 1]));
    assert(rs[k - 1].1 <= frames);
    let rest = frames_from(rs, k);
    if k < rs.len() {
        assert(rs[k - 1].1 <= rs[k].0);
        assert forall|i: int| 0 <= i < rest.len() implies rest[i] >= rs[k - 1].1 by {
            assert(rs[k].0 <= rest[i]);
        }
    } else {
        assert(rest =~= Seq::<u64>::empty());
    }
    assert(span(rs[k - 1].1, rs[k - 1].1) + rest =~= rest);
}

/// Once every range is threaded, the list and the bitmap agree, and the
/// link words of frames outside the ranges are as they were.
proof fn lemma_thread_done(rs: Seq<(u64, u64)>, bits: Seq<bool>, start: Seq<u64>, links: Seq<u64>)
    requires
        ranges_ordered(rs),
        bits.len() <= MAX_FRAME_COUNT,
        bits == Seq::new(bits.len(), |f: int| in_ranges(rs, f as u64)),
        links.len() == bits.len(),
        start.len() == bits.len(),
        is_chain(links, if frames_of(rs).len() == 0 { 0 } else { frames_of(rs)[0] }, frames_of(rs)),
        untouched_off_list(start, links, frames_of(rs)),
    ensures
        pool_wf(PoolState { free_list: frames_of(rs), bitmap: bits }),
        forall|g: int|
            0 <= g < start.len() && !in_ranges(rs, g as u64) ==> links[g] == start[g],
{
    let list = frames_of(rs);
    lemma_frames_increasing(rs, 0);
    assert forall|i: int| 0 <= i < rs.len() implies (#[trigger] rs[i]).0 <= rs[i].1 by {
        assert(range_ok(rs[i]));
    }
    assert forall|i: int| 0 <= i < list.len() implies 1 <= #[trigger] list[i] < bits.len()
        && bits[list[i] as int] by {
        lemma_frames_contains(rs, 0, list[i]);
        assert(list.contains(list[i]));
    }
    assert forall|f: int| 0 <= f < bits.len() && #[trigger] bits[f] implies list.contains(
        f as u64,
    ) by {
        lemma_frames_contains(rs, 0, f as u64);
    }
    assert forall|g: int| 0 <= g < start.len() && !in_ranges(rs, g as u64) implies links[g]
        == start[g] by {
        lemma_frames_contains(rs, 0, g as u64);
        assert(!list.contains(g as u64));
    }
}

/// Putting frame `g` in front of the frames `g + 1` to `end - 1` gives the
/// frames `g` to `end - 1`.
proof fn lemma_span_extend(g: u64, end: u64, rest: Seq<u64>)
    requires
        g < end,
    ensures
        seq![g] + (span((g + 1) as u64, end) + rest) == span(g, end) + rest,
{
    assert(seq![g] + (span((g + 1) as u64, end) + rest) =~= span(g, end) + rest);
}

/// The bookkeeping record of the free-frame pool: the number of tracked
/// frames, followed by one bit per frame that is set while the frame is
/// free.
struct BuddyStorage {
    frames: u64,
    free: Vec<u8>,
}

impl BuddyStorage {
    /// The bitmap is as large as the frame count asks for.
    spec fn wf(&self) -> bool {
        self.frames <= MAX_FRAME_COUNT && self.free@.len() == bitmap_size(self.frames)
    }

    /// The free bit of each tracked frame.
    spec fn bits(&self) -> Seq<bool> {
        bits_of(self.free@, self.frames as nat)
    }

    /// The size in bytes of the record for `frames` frames: eight bytes for
    /// the count, and a bit for every frame, rounded up to whole bytes.
    fn size(frames: u64) -> (r: u64)
        requires
            frames <= MAX_FRAME_COUNT,
        ensures
            r == storage_size(frames),
    {
        8 + div_ceil(frames, 8)
    }

    /// A record for `frames` frames with every frame marked as in use.
    fn new(frames: u64) -> (r: BuddyStorage)
        requires
            frames <= MAX_FRAME_COUNT,
        ensures
            r.wf(),
            r.frames == frames,
            r.bits() == Seq::new(frames as nat, |i: int| false),
    {
        let size: u64 = div_ceil(frames, 8);
        let mut free: Vec<u8> = Vec::new();
        let mut i: u64 = 0;
        while i < size
            invariant
                i <= size,
                free@.len() == i,
            decreases size - i,
        {
            free.push(0);
            i = i + 1;
        }
        let mut storage = BuddyStorage { frames, free };
        let mut bitmap = storage.free_bitmap(0);
        bitmap.set_all(false);
        bitmap.release();
        storage
    }

    /// The free bits of the given order as a bit set. Only order 0, single
    /// frames, is kept.
    fn free_bitmap(&mut self, order: u8) -> (r: BitSet<'_>)
        requires
            order == 0,
            old(self).wf(),
        ensures
            r.wf(),
            r.n_bits() == old(self).frames,
            r.bytes() == old(self).free@,
            final(r.store())@ == final(self).free@,
            final(self).frames == old(self).frames,
    {
        BitSet::new(self.frames, self.free.as_mut_slice())
    }

    /// Whether frame `idx` is marked free.
    fn is_free(&mut self, idx: u64) -> (r: bool)
        requires
            old(self).wf(),
            idx < old(self).frames,
        ensures
            final(self).frames == old(self).frames,
            final(self).free@ == old(self).free@,
            r == old(self).bits()[idx as int],
    {
        let bitmap = self.free_bitmap(0);
        let r = bitmap.get(idx);
        bitmap.release();
        r
    }

    /// Marks frame `idx` as free or as in use.
    fn mark(&mut self, idx: u64, free: bool)
        requires
            old(self).wf(),
            idx < old(self).frames,
        ensures
            final(self).wf(),
            final(self).frames == old(self).frames,
            final(self).bits() == old(self).bits().update(idx as int, free),
    {
        let mut bitmap = self.free_bitmap(0);
        bitmap.set(idx, free);
        bitmap.release();
    }

    /// Marks the frames from `start` up to but not including `end` as free.
    fn mark_range_free(&mut self, start: u64, end: u64)
        requires
            old(self).wf(),
            start <= end <= old(self).frames,
        ensures
            final(self).wf(),
            final(self).frames == old(self).frames,
            final(self).bits() == fill_range(old(self).bits(), start as int, end as int, true),
    {
        let mut bitmap = self.free_bitmap(0);
        bitmap.set_range(start..end, true);
        bitmap.release();
    }
}

/// The pool of free frames in steady state: the bookkeeping record, the
/// link words that thread the free frames into a list, and the head of
/// that list.
struct Buddy {
    free_head: FrameNumber,
    storage: BuddyStorage,
    links: FrameLinks,
    free_list: Ghost<Seq<u64>>,
}

impl Buddy {
    /// The free frames and their order.
    spec fn pool(&self) -> PoolState {
        PoolState { free_list: self.free_list@, bitmap: self.storage.bits() }
    }

    /// The record is sound, the list and the bitmap agree, and the link
    /// words thread the list from the head.
    spec fn wf(&self) -> bool {
        &&& self.storage.wf()
        &&& self.links@.len() == self.storage.frames
        &&& pool_wf(self.pool())
        &&& is_chain(self.links@, self.free_head@, self.free_list@)
    }

    /// Builds the pool from an allocator in the bootstrap state. Reserves
    /// the pages of the bookkeeping record in the kernel region, takes a
    /// frame for each of them from the usable ranges and maps it, marks the
    /// frames that the ranges still hold as free, and threads them into the
    /// free list.
    fn new(
        mgr: &mut FrameManager,
        page_table: &mut PageTable,
        addr_space: &mut AddrSpaceManager,
    ) -> (buddy: Buddy)
        requires
            old(mgr).wf(),
            !old(mgr).is_steady(),
            can_set_up(old(mgr).ranges(), old(page_table)@, old(addr_space).allocated()),
        ensures
            ranges_ordered(final(mgr).ranges()),
            !final(mgr).is_steady(),
            final(mgr).ranges() == take_many(old(mgr).ranges(), storage_pages(old(mgr).ranges())),
            final(addr_space).allocated() == old(addr_space).allocated() + storage_pages(
                old(mgr).ranges(),
            ),
            final(page_table)@ == storage_mappings(
                old(page_table)@,
                old(addr_space).allocated() as int,
                frames_of(old(mgr).ranges()),
                storage_pages(old(mgr).ranges()),
            ),
            buddy.wf(),
            buddy.storage.frames == tracked_frames(old(mgr).ranges()),
            buddy.free_list@ == frames_of(final(mgr).ranges()),
            buddy.storage.bits() == Seq::new(
                tracked_frames(old(mgr).ranges()) as nat,
                |f: int| in_ranges(final(mgr).ranges(), f as u64),
            ),
            forall|g: int|
                0 <= g < tracked_frames(old(mgr).ranges()) && !in_ranges(
                    final(mgr).ranges(),
                    g as u64,
                ) ==> buddy.links@[g] == 0,
    {
        let ghost rs0 = mgr.ranges();
        let ghost table0 = page_table@;
        let ghost base = addr_space.allocated() as int;
        let ghost all = frames_of(rs0);
        let n: usize = ranges_len(&mgr.usable_range);
        let last: (u64, u64) = ranges_get(&mgr.usable_range, n - 1);
        let frames: u64 = last.1;
        proof {
            assert(range_ok(rs0[n - 1]));
            lemma_ordered_within_last(rs0);
        }
        let size: u64 = BuddyStorage::size(frames);
        let pages: u64 = div_ceil(size, PAGE_SIZE);
        let page_range = addr_space.kernel_alloc(pages);

        let mut i: u64 = 0;
        while i < pages
            invariant
                i <= pages,
                pages == storage_pages(rs0),
                pages <= frame_total(rs0),
                0 <= base,
                base + pages <= KERNEL_VIRTUAL_PAGES,
                all == frames_of(rs0),
                ranges_ordered(rs0),
                page_range.start.start() == kernel_page_address(base),
                forall|j: int|
                    0 <= j < pages ==> !table0.contains_key(#[trigger] kernel_page_address(base + j)),
                mgr.wf(),
                !mgr.is_steady(),
                mgr.ranges() == take_many(rs0, i as nat),
                page_table@ == storage_mappings(table0, base, all, i as nat),
            decreases pages - i,
        {
            proof {
                lemma_take_many(rs0, i as nat);
                lemma_take_one(mgr.ranges());
                lemma_storage_mappings_keys(table0, base, all, i as nat, i as nat);
                lemma_kernel_pages(base, i as int);
            }
            let frame = mgr.allocate(0);
            match frame {
                Some(f) => {
                    assert(f@ == all[all.len() - 1 - i]);
                    let page = page_range.start.offset(i);
                    let backing = f.into_frame();
                    assert(page.start() == kernel_page_address(base + i));
                    let mapped = page_table.map_to(page, backing, PRESENT | WRITABLE);
                    assert(mapped.is_ok());
                },
                None => {},
            }
            i = i + 1;
        }

        proof {
            lemma_take_many(rs0, pages as nat);
        }
        let ghost rs = mgr.ranges();
        let mut storage = BuddyStorage::new(frames);
        let m: usize = ranges_len(&mgr.usable_range);
        let mut k: usize = 0;
        while k < m
            invariant
                k <= m,
                m == rs.len(),
                rs == mgr.ranges(),
                ranges_ordered(rs),
                ranges_within(rs, frames),
                storage.wf(),
                storage.frames == frames,
                storage.bits() == Seq::new(
                    frames as nat,
                    |f: int| in_ranges(rs.take(k as int), f as u64),
                ),
            decreases m - k,
        {
            let range: (u64, u64) = ranges_get(&mgr.usable_range, k);
            let ghost before = storage.bits();
            proof {
                assert(range_ok(rs[k as int]));
                assert(rs[k as int].1 <= frames);
            }
            storage.mark_range_free(range.0, range.1);
            proof {
                let shorter = rs.take(k as int);
                let longer = rs.take(k + 1);
                assert forall|f: int| 0 <= f < frames implies #[trigger] storage.bits()[f]
                    == in_ranges(longer, f as u64) by {
                    let g = f as u64;
                    assert(before[f] == in_ranges(shorter, g));
                    if in_ranges(shorter, g) {
                        let j = choose|j: int|
                            0 <= j < shorter.len() && (#[trigger] shorter[j]).0 <= g < shorter[j].1;
                        assert(longer[j] == shorter[j]);
                    }
                    if range.0 <= g < range.1 {
                        assert(longer[k as int] == range);
                    }
                    if in_ranges(longer, g) {
                        let j = choose|j: int|
                            0 <= j < longer.len() && (#[trigger] longer[j]).0 <= g < longer[j].1;
                        if j < k {
                            assert(shorter[j] == longer[j]);
                        }
                    }
                }
                assert(storage.bits() =~= Seq::new(
                    frames as nat,
                    |f: int| in_ranges(longer, f as u64),
                ));
            }
            k = k + 1;
        }
        proof {
            assert(rs.take(m as int) =~= rs);
        }

        let mut buddy = Buddy {
            free_head: FrameNumber::none(),
            storage,
            links: FrameLinks::new(frames),
            free_list: Ghost(Seq::empty()),
        };
        buddy.setup_free_links(&mgr.usable_range);
        buddy
    }

    /// Threads the frames of the usable ranges into the free list, lowest
    /// frame first, by writing the link word of each: the ranges are walked
    /// from the last to the first and each range from its end to its start,
    /// and every frame is linked to the frame visited just before it. No
    /// other link word is written. The bitmap must mark exactly the frames
    /// of the ranges as free.
    fn setup_free_links(&mut self, usable_range: &heapless::Vec<(u64, u64), 16>)
        requires
            old(self).storage.wf(),
            old(self).links@.len() == old(self).storage.frames,
            ranges_ordered(range_items(*usable_range)),
            ranges_within(range_items(*usable_range), old(self).storage.frames),
            old(self).storage.bits() == Seq::new(
                old(self).storage.frames as nat,
                |f: int| in_ranges(range_items(*usable_range), f as u64),
            ),
        ensures
            final(self).wf(),
            final(self).storage == old(self).storage,
            final(self).free_list@ == frames_of(range_items(*usable_range)),
            forall|g: int|
                0 <= g < old(self).links@.len() && !in_ranges(
                    range_items(*usable_range),
                    g as u64,
                ) ==> final(self).links@[g] == old(self).links@[g],
    {
        let ghost rs = range_items(*usable_range);
        let ghost start = self.links@;
        let ghost mut list: Seq<u64> = Seq::empty();
        let frames: u64 = self.storage.frames;
        let n: usize = ranges_len(usable_range);
        let mut idx_next: u64 = FrameNumber::none().into_u64();
        let mut k: usize = n;
        while k > 0
            invariant
                k <= n,
                n == rs.len(),
                rs == range_items(*usable_range),
                ranges_ordered(rs),
                ranges_within(rs, frames),
                self.storage == old(self).storage,
                self.links@.len() == frames,
                start.len() == frames,
                list == frames_from(rs, k as int),
                is_chain(self.links@, idx_next, list),
                untouched_off_list(start, self.links@, list),
            decreases k,
        {
            let range: (u64, u64) = ranges_get(usable_range, k - 1);
            let mut idx: u64 = range.1;
            let ghost rest = list;
            proof {
                lemma_thread_range_start(rs, k as int, frames);
            }
            while idx > range.0
                invariant
                    1 <= range.0 <= idx <= range.1 <= frames,
                    self.storage == old(self).storage,
                    self.links@.len() == frames,
                    start.len() == frames,
                    list == span(idx, range.1) + rest,
                    above(list, idx as int),
                    is_chain(self.links@, idx_next, list),
                    untouched_off_list(start, self.links@, list),
                decreases idx,
            {
                idx = idx - 1;
                proof {
                    lemma_thread_step(start, self.links@, idx_next, list, idx);
                    lemma_span_extend(idx, range.1, rest);
                }
                self.links.write_link(FrameNumber::from_u64(idx), FrameNumber::from_u64(idx_next));
                idx_next = idx;
                proof {
                    list = seq![idx] + list;
                }
            }
            k = k - 1;
        }
        self.free_head = FrameNumber::from_u64(idx_next);
        self.free_list = Ghost(list);
        proof {
            lemma_thread_done(rs, self.storage.bits(), start, self.links@);
        }
    }

    /// Hands out the frame at the head of the free list, or `None` when the
    /// list is empty.
    fn allocate(&mut self, order: u8) -> (r: Option<FrameNumber>)
        requires
            order == 0,
            old(self).wf(),
        ensures
            final(self).wf(),
            (final(self).pool(), frame_of(r)) == alloc_step(old(self).pool()),
            final(self).links@ == old(self).links@,
    {
        if self.free_head.is_none() {
            proof {
                if self.free_list@.len() > 0 {
                    assert(1 <= self.free_list@[0]);
                }
            }
            None
        } else {
            let idx: u64 = self.free_head.into_u64();
            proof {
                assert(self.free_list@.len() > 0);
                assert(self.free_list@[0] == idx);
                assert(1 <= self.free_list@[0] < self.storage.frames);
                lemma_alloc_step_wf(self.pool());
                lemma_chain_pop_front(self.links@, self.free_head@, self.free_list@);
            }
            assert(self.storage.bits()[idx as int]);
            self.storage.mark(idx, false);
            let head = self.free_head;
            self.free_head = self.links.read_link(head);
            self.free_list = Ghost(self.free_list@.skip(1));
            Some(head)
        }
    }

    /// Puts frame `start` back at the head of the free list.
    fn dealloc(&mut self, order: u8, start: FrameNumber)
        requires
            order == 0,
            old(self).wf(),
            can_dealloc(old(self).pool(), start@),
        ensures
            final(self).wf(),
            final(self).pool() == dealloc_step(old(self).pool(), start@),
            final(self).links@ == old(self).links@.update(start@ as int, old(self).free_head@),
    {
        let idx: u64 = start.into_u64();
        proof {
            lemma_dealloc_step_wf(self.pool(), idx);
            if self.free_list@.contains(idx) {
                let j = choose|j: int| 0 <= j < self.free_list@.len() && self.free_list@[j] == idx;
                assert(self.storage.bits()[self.free_list@[j] as int]);
            }
            lemma_chain_push_front(self.links@, self.free_head@, self.free_list@, idx);
        }
        assert(!self.storage.bits()[idx as int]);
        self.storage.mark(idx, true);
        self.links.write_link(start, self.free_head);
        self.free_head = start;
        self.free_list = Ghost(seq![idx] + self.free_list@);
    }
}

/// The allocator of physical frames. It starts out in the bootstrap state,
/// in which it carves frames off the usable ranges reported at boot, and
/// moves once to the steady state, in which a bitmap and a free list track
/// every frame.
pub struct FrameManager {
    usable_range: heapless::Vec<(u64, u64), 16>,
    buddy: Option<Buddy>,
}

impl FrameManager {
    /// The usable ranges, each as its first frame and the frame just past
    /// its last. In the bootstrap state frames are taken from their end.
    pub closed spec fn ranges(&self) -> Seq<(u64, u64)> {
        range_items(self.usable_range)
    }

    /// Whether the allocator has reached the steady state.
    pub closed spec fn is_steady(&self) -> bool {
        self.buddy.is_some()
    }

    /// The free frames in the steady state.
    pub closed spec fn pool(&self) -> PoolState
        recommends
            self.is_steady(),
    {
        self.buddy.unwrap().pool()
    }

    /// The link word of each tracked frame in the steady state.
    pub closed spec fn links(&self) -> Seq<u64>
        recommends
            self.is_steady(),
    {
        self.buddy.unwrap().links@
    }

    /// The head of the free list in the steady state, 0 for an empty list.
    pub closed spec fn free_head(&self) -> u64
        recommends
            self.is_steady(),
    {
        self.buddy.unwrap().free_head@
    }

    /// In the steady state, the bookkeeping record has the size that its
    /// frame count asks for.
    pub closed spec fn record_wf(&self) -> bool {
        self.buddy matches Some(buddy) ==> buddy.storage.wf()
    }

    /// The allocator is sound: the usable ranges are in order, and in the
    /// steady state the bitmap and the free list agree, every tracked frame
    /// has a link word, and the link words thread the free list from its
    /// head.
    pub open spec fn wf(&self) -> bool {
        &&& ranges_ordered(self.ranges())
        &&& self.record_wf()
        &&& self.is_steady() ==> {
            &&& pool_wf(self.pool())
            &&& self.links().len() == self.pool().bitmap.len()
            &&& is_chain(self.links(), self.free_head(), self.pool().free_list)
        }
    }

    /// In the steady state the bitmap and the free list say the same: a
    /// tracked frame is marked free exactly when it is on the list that
    /// starts at the head and follows the link words.
    pub proof fn lemma_free_exactly_when_listed(&self, f: u64)
        requires
            self.wf(),
            self.is_steady(),
            f < self.pool().bitmap.len(),
        ensures
            self.pool().bitmap[f as int] <==> self.pool().free_list.contains(f),
            is_chain(self.links(), self.free_head(), self.pool().free_list),
    {
        lemma_bitmap_matches_list(self.pool(), f);
    }

    /// Whether a frame is left to hand out.
    pub open spec fn has_frame(&self) -> bool {
        if self.is_steady() {
            self.pool().free_list.len() > 0
        } else {
            frame_total(self.ranges()) > 0
        }
    }

    /// What one allocation does: `after` is the allocator that results from
    /// this one, and `r` the frame handed out.
    pub open spec fn allocates(&self, after: &FrameManager, r: Option<u64>) -> bool {
        &&& after.is_steady() == self.is_steady()
        &&& self.is_steady() ==> (after.pool(), r) == alloc_step(self.pool()) && after.ranges()
            == self.ranges() && after.links() == self.links()
        &&& !self.is_steady() ==> (after.ranges(), r) == take_one(self.ranges())
    }

    /// Whether the allocator has reached the steady state.
    pub fn is_steady_state(&self) -> (r: bool)
        ensures
            r == self.is_steady(),
    {
        self.buddy.is_some()
    }

    /// The number of frames that the steady state tracks.
    pub fn frame_count(&self) -> (r: u64)
        requires
            self.wf(),
            self.is_steady(),
        ensures
            r == self.pool().bitmap.len(),
    {
        match &self.buddy {
            Some(buddy) => buddy.storage.frames,
            None => 0,
        }
    }

    /// Whether the bitmap of the steady state marks `frame` as free. The
    /// allocator stays as it is.
    pub fn is_free(&mut self, frame: FrameNumber) -> (r: bool)
        requires
            old(self).wf(),
            old(self).is_steady(),
            frame@ < old(self).pool().bitmap.len(),
        ensures
            r == old(self).pool().bitmap[frame@ as int],
            final(self).wf(),
            final(self).is_steady(),
            final(self).pool() == old(self).pool(),
            final(self).ranges() == old(self).ranges(),
            final(self).links() == old(self).links(),
            final(self).free_head() == old(self).free_head(),
    {
        match &mut self.buddy {
            Some(buddy) => buddy.storage.is_free(frame.into_u64()),
            None => false,
        }
    }

    /// The link word of `frame` in the steady state: while the frame is
    /// free, the frame that follows it on the free list, or none at the end
    /// of the list.
    pub fn link_of(&self, frame: FrameNumber) -> (r: FrameNumber)
        requires
            self.wf(),
            self.is_steady(),
            frame@ < self.links().len(),
        ensures
            r@ == self.links()[frame@ as int],
    {
        match &self.buddy {
            Some(buddy) => buddy.links.read_link(frame),
            None => FrameNumber::none(),
        }
    }

    /// The head of the free list in the steady state, none when the list is
    /// empty.
    pub fn first_free(&self) -> (r: FrameNumber)
        requires
            self.wf(),
            self.is_steady(),
        ensures
            r@ == self.free_head(),
    {
        match &self.buddy {
            Some(buddy) => buddy.free_head,
            None => FrameNumber::none(),
        }
    }

    /// Whether a frame is left to hand out.
    pub fn has_free_frame(&self) -> (r: bool)
        requires
            self.wf(),
        ensures
            r == self.has_frame(),
    {
        match &self.buddy {
            Some(buddy) => {
                proof {
                    if buddy.free_list@.len() > 0 {
                        assert(1 <= buddy.free_list@[0]);
                    }
                }
                !buddy.free_head.is_none()
            },
            None => {
                let ghost rs = self.ranges();
                let n: usize = ranges_len(&self.usable_range);
                let mut k: usize = 0;
                proof {
                    assert forall|i: int| 0 <= i < rs.len() implies (#[trigger] rs[i]).0
                        <= rs[i].1 by {
                        assert(range_ok(rs[i]));
                    }
                }
                while k < n
                    invariant
                        k <= n,
                        n == rs.len(),
                        rs == self.ranges(),
                        self.buddy.is_none(),
                        forall|i: int| 0 <= i < rs.len() ==> (#[trigger] rs[i]).0 <= rs[i].1,
                        forall|i: int| 0 <= i < k ==> (#[trigger] rs[i]).0 == rs[i].1,
                    decreases n - k,
                {
                    let range: (u64, u64) = ranges_get(&self.usable_range, k);
                    if range.0 < range.1 {
                        proof {
                            lemma_frames_contains(rs, 0, range.0);
                            assert(rs[k as int].0 <= range.0 < rs[k as int].1);
                            assert(in_ranges(rs, range.0));
                        }
                        return true;
                    }
                    k = k + 1;
                }
                proof {
                    if frames_of(rs).len() > 0 {
                        let f = frames_of(rs)[0];
                        assert(frames_of(rs).contains(f));
                        lemma_frames_contains(rs, 0, f);
                        let i = choose|i: int|
                            0 <= i < rs.len() && (#[trigger] rs[i]).0 <= f < rs[i].1;
                        assert(rs[i].0 == rs[i].1);
                    }
                }
                false
            },
        }
    }

    /// Whether a memory map can be used to start an allocator: it has at
    /// most sixteen usable ranges, and they are in ascending order and
    /// apart from each other, with no frame 0 and no frame past the limit.
    /// A map that lists its usable ranges in another order is refused.
    pub fn can_bootstrap_from(memory_map: &Vec<MemoryRegion>) -> (r: bool)
        ensures
            r == can_bootstrap(usable_ranges(memory_map@)),
    {
        let ghost all = usable_ranges(memory_map@);
        let count: usize = memory_map.len();
        let mut found: usize = 0;
        let mut floor: u64 = 0;
        let mut i: usize = 0;
        while i < count
            invariant
                i <= count,
                count == memory_map@.len(),
                all == usable_ranges(memory_map@),
                found == usable_ranges(memory_map@.take(i as int)).len(),
                found <= 16,
                ranges_ordered(usable_ranges(memory_map@.take(i as int))),
                found > 0 ==> floor == usable_ranges(memory_map@.take(i as int)).last().1,
            decreases count - i,
        {
            let region: MemoryRegion = memory_map[i];
            let ghost seen = usable_ranges(memory_map@.take(i as int));
            proof {
                assert(memory_map@.take(i + 1).drop_last() =~= memory_map@.take(i as int));
                lemma_usable_ranges_prefix(memory_map@, i + 1);
            }
            if region.region_type == MemoryRegionType::Usable {
                let start: u64 = region.range.start_frame_number;
                let end: u64 = region.range.end_frame_number;
                let ghost next = seen.push((start, end));
                assert(next == all.take(found + 1));
                assert(all[found as int] == next[found as int]);
                if found >= 16 {
                    return false;
                }
                if start < 1 || start > end || end > MAX_FRAME_COUNT {
                    assert(!range_ok(all[found as int]));
                    return false;
                }
                if found > 0 && start < floor {
                    assert(all[found - 1] == next[found - 1]);
                    assert(all[found - 1].1 > all[found as int].0);
                    return false;
                }
                proof {
                    if found > 0 {
                        lemma_ordered_within_last(seen);
                    }
                    assert forall|a: int, b: int| 0 <= a < b < next.len() implies (
                    #[trigger] next[a]).1 <= (#[trigger] next[b]).0 by {
                        if b < seen.len() {
                            assert(seen[a].1 <= seen[b].0);
                        } else {
                            assert(seen[a].1 <= seen.last().1);
                        }
                    }
                    assert forall|a: int| 0 <= a < next.len() implies range_ok(
                        #[trigger] next[a],
                    ) by {
                        if a < seen.len() {
                            assert(range_ok(seen[a]));
                        }
                    }
                }
                found = found + 1;
                floor = end;
            }
            i = i + 1;
        }
        proof {
            assert(memory_map@.take(count as int) =~= memory_map@);
        }
        true
    }

    /// Starts an allocator in the bootstrap state from the memory map handed
    /// over at boot: its usable ranges are collected in the order of the
    /// map.
    pub fn bootstrap(memory_map: &Vec<MemoryRegion>) -> (mgr: FrameManager)
        requires
            can_bootstrap(usable_ranges(memory_map@)),
        ensures
            mgr.wf(),
            !mgr.is_steady(),
            mgr.ranges() == usable_ranges(memory_map@),
    {
        let mut mgr = FrameManager { buddy: None, usable_range: ranges_new() };
        let count: usize = memory_map.len();
        let mut i: usize = 0;
        while i < count
            invariant
                i <= count,
                count == memory_map@.len(),
                mgr.buddy.is_none(),
                mgr.ranges() == usable_ranges(memory_map@.take(i as int)),
                usable_ranges(memory_map@).len() <= 16,
            decreases count - i,
        {
            let region: MemoryRegion = memory_map[i];
            proof {
                assert(memory_map@.take(i + 1).drop_last() =~= memory_map@.take(i as int));
                lemma_usable_ranges_prefix(memory_map@, i + 1);
            }
            if region.region_type == MemoryRegionType::Usable {
                let pushed = ranges_push(
                    &mut mgr.usable_range,
                    (region.range.start_frame_number, region.range.end_frame_number),
                );
                assert(pushed.is_ok());
            }
            i = i + 1;
        }
        proof {
            assert(memory_map@.take(count as int) =~= memory_map@);
        }
        mgr
    }

    /// Whether an allocator in the bootstrap state can move to the steady
    /// state with the given page table and kernel region.
    pub fn can_setup_buddy(&self, page_table: &PageTable, addr_space: &AddrSpaceManager) -> (r:
        bool)
        requires
            self.wf(),
            !self.is_steady(),
        ensures
            r == can_set_up(self.ranges(), page_table@, addr_space.allocated()),
    {
        let ghost rs = self.ranges();
        let n: usize = ranges_len(&self.usable_range);
        if n == 0 {
            return false;
        }
        let last: (u64, u64) = ranges_get(&self.usable_range, n - 1);
        assert(range_ok(rs[n - 1]));
        let pages: u64 = div_ceil(BuddyStorage::size(last.1), PAGE_SIZE);
        let mut total: u64 = 0;
        let mut k: usize = 0;
        while k < n
            invariant
                k <= n,
                n == rs.len(),
                n <= 16,
                rs == self.ranges(),
                ranges_ordered(rs),
                total == frame_total(rs.take(k as int)),
                total <= k * MAX_FRAME_COUNT,
            decreases n - k,
        {
            let range: (u64, u64) = ranges_get(&self.usable_range, k);
            proof {
                assert(range_ok(rs[k as int]));
                lemma_frames_push(rs.take(k as int), range, 0);
                assert(rs.take(k as int).push(range) =~= rs.take(k + 1));
            }
            total = total + (range.1 - range.0);
            k = k + 1;
        }
        proof {
            assert(rs.take(n as int) =~= rs);
        }
        if total < pages {
            return false;
        }
        let left: u64 = addr_space.kernel_pages_left();
        if left < pages {
            return false;
        }
        let allocated: u64 = KERNEL_VIRTUAL_PAGES - left;
        let mut j: u64 = 0;
        while j < pages
            invariant
                j <= pages,
                allocated + pages <= KERNEL_VIRTUAL_PAGES,
                allocated == addr_space.allocated(),
                pages == storage_pages(self.ranges()),
                pages <= frame_total(self.ranges()),
                0 < self.ranges().len() <= 16,
                ranges_ordered(self.ranges()),
                forall|i: int|
                    0 <= i < j ==> !page_table@.contains_key(
                        #[trigger] kernel_page_address(allocated + i),
                    ),
            decreases pages - j,
        {
            proof {
                lemma_kernel_pages(allocated as int, j as int);
            }
            let address: u64 = KERNEL_VIRTUAL_START + (allocated + j) * PAGE_SIZE;
            let page = Page::containing_address(VirtAddr::new(address));
            if page_table.translate_page(page).is_some() {
                assert(page_table@.contains_key(kernel_page_address(allocated + j)));
                return false;
            }
            j = j + 1;
        }
        true
    }

    /// Moves the allocator from the bootstrap state to the steady state.
    ///
    /// The bookkeeping record of the steady state is given pages in the
    /// kernel region, and each page a frame taken from the end of the usable
    /// ranges and mapped present and writable. Every frame that the ranges
    /// hold after that is marked free and put on the free list, lowest frame
    /// first.
    pub fn setup_buddy(&mut self, page_table: &mut PageTable, addr_space: &mut AddrSpaceManager)
        requires
            old(self).wf(),
            !old(self).is_steady(),
            can_set_up(old(self).ranges(), old(page_table)@, old(addr_space).allocated()),
        ensures
            final(self).wf(),
            final(self).is_steady(),
            final(self).ranges() == take_many(old(self).ranges(), storage_pages(old(self).ranges())),
            final(self).pool().free_list == frames_of(final(self).ranges()),
            final(self).pool().free_list.len() == frame_total(old(self).ranges()) - storage_pages(
                old(self).ranges(),
            ),
            final(self).pool().bitmap == Seq::new(
                tracked_frames(old(self).ranges()) as nat,
                |f: int| in_ranges(final(self).ranges(), f as u64),
            ),
            final(addr_space).allocated() == old(addr_space).allocated() + storage_pages(
                old(self).ranges(),
            ),
            final(page_table)@ == storage_mappings(
                old(page_table)@,
                old(addr_space).allocated() as int,
                frames_of(old(self).ranges()),
                storage_pages(old(self).ranges()),
            ),
            forall|g: int|
                0 <= g < tracked_frames(old(self).ranges()) && !in_ranges(
                    final(self).ranges(),
                    g as u64,
                ) ==> final(self).links()[g] == 0,
    {
        proof {
            lemma_take_many(self.ranges(), storage_pages(self.ranges()));
        }
        let buddy = Buddy::new(self, page_table, addr_space);
        self.buddy = Some(buddy);
    }

    /// Sets the allocator up from the memory map handed over at boot and
    /// brings it to the steady state: the usable ranges of the map are
    /// collected, and the steady state is set up from them right away.
    pub fn new(
        memory_map: &Vec<MemoryRegion>,
        page_table: &mut PageTable,
        addr_space: &mut AddrSpaceManager,
    ) -> (mgr: FrameManager)
        requires
            can_set_up(
                usable_ranges(memory_map@),
                old(page_table)@,
                old(addr_space).allocated(),
            ),
        ensures
            mgr.wf(),
            mgr.is_steady(),
            mgr.ranges() == take_many(
                usable_ranges(memory_map@),
                storage_pages(usable_ranges(memory_map@)),
            ),
            mgr.pool().free_list == frames_of(mgr.ranges()),
            mgr.pool().free_list.len() == frame_total(usable_ranges(memory_map@)) - storage_pages(
                usable_ranges(memory_map@),
            ),
            mgr.pool().bitmap == Seq::new(
                tracked_frames(usable_ranges(memory_map@)) as nat,
                |f: int| in_ranges(mgr.ranges(), f as u64),
            ),
            final(addr_space).allocated() == old(addr_space).allocated() + storage_pages(
                usable_ranges(memory_map@),
            ),
            final(page_table)@ == storage_mappings(
                old(page_table)@,
                old(addr_space).allocated() as int,
                frames_of(usable_ranges(memory_map@)),
                storage_pages(usable_ranges(memory_map@)),
            ),
            forall|g: int|
                0 <= g < tracked_frames(usable_ranges(memory_map@)) && !in_ranges(
                    mgr.ranges(),
                    g as u64,
                ) ==> mgr.links()[g] == 0,
    {
        let mut mgr = FrameManager::bootstrap(memory_map);
        mgr.setup_buddy(page_table, addr_space);
        mgr
    }

    /// Hands out one free frame, or `None` when no frame is left. Only single
    /// frames, order 0, can be asked for.
    ///
    /// In the bootstrap state the frame is the last one of the last usable
    /// range that still holds a frame, and empty ranges at the end of the
    /// list are dropped. In the steady state it is the head of the free
    /// list.
    pub fn allocate(&mut self, order: u8) -> (r: Option<FrameNumber>)
        requires
            order == 0,
            old(self).wf(),
        ensures
            final(self).wf(),
            old(self).allocates(final(self), frame_of(r)),
            r.is_some() == old(self).has_frame(),
            r matches Some(f) ==> 1 <= f@ < MAX_FRAME_COUNT,
    {
        proof {
            if self.is_steady() {
                lemma_alloc_step_wf(self.pool());
                if self.pool().free_list.len() > 0 {
                    assert(1 <= self.pool().free_list[0] < self.pool().bitmap.len());
                }
            } else {
                lemma_take_one(self.ranges());
                lemma_frames_increasing(self.ranges(), 0);
            }
        }
        match &mut self.buddy {
            Some(buddy) => buddy.allocate(order),
            None => {
                proof {
                    lemma_trim(self.ranges());
                }
                loop
                    invariant
                        self.buddy.is_none(),
                        old(self).buddy.is_none(),
                        take_one(old(self).ranges()).1.is_some() == (frame_total(
                            old(self).ranges(),
                        ) > 0),
                        take_one(old(self).ranges()).1 matches Some(f) ==> 1 <= f < MAX_FRAME_COUNT,
                        ranges_ordered(self.ranges()),
                        trim(self.ranges()) == trim(old(self).ranges()),
                        ranges_ordered(take_one(old(self).ranges()).0),
                    decreases self.ranges().len(),
                {
                    let n: usize = ranges_len(&self.usable_range);
                    if n == 0 {
                        return None;
                    }
                    let last: (u64, u64) = ranges_get(&self.usable_range, n - 1);
                    assert(range_ok(self.ranges()[n - 1]));
                    if last.1 - last.0 > 0 {
                        let end: u64 = last.1 - 1;
                        ranges_set(&mut self.usable_range, n - 1, (last.0, end));
                        proof {
                            let t = trim(old(self).ranges());
                            assert(self.ranges() =~= t.drop_last().push((t.last().0, end)));
                        }
                        return Some(FrameNumber::from_u64(end));
                    }
                    let ghost before = self.ranges();
                    let _ = ranges_pop(&mut self.usable_range);
                    proof {
                        assert(forall|i: int|
                            0 <= i < self.ranges().len() ==> self.ranges()[i] == before[i]);
                    }
                }
            },
        }
    }

    /// Puts a frame that is in use back into the pool, at the head of the
    /// free list. Only single frames, order 0, can be given back, and the
    /// allocator must be in the steady state.
    pub fn dealloc(&mut self, order: u8, start_frame: FrameNumber)
        requires
            order == 0,
            old(self).wf(),
            old(self).is_steady(),
            can_dealloc(old(self).pool(), start_frame@),
        ensures
            final(self).wf(),
            final(self).is_steady(),
            final(self).ranges() == old(self).ranges(),
            final(self).pool() == dealloc_step(old(self).pool(), start_frame@),
            final(self).links() == old(self).links().update(
                start_frame@ as int,
                old(self).free_head(),
            ),
    {
        proof {
            lemma_dealloc_step_wf(self.pool(), start_frame@);
        }
        match &mut self.buddy {
            Some(buddy) => {
                buddy.dealloc(order, start_frame);
            },
            None => {},
        }
    }
}

} // verus!
