//! The list of usable frame ranges reported at boot.

use crate::kernel::memory::frame::MAX_FRAME_COUNT;
use vstd::prelude::*;

verus! {

#[verifier::external_type_specification]
#[verifier::external_body]
#[verifier::reject_recursive_types(T)]
pub struct ExHeaplessVec<T, const N: usize>(heapless::Vec<T, N>);

/// The ranges that a range list holds, oldest first, each as its first
/// frame number and the frame number just past its last.
pub uninterp spec fn range_items(list: heapless::Vec<(u64, u64), 16>) -> Seq<(u64, u64)>;

/// `heapless::Vec::new`, which makes a list that holds nothing.
#[verifier::external_body]
pub(crate) fn ranges_new() -> (list: heapless::Vec<(u64, u64), 16>)
    ensures
        range_items(list) == Seq::<(u64, u64)>::empty(),
{
    heapless::Vec::new()
}

/// The length of what `heapless::Vec::as_slice` returns: the number of
/// items held. A list of capacity 16 never holds more than 16 items, since
/// `push` is the only way in and it refuses a seventeenth.
#[verifier::external_body]
pub(crate) fn ranges_len(list: &heapless::Vec<(u64, u64), 16>) -> (n: usize)
    ensures
        n == range_items(*list).len(),
        n <= 16,
{
    list.as_slice().len()
}

/// `heapless::Vec::push`, which appends `item` if fewer than 16 items are
/// held, and otherwise hands it back and leaves the list alone.
#[verifier::external_body]
pub(crate) fn ranges_push(list: &mut heapless::Vec<(u64, u64), 16>, item: (u64, u64)) -> (r: Result<(), (u64, u64)>)
    ensures
        r.is_ok() == (range_items(*old(list)).len() < 16),
        r.is_ok() ==> range_items(*final(list)) == range_items(*old(list)).push(item),
        r matches Err(back) ==> back == item && range_items(*final(list)) == range_items(*old(list)),
{
    list.push(item)
}

/// `heapless::Vec::pop`, which removes and returns the last item, or
/// returns `None` and leaves the list alone when it is empty.
#[verifier::external_body]
pub(crate) fn ranges_pop(list: &mut heapless::Vec<(u64, u64), 16>) -> (r: Option<(u64, u64)>)
    ensures
        range_items(*old(list)).len() > 0 ==> r == Some(range_items(*old(list)).last())
            && range_items(*final(list)) == range_items(*old(list)).drop_last(),
        range_items(*old(list)).len() == 0 ==> r.is_none() && range_items(*final(list))
            == range_items(*old(list)),
{
    list.pop()
}

/// Item `i` of what `heapless::Vec::as_slice` returns, the items held in
/// order. Indexing past the end would panic, so `i` must be in range.
#[verifier::external_body]
pub(crate) fn ranges_get(list: &heapless::Vec<(u64, u64), 16>, i: usize) -> (item: (u64, u64))
    requires
        i < range_items(*list).len(),
    ensures
        item == range_items(*list)[i as int],
{
    list.as_slice()[i]
}

/// Overwrites item `i` of what `heapless::Vec::as_mut_slice` returns, the
/// items held in order, and leaves the other items alone. Indexing past the
/// end would panic, so `i` must be in range.
#[verifier::external_body]
pub(crate) fn ranges_set(list: &mut heapless::Vec<(u64, u64), 16>, i: usize, item: (u64, u64))
    requires
        i < range_items(*old(list)).len(),
    ensures
        range_items(*final(list)) == range_items(*old(list)).update(i as int, item),
{
    list.as_mut_slice()[i] = item;
}

/// A run of physical frames, from `start_frame_number` up to but not
/// including `end_frame_number`.
#[derive(Clone, Copy, Debug, PartialEq, Eq, Structural)]
pub struct FrameRange {
    /// The first frame of the range.
    pub start_frame_number: u64,
    /// The frame just past the last frame of the range.
    pub end_frame_number: u64,
}

/// What a region of physical memory is used for, as far as the allocator
/// cares.
#[derive(Clone, Copy, Debug, PartialEq, Eq, Structural)]
pub enum MemoryRegionType {
    /// Free memory that the kernel may use.
    Usable,
    /// Memory that holds the kernel, its stack or the boot information.
    InUse,
    /// Memory that the firmware or the hardware keeps for itself.
    Reserved,
}

/// One entry of the memory map handed over at boot.
#[derive(Clone, Copy, Debug, PartialEq, Eq, Structural)]
pub struct MemoryRegion {
    /// The frames of the region.
    pub range: FrameRange,
    /// What the region is used for.
    pub region_type: MemoryRegionType,
}

/// The usable ranges of a memory map, in the order of the map.
pub open spec fn usable_ranges(map: Seq<MemoryRegion>) -> Seq<(u64, u64)>
    decreases map.len(),
{
    if map.len() == 0 {
        Seq::empty()
    } else {
        let rest = usable_ranges(map.drop_last());
        let region = map.last();
        if region.region_type == MemoryRegionType::Usable {
            rest.push((region.range.start_frame_number, region.range.end_frame_number))
        } else {
            rest
        }
    }
}

/// A range is sound when it starts at frame 1 or later (frame 0 is
/// reserved), does not end before it starts, and ends within the frames that
/// can be tracked.
pub open spec fn range_ok(r: (u64, u64)) -> bool {
    1 <= r.0 <= r.1 <= MAX_FRAME_COUNT
}

/// A list of ranges is ordered when each range is sound and each ends
/// no later than the next one starts: the ranges are in ascending order and
/// no two of them share a frame.
pub open spec fn ranges_ordered(rs: Seq<(u64, u64)>) -> bool {
    &&& forall|i: int| 0 <= i < rs.len() ==> range_ok(#[trigger] rs[i])
    &&& forall|i: int, j: int| 0 <= i < j < rs.len() ==> (#[trigger] rs[i]).1 <= (#[trigger] rs[j]).0
}

/// Whether frame `f` lies in one of the ranges.
pub open spec fn in_ranges(rs: Seq<(u64, u64)>, f: u64) -> bool {
    exists|i: int| 0 <= i < rs.len() && (#[trigger] rs[i]).0 <= f < rs[i].1
}

/// The frame numbers `a, a + 1, ..., b - 1`.
pub open spec fn span(a: u64, b: u64) -> Seq<u64> {
    Seq::new((b - a) as nat, |i: int| (a + i) as u64)
}

/// The frames of the ranges from index `k` on, in list order.
pub open spec fn frames_from(rs: Seq<(u64, u64)>, k: int) -> Seq<u64>
    decreases rs.len() - k,
{
    if 0 <= k < rs.len() {
        span(rs[k].0, rs[k].1) + frames_from(rs, k + 1)
    } else {
        Seq::empty()
    }
}

/// The frames of all the ranges, in list order.
pub open spec fn frames_of(rs: Seq<(u64, u64)>) -> Seq<u64> {
    frames_from(rs, 0)
}

/// The number of frames in all the ranges together.
pub open spec fn frame_total(rs: Seq<(u64, u64)>) -> nat {
    frames_of(rs).len()
}

/// The list without the empty ranges at its end.
pub open spec fn trim(rs: Seq<(u64, u64)>) -> Seq<(u64, u64)>
    decreases rs.len(),
{
    if rs.len() == 0 || rs.last().0 < rs.last().1 {
        rs
    } else {
        trim(rs.drop_last())
    }
}

/// Taking one frame from a list of ranges: empty ranges at the end are
/// dropped, and the last frame of the last range that is left is removed
/// and returned. With no frame left the result is `None` and an empty list.
pub open spec fn take_one(rs: Seq<(u64, u64)>) -> (Seq<(u64, u64)>, Option<u64>) {
    let t = trim(rs);
    if t.len() == 0 {
        (t, None)
    } else {
        let f = (t.last().1 - 1) as u64;
        (t.drop_last().push((t.last().0, f)), Some(f))
    }
}

/// The list after taking `n` frames, one after the other.
pub open spec fn take_many(rs: Seq<(u64, u64)>, n: nat) -> Seq<(u64, u64)>
    decreases n,
{
    if n == 0 {
        rs
    } else {
        take_one(take_many(rs, (n - 1) as nat)).0
    }
}

/// The frames that taking `n` frames returns, in the order taken. An entry
/// is `None` where the ranges had run out.
pub open spec fn taken(rs: Seq<(u64, u64)>, n: nat) -> Seq<Option<u64>>
    decreases n,
{
    if n == 0 {
        Seq::empty()
    } else {
        taken(rs, (n - 1) as nat).push(take_one(take_many(rs, (n - 1) as nat)).1)
    }
}

/// Every range of the list ends at `limit` or before.
pub open spec fn ranges_within(rs: Seq<(u64, u64)>, limit: u64) -> bool {
    forall|i: int| 0 <= i < rs.len() ==> (#[trigger] rs[i]).1 <= limit
}

/// Appending a range to a list appends its frames.
pub proof fn lemma_frames_push(rs: Seq<(u64, u64)>, x: (u64, u64), k: int)
    requires
        0 <= k <= rs.len(),
        x.0 <= x.1,
    ensures
        frames_from(rs.push(x), k) == frames_from(rs, k) + span(x.0, x.1),
    decreases rs.len() - k,
{
    let ext = rs.push(x);
    if k < rs.len() {
        lemma_frames_push(rs, x, k + 1);
        assert(ext[k] == rs[k]);
        assert(frames_from(ext, k) =~= frames_from(rs, k) + span(x.0, x.1));
    } else {
        assert(ext[k] == x);
        assert(frames_from(ext, k + 1) =~= Seq::<u64>::empty());
        assert(frames_from(rs, k) =~= Seq::<u64>::empty());
        assert(frames_from(ext, k) =~= frames_from(rs, k) + span(x.0, x.1));
    }
}

/// Whether frame `f` lies in one of the ranges from index `k` on.
pub open spec fn in_ranges_from(rs: Seq<(u64, u64)>, k: int, f: u64) -> bool {
    exists|i: int| k <= i < rs.len() && (#[trigger] rs[i]).0 <= f < rs[i].1
}

/// A frame is among the frames of a list exactly when it lies in one of
/// its ranges.
pub proof fn lemma_frames_contains(rs: Seq<(u64, u64)>, k: int, f: u64)
    requires
        0 <= k <= rs.len(),
        forall|i: int| 0 <= i < rs.len() ==> (#[trigger] rs[i]).0 <= rs[i].1,
    ensures
        frames_from(rs, k).contains(f) <==> in_ranges_from(rs, k, f),
        k == 0 ==> (in_ranges_from(rs, k, f) <==> in_ranges(rs, f)),
    decreases rs.len() - k,
{
    if k < rs.len() {
        lemma_frames_contains(rs, k + 1, f);
        let head = span(rs[k].0, rs[k].1);
        let tail = frames_from(rs, k + 1);
        let all = frames_from(rs, k);
        assert(all == head + tail);
        assert(rs[k].0 <= rs[k].1);
        let here = rs[k].0 <= f < rs[k].1;
        if all.contains(f) {
            let j = choose|j: int| 0 <= j < all.len() && all[j] == f;
            if j < head.len() {
                assert(all[j] == head[j]);
                assert(here);
                assert(in_ranges_from(rs, k, f));
            } else {
                assert(all[j] == tail[j - head.len()]);
                assert(tail.contains(f));
                let i = choose|i: int| k + 1 <= i < rs.len() && (#[trigger] rs[i]).0 <= f < rs[i].1;
                assert(k <= i < rs.len() && rs[i].0 <= f < rs[i].1);
                assert(in_ranges_from(rs, k, f));
            }
        }
        if in_ranges_from(rs, k, f) {
            let i = choose|i: int| k <= i < rs.len() && (#[trigger] rs[i]).0 <= f < rs[i].1;
            if i == k {
                let j = f - rs[k].0;
                assert(head[j] == f);
                assert(all[j] == f);
                assert(all.contains(f));
            } else {
                assert(k + 1 <= i < rs.len() && rs[i].0 <= f < rs[i].1);
                assert(in_ranges_from(rs, k + 1, f));
                assert(tail.contains(f));
                let j = choose|j: int| 0 <= j < tail.len() && tail[j] == f;
                assert(all[head.len() + j] == f);
                assert(all.contains(f));
            }
        }
    } else {
        assert(frames_from(rs, k) =~= Seq::<u64>::empty());
    }
    if k == 0 {
        if in_ranges(rs, f) {
            let i = choose|i: int| 0 <= i < rs.len() && (#[trigger] rs[i]).0 <= f < rs[i].1;
            assert(k <= i < rs.len() && rs[i].0 <= f < rs[i].1);
        }
        if in_ranges_from(rs, k, f) {
            let i = choose|i: int| k <= i < rs.len() && (#[trigger] rs[i]).0 <= f < rs[i].1;
            assert(0 <= i < rs.len() && rs[i].0 <= f < rs[i].1);
        }
    }
}

/// The frames of an ordered list are in strictly increasing order, start at
/// frame 1 or later, and stay within the frames that can be tracked.
pub proof fn lemma_frames_increasing(rs: Seq<(u64, u64)>, k: int)
    requires
        0 <= k <= rs.len(),
        ranges_ordered(rs),
    ensures
        forall|i: int, j: int|
            0 <= i < j < frames_from(rs, k).len() ==> frames_from(rs, k)[i] < frames_from(rs, k)[j],
        forall|i: int|
            0 <= i < frames_from(rs, k).len() ==> 1 <= #[trigger] frames_from(rs, k)[i]
                < MAX_FRAME_COUNT,
        k < rs.len() ==> forall|i: int|
            0 <= i < frames_from(rs, k).len() ==> rs[k].0 <= #[trigger] frames_from(rs, k)[i],
    decreases rs.len() - k,
{
    if k < rs.len() {
        lemma_frames_increasing(rs, k + 1);
        let head = span(rs[k].0, rs[k].1);
        let tail = frames_from(rs, k + 1);
        let all = frames_from(rs, k);
        assert(range_ok(rs[k]));
        assert(all =~= head + tail);
        assert forall|i: int| 0 <= i < tail.len() implies rs[k].1 <= #[trigger] tail[i] by {
            assert(k + 1 < rs.len());
            assert(rs[k].1 <= rs[k + 1].0);
        }
        assert forall|i: int, j: int| 0 <= i < j < all.len() implies all[i] < all[j] by {
            if j >= head.len() {
                assert(all[j] == tail[j - head.len()]);
                if i >= head.len() {
                    assert(all[i] == tail[i - head.len()]);
                }
            }
        }
        assert forall|i: int| 0 <= i < all.len() implies 1 <= #[trigger] all[i]
            < MAX_FRAME_COUNT && rs[k].0 <= all[i] by {
            if i >= head.len() {
                assert(all[i] == tail[i - head.len()]);
            }
        }
    }
}

/// Dropping the empty ranges at the end of an ordered list keeps it ordered
/// and keeps its frames. What is left is empty or ends in a range that
/// holds a frame.
pub proof fn lemma_trim(rs: Seq<(u64, u64)>)
    requires
        ranges_ordered(rs),
    ensures
        ranges_ordered(trim(rs)),
        trim(rs).len() <= rs.len(),
        trim(rs) == rs.take(trim(rs).len() as int),
        frames_of(trim(rs)) == frames_of(rs),
        trim(rs).len() > 0 ==> trim(rs).last().0 < trim(rs).last().1,
    decreases rs.len(),
{
    if rs.len() == 0 || rs.last().0 < rs.last().1 {
        assert(rs.take(rs.len() as int) =~= rs);
    } else {
        let d = rs.drop_last();
        assert(forall|i: int| 0 <= i < d.len() ==> d[i] == rs[i]);
        lemma_trim(d);
        assert(range_ok(rs.last()));
        lemma_frames_push(d, rs.last(), 0);
        assert(d.push(rs.last()) =~= rs);
        assert(span(rs.last().0, rs.last().1) =~= Seq::<u64>::empty());
        assert(frames_of(rs) =~= frames_of(d));
        assert(trim(rs).take(trim(rs).len() as int) =~= trim(rs));
        assert(rs.take(trim(rs).len() as int) =~= d.take(trim(rs).len() as int));
    }
}

/// Taking one frame from an ordered list keeps it ordered. It fails
/// exactly when the list holds no frame, and otherwise removes the last
/// frame of the list, which is also the highest.
pub proof fn lemma_take_one(rs: Seq<(u64, u64)>)
    requires
        ranges_ordered(rs),
    ensures
        ranges_ordered(take_one(rs).0),
        take_one(rs).0.len() <= rs.len(),
        take_one(rs).1.is_none() <==> frame_total(rs) == 0,
        take_one(rs).1.is_none() ==> frames_of(take_one(rs).0) == frames_of(rs),
        take_one(rs).1.is_some() ==> frames_of(take_one(rs).0) == frames_of(rs).drop_last()
            && take_one(rs).1 == Some(frames_of(rs).last()),
        forall|limit: u64| ranges_within(rs, limit) ==> ranges_within(take_one(rs).0, limit),
{
    lemma_trim(rs);
    let t = trim(rs);
    assert forall|limit: u64| ranges_within(rs, limit) implies ranges_within(
        take_one(rs).0,
        limit,
    ) by {
        let next = take_one(rs).0;
        assert forall|i: int| 0 <= i < next.len() implies (#[trigger] next[i]).1 <= limit by {
            assert(t[i] == rs[i]);
            assert(rs[i].1 <= limit);
        }
    }
    if t.len() == 0 {
        assert(frames_of(t) =~= Seq::<u64>::empty());
    } else {
        let d = t.drop_last();
        let last = t.last();
        let f = (last.1 - 1) as u64;
        let shrunk = (last.0, f);
        let next = d.push(shrunk);
        assert(range_ok(last));
        assert(forall|i: int| 0 <= i < d.len() ==> d[i] == t[i]);
        assert(d.push(last) =~= t);
        lemma_frames_push(d, last, 0);
        lemma_frames_push(d, shrunk, 0);
        assert(span(last.0, last.1) =~= span(last.0, f).push(f));
        assert(frames_of(t) =~= frames_of(next).push(f));
        assert(frames_of(next) =~= frames_of(t).drop_last());
        assert forall|i: int, j: int| 0 <= i < j < next.len() implies (#[trigger] next[i]).1 <= (
        #[trigger] next[j]).0 by {
            assert(t[i].1 <= t[j].0);
        }
        assert forall|i: int| 0 <= i < next.len() implies range_ok(#[trigger] next[i]) by {
            assert(range_ok(t[i]));
        }
    }
}

/// Taking `n` frames from an ordered list that holds at least `n` removes
/// the `n` highest frames, highest first, and leaves the others in place.
pub proof fn lemma_take_many(rs: Seq<(u64, u64)>, n: nat)
    requires
        ranges_ordered(rs),
        n <= frame_total(rs),
    ensures
        ranges_ordered(take_many(rs, n)),
        take_many(rs, n).len() <= rs.len(),
        frames_of(take_many(rs, n)) == frames_of(rs).take(frame_total(rs) - n),
        frame_total(take_many(rs, n)) == frame_total(rs) - n,
        taken(rs, n).len() == n,
        forall|i: int|
            0 <= i < n ==> #[trigger] taken(rs, n)[i] == Some(frames_of(rs)[frame_total(rs) - 1 - i]),
        forall|limit: u64| ranges_within(rs, limit) ==> ranges_within(take_many(rs, n), limit),
    decreases n,
{
    let all = frames_of(rs);
    if n == 0 {
        assert(all.take(all.len() as int) =~= all);
    } else {
        let m = (n - 1) as nat;
        lemma_take_many(rs, m);
        let prev = take_many(rs, m);
        lemma_take_one(prev);
        assert(frames_of(prev).drop_last() =~= all.take(all.len() - n));
        assert(frames_of(prev).last() == all[all.len() - n]);
        assert forall|i: int| 0 <= i < n implies #[trigger] taken(rs, n)[i] == Some(
            all[all.len() - 1 - i],
        ) by {
            if i < m {
                assert(taken(rs, n)[i] == taken(rs, m)[i]);
            }
        }
    }
}

/// A frame of the ranges that taking `n` frames did not return still lies
/// in the ranges afterwards.
pub proof fn lemma_untaken_frames_stay(rs: Seq<(u64, u64)>, n: nat, f: u64)
    requires
        ranges_ordered(rs),
        n <= frame_total(rs),
        in_ranges(rs, f),
        !taken(rs, n).contains(Some(f)),
    ensures
        in_ranges(take_many(rs, n), f),
{
    let all = frames_of(rs);
    let left = take_many(rs, n);
    lemma_take_many(rs, n);
    lemma_frames_contains(rs, 0, f);
    assert forall|i: int| 0 <= i < left.len() implies (#[trigger] left[i]).0 <= left[i].1 by {
        assert(range_ok(left[i]));
    }
    assert forall|i: int| 0 <= i < rs.len() implies (#[trigger] rs[i]).0 <= rs[i].1 by {
        assert(range_ok(rs[i]));
    }
    lemma_frames_contains(left, 0, f);
    let j = choose|j: int| 0 <= j < all.len() && all[j] == f;
    if j >= all.len() - n {
        let i = all.len() - 1 - j;
        assert(taken(rs, n)[i] == Some(f));
    }
    assert(all.take(all.len() - n)[j] == f);
}

/// The usable ranges of the first `i` entries of a memory map are the
/// first of the usable ranges of the whole map.
pub proof fn lemma_usable_ranges_prefix(map: Seq<MemoryRegion>, i: int)
    requires
        0 <= i <= map.len(),
    ensures
        usable_ranges(map.take(i)).len() <= usable_ranges(map).len(),
        usable_ranges(map.take(i)) == usable_ranges(map).take(
            usable_ranges(map.take(i)).len() as int,
        ),
    decreases map.len() - i,
{
    let all = usable_ranges(map);
    if i < map.len() {
        lemma_usable_ranges_prefix(map, i + 1);
        assert(map.take(i + 1).drop_last() =~= map.take(i));
        let shorter = usable_ranges(map.take(i));
        let longer = usable_ranges(map.take(i + 1));
        assert(shorter =~= longer.take(shorter.len() as int));
        assert(shorter =~= all.take(shorter.len() as int));
    } else {
        assert(map.take(i) =~= map);
        assert(all.take(all.len() as int) =~= all);
    }
}

/// In an ordered list no range ends after the last one does.
pub proof fn lemma_ordered_within_last(rs: Seq<(u64, u64)>)
    requires
        ranges_ordered(rs),
        rs.len() > 0,
    ensures
        ranges_within(rs, rs.last().1),
{
    assert forall|i: int| 0 <= i < rs.len() implies (#[trigger] rs[i]).1 <= rs.last().1 by {
        if i < rs.len() - 1 {
            assert(rs[i].1 <= rs[rs.len() - 1].0);
            assert(range_ok(rs[rs.len() - 1]));
        }
    }
}

} // verus!
