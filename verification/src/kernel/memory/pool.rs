//! The pool of free frames as a mathematical object: which frames are free,
//! in which order they will be handed out, and what allocation and release
//! do to it.

use crate::kernel::memory::frame::MAX_FRAME_COUNT;
use vstd::prelude::*;

verus! {

/// The free frames of an allocator in steady state.
pub ghost struct PoolState {
    /// The free frames in the order in which they will be handed out.
    pub free_list: Seq<u64>,
    /// For each frame number, whether the frame is free.
    pub bitmap: Seq<bool>,
}

/// The list and the bitmap agree: a frame is marked free exactly when it is
/// on the list, no frame is on the list twice, and frame 0 is never free.
pub open spec fn pool_wf(s: PoolState) -> bool {
    &&& s.bitmap.len() <= MAX_FRAME_COUNT
    &&& s.free_list.no_duplicates()
    &&& forall|i: int|
        0 <= i < s.free_list.len() ==> 1 <= #[trigger] s.free_list[i] < s.bitmap.len()
            && s.bitmap[s.free_list[i] as int]
    &&& forall|f: int| 0 <= f < s.bitmap.len() && #[trigger] s.bitmap[f] ==> s.free_list.contains(f as u64)
}

/// Allocation takes the first frame of the list and marks it as in use.
/// With an empty list it fails and changes nothing.
pub open spec fn alloc_step(s: PoolState) -> (PoolState, Option<u64>) {
    if s.free_list.len() == 0 {
        (s, None)
    } else {
        let f = s.free_list[0];
        (PoolState { free_list: s.free_list.skip(1), bitmap: s.bitmap.update(f as int, false) }, Some(f))
    }
}

/// A frame can be released when it is tracked, is not frame 0, and is in
/// use.
pub open spec fn can_dealloc(s: PoolState, f: u64) -> bool {
    1 <= f < s.bitmap.len() && !s.bitmap[f as int]
}

/// Release puts the frame at the front of the list and marks it free.
pub open spec fn dealloc_step(s: PoolState, f: u64) -> PoolState {
    PoolState { free_list: seq![f] + s.free_list, bitmap: s.bitmap.update(f as int, true) }
}

/// The pool after `n` allocations in a row.
pub open spec fn drain(s: PoolState, n: nat) -> PoolState
    decreases n,
{
    if n == 0 {
        s
    } else {
        alloc_step(drain(s, (n - 1) as nat)).0
    }
}

/// The link words thread `list` together, starting from `head`: `head` is
/// the first frame of the list, the link word of each frame on the list
/// names the frame after it, and the link word of the last frame is 0. For
/// an empty list `head` is 0.
pub open spec fn is_chain(links: Seq<u64>, head: u64, list: Seq<u64>) -> bool {
    &&& head == if list.len() == 0 {
        0
    } else {
        list[0]
    }
    &&& forall|i: int|
        0 <= i < list.len() ==> 1 <= #[trigger] list[i] < links.len() && links[list[i] as int] == if i
            + 1 < list.len() {
            list[i + 1]
        } else {
            0
        }
}

/// Allocation keeps the list and the bitmap in agreement.
pub proof fn lemma_alloc_step_wf(s: PoolState)
    requires
        pool_wf(s),
    ensures
        pool_wf(alloc_step(s).0),
        alloc_step(s).1.is_some() <==> s.free_list.len() > 0,
{
    if s.free_list.len() > 0 {
        let f = s.free_list[0];
        let t = alloc_step(s).0;
        assert forall|i: int| 0 <= i < t.free_list.len() implies 1 <= #[trigger] t.free_list[i]
            < t.bitmap.len() && t.bitmap[t.free_list[i] as int] by {
            assert(t.free_list[i] == s.free_list[i + 1]);
        }
        assert forall|g: int| 0 <= g < t.bitmap.len() && #[trigger] t.bitmap[g] implies t.free_list.contains(
            g as u64,
        ) by {
            assert(s.bitmap[g]);
            let j = choose|j: int| 0 <= j < s.free_list.len() && s.free_list[j] == g as u64;
            assert(t.free_list[j - 1] == g as u64);
        }
        assert forall|i: int, j: int|
            0 <= i < t.free_list.len() && 0 <= j < t.free_list.len() && i != j implies t.free_list[i]
            != t.free_list[j] by {
            assert(t.free_list[i] == s.free_list[i + 1]);
            assert(t.free_list[j] == s.free_list[j + 1]);
        }
    }
}

/// Release keeps the list and the bitmap in agreement.
pub proof fn lemma_dealloc_step_wf(s: PoolState, f: u64)
    requires
        pool_wf(s),
        can_dealloc(s, f),
    ensures
        pool_wf(dealloc_step(s, f)),
{
    let t = dealloc_step(s, f);
    assert forall|i: int| 0 <= i < t.free_list.len() implies 1 <= #[trigger] t.free_list[i]
        < t.bitmap.len() && t.bitmap[t.free_list[i] as int] by {
        if i > 0 {
            assert(t.free_list[i] == s.free_list[i - 1]);
        }
    }
    assert forall|g: int| 0 <= g < t.bitmap.len() && #[trigger] t.bitmap[g] implies t.free_list.contains(
        g as u64,
    ) by {
        if g == f {
            assert(t.free_list[0] == f);
        } else {
            assert(s.bitmap[g]);
            let j = choose|j: int| 0 <= j < s.free_list.len() && s.free_list[j] == g as u64;
            assert(t.free_list[j + 1] == g as u64);
        }
    }
    assert forall|i: int, j: int|
        0 <= i < t.free_list.len() && 0 <= j < t.free_list.len() && i != j implies t.free_list[i]
        != t.free_list[j] by {
        if i > 0 {
            assert(t.free_list[i] == s.free_list[i - 1]);
        }
        if j > 0 {
            assert(t.free_list[j] == s.free_list[j - 1]);
        }
    }
}

/// A frame is marked free in the bitmap exactly when it is on the free
/// list.
pub proof fn lemma_bitmap_matches_list(s: PoolState, f: u64)
    requires
        pool_wf(s),
        f < s.bitmap.len(),
    ensures
        s.bitmap[f as int] <==> s.free_list.contains(f),
{
    if s.free_list.contains(f) {
        let j = choose|j: int| 0 <= j < s.free_list.len() && s.free_list[j] == f;
        assert(s.bitmap[s.free_list[j] as int]);
    }
}

/// The link words admit one list only: two lists threaded from the same
/// head through the same link words are the same list.
pub proof fn lemma_chain_unique(links: Seq<u64>, head: u64, a: Seq<u64>, b: Seq<u64>)
    requires
        is_chain(links, head, a),
        is_chain(links, head, b),
    ensures
        a == b,
    decreases a.len(),
{
    if a.len() == 0 {
        if b.len() > 0 {
            assert(1 <= b[0]);
        }
        assert(a =~= b);
    } else {
        assert(1 <= a[0]);
        assert(b.len() > 0);
        let next = links[a[0] as int];
        let a1 = a.skip(1);
        let b1 = b.skip(1);
        assert forall|i: int| 0 <= i < a1.len() implies 1 <= #[trigger] a1[i] < links.len()
            && links[a1[i] as int] == if i + 1 < a1.len() {
            a1[i + 1]
        } else {
            0
        } by {
            assert(a1[i] == a[i + 1]);
        }
        assert forall|i: int| 0 <= i < b1.len() implies 1 <= #[trigger] b1[i] < links.len()
            && links[b1[i] as int] == if i + 1 < b1.len() {
            b1[i + 1]
        } else {
            0
        } by {
            assert(b1[i] == b[i + 1]);
        }
        assert(links[a[0] as int] == if 1 < a.len() {
            a[1]
        } else {
            0
        });
        assert(links[b[0] as int] == if 1 < b.len() {
            b[1]
        } else {
            0
        });
        if a1.len() > 0 {
            assert(a1[0] == a[1]);
            assert(1 <= a1[0]);
        }
        if b1.len() > 0 {
            assert(b1[0] == b[1]);
            assert(1 <= b1[0]);
        }
        assert(is_chain(links, next, a1));
        assert(is_chain(links, next, b1));
        lemma_chain_unique(links, next, a1, b1);
        assert(a =~= seq![a[0]] + a1);
        assert(b =~= seq![b[0]] + b1);
    }
}

/// Taking the head off a threaded list leaves the rest threaded from the
/// head's link word.
pub proof fn lemma_chain_pop_front(links: Seq<u64>, head: u64, list: Seq<u64>)
    requires
        is_chain(links, head, list),
        list.len() > 0,
    ensures
        is_chain(links, links[head as int], list.skip(1)),
{
    let rest = list.skip(1);
    assert(1 <= list[0]);
    assert forall|i: int| 0 <= i < rest.len() implies 1 <= #[trigger] rest[i] < links.len()
        && links[rest[i] as int] == if i + 1 < rest.len() {
        rest[i + 1]
    } else {
        0
    } by {
        assert(rest[i] == list[i + 1]);
    }
    if rest.len() > 0 {
        assert(rest[0] == list[1]);
    }
}

/// Writing the old head into the link word of a frame that is not on the
/// list puts that frame in front of the list.
pub proof fn lemma_chain_push_front(links: Seq<u64>, head: u64, list: Seq<u64>, g: u64)
    requires
        is_chain(links, head, list),
        1 <= g < links.len(),
        !list.contains(g),
    ensures
        is_chain(links.update(g as int, head), g, seq![g] + list),
{
    let links2 = links.update(g as int, head);
    let list2 = seq![g] + list;
    assert forall|i: int| 0 <= i < list2.len() implies 1 <= #[trigger] list2[i] < links2.len()
        && links2[list2[i] as int] == if i + 1 < list2.len() {
        list2[i + 1]
    } else {
        0
    } by {
        if i > 0 {
            assert(list2[i] == list[i - 1]);
            assert(list.contains(list[i - 1]));
            if i + 1 < list2.len() {
                assert(list2[i + 1] == list[i]);
            }
        } else {
            if list.len() > 0 {
                assert(list2[1] == list[0]);
            }
        }
    }
}

/// Releasing a frame right after it was allocated restores the pool: the
/// frame is marked free again and is back on the free list, and every
/// other frame is where it was.
pub proof fn lemma_alloc_then_dealloc(s: PoolState)
    requires
        pool_wf(s),
        s.free_list.len() > 0,
    ensures
        can_dealloc(alloc_step(s).0, alloc_step(s).1.unwrap()),
        dealloc_step(alloc_step(s).0, alloc_step(s).1.unwrap()) == s,
        s.bitmap[alloc_step(s).1.unwrap() as int],
        s.free_list.contains(alloc_step(s).1.unwrap()),
{
    let f = s.free_list[0];
    let t = dealloc_step(alloc_step(s).0, f);
    assert(t.free_list =~= s.free_list);
    assert(t.bitmap =~= s.bitmap);
}

/// The `k`-th allocation in a row, counted from 0, hands out the `k`-th
/// frame of the free list, as long as the list is that long.
pub proof fn lemma_drain(s: PoolState, k: nat)
    requires
        pool_wf(s),
        k <= s.free_list.len(),
    ensures
        pool_wf(drain(s, k)),
        drain(s, k).free_list == s.free_list.skip(k as int),
        k < s.free_list.len() ==> alloc_step(drain(s, k)).1 == Some(s.free_list[k as int]),
        k == s.free_list.len() ==> alloc_step(drain(s, k)).1.is_none(),
    decreases k,
{
    if k == 0 {
        assert(s.free_list.skip(0) =~= s.free_list);
    } else {
        lemma_drain(s, (k - 1) as nat);
        let p = drain(s, (k - 1) as nat);
        lemma_alloc_step_wf(p);
        assert(p.free_list.skip(1) =~= s.free_list.skip(k as int));
    }
}

/// Allocations with no release in between never hand out the same frame
/// twice.
pub proof fn lemma_no_double_allocation(s: PoolState, i: nat, j: nat)
    requires
        pool_wf(s),
        i < j < s.free_list.len(),
    ensures
        alloc_step(drain(s, i)).1.is_some(),
        alloc_step(drain(s, j)).1.is_some(),
        alloc_step(drain(s, i)).1 != alloc_step(drain(s, j)).1,
{
    lemma_drain(s, i);
    lemma_drain(s, j);
}

/// A pool with `n` free frames serves exactly `n` allocations: each of the
/// first `n` succeeds, and the one after them fails.
pub proof fn lemma_exhaustion(s: PoolState, k: nat)
    requires
        pool_wf(s),
        k <= s.free_list.len(),
    ensures
        k < s.free_list.len() ==> alloc_step(drain(s, k)).1.is_some(),
        k == s.free_list.len() ==> alloc_step(drain(s, k)).1.is_none(),
{
    lemma_drain(s, k);
}

} // verus!
