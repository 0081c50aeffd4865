//! The link words that thread the free frames into a list.

use crate::kernel::memory::frame::{FrameNumber, MAX_FRAME_COUNT};
use vstd::prelude::*;

verus! {

/// The link words of the tracked frames. While a frame is free its link
/// word names the next free frame, or holds 0 at the end of the list. The
/// words are kept in one array, indexed by frame number, and are reached
/// through `read_link` and `write_link` only.
pub struct FrameLinks {
    words: Vec<u64>,
}

impl View for FrameLinks {
    type V = Seq<u64>;

    /// The link word of each frame, by frame number.
    closed spec fn view(&self) -> Seq<u64> {
        self.words@
    }
}

impl FrameLinks {
    /// The link words of frames `0` to `frames - 1`, all zero.
    pub fn new(frames: u64) -> (r: FrameLinks)
        requires
            frames <= MAX_FRAME_COUNT,
        ensures
            r@ == Seq::new(frames as nat, |i: int| 0u64),
    {
        let mut words: Vec<u64> = Vec::new();
        let mut i: u64 = 0;
        while i < frames
            invariant
                i <= frames,
                words@ == Seq::new(i as nat, |j: int| 0u64),
            decreases frames - i,
        {
            words.push(0);
            i = i + 1;
            assert(words@ =~= Seq::new(i as nat, |j: int| 0u64));
        }
        FrameLinks { words }
    }

    /// The link word of `frame`.
    pub fn read_link(&self, frame: FrameNumber) -> (r: FrameNumber)
        requires
            frame@ < self@.len(),
        ensures
            r@ == self@[frame@ as int],
    {
        assert(frame@ < self.words.len());
        FrameNumber::from_u64(self.words[frame.into_u64() as usize])
    }

    /// Sets the link word of `frame` to `next` and leaves the others alone.
    pub fn write_link(&mut self, frame: FrameNumber, next: FrameNumber)
        requires
            frame@ < old(self)@.len(),
        ensures
            final(self)@ == old(self)@.update(frame@ as int, next@),
    {
        assert(frame@ < self.words.len());
        let idx: usize = frame.into_u64() as usize;
        self.words[idx] = next.into_u64();
    }
}

} // verus!
