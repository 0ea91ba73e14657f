//! Physical frames and the allocator interface.

use vstd::prelude::*;

pub mod frame;
pub mod paging;

verus! {

/// Size of a page and of a frame, in bytes.
pub const PAGE_SIZE: u32 = 4096;

/// Number of frames in the 32-bit physical address space.
pub const FRAME_COUNT: usize = 0x10_0000;

/// An address in physical memory.
pub type PhysicalAddress = u32;

/// One page of physical memory, named by its number.
#[derive(Debug, Clone, Copy, PartialEq, Eq, Structural)]
pub struct Frame {
    pub number: usize,
}

impl Frame {
    /// A frame is addressable when its first byte lies in the 32-bit
    /// physical address space.
    pub open spec fn addressable(self) -> bool {
        self.number < FRAME_COUNT
    }

    /// Address of the first byte of the frame.
    pub open spec fn start_address_spec(&self) -> PhysicalAddress
        recommends
            self.addressable(),
    {
        (self.number * 4096) as u32
    }

    /// The frame that holds the byte at `address`.
    pub fn containing_address(address: PhysicalAddress) -> (frame: Frame)
        ensures
            frame.number == address as int / 4096,
            frame.addressable(),
    {
        Frame { number: (address / PAGE_SIZE) as usize }
    }

    /// Address of the first byte of the frame.
    #[verifier::when_used_as_spec(start_address_spec)]
    pub fn start_address(&self) -> (address: PhysicalAddress)
        requires
            self.addressable(),
        ensures
            address == self.start_address_spec(),
            address as int == self.number * 4096,
    {
        (self.number as u32) * PAGE_SIZE
    }

    /// The frames from `start` to `end`, both included.
    pub fn range_inclusive(start: Frame, end: Frame) -> (iter: FrameIter)
        ensures
            iter.start == start,
            iter.end == end,
    {
        FrameIter { start, end }
    }
}

/// Walks a range of frames in ascending order.
#[derive(Clone, Copy)]
pub struct FrameIter {
    pub start: Frame,
    pub end: Frame,
}

impl FrameIter {
    /// The frames that are still to come, as a sequence of frame numbers.
    pub open spec fn remaining(self) -> Seq<nat> {
        if self.start.number <= self.end.number {
            Seq::new(
                (self.end.number - self.start.number + 1) as nat,
                |i: int| (self.start.number + i) as nat,
            )
        } else {
            Seq::empty()
        }
    }

    /// Hands out the next frame of the range, if there is one.
    pub fn next(&mut self) -> (frame: Option<Frame>)
        requires
            old(self).end.number < usize::MAX,
        ensures
            old(self).remaining().len() == 0 ==> frame is None && *final(self) == *old(self),
            old(self).remaining().len() > 0 ==> frame == Some(old(self).start)
                && final(self).remaining() == old(self).remaining().skip(1)
                && final(self).end == old(self).end
                && final(self).start.number == old(self).start.number + 1,
    {
        if self.start.number <= self.end.number {
            let frame = self.start;
            self.start.number += 1;
            proof {
                assert(final(self).remaining() =~= old(self).remaining().skip(1));
            }
            Some(frame)
        } else {
            None
        }
    }
}

/// Whether `frames` holds `count` frames or more.
pub open spec fn holds_at_least(frames: Set<nat>, count: nat) -> bool
    decreases count,
{
    count == 0 || (!frames.is_empty() && forall|f: nat|
        frames.contains(f) ==> holds_at_least(#[trigger] frames.remove(f), (count - 1) as nat))
}

/// A finite set holds as many frames as it has elements.
pub proof fn lemma_holds_at_least(frames: Set<nat>, count: nat)
    requires
        frames.finite(),
        frames.len() >= count,
    ensures
        holds_at_least(frames, count),
    decreases count,
{
    if count > 0 {
        assert(!frames.is_empty()) by {
            if frames.is_empty() {
                assert(frames =~= Set::empty());
            }
        }
        assert forall|f: nat| frames.contains(f) implies holds_at_least(
            #[trigger] frames.remove(f),
            (count - 1) as nat,
        ) by {
            lemma_holds_at_least(frames.remove(f), (count - 1) as nat);
        }
    }
}

/// The source of physical frames.
///
/// `available` is the set of frame numbers that the allocator may still hand
/// out.
pub trait FrameAllocator {
    spec fn available(&self) -> Set<nat>;

    /// Takes a frame out of the pool; `None` exactly when the pool is empty.
    fn allocate_frame(&mut self) -> (frame: Option<Frame>)
        ensures
            frame is None <==> old(self).available().is_empty(),
            frame is None ==> final(self).available() == old(self).available(),
            frame matches Some(f) ==> {
                &&& f.addressable()
                &&& old(self).available().contains(f.number as nat)
                &&& final(self).available() == old(self).available().remove(f.number as nat)
            },
    ;

    /// Gives a frame back. The allocator may keep it or forget it.
    fn deallocate_frame(&mut self, frame: Frame)
        ensures
            old(self).available().subset_of(final(self).available()),
            final(self).available().subset_of(old(self).available().insert(frame.number as nat)),
    ;
}

} // verus!
