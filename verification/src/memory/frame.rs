//! An allocator that hands out the frames of the free memory areas in
//! ascending order and never gives one back.

use vstd::prelude::*;
use crate::multiboot::MemoryArea;
use super::{Frame, FrameAllocator, FRAME_COUNT};

verus! {

/// Hands out the frames of the memory areas, but for those that hold the
/// kernel image or the boot information record.
pub struct AreaFrameAllocator {
    pub next_free_frame: Frame,
    pub areas: Vec<MemoryArea>,
    pub kernel_start: Frame,
    pub kernel_end: Frame,
    pub multiboot_start: Frame,
    pub multiboot_end: Frame,
}

impl AreaFrameAllocator {
    /// Whether one of the first `count` areas covers `frame`.
    pub open spec fn in_area(self, frame: nat, count: int) -> bool {
        exists|k: int|
            0 <= k < count && k < self.areas.len() && (#[trigger] self.areas[k]).covers(frame)
    }

    /// Whether `frame` is kept back for the kernel image or the boot
    /// information record.
    pub open spec fn reserved(self, frame: nat) -> bool {
        self.kernel_start.number <= frame <= self.kernel_end.number
            || self.multiboot_start.number <= frame <= self.multiboot_end.number
    }

    /// Whether `frame` may be handed out at all.
    pub open spec fn usable(self, frame: nat) -> bool {
        frame < FRAME_COUNT && self.in_area(frame, self.areas.len() as int) && !self.reserved(
            frame,
        )
    }

    /// An allocator for `areas` that keeps back the frames from
    /// `kernel_start` to `kernel_end` and from `multiboot_start` to
    /// `multiboot_end`, all given as addresses, the ends included.
    pub fn new(
        kernel_start: u32,
        kernel_end: u32,
        multiboot_start: u32,
        multiboot_end: u32,
        areas: Vec<MemoryArea>,
    ) -> (allocator: AreaFrameAllocator)
        ensures
            allocator.next_free_frame.number == 0,
            allocator.areas == areas,
            allocator.kernel_start.number == kernel_start / 4096,
            allocator.kernel_end.number == kernel_end / 4096,
            allocator.multiboot_start.number == multiboot_start / 4096,
            allocator.multiboot_end.number == multiboot_end / 4096,
    {
        AreaFrameAllocator {
            next_free_frame: Frame::containing_address(0),
            areas,
            kernel_start: Frame::containing_address(kernel_start),
            kernel_end: Frame::containing_address(kernel_end),
            multiboot_start: Frame::containing_address(multiboot_start),
            multiboot_end: Frame::containing_address(multiboot_end),
        }
    }

    /// Whether `frame` may be handed out at all.
    pub fn is_usable(&self, frame: usize) -> (usable: bool)
        ensures
            usable == self.usable(frame as nat),
    {
        if frame >= FRAME_COUNT {
            return false;
        }
        if (self.kernel_start.number <= frame && frame <= self.kernel_end.number) || (
        self.multiboot_start.number <= frame && frame <= self.multiboot_end.number) {
            return false;
        }
        let mut k: usize = 0;
        while k < self.areas.len()
            invariant
                k <= self.areas.len(),
                frame < FRAME_COUNT,
                !self.reserved(frame as nat),
                !self.in_area(frame as nat, k as int),
            decreases self.areas.len() - k,
        {
            if self.areas[k].holds(frame) {
                proof {
                    assert(self.areas[k as int].covers(frame as nat));
                }
                return true;
            }
            k += 1;
        }
        false
    }
}

impl AreaFrameAllocator {
    /// Whether `frame` may still be handed out.
    pub fn holds(&self, frame: Frame) -> (held: bool)
        ensures
            held == self.available().contains(frame.number as nat),
    {
        self.next_free_frame.number <= frame.number && self.is_usable(frame.number)
    }
}

impl FrameAllocator for AreaFrameAllocator {
    open spec fn available(&self) -> Set<nat> {
        Set::new(|frame: nat| self.next_free_frame.number <= frame && self.usable(frame))
    }

    fn allocate_frame(&mut self) -> (frame: Option<Frame>) {
        while self.next_free_frame.number < FRAME_COUNT
            invariant
                self.areas == old(self).areas,
                self.kernel_start == old(self).kernel_start,
                self.kernel_end == old(self).kernel_end,
                self.multiboot_start == old(self).multiboot_start,
                self.multiboot_end == old(self).multiboot_end,
                old(self).next_free_frame.number <= self.next_free_frame.number,
                forall|f: nat|
                    old(self).next_free_frame.number <= f < self.next_free_frame.number
                        ==> !old(self).usable(f),
            decreases FRAME_COUNT - self.next_free_frame.number,
        {
            let frame = self.next_free_frame;
            self.next_free_frame = Frame { number: frame.number + 1 };
            if self.is_usable(frame.number) {
                proof {
                    assert forall|f: nat| self.usable(f) == old(self).usable(f) by {
                        assert(self.in_area(f, self.areas.len() as int) == old(self).in_area(
                            f,
                            old(self).areas.len() as int,
                        ));
                    }
                    assert(old(self).available().contains(frame.number as nat));
                    assert(self.available() =~= old(self).available().remove(
                        frame.number as nat,
                    ));
                }
                return Some(frame);
            }
        }
        proof {
            assert forall|f: nat| self.usable(f) == old(self).usable(f) by {
                assert(self.in_area(f, self.areas.len() as int) == old(self).in_area(
                    f,
                    old(self).areas.len() as int,
                ));
            }
            assert(old(self).available() =~= Set::empty());
            assert(self.available() =~= old(self).available());
        }
        None
    }

    /// The frame is forgotten: this allocator never hands a frame out twice.
    fn deallocate_frame(&mut self, frame: Frame) {
    }
}

} // verus!
