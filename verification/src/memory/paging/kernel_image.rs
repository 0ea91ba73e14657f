//! The address space that the kernel runs in after start-up: every loaded
//! section of the kernel image, the text screen and the boot information
//! record, each mapped to itself.

use vstd::prelude::*;
use crate::hardware::{lemma_mapped_to_memory, lemma_mapped_to_stale, Hardware, State};
use crate::memory::frame::AreaFrameAllocator;
use crate::memory::{holds_at_least, Frame, FrameAllocator};
use crate::multiboot::MultiBoot;
use crate::vga_buffer::VGA_ADDRESS;
use super::mapper::{lemma_map_to_then_translate, Mapper};
use super::table::lemma_window;
use super::Page;
use super::table_entry::{
    lemma_encode_decode, lemma_table_flags, lemma_unused_not_present, TableEntry, TableEntryFlags,
    ALL_FLAGS, HUGE_PAGE, PRESENT, WRITABLE,
};

verus! {

/// Number of the frame that holds the text screen's memory.
pub const VGA_FRAME: usize = 0xb8;

/// Number of the first page of the recursive window. The pages below it
/// can be mapped freely.
pub const WINDOW_START: usize = 0xffc00;

impl MultiBoot {
    /// The flags with which `frame` is to be mapped to itself; `None` where
    /// it is to stay unmapped.
    pub open spec fn wanted(self, frame: nat) -> Option<u32> {
        if self.loaded(frame, self.sections.len() as int) {
            Some(
                TableEntryFlags::from_elf_section_flags_spec(
                    self.section_of(frame, self.sections.len() as int),
                ),
            )
        } else if frame == VGA_FRAME {
            Some(WRITABLE)
        } else if self.covers(frame) {
            Some(PRESENT)
        } else {
            None
        }
    }

    /// The frames to map, each with its flags.
    pub open spec fn plan(self) -> Map<nat, u32> {
        Map::new(|frame: nat| self.wanted(frame) is Some, |frame: nat| self.wanted(frame).unwrap())
    }

    /// The image can be mapped: every loaded section and the record end
    /// after address zero and below the recursive window, and no frame is
    /// asked for twice.
    pub open spec fn mappable(self) -> bool {
        &&& forall|j: int|
            0 <= j < self.sections.len() && (#[trigger] self.sections[j]).is_allocated() ==> {
                &&& self.sections[j].end >= 1
                &&& (self.sections[j].end - 1) / 4096 < WINDOW_START
                &&& !self.sections[j].covers(VGA_FRAME as nat)
            }
        &&& forall|j: int, k: int, frame: nat|
            0 <= j < k < self.sections.len() && (#[trigger] self.sections[j]).is_allocated() && (
            #[trigger] self.sections[k]).is_allocated() ==> !(self.sections[j].covers(frame)
                && #[trigger] self.sections[k].covers(frame))
        &&& forall|j: int, frame: nat|
            0 <= j < self.sections.len() && (#[trigger] self.sections[j]).is_allocated()
                && #[trigger] self.sections[j].covers(frame) ==> !self.covers(frame)
        &&& self.end_address >= 1
        &&& (self.end_address - 1) / 4096 < WINDOW_START
        &&& !self.covers(VGA_FRAME as nat)
    }

    /// Whether a frame whose entry lies at `index` of the top-level table
    /// is to be mapped.
    pub open spec fn needs_table(self, index: nat) -> bool {
        exists|frame: nat| #[trigger] self.wanted(frame) is Some && frame / 1024 == index
    }

    /// Number of second-level tables that the first `upto` entries of the
    /// top-level table need.
    pub open spec fn tables_needed(self, upto: nat) -> nat
        decreases upto,
    {
        if upto == 0 {
            0
        } else {
            self.tables_needed((upto - 1) as nat) + if self.needs_table((upto - 1) as nat) {
                1nat
            } else {
                0nat
            }
        }
    }
}

/// Whether a frame lies both in the range from `a_first` to `a_last` and in
/// the range from `b_first` to `b_last`.
pub fn ranges_meet(a_first: usize, a_last: usize, b_first: usize, b_last: usize) -> (meet: bool)
    ensures
        meet == exists|frame: nat| #[trigger]
            in_both(frame, a_first, a_last, b_first, b_last),
{
    let meet = a_first <= a_last && b_first <= b_last && a_first <= b_last && b_first <= a_last;
    proof {
        if meet {
            let witness = if a_first >= b_first {
                a_first as nat
            } else {
                b_first as nat
            };
            assert(in_both(witness, a_first, a_last, b_first, b_last));
        }
    }
    meet
}

/// `frame` lies in the range from `a_first` to `a_last` and in the range
/// from `b_first` to `b_last`.
pub open spec fn in_both(
    frame: nat,
    a_first: usize,
    a_last: usize,
    b_first: usize,
    b_last: usize,
) -> bool {
    a_first <= frame <= a_last && b_first <= frame <= b_last
}

impl MultiBoot {
    /// Whether the image can be mapped; see `mappable`.
    pub fn is_mappable(&self) -> (ok: bool)
        ensures
            ok == self.mappable(),
    {
        if self.end_address < 1 {
            return false;
        }
        let own_first = (self.start_address / 4096) as usize;
        let own_last = ((self.end_address - 1) / 4096) as usize;
        if own_last >= WINDOW_START || (own_first <= VGA_FRAME && VGA_FRAME <= own_last) {
            return false;
        }
        let mut j: usize = 0;
        while j < self.sections.len()
            invariant
                j <= self.sections.len(),
                self.end_address >= 1,
                own_first == self.start_address / 4096,
                own_last == (self.end_address - 1) / 4096,
                forall|i: int|
                    0 <= i < j && (#[trigger] self.sections[i]).is_allocated() ==> {
                        &&& self.sections[i].end >= 1
                        &&& (self.sections[i].end - 1) / 4096 < WINDOW_START
                        &&& !self.sections[i].covers(VGA_FRAME as nat)
                    },
                forall|i: int, k: int, frame: nat|
                    0 <= i < j && i < k < self.sections.len() && (
                    #[trigger] self.sections[i]).is_allocated() && (
                    #[trigger] self.sections[k]).is_allocated() ==> !(self.sections[i].covers(frame)
                        && #[trigger] self.sections[k].covers(frame)),
                forall|i: int, frame: nat|
                    0 <= i < j && (#[trigger] self.sections[i]).is_allocated()
                        && #[trigger] self.sections[i].covers(frame) ==> !self.covers(frame),
            decreases self.sections.len() - j,
        {
            let section = &self.sections[j];
            if section.is_allocated() {
                if section.end_address() < 1 {
                    return false;
                }
                let first = section.first_frame();
                let last = section.last_frame();
                if last >= WINDOW_START || (first <= VGA_FRAME && VGA_FRAME <= last) {
                    return false;
                }
                if ranges_meet(first, last, own_first, own_last) {
                    proof {
                        let frame = choose|frame: nat| #[trigger]
                            in_both(frame, first, last, own_first, own_last);
                        assert(self.sections[j as int].covers(frame) && self.covers(frame));
                    }
                    return false;
                }
                proof {
                    assert forall|frame: nat| #[trigger]
                        self.sections[j as int].covers(frame) implies !self.covers(frame) by {
                        if self.covers(frame) {
                            assert(in_both(frame, first, last, own_first, own_last));
                        }
                    }
                }
                let mut k: usize = j + 1;
                while k < self.sections.len()
                    invariant
                        j < k <= self.sections.len(),
                        self.sections[j as int].is_allocated(),
                        self.sections[j as int].end >= 1,
                        first == self.sections[j as int].start / 4096,
                        last == (self.sections[j as int].end - 1) / 4096,
                        forall|m: int, frame: nat|
                            j < m < k && (#[trigger] self.sections[m]).is_allocated() ==> !(
                            self.sections[j as int].covers(frame)
                                && #[trigger] self.sections[m].covers(frame)),
                    decreases self.sections.len() - k,
                {
                    let other = &self.sections[k];
                    if other.is_allocated() && other.end_address() >= 1 {
                        let other_first = other.first_frame();
                        let other_last = other.last_frame();
                        if ranges_meet(first, last, other_first, other_last) {
                            proof {
                                let frame = choose|frame: nat| #[trigger]
                                    in_both(frame, first, last, other_first, other_last);
                                assert(self.sections[j as int].covers(frame)
                                    && self.sections[k as int].covers(frame));
                            }
                            return false;
                        }
                        proof {
                            assert forall|frame: nat|
                                self.sections[j as int].covers(frame) implies !(
                            #[trigger] self.sections[k as int].covers(frame)) by {
                                if self.sections[k as int].covers(frame) {
                                    assert(in_both(frame, first, last, other_first, other_last));
                                }
                            }
                        }
                    }
                    k += 1;
                }
            }
            j += 1;
        }
        true
    }
}

impl State {
    /// The entry that a walk from the table in `root` ends at for `page`;
    /// zero where there is no second-level table.
    pub open spec fn leaf(self, root: nat, page: nat) -> TableEntry {
        let top = self.entry(root, page / 1024);
        if top.is_table() {
            self.entry(top.frame_number(), page % 1024)
        } else {
            TableEntry(0)
        }
    }

    /// Below the recursive window, the hierarchy in `root` maps each page
    /// of `plan` to the frame of the same number, with the flags of `plan`
    /// and the present flag, and no other page.
    pub open spec fn maps_exactly(self, root: nat, plan: Map<nat, u32>) -> bool {
        &&& forall|index: nat|
            index < 1023 ==> {
                let top = #[trigger] self.entry(root, index);
                top.is_unused() || top.is_table()
            }
        &&& forall|page: nat|
            page < WINDOW_START ==> #[trigger] self.leaf(root, page) == if plan.contains_key(
                page,
            ) {
                TableEntry::encode(Frame { number: page as usize }, plan[page] | PRESENT)
            } else {
                TableEntry(0)
            }
    }

    /// The first 1023 entries of the table in `root` are unused.
    pub open spec fn blank(self, root: nat) -> bool {
        forall|index: nat| index < 1023 ==> (#[trigger] self.entry(root, index)).is_unused()
    }

    /// The recursive window shows the table in `root`, whose second-level
    /// tables are distinct frames that came out of `origin` and are no
    /// longer in `available`.
    pub open spec fn tidy(self, root: nat, origin: Set<nat>, available: Set<nat>) -> bool {
        &&& self.recursive()
        &&& self.edited() == root
        &&& available.subset_of(origin)
        &&& !origin.contains(root)
        &&& !origin.contains(self.root())
        &&& forall|index: nat|
            index < 1023 ==> {
                let top = #[trigger] self.entry(root, index);
                top.is_unused() || (top.is_table() && origin.contains(top.frame_number())
                    && !available.contains(top.frame_number()))
            }
        &&& forall|i: nat, j: nat|
            i < 1023 && j < 1023 && i != j && (#[trigger] self.entry(root, i)).is_table() && (
            #[trigger] self.entry(root, j)).is_table() ==> self.entry(root, i).frame_number()
                != self.entry(root, j).frame_number()
    }

    /// No entry of the table that the processor walks refers to a table in
    /// a frame of `frames`.
    pub open spec fn unreferenced(self, frames: Set<nat>) -> bool {
        forall|index: nat|
            index < 1024 && (#[trigger] self.entry(self.root(), index)).is_table()
                ==> !frames.contains(self.entry(self.root(), index).frame_number())
    }

    /// Every frame outside `origin` and other than `root` holds in `self`
    /// what it holds in `other`.
    pub open spec fn same_outside(self, other: State, root: nat, origin: Set<nat>) -> bool {
        forall|frame: nat, index: nat|
            frame != root && !origin.contains(frame) ==> #[trigger] self.entry(frame, index)
                == other.entry(frame, index)
    }

    /// Number of second-level tables that are still missing among the
    /// first `upto` entries of the table in `root`.
    pub open spec fn tables_missing(self, root: nat, boot: MultiBoot, upto: nat) -> nat
        decreases upto,
    {
        if upto == 0 {
            0
        } else {
            self.tables_missing(root, boot, (upto - 1) as nat) + if boot.needs_table(
                (upto - 1) as nat,
            ) && self.entry(root, (upto - 1) as nat).is_unused() {
                1nat
            } else {
                0nat
            }
        }
    }
}

/// A table that maps exactly a plan translates each page of the plan to
/// the frame of the same number, every address in such a page to itself,
/// and no other page below the recursive window.
pub proof fn lemma_image_translation(s: State, root: nat, plan: Map<nat, u32>, page: Page)
    requires
        s.maps_exactly(root, plan),
        page.number < WINDOW_START,
        forall|p: nat| plan.contains_key(p) ==> #[trigger] plan[p] & !ALL_FLAGS == 0,
    ensures
        s.walk(root, page.number as nat) == if plan.contains_key(page.number as nat) {
            Some(Frame { number: page.number })
        } else {
            None
        },
        plan.contains_key(page.number as nat) ==> s.leaf(root, page.number as nat).flags_spec()
            == plan[page.number as nat] | PRESENT,
{
    let number = page.number as nat;
    let top = s.entry(root, number / 1024);
    lemma_table_flags();
    lemma_unused_not_present();
    assert(number / 1024 < 1023);
    assert((number / 1024) % 1024 == number / 1024);
    assert(top.is_unused() || top.is_table());
    assert(s.leaf(root, number) == if plan.contains_key(number) {
        TableEntry::encode(Frame { number: number as usize }, plan[number] | PRESENT)
    } else {
        TableEntry(0)
    });
    if plan.contains_key(number) {
        assert(plan[number] & !ALL_FLAGS == 0);
        lemma_encode_decode(Frame { number: number as usize }, plan[number] | PRESENT);
        assert(top.is_table()) by {
            if !top.is_table() {
                assert(s.leaf(root, number) == TableEntry(0));
            }
        }
    }
}

/// In a blank table every needed table is missing.
pub proof fn lemma_blank_missing(s: State, root: nat, boot: MultiBoot, upto: nat)
    requires
        s.blank(root),
        upto <= 1023,
    ensures
        s.tables_missing(root, boot, upto) == boot.tables_needed(upto),
    decreases upto,
{
    if upto > 0 {
        lemma_blank_missing(s, root, boot, (upto - 1) as nat);
        assert(s.entry(root, (upto - 1) as nat).is_unused());
    }
}

/// Filling entry `index` of the top-level table takes one off the count of
/// missing tables if a table was missing there, and leaves it otherwise.
pub proof fn lemma_missing_step(
    before: State,
    after: State,
    root: nat,
    boot: MultiBoot,
    index: nat,
    upto: nat,
)
    requires
        forall|i: nat| i < 1023 && i != index ==> after.entry(root, i) == before.entry(root, i),
        !after.entry(root, index).is_unused(),
        upto <= 1023,
    ensures
        after.tables_missing(root, boot, upto) + (if index < upto && boot.needs_table(index)
            && before.entry(root, index).is_unused() {
            1nat
        } else {
            0nat
        }) == before.tables_missing(root, boot, upto),
    decreases upto,
{
    if upto > 0 {
        lemma_missing_step(before, after, root, boot, index, (upto - 1) as nat);
    }
}

/// One step of building the image: mapping a page that is not yet in the
/// plan to the frame of its number.
pub proof fn lemma_identity_step(
    s: State,
    origin: Set<nat>,
    available: Set<nat>,
    plan: Map<nat, u32>,
    page: nat,
    flags: u32,
    made: nat,
)
    requires
        s.tidy(s.edited(), origin, available),
        s.maps_exactly(s.edited(), plan),
        page < WINDOW_START,
        !plan.contains_key(page),
        flags & !ALL_FLAGS == 0,
        s.entry(s.edited(), page / 1024).is_unused() ==> available.contains(made) && made
            < 0x10_0000,
    ensures
        ({
            let after = s.mapped_to(page, Frame { number: page as usize }, flags, made);
            let left = if s.entry(s.edited(), page / 1024).is_unused() {
                available.remove(made)
            } else {
                available
            };
            &&& after.tidy(s.edited(), origin, left)
            &&& after.maps_exactly(s.edited(), plan.insert(page, flags))
            &&& after.same_outside(s, s.edited(), origin)
            &&& forall|i: nat|
                i < 1023 && i != page / 1024 ==> after.entry(s.edited(), i) == s.entry(
                    s.edited(),
                    i,
                )
            &&& !after.entry(s.edited(), page / 1024).is_unused()
            &&& after.cr3 == s.cr3
            &&& s.root() != s.edited() && s.unreferenced(origin) ==> after.stale == s.stale
                && after.unreferenced(origin)
        }),
{
    lemma_unused_not_present();
    assert((page / 1024) % 1024 == page / 1024);
    assert(s.leaf(s.edited(), page) == TableEntry(0));
    lemma_mapped_to_memory(s, page, Frame { number: page as usize }, flags, made);
    lemma_mapped_to_stale(s, page, Frame { number: page as usize }, flags, made);
    lemma_map_to_then_translate(
        s,
        Page { number: page as usize },
        Frame { number: page as usize },
        flags,
        made,
    );
    if s.root() != s.edited() && s.unreferenced(origin) {
        let after = s.mapped_to(page, Frame { number: page as usize }, flags, made);
        assert forall|index: nat| index < 1024 implies #[trigger] after.entry(s.root(), index)
            == s.entry(s.root(), index) by {
            let top = s.entry(s.edited(), page / 1024);
            if top.is_present() {
                assert(top.is_table());
                assert(origin.contains(top.frame_number()));
            }
        }
        assert forall|p: nat| #[trigger] after.stale.contains(p) implies s.stale.contains(p) by {
            if !s.stale.contains(p) {
                let index = (p / 1024) % 1024;
                assert(s.entry(s.root(), index).is_table());
                assert(origin.contains(made));
            }
        }
        assert(after.stale =~= s.stale);
    }
    let root = s.edited();
    let frame = Frame { number: page as usize };
    let after = s.mapped_to(page, frame, flags, made);
    let slot = page / 1024;
    let top = s.entry(root, slot);
    let left = if top.is_unused() {
        available.remove(made)
    } else {
        available
    };
    let grown = plan.insert(page, flags);
    lemma_table_flags();
    lemma_unused_not_present();
    lemma_encode_decode(frame, flags | PRESENT);
    assert(slot < 1023);
    assert((page / 1024) % 1024 == slot);
    assert(s.leaf(root, page) == TableEntry(0));
    if top.is_unused() {
        let table = Frame { number: made as usize };
        lemma_encode_decode(table, PRESENT | WRITABLE);
        assert(after.entry(root, slot) == TableEntry::encode(table, PRESENT | WRITABLE));
        assert(after.entry(root, slot).frame_number() == made);
        assert forall|i: nat| i < 1024 && i != slot implies after.entry(root, i) == s.entry(
            root,
            i,
        ) by {}
        assert forall|index: nat| index < 1023 implies ({
            let e = #[trigger] after.entry(root, index);
            e.is_unused() || (e.is_table() && origin.contains(e.frame_number()) && !left.contains(
                e.frame_number(),
            ))
        }) by {
            if index != slot {
                assert(after.entry(root, index) == s.entry(root, index));
            }
        }
        assert forall|i: nat, j: nat|
            i < 1023 && j < 1023 && i != j && (#[trigger] after.entry(root, i)).is_table() && (
            #[trigger] after.entry(root, j)).is_table() implies after.entry(root, i).frame_number()
            != after.entry(root, j).frame_number() by {
            if i != slot {
                assert(after.entry(root, i) == s.entry(root, i));
            }
            if j != slot {
                assert(after.entry(root, j) == s.entry(root, j));
            }
        }
        assert forall|q: nat| q < WINDOW_START implies #[trigger] after.leaf(root, q) == if grown.contains_key(
            q,
        ) {
            TableEntry::encode(Frame { number: q as usize }, grown[q] | PRESENT)
        } else {
            TableEntry(0)
        } by {
            assert(q / 1024 < 1023);
            assert(s.leaf(root, q) == if plan.contains_key(q) {
                TableEntry::encode(Frame { number: q as usize }, plan[q] | PRESENT)
            } else {
                TableEntry(0)
            });
            if q / 1024 == slot {
                if q != page {
                    assert(q % 1024 != page % 1024);
                }
            } else {
                assert(after.entry(root, q / 1024) == s.entry(root, q / 1024));
                let e = s.entry(root, q / 1024);
                if e.is_table() {
                    assert(e.frame_number() != made);
                }
            }
        }
    } else {
        assert(top.is_table());
        let held = top.frame_number();
        assert(held != root);
        assert forall|i: nat| i < 1024 implies after.entry(root, i) == s.entry(root, i) by {}
        assert forall|q: nat| q < WINDOW_START implies #[trigger] after.leaf(root, q) == if grown.contains_key(
            q,
        ) {
            TableEntry::encode(Frame { number: q as usize }, grown[q] | PRESENT)
        } else {
            TableEntry(0)
        } by {
            assert(q / 1024 < 1023);
            assert(s.leaf(root, q) == if plan.contains_key(q) {
                TableEntry::encode(Frame { number: q as usize }, plan[q] | PRESENT)
            } else {
                TableEntry(0)
            });
            assert(after.entry(root, q / 1024) == s.entry(root, q / 1024));
            if q / 1024 == slot {
                if q != page {
                    assert(q % 1024 != page % 1024);
                }
            } else {
                let e = s.entry(root, q / 1024);
                if e.is_table() {
                    assert(e.frame_number() != held);
                }
            }
        }
    }
}

/// Whether `allocator` holds none of the frames to which the entries of
/// the active top-level table refer as tables.
pub fn tables_are_kept<H: Hardware>(mapper: &Mapper, hw: &H, allocator: &AreaFrameAllocator) -> (kept:
    bool)
    requires
        hw.state().direct(),
    ensures
        kept == hw.state().unreferenced(allocator.available()),
{
    let p2 = mapper.p2();
    let mut index: usize = 0;
    while index < 1024
        invariant
            index <= 1024,
            hw.state().direct(),
            p2 == super::table::Table::<super::table::Level2>::at(super::table::P2),
            forall|i: nat|
                i < index && (#[trigger] hw.state().entry(hw.state().root(), i)).is_table()
                    ==> !allocator.available().contains(
                    hw.state().entry(hw.state().root(), i).frame_number(),
                ),
        decreases 1024 - index,
    {
        proof {
            lemma_window(hw.state(), index);
        }
        let entry = p2.index(hw, index);
        let flags = entry.flags();
        if flags.contains(PRESENT) && !flags.contains(HUGE_PAGE) {
            let table = entry.pointed_frame().unwrap();
            if allocator.holds(table) {
                return false;
            }
        }
        index += 1;
    }
    true
}

/// Maps `frame` to itself as one step of building the image.
fn map_planned<H: Hardware, A: FrameAllocator>(
    mapper: &mut Mapper,
    hw: &mut H,
    allocator: &mut A,
    boot: &MultiBoot,
    frame: Frame,
    flags: TableEntryFlags,
    Ghost(origin): Ghost<Set<nat>>,
    Ghost(plan): Ghost<Map<nat, u32>>,
)
    requires
        old(hw).state().tidy(old(hw).state().edited(), origin, old(allocator).available()),
        old(hw).state().maps_exactly(old(hw).state().edited(), plan),
        frame.number < WINDOW_START,
        !plan.contains_key(frame.number as nat),
        boot.wanted(frame.number as nat) is Some,
        holds_at_least(
            old(allocator).available(),
            old(hw).state().tables_missing(old(hw).state().edited(), *boot, 1023),
        ),
    ensures
        final(hw).state().tidy(old(hw).state().edited(), origin, final(allocator).available()),
        final(hw).state().maps_exactly(
            old(hw).state().edited(),
            plan.insert(frame.number as nat, flags@),
        ),
        final(hw).state().same_outside(old(hw).state(), old(hw).state().edited(), origin),
        final(hw).state().cr3 == old(hw).state().cr3,
        holds_at_least(
            final(allocator).available(),
            final(hw).state().tables_missing(old(hw).state().edited(), *boot, 1023),
        ),
        old(hw).state().root() != old(hw).state().edited() && old(hw).state().unreferenced(origin)
            ==> {
            &&& final(hw).state().stale == old(hw).state().stale
            &&& final(hw).state().unreferenced(origin)
        },
{
    let ghost start = hw.state();
    let ghost root = start.edited();
    let ghost slot = (frame.number / 1024) as nat;
    let ghost top = start.entry(root, slot);
    let ghost available = allocator.available();
    let bits = flags.bits();
    proof {
        lemma_unused_not_present();
        assert(slot < 1023);
        assert(top.is_unused() || top.is_table());
        assert(start.leaf(root, frame.number as nat) == TableEntry(0));
        if top.is_unused() {
            assert(boot.needs_table(slot));
            lemma_missing_positive(start, root, *boot, slot, 1023);
        }
    }
    mapper.identity_map(hw, frame, flags, allocator);
    proof {
        let made = hw.state().entry(root, slot).frame_number();
        lemma_identity_step(start, origin, available, plan, frame.number as nat, bits, made);
        lemma_missing_step(start, hw.state(), root, *boot, slot, 1023);
    }
}

/// Where a needed table is missing, the count of missing tables is not
/// zero.
proof fn lemma_missing_positive(s: State, root: nat, boot: MultiBoot, index: nat, upto: nat)
    requires
        index < upto,
        boot.needs_table(index),
        s.entry(root, index).is_unused(),
    ensures
        s.tables_missing(root, boot, upto) > 0,
    decreases upto,
{
    if index < upto - 1 {
        lemma_missing_positive(s, root, boot, index, (upto - 1) as nat);
    }
}

/// Builds the kernel's address space in the table that the recursive window
/// shows: every frame of every loaded section with the section's
/// permissions, the frame of the text screen writable, and every frame of
/// the boot information record read-only, each at the page of its own
/// number.
pub fn map_kernel_image<H: Hardware, A: FrameAllocator>(
    mapper: &mut Mapper,
    hw: &mut H,
    allocator: &mut A,
    boot: &MultiBoot,
)
    requires
        boot.mappable(),
        old(hw).state().recursive(),
        old(hw).state().blank(old(hw).state().edited()),
        old(hw).state().clear_of(old(allocator).available()),
        holds_at_least(old(allocator).available(), boot.tables_needed(1023)),
    ensures
        final(hw).state().maps_exactly(old(hw).state().edited(), boot.plan()),
        final(hw).state().tidy(
            old(hw).state().edited(),
            old(allocator).available(),
            final(allocator).available(),
        ),
        final(hw).state().same_outside(
            old(hw).state(),
            old(hw).state().edited(),
            old(allocator).available(),
        ),
        final(hw).state().cr3 == old(hw).state().cr3,
        old(hw).state().root() != old(hw).state().edited() && old(hw).state().unreferenced(
            old(allocator).available(),
        ) ==> final(hw).state().stale == old(hw).state().stale,
{
    let ghost start = hw.state();
    let ghost root = start.edited();
    let ghost origin = allocator.available();
    let ghost mut plan: Map<nat, u32> = Map::empty();
    proof {
        lemma_unused_not_present();
        lemma_blank_missing(start, root, *boot, 1023);
        assert(start.tidy(root, origin, origin));
        assert(start.maps_exactly(root, plan));
    }
    let mut j: usize = 0;
    while j < boot.sections.len()
        invariant
            j <= boot.sections.len(),
            boot.mappable(),
            hw.state().tidy(root, origin, allocator.available()),
            hw.state().maps_exactly(root, plan),
            hw.state().same_outside(start, root, origin),
            hw.state().cr3 == start.cr3,
            root == start.edited(),
            start.root() != start.edited() && start.unreferenced(origin) ==> {
                &&& hw.state().stale == start.stale
                &&& hw.state().unreferenced(origin)
            },
            holds_at_least(allocator.available(), hw.state().tables_missing(root, *boot, 1023)),
            forall|f: nat| plan.contains_key(f) <==> boot.loaded(f, j as int),
            forall|f: nat, k: int|
                0 <= k < j && (#[trigger] boot.sections[k]).is_allocated()
                    && #[trigger] boot.sections[k].covers(f) ==> plan[f]
                    == TableEntryFlags::from_elf_section_flags_spec(boot.sections[k]),
        decreases boot.sections.len() - j,
    {
        let section = boot.sections[j];
        if section.is_allocated() {
            let flags = TableEntryFlags::from_elf_section_flags(&section);
            let start_frame = Frame::containing_address(section.start_address());
            let end_frame = Frame::containing_address(section.end_address() - 1);
            let mut frames = Frame::range_inclusive(start_frame, end_frame);
            while frames.start.number <= frames.end.number
                invariant
                    j < boot.sections.len(),
                    boot.mappable(),
                    section == boot.sections[j as int],
                    section.is_allocated(),
                    flags@ == TableEntryFlags::from_elf_section_flags_spec(section),
                    start_frame.number == section.start / 4096,
                    end_frame.number == (section.end - 1) / 4096,
                    frames.end == end_frame,
                    start_frame.number <= frames.start.number,
                    hw.state().tidy(root, origin, allocator.available()),
                    hw.state().maps_exactly(root, plan),
                    hw.state().same_outside(start, root, origin),
                    hw.state().cr3 == start.cr3,
                    root == start.edited(),
                    start.root() != start.edited() && start.unreferenced(origin) ==> {
                        &&& hw.state().stale == start.stale
                        &&& hw.state().unreferenced(origin)
                    },
                    holds_at_least(
                        allocator.available(),
                        hw.state().tables_missing(root, *boot, 1023),
                    ),
                    forall|f: nat|
                        plan.contains_key(f) <==> boot.loaded(f, j as int) || (start_frame.number
                            <= f < frames.start.number && f <= end_frame.number),
                    forall|f: nat, k: int|
                        0 <= k < j && (#[trigger] boot.sections[k]).is_allocated()
                            && #[trigger] boot.sections[k].covers(f) ==> plan[f]
                            == TableEntryFlags::from_elf_section_flags_spec(boot.sections[k]),
                    forall|f: nat|
                        start_frame.number <= f < frames.start.number && f <= end_frame.number
                            ==> #[trigger] plan[f] == flags@,
                decreases end_frame.number + 1 - frames.start.number,
            {
                let frame = frames.next().unwrap();
                proof {
                    let f = frame.number as nat;
                    assert(section.covers(f));
                    assert(boot.loaded(f, boot.sections.len() as int));
                    if boot.loaded(f, j as int) {
                        let k = choose|k: int|
                            0 <= k < j && k < boot.sections.len() && (
                            #[trigger] boot.sections[k]).is_allocated() && boot.sections[k].covers(
                                f,
                            );
                        assert(boot.sections[k].covers(f) && boot.sections[j as int].covers(f));
                        assert(false);
                    }
                }
                map_planned(mapper, hw, allocator, boot, frame, flags, Ghost(origin), Ghost(plan));
                proof {
                    plan = plan.insert(frame.number as nat, flags@);
                }
            }
            proof {
                assert forall|f: nat| plan.contains_key(f) <==> boot.loaded(f, j + 1) by {
                    if boot.loaded(f, j + 1) && !boot.loaded(f, j as int) {
                        let k = choose|k: int|
                            0 <= k < j + 1 && k < boot.sections.len() && (
                            #[trigger] boot.sections[k]).is_allocated() && boot.sections[k].covers(
                                f,
                            );
                        assert(k == j);
                    }
                    if start_frame.number <= f <= end_frame.number {
                        assert(boot.sections[j as int].covers(f));
                    }
                }
                assert forall|f: nat, k: int|
                    0 <= k < j + 1 && (#[trigger] boot.sections[k]).is_allocated()
                        && #[trigger] boot.sections[k].covers(f) implies plan[f]
                    == TableEntryFlags::from_elf_section_flags_spec(boot.sections[k]) by {
                    if k == j {
                        assert(start_frame.number <= f <= end_frame.number);
                    }
                }
            }
        } else {
            proof {
                assert forall|f: nat| boot.loaded(f, j + 1) implies boot.loaded(f, j as int) by {
                    let k = choose|k: int|
                        0 <= k < j + 1 && k < boot.sections.len() && (
                        #[trigger] boot.sections[k]).is_allocated() && boot.sections[k].covers(f);
                    assert(k != j);
                }
            }
        }
        j += 1;
    }
    proof {
        lemma_table_flags();
        let f = VGA_FRAME as nat;
        if boot.loaded(f, boot.sections.len() as int) {
            let k = choose|k: int|
                0 <= k < boot.sections.len() && k < boot.sections.len() && (
                #[trigger] boot.sections[k]).is_allocated() && boot.sections[k].covers(f);
            assert(false);
        }
    }
    map_planned(
        mapper,
        hw,
        allocator,
        boot,
        Frame::containing_address(VGA_ADDRESS),
        TableEntryFlags::from_bits_truncate(WRITABLE),
        Ghost(origin),
        Ghost(plan),
    );
    proof {
        plan = plan.insert(VGA_FRAME as nat, WRITABLE);
    }
    let first = Frame::containing_address(boot.start_address);
    let last = Frame::containing_address(boot.end_address - 1);
    let mut frames = Frame::range_inclusive(first, last);
    while frames.start.number <= frames.end.number
        invariant
            boot.mappable(),
            first.number == boot.start_address / 4096,
            last.number == (boot.end_address - 1) / 4096,
            frames.end == last,
            first.number <= frames.start.number,
            hw.state().tidy(root, origin, allocator.available()),
            hw.state().maps_exactly(root, plan),
            hw.state().same_outside(start, root, origin),
            hw.state().cr3 == start.cr3,
            root == start.edited(),
            start.root() != start.edited() && start.unreferenced(origin) ==> {
                &&& hw.state().stale == start.stale
                &&& hw.state().unreferenced(origin)
            },
            holds_at_least(allocator.available(), hw.state().tables_missing(root, *boot, 1023)),
            forall|f: nat|
                plan.contains_key(f) <==> boot.loaded(f, boot.sections.len() as int) || f
                    == VGA_FRAME || (first.number <= f < frames.start.number && f <= last.number),
            forall|f: nat, k: int|
                0 <= k < boot.sections.len() && (#[trigger] boot.sections[k]).is_allocated()
                    && #[trigger] boot.sections[k].covers(f) ==> plan[f]
                    == TableEntryFlags::from_elf_section_flags_spec(boot.sections[k]),
            plan[VGA_FRAME as nat] == WRITABLE,
            forall|f: nat|
                first.number <= f < frames.start.number && f <= last.number ==> #[trigger] plan[f]
                    == PRESENT,
        decreases last.number + 1 - frames.start.number,
    {
        let frame = frames.next().unwrap();
        proof {
            lemma_table_flags();
            let f = frame.number as nat;
            assert(boot.covers(f));
            if boot.loaded(f, boot.sections.len() as int) {
                let k = choose|k: int|
                    0 <= k < boot.sections.len() && k < boot.sections.len() && (
                    #[trigger] boot.sections[k]).is_allocated() && boot.sections[k].covers(f);
                assert(false);
            }
        }
        map_planned(
            mapper,
            hw,
            allocator,
            boot,
            frame,
            TableEntryFlags::from_bits_truncate(PRESENT),
            Ghost(origin),
            Ghost(plan),
        );
        proof {
            plan = plan.insert(frame.number as nat, PRESENT);
        }
    }
    proof {
        assert forall|f: nat| plan.contains_key(f) implies #[trigger] plan[f] == boot.wanted(
            f,
        ).unwrap() by {
            if boot.loaded(f, boot.sections.len() as int) {
                let k = choose|k: int|
                    0 <= k < boot.sections.len() && k < boot.sections.len() && (
                    #[trigger] boot.sections[k]).is_allocated() && boot.sections[k].covers(f);
                assert(boot.section_of(f, boot.sections.len() as int) == boot.sections[k]);
            }
        }
        assert(plan =~= boot.plan());
    }
}

} // verus!
