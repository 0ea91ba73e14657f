//! A page that is set aside to look at one frame at a time.

use vstd::prelude::*;
use crate::hardware::{
    lemma_mapped_to_memory, lemma_mapped_to_stale, window_page, Hardware, State,
};
use crate::memory::{Frame, FrameAllocator};
use super::table::{lemma_window, Level1, Table};
use super::table_entry::{
    lemma_encode_decode, lemma_table_flags, lemma_unused_not_present, TableEntry, TableEntryFlags,
    PRESENT, WRITABLE,
};
use super::mapper::lemma_map_to_then_translate;
use super::{ActivePageTable, Page, VirtualAddress};

verus! {

/// An allocator that holds at most one frame: the one that the temporary
/// page may need for its second-level table.
pub struct TinyAllocator {
    pub frame: Option<Frame>,
}

impl TinyAllocator {
    /// Takes its frame from `allocator`.
    pub fn new<A: FrameAllocator>(allocator: &mut A) -> (tiny: TinyAllocator)
        ensures
            tiny.frame is None <==> old(allocator).available().is_empty(),
            tiny.frame is None ==> final(allocator).available() == old(allocator).available(),
            tiny.frame matches Some(f) ==> {
                &&& f.addressable()
                &&& old(allocator).available().contains(f.number as nat)
                &&& final(allocator).available() == old(allocator).available().remove(
                    f.number as nat,
                )
            },
    {
        TinyAllocator { frame: allocator.allocate_frame() }
    }
}

impl FrameAllocator for TinyAllocator {
    open spec fn available(&self) -> Set<nat> {
        match self.frame {
            Some(f) if f.addressable() => set![f.number as nat],
            _ => Set::empty(),
        }
    }

    fn allocate_frame(&mut self) -> (frame: Option<Frame>) {
        let held = self.frame;
        self.frame = None;
        match held {
            Some(f) if f.number < crate::memory::FRAME_COUNT => {
                proof {
                    assert(set![f.number as nat].remove(f.number as nat) =~= Set::empty());
                }
                Some(f)
            },
            _ => None,
        }
    }

    /// The frame is kept if the allocator holds none that it could hand
    /// out, else forgotten.
    fn deallocate_frame(&mut self, frame: Frame)
        ensures
            final(self).frame == if old(self).available().is_empty() {
                Some(frame)
            } else {
                old(self).frame
            },
            final(self).available() == if old(self).available().is_empty()
                && frame.addressable() {
                set![frame.number as nat]
            } else {
                old(self).available()
            },
    {
        if !self.available_now() {
            self.frame = Some(frame);
        }
    }
}

impl TinyAllocator {
    /// Whether a frame can be taken.
    pub fn available_now(&self) -> (held: bool)
        ensures
            held == !self.available().is_empty(),
    {
        match self.frame {
            Some(f) => f.number < crate::memory::FRAME_COUNT,
            None => false,
        }
    }
}

/// The page, and the frame kept for its second-level table.
pub struct TemporaryPage {
    pub page: Page,
    pub allocator: TinyAllocator,
}

impl TemporaryPage {
    /// Number of the frame that becomes the page's second-level table if
    /// that table has to be created.
    pub open spec fn spare(self) -> nat {
        match self.allocator.frame {
            Some(f) => f.number as nat,
            None => 0,
        }
    }

    /// The temporary page can take a mapping in the table that `s` shows.
    pub open spec fn free(self, s: State) -> bool {
        &&& self.page.addressable()
        &&& s.can_map(self.page.number as nat, self.allocator.available())
    }

    /// Number of the frame that holds the page's second-level table once the
    /// page is mapped.
    pub open spec fn table_frame(self, s: State) -> nat {
        let top = s.entry(s.edited(), self.page.p2_index() as nat);
        if top.is_present() {
            top.frame_number()
        } else {
            self.spare()
        }
    }

    /// The state after the temporary page is mapped to `frame` and
    /// flushed from the translation cache.
    pub open spec fn mapping(self, s: State, frame: Frame) -> State {
        s.mapped_to(self.page.number as nat, frame, WRITABLE, self.spare()).flushed(
            self.page.number as nat,
        )
    }

    /// The state after the mapping of the temporary page is taken away and
    /// the page is flushed from the translation cache.
    pub open spec fn unmapping(self, s: State) -> State {
        s.write(
            s.entry(s.edited(), self.page.p2_index() as nat).frame_number(),
            self.page.p1_index() as nat,
            TableEntry(0),
        ).flushed(self.page.number as nat)
    }

    /// Sets `page` aside, with a frame from `allocator` for its table.
    pub fn new<A: FrameAllocator>(page: Page, allocator: &mut A) -> (temporary: TemporaryPage)
        ensures
            temporary.page == page,
            temporary.allocator.frame is None <==> old(allocator).available().is_empty(),
            temporary.allocator.frame is None ==> {
                final(allocator).available() == old(allocator).available()
            },
            temporary.allocator.frame matches Some(f) ==> {
                &&& f.addressable()
                &&& old(allocator).available().contains(f.number as nat)
                &&& final(allocator).available() == old(allocator).available().remove(
                    f.number as nat,
                )
            },
    {
        TemporaryPage { page, allocator: TinyAllocator::new(allocator) }
    }

    /// Maps the temporary page to `frame` in the active table, flushes the
    /// page from the translation cache and returns the page's address.
    pub fn map<H: Hardware>(
        &mut self,
        hw: &mut H,
        frame: Frame,
        active_table: &mut ActivePageTable,
    ) -> (address: VirtualAddress)
        requires
            frame.addressable(),
            old(self).free(old(hw).state()),
        ensures
            address == old(self).page.start_address(),
            final(self).page == old(self).page,
            final(hw).state() == old(self).mapping(old(hw).state(), frame),
            final(hw).state().entry(
                old(hw).state().edited(),
                old(self).page.p2_index() as nat,
            ).frame_number() == old(self).table_frame(old(hw).state()),
            final(hw).state().entry(
                old(hw).state().edited(),
                old(self).page.p2_index() as nat,
            ).is_table(),
            old(hw).state().entry(
                old(hw).state().edited(),
                old(self).page.p2_index() as nat,
            ).is_present() ==> final(self).allocator.available() == old(self).allocator.available(),
            !old(hw).state().entry(
                old(hw).state().edited(),
                old(self).page.p2_index() as nat,
            ).is_present() ==> final(self).allocator.available().is_empty(),
            final(hw).state().recursive(),
            final(hw).state().edited() == old(hw).state().edited(),
            final(hw).state().cr3 == old(hw).state().cr3,
            final(hw).state().translation(old(self).page.number as nat) == Some(frame),
    {
        let ghost start = hw.state();
        let ghost top = start.entry(start.edited(), self.page.p2_index() as nat);
        proof {
            lemma_table_flags();
            lemma_unused_not_present();
        }
        active_table.mapper.map_to(
            hw,
            self.page,
            frame,
            TableEntryFlags::from_bits_truncate(WRITABLE),
            &mut self.allocator,
        );
        proof {
            if top.is_present() {
                assert(hw.state().entry(start.edited(), self.page.p2_index() as nat) == top);
            }
        }
        let address = self.page.start_address();
        hw.tlb_flush(address);
        proof {
            assert(address / 4096 == self.page.number);
        }
        address
    }

    /// Maps the temporary page to `frame` and returns the page as a table.
    pub fn map_table_frame<H: Hardware>(
        &mut self,
        hw: &mut H,
        frame: Frame,
        active_table: &mut ActivePageTable,
    ) -> (table: Table<Level1>)
        requires
            frame.addressable(),
            old(self).free(old(hw).state()),
        ensures
            table.address == old(self).page.start_address(),
            final(self).page == old(self).page,
            final(hw).state() == old(self).mapping(old(hw).state(), frame),
            final(hw).state().entry(
                old(hw).state().edited(),
                old(self).page.p2_index() as nat,
            ).frame_number() == old(self).table_frame(old(hw).state()),
            final(hw).state().entry(
                old(hw).state().edited(),
                old(self).page.p2_index() as nat,
            ).is_table(),
            old(hw).state().entry(
                old(hw).state().edited(),
                old(self).page.p2_index() as nat,
            ).is_present() ==> final(self).allocator.available() == old(self).allocator.available(),
            !old(hw).state().entry(
                old(hw).state().edited(),
                old(self).page.p2_index() as nat,
            ).is_present() ==> final(self).allocator.available().is_empty(),
            final(hw).state().recursive(),
            final(hw).state().edited() == old(hw).state().edited(),
            final(hw).state().cr3 == old(hw).state().cr3,
            final(hw).state().translation(old(self).page.number as nat) == Some(frame),
            old(hw).state().direct() ==> {
                &&& table.mapped(final(hw).state())
                &&& table.frame(final(hw).state()) == frame.number
            },
    {
        let ghost start = hw.state();
        let address = self.map(hw, frame, active_table);
        proof {
            let done = hw.state();
            lemma_table_flags();
            lemma_unused_not_present();
            lemma_encode_decode(frame, WRITABLE | PRESENT);
            if !start.entry(start.edited(), self.page.p2_index() as nat).is_present() {
                lemma_encode_decode(
                    Frame { number: old(self).spare() as usize },
                    PRESENT | WRITABLE,
                );
            }
            assert(address / 4096 == self.page.number);
            assert(address % 4096 == 0);
            assert(done.entry(done.edited(), self.page.p2_index() as nat).is_table());
        }
        Table::at(address)
    }

    /// Takes the mapping of the temporary page away and flushes the page
    /// from the translation cache.
    pub fn unmap<H: Hardware>(&mut self, hw: &mut H, active_table: &mut ActivePageTable)
        requires
            old(self).page.addressable(),
            old(hw).state().recursive(),
            old(hw).state().entry(
                old(hw).state().edited(),
                old(self).page.p2_index() as nat,
            ).is_table(),
        ensures
            *final(self) == *old(self),
            final(hw).state() == old(self).unmapping(old(hw).state()),
    {
        proof {
            lemma_window(hw.state(), self.page.p2_index());
        }
        let mut p2 = active_table.mapper.p2_mut();
        let mut p1 = p2.next_table_mut(hw, self.page.p2_index()).unwrap();
        p1.store(hw, self.page.p1_index(), TableEntry::unused());
        hw.tlb_flush(self.page.start_address());
    }
}

/// What the state is once the temporary page is mapped: the page's entry
/// refers to the frame, whatever else memory held is as before but for a
/// second-level table that had to be made, the window works, and the cache
/// is up to date for the page.
pub proof fn lemma_mapping(temporary_page: TemporaryPage, s: State, frame: Frame)
    requires
        frame.addressable(),
        temporary_page.free(s),
    ensures
        ({
            let m = temporary_page.mapping(s, frame);
            let held = temporary_page.table_frame(s);
            let p2 = temporary_page.page.p2_index() as nat;
            let p1 = temporary_page.page.p1_index() as nat;
            let top = s.entry(s.edited(), p2);
            &&& m.cr3 == s.cr3
            &&& m.recursive()
            &&& m.edited() == s.edited()
            &&& m.entry(s.edited(), p2).is_table()
            &&& m.entry(s.edited(), p2).frame_number() == held
            &&& m.entry(held, p1) == TableEntry::encode(frame, WRITABLE | PRESENT)
            &&& m.fresh(temporary_page.page.number as nat)
            &&& m.translation(temporary_page.page.number as nat) == Some(frame)
            &&& !top.is_present() ==> held < 0x10_0000 && held != s.root() && held != s.edited()
            &&& top.is_present() ==> m.stale == s.stale.remove(
                temporary_page.page.number as nat,
            )
            &&& forall|g: nat, i: nat| #[trigger]
                m.entry(g, i) == if g == held && i == p1 {
                    TableEntry::encode(frame, WRITABLE | PRESENT)
                } else if top.is_present() {
                    s.entry(g, i)
                } else if g == held && i < 1024 {
                    TableEntry(0)
                } else if g == s.edited() && i == p2 {
                    TableEntry::encode(Frame { number: held as usize }, PRESENT | WRITABLE)
                } else {
                    s.entry(g, i)
                }
        }),
{
    let page = temporary_page.page;
    let held = temporary_page.table_frame(s);
    let mapped = s.mapped_to(page.number as nat, frame, WRITABLE, temporary_page.spare());
    let m = temporary_page.mapping(s, frame);
    lemma_table_flags();
    lemma_unused_not_present();
    lemma_mapped_to_memory(s, page.number as nat, frame, WRITABLE, temporary_page.spare());
    lemma_mapped_to_stale(s, page.number as nat, frame, WRITABLE, temporary_page.spare());
    lemma_map_to_then_translate(s, page, frame, WRITABLE, temporary_page.spare());
    assert forall|g: nat, i: nat| #[trigger] m.entry(g, i) == mapped.entry(g, i) by {}
    assert forall|i: nat| i < 1024 implies m.fresh(#[trigger] window_page(i)) by {
        assert(mapped.fresh(window_page(i)));
    }
    assert(m.translation(page.number as nat) == mapped.translation(page.number as nat));
    let p2 = page.p2_index() as nat;
    let top = s.entry(s.edited(), p2);
    if top.is_present() {
        assert(m.stale =~= s.stale.remove(page.number as nat));
    } else {
        assert(!temporary_page.allocator.available().is_empty());
        assert(temporary_page.allocator.available().contains(held));
        lemma_encode_decode(Frame { number: held as usize }, PRESENT | WRITABLE);
    }
    lemma_encode_decode(frame, WRITABLE | PRESENT);
    assert(m.entry(s.edited(), p2) == mapped.entry(s.edited(), p2));
}

/// What the state is once the mapping of the temporary page is taken
/// away: the page's entry is unused, the rest of memory is as before, and
/// the cache is up to date for the page. Where the page's second-level
/// table is not the table that the processor walks, the window still works.
pub proof fn lemma_unmapping(temporary_page: TemporaryPage, s: State)
    requires
        s.window_fresh(),
    ensures
        ({
            let u = temporary_page.unmapping(s);
            let held = s.entry(s.edited(), temporary_page.page.p2_index() as nat).frame_number();
            let p1 = temporary_page.page.p1_index() as nat;
            &&& u.cr3 == s.cr3
            &&& u.fresh(temporary_page.page.number as nat)
            &&& forall|g: nat, i: nat| #[trigger]
                u.entry(g, i) == if g == held && i == p1 {
                    TableEntry(0)
                } else {
                    s.entry(g, i)
                }
            &&& s.direct() && held != s.root() ==> u.window_fresh()
            &&& forall|page: nat| #[trigger]
                u.stale.contains(page) ==> s.stale.contains(page) || s.walk_reads(page, held, p1)
        }),
{
    let u = temporary_page.unmapping(s);
    let held = s.entry(s.edited(), temporary_page.page.p2_index() as nat).frame_number();
    let p1 = temporary_page.page.p1_index() as nat;
    let written = s.write(held, p1, TableEntry(0));
    assert forall|g: nat, i: nat| #[trigger]
        u.entry(g, i) == if g == held && i == p1 {
            TableEntry(0)
        } else {
            s.entry(g, i)
        } by {
        assert(u.entry(g, i) == written.entry(g, i));
    }
    if s.direct() && held != s.root() {
        assert forall|i: nat| i < 1024 implies u.fresh(#[trigger] window_page(i)) by {
            assert(s.fresh(window_page(i)));
            assert((window_page(i) / 1024) % 1024 == 1023);
            assert(!s.walk_reads(window_page(i), held, p1));
        }
    }
}

} // verus!
