//! Translation and mapping through the recursive window.

use vstd::prelude::*;
use crate::hardware::{lemma_cleared, lemma_mapped_to_memory, window_page, Hardware, State};
use crate::memory::{Frame, FrameAllocator, PhysicalAddress, PAGE_SIZE};
use super::table::{lemma_window, Level2, Table, P2};
use super::table_entry::{
    lemma_encode_decode, lemma_table_flags, lemma_unused_not_present, TableEntry, TableEntryFlags,
    ALL_FLAGS, HUGE_PAGE, PRESENT, WRITABLE,
};
use super::{Page, VirtualAddress};

verus! {

/// Reads and edits the table hierarchy that the recursive window shows.
pub struct Mapper {
    p2: Table<Level2>,
}

/// Mapping a page makes the mapper translate that page to the frame it was
/// mapped to, and the first address of the page to the first address of the
/// frame. The window still works afterwards and shows the same table.
///
/// No page becomes stale where the page's second-level table was there
/// before, nor where that table is made in a frame that held no present
/// entry. Where the frame held present entries, pages may become stale,
/// but none of the window.
pub proof fn lemma_map_to_then_translate(s: State, page: Page, frame: Frame, flags: u32, made: nat)
    requires
        frame.addressable(),
        flags & !ALL_FLAGS == 0,
        s.recursive(),
        !s.entry(s.edited(), page.p2_index() as nat).is_huge(),
        s.entry(s.edited(), page.p2_index() as nat).is_present() ==> s.entry(
            s.entry(s.edited(), page.p2_index() as nat).frame_number(),
            page.p1_index() as nat,
        ).is_unused(),
        !s.entry(s.edited(), page.p2_index() as nat).is_present() ==> made < 0x10_0000 && made
            != s.root() && made != s.edited(),
    ensures
        s.mapped_to(page.number as nat, frame, flags, made).recursive(),
        s.mapped_to(page.number as nat, frame, flags, made).edited() == s.edited(),
        s.mapped_to(page.number as nat, frame, flags, made).cr3 == s.cr3,
        s.mapped_to(page.number as nat, frame, flags, made).entry(
            s.edited(),
            page.p2_index() as nat,
        ).is_table(),
        s.mapped_to(page.number as nat, frame, flags, made).translation(page.number as nat)
            == Some(frame),
        page.addressable() ==> s.mapped_to(
            page.number as nat,
            frame,
            flags,
            made,
        ).translate_address(page.start_address()) == Some(frame.start_address()),
        s.stale.subset_of(s.mapped_to(page.number as nat, frame, flags, made).stale),
        s.entry(s.edited(), page.p2_index() as nat).is_present() || (forall|i: nat|
            i < 1024 ==> !(#[trigger] s.entry(made, i)).is_present()) ==> s.mapped_to(
            page.number as nat,
            frame,
            flags,
            made,
        ).stale == s.stale,
{
    let after = s.mapped_to(page.number as nat, frame, flags, made);
    let edited = s.edited();
    let p2 = page.p2_index() as nat;
    let p1 = page.p1_index() as nat;
    let top = s.entry(edited, p2);
    let leaf = TableEntry::encode(frame, flags | PRESENT);
    lemma_table_flags();
    lemma_unused_not_present();
    lemma_encode_decode(frame, flags | PRESENT);
    if top.is_present() {
        assert(s.staled_by(top.frame_number(), p1) =~= Set::empty());
        assert(after.stale =~= s.stale);
        assert(after.entry(after.root(), 1023) == s.entry(s.root(), 1023));
        assert(after.entry(edited, 1023) == s.entry(edited, 1023));
        assert(after.entry(edited, p2) == top);
        assert forall|i: nat| i < 1024 implies after.fresh(#[trigger] window_page(i)) by {
            assert(s.fresh(window_page(i)));
        }
    } else {
        let table = Frame { number: made as usize };
        lemma_encode_decode(table, PRESENT | WRITABLE);
        let installed = s.write(edited, p2, TableEntry::encode(table, PRESENT | WRITABLE));
        let blank = installed.zeroed(made);
        assert(after == blank.write(made, p1, leaf));
        assert(s.staled_by(edited, p2) =~= Set::empty());
        assert(installed.stale =~= s.stale);
        lemma_cleared(installed, made, 1024);
        assert(blank == installed.cleared(made, 1024));
        assert(p2 != 1023);
        assert(blank.entry(s.root(), 1023) == installed.entry(s.root(), 1023));
        assert(blank.entry(edited, 1023) == installed.entry(edited, 1023));
        assert(blank.entry(edited, p2) == installed.entry(edited, p2));
        assert(blank.entry(made, p1) == TableEntry(0));
        assert(blank.staled_by(made, p1) =~= Set::empty());
        assert(after.stale =~= blank.stale);
        assert(after.entry(after.root(), 1023) == s.entry(s.root(), 1023));
        assert(after.entry(edited, 1023) == s.entry(edited, 1023));
        assert(after.entry(edited, p2) == TableEntry::encode(table, PRESENT | WRITABLE));
        assert forall|i: nat| i < 1024 implies after.fresh(#[trigger] window_page(i)) by {
            assert(s.fresh(window_page(i)));
            assert((window_page(i) / 1024) % 1024 == 1023);
            assert(installed.entry(installed.root(), 1023) == s.entry(s.root(), 1023));
        }
        if forall|i: nat| i < 1024 ==> !(#[trigger] s.entry(made, i)).is_present() {
            assert forall|i: nat| i < 1024 implies !(#[trigger] installed.entry(
                made,
                i,
            )).is_present() by {
                assert(installed.entry(made, i) == s.entry(made, i));
            }
        }
    }
    assert(after.translation(page.number as nat) == Some(frame));
    if page.addressable() {
        assert(page.start_address() / 4096 == page.number);
        assert(page.start_address() % 4096 == 0);
    }
}

/// Mapping a page leaves the translation of every other page as it is,
/// where second-level tables are not shared: the table of the page mapped
/// is not the edited top-level table itself, and the other page has its
/// entry in the same second-level table or in one that lies in another
/// frame. Where the table of the page mapped has to be made, the other
/// page must not have its entry in the frame of the new table, nor in the
/// top-level table itself: the page of the window that shows the new table
/// is mapped along with it.
pub proof fn lemma_map_to_keeps_other_pages(
    s: State,
    page: Page,
    frame: Frame,
    flags: u32,
    made: nat,
    other: Page,
)
    requires
        page.addressable(),
        other.addressable(),
        other != page,
        frame.addressable(),
        flags & !ALL_FLAGS == 0,
        s.recursive(),
        !s.entry(s.edited(), page.p2_index() as nat).is_huge(),
        s.entry(s.edited(), page.p2_index() as nat).is_present() ==> {
            &&& s.entry(
                s.entry(s.edited(), page.p2_index() as nat).frame_number(),
                page.p1_index() as nat,
            ).is_unused()
            &&& s.entry(s.edited(), page.p2_index() as nat).frame_number() != s.edited()
        },
        !s.entry(s.edited(), page.p2_index() as nat).is_present() ==> made < 0x10_0000 && made
            != s.root() && made != s.edited(),
        other.p2_index() != page.p2_index() && s.entry(
            s.edited(),
            other.p2_index() as nat,
        ).is_table() ==> {
            let table = s.entry(s.edited(), other.p2_index() as nat).frame_number();
            if s.entry(s.edited(), page.p2_index() as nat).is_present() {
                table != s.entry(s.edited(), page.p2_index() as nat).frame_number()
            } else {
                table != made && table != s.edited()
            }
        },
    ensures
        s.mapped_to(page.number as nat, frame, flags, made).translation(other.number as nat)
            == s.translation(other.number as nat),
{
    lemma_mapped_to_memory(s, page.number as nat, frame, flags, made);
    lemma_map_to_then_translate(s, page, frame, flags, made);
    lemma_table_flags();
    lemma_unused_not_present();
    let after = s.mapped_to(page.number as nat, frame, flags, made);
    let edited = s.edited();
    let top = s.entry(edited, page.p2_index() as nat);
    let other_top = s.entry(edited, other.p2_index() as nat);
    if !top.is_present() {
        lemma_encode_decode(Frame { number: made as usize }, PRESENT | WRITABLE);
    }
    assert(after.edited() == edited);
    let o2 = other.p2_index() as nat;
    let o1 = other.p1_index() as nat;
    if other.p2_index() == page.p2_index() {
        assert(other.p1_index() != page.p1_index());
        if top.is_present() {
            assert(after.entry(edited, o2) == top);
            assert(after.entry(top.frame_number(), o1) == s.entry(top.frame_number(), o1));
        } else {
            assert(after.entry(edited, o2).is_table());
            assert(after.entry(edited, o2).frame_number() == made);
            assert(after.entry(made, o1) == TableEntry(0));
            assert(s.walk(edited, other.number as nat) is None);
            assert(after.walk(edited, other.number as nat) is None);
        }
    } else {
        assert(after.entry(edited, o2) == other_top);
        if other_top.is_table() {
            assert(after.entry(other_top.frame_number(), o1) == s.entry(
                other_top.frame_number(),
                o1,
            ));
        }
    }
    assert(after.walk(edited, other.number as nat) == s.walk(edited, other.number as nat));
}

/// Mapping the page whose number is that of a frame to that frame makes
/// the mapper translate the first address of the frame to itself.
pub proof fn lemma_identity_map_then_translate(s: State, frame: Frame, flags: u32, made: nat)
    requires
        frame.addressable(),
        flags & !ALL_FLAGS == 0,
        s.recursive(),
        !s.entry(s.edited(), (frame.number / 1024) as nat).is_huge(),
        s.entry(s.edited(), (frame.number / 1024) as nat).is_present() ==> s.entry(
            s.entry(s.edited(), (frame.number / 1024) as nat).frame_number(),
            (frame.number % 1024) as nat,
        ).is_unused(),
        !s.entry(s.edited(), (frame.number / 1024) as nat).is_present() ==> made < 0x10_0000
            && made != s.root() && made != s.edited(),
    ensures
        s.mapped_to(frame.number as nat, frame, flags, made).translate_address(
            frame.start_address(),
        ) == Some(frame.start_address()),
{
    lemma_map_to_then_translate(s, Page { number: frame.number }, frame, flags, made);
}

/// A present top-level entry that is a large page and starts at frame `n`,
/// a multiple of the number of entries in a table, translates the page with
/// the low index `k` to frame `n + k`.
pub proof fn lemma_huge_page_translation(s: State, root: nat, page: Page)
    requires
        s.entry(root, page.p2_index() as nat).is_present(),
        s.entry(root, page.p2_index() as nat).is_huge(),
        s.entry(root, page.p2_index() as nat).frame_number() % 1024 == 0,
    ensures
        s.huge_aligned(root, page.number as nat),
        s.walk(root, page.number as nat) matches Some(frame) && frame.number == s.entry(
            root,
            page.p2_index() as nat,
        ).frame_number() + page.p1_index() && frame.addressable(),
{
    let top = s.entry(root, page.p2_index() as nat);
    assert(top.frame_number() < 0x10_0000);
    assert(top.frame_number() <= 0xf_fc00);
}

/// While the mapper edits the table that the processor walks, and large
/// pages start where they should, the processor translates every page as
/// the mapper does.
pub proof fn lemma_processor_agrees(s: State, page: Page)
    requires
        s.direct(),
        page.addressable(),
        s.huge_aligned(s.root(), page.number as nat),
    ensures
        s.mmu(page.number as nat) == match s.translation(page.number as nat) {
            Some(frame) => Some(frame.number as nat),
            None => None,
        },
{
    let top = s.entry(s.root(), page.p2_index() as nat);
    assert(page.number / 1024 < 1024);
    assert(top.frame_number() < 0x10_0000);
    if top.is_present() && top.is_huge() {
        assert(top.frame_number() <= 0xf_fc00);
        assert((top.frame_number() / 1024) * 1024 == top.frame_number());
    }
}

/// A table that maps itself shows, at its last index, an entry that decodes
/// to the frame of the table.
pub proof fn lemma_self_mapped_decodes(s: State, frame: Frame)
    requires
        frame.addressable(),
        s.self_mapped(frame.number as nat),
    ensures
        s.entry(frame.number as nat, 1023).pointed_frame_spec() == Some(frame),
        s.walk(frame.number as nat, 0xf_ffff) == Some(frame),
{
}

impl Mapper {
    #[verifier::type_invariant]
    spec fn at_window(self) -> bool {
        self.p2.address == P2
    }

    /// The top-level table through which the mapper reads and edits.
    pub closed spec fn top(self) -> Table<Level2> {
        self.p2
    }

    /// A mapper for the table that the recursive window shows: its
    /// top-level table is the one at the fixed address `P2`.
    pub fn new() -> (mapper: Mapper)
        ensures
            mapper.top() == Table::<Level2>::at(P2),
    {
        Mapper { p2: Table::at(P2) }
    }

    /// The top-level table.
    pub fn p2(&self) -> (table: Table<Level2>)
        ensures
            table == self.top(),
            table == Table::<Level2>::at(P2),
    {
        proof {
            use_type_invariant(self);
        }
        Table::at(self.p2.address)
    }

    /// The top-level table, for editing.
    pub fn p2_mut(&mut self) -> (table: Table<Level2>)
        ensures
            table == old(self).top(),
            table == Table::<Level2>::at(P2),
            *final(self) == *old(self),
    {
        proof {
            use_type_invariant(&*self);
        }
        Table::at(self.p2.address)
    }

    /// The physical address that `virtual_address` is mapped to.
    pub fn translate<H: Hardware>(&self, hw: &H, virtual_address: VirtualAddress) -> (address:
        Option<PhysicalAddress>)
        requires
            hw.state().recursive(),
            hw.state().huge_aligned(hw.state().edited(), (virtual_address / 4096) as nat),
        ensures
            address == hw.state().translate_address(virtual_address),
    {
        let offset = virtual_address % PAGE_SIZE;
        match self.translate_page(hw, Page::containing_address(virtual_address)) {
            Some(frame) => Some((frame.number as u32) * PAGE_SIZE + offset),
            None => None,
        }
    }

    /// The frame that `page` is mapped to.
    pub fn translate_page<H: Hardware>(&self, hw: &H, page: Page) -> (frame: Option<Frame>)
        requires
            hw.state().recursive(),
            hw.state().huge_aligned(hw.state().edited(), page.number as nat),
        ensures
            frame == hw.state().translation(page.number as nat),
            frame matches Some(f) ==> f.addressable(),
    {
        proof {
            lemma_window(hw.state(), page.p2_index());
        }
        let p2 = self.p2();
        let found = match p2.next_table(hw, page.p2_index()) {
            Some(p1) => p1.index(hw, page.p1_index()).pointed_frame(),
            None => None,
        };
        match found {
            Some(frame) => Some(frame),
            None => {
                let p2_entry = p2.index(hw, page.p2_index());
                if let Some(start_frame) = p2_entry.pointed_frame() {
                    if p2_entry.flags().contains(HUGE_PAGE) {
                        return Some(Frame { number: start_frame.number + page.p1_index() });
                    }
                }
                None
            },
        }
    }

    /// Whether `page` can take a mapping as far as the tables go: no large
    /// page is in its way, and its slot is unused or its second-level table
    /// is yet to be made.
    pub fn is_free<H: Hardware>(&self, hw: &H, page: Page) -> (free: bool)
        requires
            hw.state().recursive(),
        ensures
            free == ({
                let top = hw.state().entry(hw.state().edited(), page.p2_index() as nat);
                &&& !top.is_huge()
                &&& top.is_present() ==> hw.state().entry(
                    top.frame_number(),
                    page.p1_index() as nat,
                ).is_unused()
            }),
    {
        proof {
            lemma_window(hw.state(), page.p2_index());
        }
        let p2 = self.p2();
        if p2.index(hw, page.p2_index()).flags().contains(HUGE_PAGE) {
            return false;
        }
        match p2.next_table(hw, page.p2_index()) {
            Some(p1) => p1.index(hw, page.p1_index()).is_unused(),
            None => true,
        }
    }

    /// Maps `page` to `frame` with `flags`.
    pub fn map_to<H: Hardware, A: FrameAllocator>(
        &mut self,
        hw: &mut H,
        page: Page,
        frame: Frame,
        flags: TableEntryFlags,
        allocator: &mut A,
    )
        requires
            frame.addressable(),
            old(hw).state().can_map(page.number as nat, old(allocator).available()),
        ensures
            final(hw).state() == old(hw).state().mapped_to(
                page.number as nat,
                frame,
                flags@,
                final(hw).state().entry(
                    old(hw).state().edited(),
                    page.p2_index() as nat,
                ).frame_number(),
            ),
            old(hw).state().entry(old(hw).state().edited(), page.p2_index() as nat).is_present()
                ==> final(allocator).available() == old(allocator).available(),
            !old(hw).state().entry(old(hw).state().edited(), page.p2_index() as nat).is_present()
                ==> {
                let made = final(hw).state().entry(
                    old(hw).state().edited(),
                    page.p2_index() as nat,
                ).frame_number();
                &&& old(allocator).available().contains(made)
                &&& final(allocator).available() == old(allocator).available().remove(made)
            },
            final(hw).state().recursive(),
            final(hw).state().edited() == old(hw).state().edited(),
            final(hw).state().cr3 == old(hw).state().cr3,
            final(hw).state().entry(old(hw).state().edited(), page.p2_index() as nat).is_table(),
            final(hw).state().translation(page.number as nat) == Some(frame),
    {
        let ghost start = hw.state();
        let ghost edited = start.edited();
        let ghost top = start.entry(edited, page.p2_index() as nat);
        let mut p2 = self.p2_mut();
        let mut p1 = p2.next_table_create(hw, page.p2_index(), allocator);
        let ghost ready = hw.state();
        let ghost made = ready.entry(edited, page.p2_index() as nat).frame_number();
        proof {
            lemma_unused_not_present();
            lemma_table_flags();
            if !top.is_present() {
                lemma_encode_decode(Frame { number: made as usize }, PRESENT | WRITABLE);
            }
        }
        let mut entry = p1.index(hw, page.p1_index());
        entry.set(frame, flags.union(TableEntryFlags::from_bits_truncate(PRESENT)));
        p1.store(hw, page.p1_index(), entry);
        proof {
            lemma_encode_decode(frame, flags@ | PRESENT);
            let done = hw.state();
            assert(done.entry(edited, page.p2_index() as nat) == ready.entry(
                edited,
                page.p2_index() as nat,
            ));
            lemma_map_to_then_translate(start, page, frame, flags@, made);
        }
    }

    /// Maps `page` to `frame` with `flags` if the page can take a mapping,
    /// and says whether it did. A page whose slot is in use, or in whose
    /// way a large page lies, is left as it is, and so is all else.
    pub fn try_map_to<H: Hardware, A: FrameAllocator>(
        &mut self,
        hw: &mut H,
        page: Page,
        frame: Frame,
        flags: TableEntryFlags,
        allocator: &mut A,
    ) -> (mapped: bool)
        requires
            frame.addressable(),
            old(hw).state().recursive(),
            !old(hw).state().entry(old(hw).state().edited(), page.p2_index() as nat).is_present()
                ==> {
                &&& !old(allocator).available().is_empty()
                &&& old(hw).state().clear_of(old(allocator).available())
            },
        ensures
            mapped == old(hw).state().can_map(page.number as nat, old(allocator).available()),
            !mapped ==> final(hw).state() == old(hw).state() && final(allocator).available()
                == old(allocator).available(),
            mapped ==> {
                &&& final(hw).state() == old(hw).state().mapped_to(
                    page.number as nat,
                    frame,
                    flags@,
                    final(hw).state().entry(
                        old(hw).state().edited(),
                        page.p2_index() as nat,
                    ).frame_number(),
                )
                &&& final(hw).state().recursive()
                &&& final(hw).state().translation(page.number as nat) == Some(frame)
                &&& old(hw).state().entry(
                    old(hw).state().edited(),
                    page.p2_index() as nat,
                ).is_present() ==> final(allocator).available() == old(allocator).available()
                &&& !old(hw).state().entry(
                    old(hw).state().edited(),
                    page.p2_index() as nat,
                ).is_present() ==> {
                    final(allocator).available() == old(allocator).available().remove(
                        final(hw).state().entry(
                            old(hw).state().edited(),
                            page.p2_index() as nat,
                        ).frame_number(),
                    )
                }
            },
    {
        if self.is_free(hw, page) {
            self.map_to(hw, page, frame, flags, allocator);
            true
        } else {
            false
        }
    }

    /// Maps `page` to a frame taken from `allocator`.
    pub fn map<H: Hardware, A: FrameAllocator>(
        &mut self,
        hw: &mut H,
        page: Page,
        flags: TableEntryFlags,
        allocator: &mut A,
    )
        requires
            old(hw).state().can_map_new(page.number as nat, old(allocator).available()),
        ensures
            final(hw).state().translation(page.number as nat) is Some,
            ({
                let frame = final(hw).state().translation(page.number as nat).unwrap();
                let made = final(hw).state().entry(
                    old(hw).state().edited(),
                    page.p2_index() as nat,
                ).frame_number();
                let taken = old(allocator).available().remove(frame.number as nat);
                &&& frame.addressable()
                &&& old(allocator).available().contains(frame.number as nat)
                &&& final(hw).state() == old(hw).state().mapped_to(
                    page.number as nat,
                    frame,
                    flags@,
                    made,
                )
                &&& old(hw).state().entry(
                    old(hw).state().edited(),
                    page.p2_index() as nat,
                ).is_present() ==> final(allocator).available() == taken
                &&& !old(hw).state().entry(
                    old(hw).state().edited(),
                    page.p2_index() as nat,
                ).is_present() ==> taken.contains(made) && final(allocator).available()
                    == taken.remove(made)
            }),
            final(hw).state().recursive(),
            final(hw).state().edited() == old(hw).state().edited(),
            final(hw).state().cr3 == old(hw).state().cr3,
    {
        let frame = allocator.allocate_frame().unwrap();
        self.map_to(hw, page, frame, flags, allocator)
    }

    /// Maps the page whose number is that of `frame` to `frame`, so that
    /// virtual and physical addresses coincide there.
    pub fn identity_map<H: Hardware, A: FrameAllocator>(
        &mut self,
        hw: &mut H,
        frame: Frame,
        flags: TableEntryFlags,
        allocator: &mut A,
    )
        requires
            frame.addressable(),
            old(hw).state().can_map(frame.number as nat, old(allocator).available()),
        ensures
            final(hw).state() == old(hw).state().mapped_to(
                frame.number as nat,
                frame,
                flags@,
                final(hw).state().entry(
                    old(hw).state().edited(),
                    (frame.number / 1024) as nat,
                ).frame_number(),
            ),
            old(hw).state().entry(
                old(hw).state().edited(),
                (frame.number / 1024) as nat,
            ).is_present() ==> final(allocator).available() == old(allocator).available(),
            !old(hw).state().entry(
                old(hw).state().edited(),
                (frame.number / 1024) as nat,
            ).is_present() ==> {
                let made = final(hw).state().entry(
                    old(hw).state().edited(),
                    (frame.number / 1024) as nat,
                ).frame_number();
                &&& old(allocator).available().contains(made)
                &&& final(allocator).available() == old(allocator).available().remove(made)
            },
            final(hw).state().recursive(),
            final(hw).state().edited() == old(hw).state().edited(),
            final(hw).state().cr3 == old(hw).state().cr3,
            final(hw).state().translation(frame.number as nat) == Some(frame),
            final(hw).state().translate_address(frame.start_address()) == Some(
                frame.start_address(),
            ),
    {
        let page = Page::containing_address(frame.start_address());
        self.map_to(hw, page, frame, flags, allocator);
    }

    /// Meant to take the mapping of `page` away and to give its frame back.
    /// It does neither: tables and allocator are left as they are.
    pub fn unmap<H: Hardware, A: FrameAllocator>(
        &mut self,
        hw: &mut H,
        page: Page,
        allocator: &mut A,
    )
        ensures
            final(hw).state() == old(hw).state(),
            final(allocator).available() == old(allocator).available(),
    {
    }
}

} // verus!
