//! Pages, page tables and the switch between address spaces.

use vstd::prelude::*;
use vstd::std_specs::ops::AddSpecImpl;
use crate::hardware::{lemma_cleared, window_page, Hardware, State};
use crate::memory::{holds_at_least, Frame, FrameAllocator, PAGE_SIZE};
use crate::multiboot::MultiBoot;
use self::kernel_image::map_kernel_image;
use self::mapper::Mapper;
use self::table::{lemma_window, Level2, Table, P2};
use self::table_entry::{
    lemma_encode_decode, lemma_table_flags, lemma_unused_not_present, TableEntry, TableEntryFlags,
    PRESENT, WRITABLE,
};
use self::temporary_page::{lemma_mapping, lemma_unmapping, TemporaryPage};

pub mod kernel_image;
pub mod mapper;
pub mod table;
pub mod table_entry;
pub mod temporary_page;

verus! {

/// Number of entries in a page table.
pub const ENTRY_COUNT: usize = 1024;

/// Number of pages in the 32-bit virtual address space.
pub const PAGE_COUNT: usize = 0x10_0000;

/// Number of the page that is set aside for looking at frames that are not
/// mapped otherwise.
pub const TEMPORARY_PAGE: usize = 0xebabe;

/// An address in virtual memory.
pub type VirtualAddress = u32;

/// One page of virtual memory, named by its number.
#[derive(Debug, Clone, Copy, PartialEq, Eq, Structural)]
pub struct Page {
    pub number: usize,
}

impl Page {
    /// A page is addressable when its first byte lies in the 32-bit virtual
    /// address space.
    pub open spec fn addressable(self) -> bool {
        self.number < PAGE_COUNT
    }

    /// Address of the first byte of the page.
    pub open spec fn start_address_spec(&self) -> VirtualAddress
        recommends
            self.addressable(),
    {
        (self.number * 4096) as u32
    }

    /// Index of the page's entry in the top-level table.
    pub open spec fn p2_index_spec(&self) -> usize {
        ((self.number / 1024) % 1024) as usize
    }

    /// Index of the page's entry in its second-level table.
    pub open spec fn p1_index_spec(&self) -> usize {
        (self.number % 1024) as usize
    }

    /// The page that holds the byte at `address`.
    pub fn containing_address(address: VirtualAddress) -> (page: Page)
        ensures
            page.number == address as int / 4096,
            page.addressable(),
    {
        Page { number: (address / PAGE_SIZE) as usize }
    }

    /// Address of the first byte of the page.
    #[verifier::when_used_as_spec(start_address_spec)]
    pub fn start_address(&self) -> (address: VirtualAddress)
        requires
            self.addressable(),
        ensures
            address == self.start_address_spec(),
            address as int == self.number * 4096,
    {
        (self.number as u32) * PAGE_SIZE
    }

    /// Index of the page's entry in the top-level table: the high ten bits
    /// of the page's number within the address space.
    #[verifier::when_used_as_spec(p2_index_spec)]
    pub fn p2_index(&self) -> (index: usize)
        ensures
            index == self.p2_index_spec(),
            index < 1024,
    {
        let number = self.number;
        assert((number >> 10) & 0x3ff == (number / 1024) % 1024) by (bit_vector);
        (self.number >> 10) & 0x3ff
    }

    /// Index of the page's entry in its second-level table: the low ten
    /// bits of the page's number.
    #[verifier::when_used_as_spec(p1_index_spec)]
    pub fn p1_index(&self) -> (index: usize)
        ensures
            index == self.p1_index_spec(),
            index < 1024,
    {
        let number = self.number;
        assert(number & 0x3ff == number % 1024) by (bit_vector);
        self.number & 0x3ff
    }

    /// The pages from `start` to `end`, both included.
    pub fn range_inclusive(start: Page, end: Page) -> (iter: PageIter)
        ensures
            iter.start == start,
            iter.end == end,
    {
        PageIter { start, end }
    }
}

impl core::ops::Add<usize> for Page {
    type Output = Page;

    fn add(self, rhs: usize) -> (page: Page) {
        Page { number: self.number + rhs }
    }
}

impl AddSpecImpl<usize> for Page {
    open spec fn obeys_add_spec() -> bool {
        true
    }

    open spec fn add_req(self, rhs: usize) -> bool {
        self.number + rhs <= usize::MAX
    }

    open spec fn add_spec(self, rhs: usize) -> Page {
        Page { number: (self.number + rhs) as usize }
    }
}

/// Walks a range of pages in ascending order.
#[derive(Clone, Copy)]
pub struct PageIter {
    pub start: Page,
    pub end: Page,
}

impl PageIter {
    /// The pages that are still to come, as a sequence of page numbers.
    pub open spec fn remaining(self) -> Seq<nat> {
        if self.start.number <= self.end.number {
            Seq::new(
                (self.end.number - self.start.number + 1) as nat,
                |i: int| (self.start.number + i) as nat,
            )
        } else {
            Seq::empty()
        }
    }

    /// Hands out the next page of the range, if there is one.
    pub fn next(&mut self) -> (page: Option<Page>)
        requires
            old(self).end.number < usize::MAX,
        ensures
            old(self).remaining().len() == 0 ==> page is None && *final(self) == *old(self),
            old(self).remaining().len() > 0 ==> page == Some(old(self).start)
                && final(self).remaining() == old(self).remaining().skip(1)
                && final(self).end == old(self).end
                && final(self).start.number == old(self).start.number + 1,
    {
        if self.start.number <= self.end.number {
            let page = self.start;
            self.start.number += 1;
            proof {
                assert(final(self).remaining() =~= old(self).remaining().skip(1));
            }
            Some(page)
        } else {
            None
        }
    }
}

/// The table hierarchy that the processor walks.
pub struct ActivePageTable {
    pub mapper: Mapper,
}

/// A table hierarchy that is complete but not in use: the frame of its
/// top-level table.
pub struct InactivePageTable {
    pub p2_frame: Frame,
}

impl core::ops::Deref for ActivePageTable {
    type Target = Mapper;

    fn deref(&self) -> (mapper: &Mapper)
        ensures
            *mapper == self.mapper,
    {
        &self.mapper
    }
}

impl ActivePageTable {
    /// The mapper, for editing.
    pub fn mapper_mut(&mut self) -> (mapper: &mut Mapper)
        ensures
            *mapper == old(self).mapper,
            final(self).mapper == *final(mapper),
    {
        &mut self.mapper
    }

    /// The handle for the table that the table-base register points at:
    /// its mapper reads and edits through the top-level table at the fixed
    /// address of the recursive window, which at this moment shows the
    /// table that the processor walks.
    pub fn new<H: Hardware>(hw: &H) -> (table: ActivePageTable)
        requires
            hw.state().direct(),
        ensures
            table.mapper.top() == Table::<Level2>::at(P2),
            table.mapper.top().mapped(hw.state()),
            table.mapper.top().frame(hw.state()) == hw.state().root(),
    {
        proof {
            lemma_window(hw.state(), 1023);
        }
        ActivePageTable { mapper: Mapper::new() }
    }

    /// The state in which the edit of `with` runs: the temporary page shows
    /// the active top-level table, the recursive entry of that table refers
    /// to the inactive table in `edited`, and the translation cache is
    /// empty.
    pub open spec fn redirected(s: State, edited: Frame, temporary_page: TemporaryPage) -> State {
        temporary_page.mapping(s, Frame { number: s.root() as usize }).write(
            s.root(),
            1023,
            TableEntry::encode(edited, PRESENT | WRITABLE),
        ).flushed_all()
    }

    /// What the edit of `with` must leave alone: the table-base register,
    /// the top-level table in frame `root`, the entry that maps the
    /// temporary page, and the cached translation of that page, which must
    /// not become stale.
    pub open spec fn keeps_active(
        before: State,
        after: State,
        root: nat,
        held: nat,
        page: Page,
    ) -> bool {
        &&& after.cr3 == before.cr3
        &&& after.same_table_but(before, root, 1024)
        &&& after.entry(held, page.p1_index() as nat) == before.entry(
            held,
            page.p1_index() as nat,
        )
        &&& after.fresh(page.number as nat)
    }

    /// The state after `with` has put the active table back in order: its
    /// recursive entry refers to itself again and the translation cache
    /// has been emptied, and then the temporary page is unmapped and
    /// flushed.
    pub open spec fn restored(s: State, root: nat, held: nat, page: Page) -> State {
        s.write(
            root,
            1023,
            TableEntry::encode(Frame { number: root as usize }, PRESENT | WRITABLE),
        ).flushed_all().write(held, page.p1_index() as nat, TableEntry(0)).flushed(
            page.number as nat,
        )
    }

    /// Runs `f` with the mapper turned to the inactive `table`, so that `f`
    /// reads and edits that table, and turns the mapper back afterwards.
    pub fn with<H: Hardware, A: FrameAllocator, F: FnOnce(&mut Mapper, &mut H, &mut A)>(
        &mut self,
        hw: &mut H,
        table: &mut InactivePageTable,
        temporary_page: &mut TemporaryPage,
        allocator: &mut A,
        f: F,
    )
        requires
            old(hw).state().direct(),
            old(table).p2_frame.addressable(),
            old(hw).state().self_mapped(old(table).p2_frame.number as nat),
            old(temporary_page).free(old(hw).state()),
            old(temporary_page).page.p2_index() != 1023,
            old(temporary_page).table_frame(old(hw).state()) != old(hw).state().root(),
            forall|m: &mut Mapper, h: &mut H, a: &mut A|
                h.state() == Self::redirected(
                    old(hw).state(),
                    old(table).p2_frame,
                    *old(temporary_page),
                ) && *a == *old(allocator) ==> call_requires(f, (m, h, a)),
            forall|m: &mut Mapper, h: &mut H, a: &mut A|
                h.state() == Self::redirected(
                    old(hw).state(),
                    old(table).p2_frame,
                    *old(temporary_page),
                ) && #[trigger] call_ensures(f, (m, h, a), ()) ==> Self::keeps_active(
                    h.state(),
                    final(h).state(),
                    old(hw).state().root(),
                    old(temporary_page).table_frame(old(hw).state()),
                    old(temporary_page).page,
                ),
        ensures
            exists|m: &mut Mapper, h: &mut H, a: &mut A|
                {
                    &&& h.state() == Self::redirected(
                        old(hw).state(),
                        old(table).p2_frame,
                        *old(temporary_page),
                    )
                    &&& *a == *old(allocator)
                    &&& #[trigger] call_ensures(f, (m, h, a), ())
                    &&& *final(allocator) == *final(a)
                    &&& final(hw).state() == Self::restored(
                        final(h).state(),
                        old(hw).state().root(),
                        old(temporary_page).table_frame(old(hw).state()),
                        old(temporary_page).page,
                    )
                },
            *final(table) == *old(table),
            final(temporary_page).page == old(temporary_page).page,
            final(temporary_page).free(final(hw).state()),
            final(hw).state().cr3 == old(hw).state().cr3,
            final(hw).state().direct(),
            final(hw).state().entry(old(hw).state().root(), 1023) == TableEntry::encode(
                Frame { number: old(hw).state().root() as usize },
                PRESENT | WRITABLE,
            ),
            forall|index: nat|
                index < 1023 && (index != old(temporary_page).page.p2_index()
                    || old(hw).state().entry(old(hw).state().root(), index).is_present())
                    ==> #[trigger] final(hw).state().entry(old(hw).state().root(), index)
                    == old(hw).state().entry(old(hw).state().root(), index),
    {
        let ghost start = hw.state();
        let ghost root = start.root();
        let ghost held = old(temporary_page).table_frame(start);
        let ghost page = temporary_page.page;
        let ghost p2 = temporary_page.page.p2_index() as nat;
        let ghost p1 = temporary_page.page.p1_index() as nat;
        proof {
            lemma_table_flags();
            lemma_unused_not_present();
            lemma_encode_decode(table.p2_frame, PRESENT | WRITABLE);
        }
        let backup = Frame::containing_address(hw.cr3_read());
        proof {
            lemma_encode_decode(backup, PRESENT | WRITABLE);
            lemma_encode_decode(backup, WRITABLE | PRESENT);
            lemma_mapping(*temporary_page, start, backup);
        }
        let mut p2_table = temporary_page.map_table_frame(hw, backup, self);
        let ghost shown = hw.state();
        let mut entry = TableEntry::unused();
        entry.set(table.p2_frame, TableEntryFlags::from_bits_truncate(PRESENT | WRITABLE));
        proof {
            lemma_window(shown, 1023);
        }
        let mut top = self.mapper.p2_mut();
        top.store(hw, 1023, entry);
        hw.tlb_flush_all();
        let ghost turned = hw.state();
        proof {
            assert(turned == Self::redirected(start, table.p2_frame, *old(temporary_page)));
        }
        f(&mut self.mapper, hw, allocator);
        let ghost edited = hw.state();
        proof {
            assert(Self::keeps_active(turned, edited, root, held, page));
            assert(edited.entry(root, p2) == turned.entry(root, p2));
            assert(turned.entry(root, p2) == shown.entry(root, p2));
            assert(turned.entry(held, p1) == shown.entry(held, p1));
            assert(edited.mmu(p2_table.page()) == Some(root));
            assert(edited.fresh(p2_table.page()));
        }
        let mut back = TableEntry::unused();
        back.set(backup, TableEntryFlags::from_bits_truncate(PRESENT | WRITABLE));
        p2_table.store(hw, 1023, back);
        hw.tlb_flush_all();
        let ghost mended = hw.state();
        proof {
            assert(mended.entry(root, 1023) == TableEntry::encode(backup, PRESENT | WRITABLE));
            assert(mended.entry(root, p2) == shown.entry(root, p2));
            assert(mended.entry(root, p2) == edited.entry(root, p2));
            assert(mended.stale =~= Set::empty());
            assert(mended.direct());
            lemma_unmapping(*temporary_page, mended);
        }
        temporary_page.unmap(hw, self);
        proof {
            let done = hw.state();
            assert(done == Self::restored(edited, root, held, page));
            assert(done.entry(root, 1023) == TableEntry::encode(backup, PRESENT | WRITABLE));
            assert(done.entry(root, p2) == shown.entry(root, p2));
            assert(done.entry(held, p1).is_unused());
            assert forall|index: nat|
                index < 1023 && (index != p2 || start.entry(root, index).is_present()) implies (
            #[trigger] done.entry(root, index)) == start.entry(root, index) by {
                assert(edited.entry(root, index) == turned.entry(root, index));
                assert(turned.entry(root, index) == shown.entry(root, index));
            }
        }
    }

    /// Makes the processor walk `new_table` and hands back the table that
    /// it walked until now.
    pub fn switch<H: Hardware>(&mut self, hw: &mut H, new_table: InactivePageTable) -> (old_table:
        InactivePageTable)
        requires
            new_table.p2_frame.addressable(),
        ensures
            old_table.p2_frame.number == old(hw).state().root(),
            old_table.p2_frame.addressable(),
            final(hw).state() == old(hw).state().switched(new_table.p2_frame.start_address()),
            final(hw).state().root() == new_table.p2_frame.number,
            old(hw).state().self_mapped(new_table.p2_frame.number as nat) ==> {
                &&& final(hw).state().direct()
                &&& final(hw).state().recursive()
            },
    {
        let old_table = InactivePageTable { p2_frame: Frame::containing_address(hw.cr3_read()) };
        hw.cr3_write(new_table.p2_frame.start_address());
        old_table
    }
}

impl InactivePageTable {
    /// The state after an empty top-level table that maps itself is built in
    /// `frame`, by way of the temporary page.
    pub open spec fn built(s: State, frame: Frame, temporary_page: TemporaryPage) -> State {
        temporary_page.mapping(s, frame).zeroed(frame.number as nat).write(
            frame.number as nat,
            1023,
            TableEntry::encode(frame, PRESENT | WRITABLE),
        ).write(
            temporary_page.table_frame(s),
            temporary_page.page.p1_index() as nat,
            TableEntry(0),
        ).flushed(temporary_page.page.number as nat)
    }

    /// What building a table in `frame` leaves of memory as it was: every
    /// frame but `frame` itself, the entry of the active top-level table
    /// that serves the temporary page, and the second-level table of that
    /// page where it had to be made.
    pub open spec fn kept(
        before: State,
        after: State,
        frame: Frame,
        temporary_page: TemporaryPage,
    ) -> bool {
        let p2 = temporary_page.page.p2_index() as nat;
        let made = !before.entry(before.root(), p2).is_present();
        forall|g: nat, i: nat|
            g != frame.number && !(g == before.root() && i == p2) && !(made && g
                == temporary_page.table_frame(before)) ==> #[trigger] after.entry(g, i)
                == before.entry(g, i)
    }

    /// Turns `frame` into a top-level table that is empty but for its last
    /// entry, which refers to the table itself.
    pub fn new<H: Hardware>(
        hw: &mut H,
        frame: Frame,
        active_table: &mut ActivePageTable,
        temporary_page: &mut TemporaryPage,
    ) -> (table: InactivePageTable)
        requires
            frame.addressable(),
            old(hw).state().direct(),
            old(temporary_page).free(old(hw).state()),
            frame.number != old(hw).state().root(),
            frame.number != old(temporary_page).table_frame(old(hw).state()),
            old(temporary_page).table_frame(old(hw).state()) != old(hw).state().root(),
        ensures
            table.p2_frame == frame,
            final(hw).state() == Self::built(old(hw).state(), frame, *old(temporary_page)),
            final(hw).state().self_mapped(frame.number as nat),
            forall|index: nat|
                index < 1023 ==> (#[trigger] final(hw).state().entry(
                    frame.number as nat,
                    index,
                )).is_unused(),
            final(hw).state().cr3 == old(hw).state().cr3,
            final(hw).state().direct(),
            final(temporary_page).page == old(temporary_page).page,
            final(temporary_page).free(final(hw).state()),
            final(hw).state().same_table_but(
                old(hw).state(),
                old(hw).state().root(),
                old(temporary_page).page.p2_index() as nat,
            ),
            final(hw).state().entry(
                old(hw).state().root(),
                old(temporary_page).page.p2_index() as nat,
            ).is_table(),
            final(hw).state().entry(
                old(hw).state().root(),
                old(temporary_page).page.p2_index() as nat,
            ).frame_number() == old(temporary_page).table_frame(old(hw).state()),
            final(hw).state().entry(
                old(temporary_page).table_frame(old(hw).state()),
                old(temporary_page).page.p1_index() as nat,
            ).is_unused(),
            Self::kept(old(hw).state(), final(hw).state(), frame, *old(temporary_page)),
    {
        let ghost start = hw.state();
        let ghost root = start.root();
        let ghost held = old(temporary_page).table_frame(start);
        let ghost p2 = temporary_page.page.p2_index() as nat;
        let ghost p1 = temporary_page.page.p1_index() as nat;
        proof {
            lemma_table_flags();
            lemma_unused_not_present();
            lemma_encode_decode(frame, PRESENT | WRITABLE);
            lemma_encode_decode(frame, WRITABLE | PRESENT);
            lemma_mapping(*temporary_page, start, frame);
        }
        let mut table = temporary_page.map_table_frame(hw, frame, active_table);
        let ghost shown = hw.state();
        proof {
            assert(shown.entry(root, p2).is_table());
            assert(shown.entry(root, p2).frame_number() == held);
            assert(table.detached(shown));
        }
        table.zero(hw);
        let ghost blank = hw.state();
        proof {
            lemma_cleared(shown, frame.number as nat, 1024);
            assert(blank == shown.cleared(frame.number as nat, 1024));
            assert(blank.entry(root, p2) == shown.entry(root, p2));
            assert(blank.entry(held, p1) == shown.entry(held, p1));
            assert(blank.mmu(table.page()) == shown.mmu(table.page()));
            assert(blank.fresh(table.page()));
        }
        let mut entry = TableEntry::unused();
        entry.set(frame, TableEntryFlags::from_bits_truncate(PRESENT | WRITABLE));
        table.store(hw, 1023, entry);
        let ghost looped = hw.state();
        proof {
            assert(p2 != 1023) by {
                if p2 == 1023 {
                    assert(start.entry(root, 1023).is_present());
                    assert(held == root);
                }
            }
            assert(blank.staled_by(frame.number as nat, 1023) =~= Set::empty());
            assert(looped.stale =~= blank.stale);
            assert(shown.entry(root, 1023) == start.entry(root, 1023));
            assert(blank.entry(root, 1023) == shown.entry(root, 1023));
            assert(looped.entry(root, p2) == shown.entry(root, p2));
            assert(looped.entry(root, 1023) == start.entry(root, 1023));
            assert forall|i: nat| i < 1024 implies looped.fresh(#[trigger] window_page(i)) by {
                assert(shown.fresh(window_page(i)));
                assert((window_page(i) / 1024) % 1024 == 1023);
            }
            assert(looped.direct());
            lemma_unmapping(*temporary_page, looped);
        }
        temporary_page.unmap(hw, active_table);
        proof {
            let done = hw.state();
            assert(done.entry(root, 1023) == start.entry(root, 1023));
            assert(done.entry(held, p1).is_unused());
            assert(done.entry(root, p2) == shown.entry(root, p2));
            assert forall|index: nat| index < 1023 implies (#[trigger] done.entry(
                frame.number as nat,
                index,
            )).is_unused() by {
                assert(blank.entry(frame.number as nat, index) == TableEntry(0));
                assert(looped.entry(frame.number as nat, index) == blank.entry(
                    frame.number as nat,
                    index,
                ));
            }
            assert forall|i: nat| i < 1024 && i != p2 implies #[trigger] done.entry(root, i)
                == start.entry(root, i) by {
                assert(shown.entry(root, i) == start.entry(root, i));
                assert(blank.entry(root, i) == shown.entry(root, i));
                assert(looped.entry(root, i) == blank.entry(root, i));
            }
            let made = !start.entry(root, p2).is_present();
            assert forall|g: nat, i: nat|
                g != frame.number && !(g == root && i == p2) && !(made && g
                    == held) implies #[trigger] done.entry(g, i) == start.entry(g, i) by {
                assert(blank.entry(g, i) == shown.entry(g, i));
                assert(looped.entry(g, i) == blank.entry(g, i));
                assert(shown.entry(g, i) == if g == held && i == p1 {
                    TableEntry::encode(frame, WRITABLE | PRESENT)
                } else {
                    start.entry(g, i)
                });
            }
        }
        InactivePageTable { p2_frame: frame }
    }
}

/// What the state looks like in which the edit of `with` runs.
pub proof fn lemma_redirected(s: State, edited: Frame, temporary_page: TemporaryPage)
    requires
        s.direct(),
        temporary_page.free(s),
        temporary_page.page.p2_index() != 1023,
        edited.addressable(),
        s.self_mapped(edited.number as nat),
        edited.number != s.root(),
        edited.number != temporary_page.table_frame(s),
    ensures
        ({
            let turned = ActivePageTable::redirected(s, edited, temporary_page);
            &&& turned.recursive()
            &&& turned.edited() == edited.number
            &&& turned.cr3 == s.cr3
            &&& turned.stale == Set::<nat>::empty()
            &&& forall|index: nat| #[trigger]
                turned.entry(edited.number as nat, index) == s.entry(edited.number as nat, index)
            &&& s.entry(s.root(), temporary_page.page.p2_index() as nat).is_present() ==> forall|
                g: nat,
                i: nat,
            | #[trigger]
                turned.entry(g, i) == if g == s.root() && i == 1023 {
                    TableEntry::encode(edited, PRESENT | WRITABLE)
                } else if g == temporary_page.table_frame(s) && i
                    == temporary_page.page.p1_index() {
                    TableEntry::encode(Frame { number: s.root() as usize }, WRITABLE | PRESENT)
                } else {
                    s.entry(g, i)
                }
        }),
{
    lemma_table_flags();
    lemma_unused_not_present();
    lemma_encode_decode(edited, PRESENT | WRITABLE);
    let root = Frame { number: s.root() as usize };
    lemma_mapping(temporary_page, s, root);
    let shown = temporary_page.mapping(s, root);
    let written = shown.write(s.root(), 1023, TableEntry::encode(edited, PRESENT | WRITABLE));
    let turned = ActivePageTable::redirected(s, edited, temporary_page);
    assert(turned == written.flushed_all());
    assert forall|g: nat, i: nat| #[trigger] turned.entry(g, i) == written.entry(g, i) by {}
    assert(turned.entry(s.root(), 1023) == TableEntry::encode(edited, PRESENT | WRITABLE));
    assert(turned.stale =~= Set::empty());
    assert forall|index: nat| #[trigger]
        turned.entry(edited.number as nat, index) == s.entry(edited.number as nat, index) by {
        assert(shown.entry(edited.number as nat, index) == s.entry(edited.number as nat, index));
    }
    if s.entry(s.root(), temporary_page.page.p2_index() as nat).is_present() {
        assert forall|g: nat, i: nat| #[trigger]
            turned.entry(g, i) == if g == s.root() && i == 1023 {
                TableEntry::encode(edited, PRESENT | WRITABLE)
            } else if g == temporary_page.table_frame(s) && i == temporary_page.page.p1_index() {
                TableEntry::encode(Frame { number: s.root() as usize }, WRITABLE | PRESENT)
            } else {
                s.entry(g, i)
            } by {
            assert(turned.entry(g, i) == written.entry(g, i));
            assert(shown.entry(g, i) == if g == temporary_page.table_frame(s) && i
                == temporary_page.page.p1_index() {
                TableEntry::encode(Frame { number: s.root() as usize }, WRITABLE | PRESENT)
            } else {
                s.entry(g, i)
            });
        }
    }
}

/// What memory holds once `with` has put the active table back in order.
pub proof fn lemma_restored(s: State, root: nat, held: nat, page: Page)
    ensures
        ActivePageTable::restored(s, root, held, page).cr3 == s.cr3,
        ActivePageTable::restored(s, root, held, page).fresh(page.number as nat),
        forall|g: nat, i: nat| #[trigger]
            ActivePageTable::restored(s, root, held, page).entry(g, i) == if g == held && i
                == page.p1_index() {
                TableEntry(0)
            } else if g == root && i == 1023 {
                TableEntry::encode(Frame { number: root as usize }, PRESENT | WRITABLE)
            } else {
                s.entry(g, i)
            },
{
    let written = s.write(
        root,
        1023,
        TableEntry::encode(Frame { number: root as usize }, PRESENT | WRITABLE),
    );
    let flushed = written.flushed_all();
    let cleared = flushed.write(held, page.p1_index() as nat, TableEntry(0));
    let after = ActivePageTable::restored(s, root, held, page);
    assert(after == cleared.flushed(page.number as nat));
    assert forall|g: nat, i: nat| #[trigger]
        after.entry(g, i) == if g == held && i == page.p1_index() {
            TableEntry(0)
        } else if g == root && i == 1023 {
            TableEntry::encode(Frame { number: root as usize }, PRESENT | WRITABLE)
        } else {
            s.entry(g, i)
        } by {
        assert(after.entry(g, i) == cleared.entry(g, i));
        assert(flushed.entry(g, i) == written.entry(g, i));
    }
}

/// Putting the active table back in order leaves an image that was built
/// in another table as it is.
pub proof fn lemma_restored_keeps_image(
    s: State,
    image: nat,
    pool: Set<nat>,
    left: Set<nat>,
    plan: Map<nat, u32>,
    root: nat,
    held: nat,
    page: Page,
)
    requires
        s.maps_exactly(image, plan),
        s.tidy(image, pool, left),
        !pool.contains(root),
        !pool.contains(held),
        root != image,
        held != image,
    ensures
        ActivePageTable::restored(s, root, held, page).maps_exactly(image, plan),
        ActivePageTable::restored(s, root, held, page).self_mapped(image),
        forall|index: nat| #[trigger]
            ActivePageTable::restored(s, root, held, page).entry(image, index) == s.entry(
                image,
                index,
            ),
{
    let after = ActivePageTable::restored(s, root, held, page);
    lemma_unused_not_present();
    lemma_restored(s, root, held, page);
    assert forall|page: nat| page < kernel_image::WINDOW_START implies #[trigger] after.leaf(
        image,
        page,
    ) == s.leaf(image, page) by {
        assert(page / 1024 < 1023);
        let top = s.entry(image, page / 1024);
        assert(top.is_unused() || top.is_table());
        assert(after.entry(image, page / 1024) == top);
        if top.is_table() {
            assert(pool.contains(top.frame_number()));
        }
    }
    assert forall|page: nat| page < kernel_image::WINDOW_START implies #[trigger] after.leaf(
        image,
        page,
    ) == if plan.contains_key(page) {
        TableEntry::encode(Frame { number: page as usize }, plan[page] | PRESENT)
    } else {
        TableEntry(0)
    } by {
        assert(after.leaf(image, page) == s.leaf(image, page));
    }
    assert forall|index: nat| index < 1023 implies ({
        let top = #[trigger] after.entry(image, index);
        top.is_unused() || top.is_table()
    }) by {
        assert(after.entry(image, index) == s.entry(image, index));
    }
    assert(after.maps_exactly(image, plan));
}

/// What `remap_the_kernel` leaves of memory as it was: every frame that was
/// not the allocator's to give, but for two entries of the old top-level
/// table, the recursive one and the one that serves the temporary page.
pub open spec fn old_space_kept(before: State, after: State, pool: Set<nat>) -> bool {
    forall|frame: nat, index: nat|
        !pool.contains(frame) && !(frame == before.root() && (index == 1023 || index
            == TEMPORARY_PAGE / 1024)) ==> #[trigger] after.entry(frame, index) == before.entry(
            frame,
            index,
        )
}

/// Replaces the address space that the boot loader left by one that holds
/// the kernel image, the text screen and the boot information record, each
/// mapped to itself, and nothing else below the recursive window.
pub fn remap_the_kernel<H: Hardware, A: FrameAllocator>(
    hw: &mut H,
    allocator: &mut A,
    boot: &MultiBoot,
) -> (active_table: ActivePageTable)
    requires
        old(hw).state().direct(),
        boot.mappable(),
        old(hw).state().unreferenced(old(allocator).available()),
        ({
            let top = old(hw).state().entry(old(hw).state().root(), (TEMPORARY_PAGE / 1024) as nat);
            &&& !top.is_huge()
            &&& top.is_present() ==> {
                &&& top.frame_number() != old(hw).state().root()
                &&& old(hw).state().entry(
                    top.frame_number(),
                    (TEMPORARY_PAGE % 1024) as nat,
                ).is_unused()
            }
        }),
        holds_at_least(old(allocator).available(), 2 + boot.tables_needed(1023)),
    ensures
        old(allocator).available().contains(final(hw).state().root()),
        final(hw).state().direct(),
        final(hw).state().stale == Set::<nat>::empty(),
        final(hw).state().maps_exactly(final(hw).state().root(), boot.plan()),
        final(allocator).available().subset_of(old(allocator).available()),
        old_space_kept(old(hw).state(), final(hw).state(), old(allocator).available()),
{
    let ghost start = hw.state();
    let ghost root = start.root();
    let ghost origin = allocator.available();
    proof {
        lemma_table_flags();
        lemma_unused_not_present();
    }
    let ghost needed = boot.tables_needed(1023);
    proof {
        assert(holds_at_least(origin, (2 + needed) as nat));
        assert(!origin.is_empty());
    }
    let mut temporary_page = TemporaryPage::new(Page { number: TEMPORARY_PAGE }, allocator);
    proof {
        let spare = temporary_page.allocator.frame.unwrap().number as nat;
        assert(allocator.available() == origin.remove(spare));
        assert(holds_at_least(origin.remove(spare), (1 + needed) as nat));
        assert(!allocator.available().is_empty());
    }
    let ghost rest = allocator.available();
    let mut active_table = ActivePageTable::new(hw);
    let frame = allocator.allocate_frame().unwrap();
    proof {
        assert(allocator.available() == rest.remove(frame.number as nat));
        assert(holds_at_least(rest.remove(frame.number as nat), needed));
    }
    let ghost held = temporary_page.table_frame(start);
    let ghost p2 = temporary_page.page.p2_index() as nat;
    let ghost p1 = temporary_page.page.p1_index() as nat;
    let ghost first = temporary_page;
    let mut new_table = InactivePageTable::new(hw, frame, &mut active_table, &mut temporary_page);
    let ghost built = hw.state();
    let ghost second = temporary_page;
    let ghost pool = allocator.available();
    let ghost turned = ActivePageTable::redirected(built, frame, second);
    proof {
        lemma_encode_decode(frame, PRESENT | WRITABLE);
        assert(start.entry(root, 1023).is_table());
        assert(!origin.contains(root));
        assert(built.entry(root, p2).is_table());
        assert(built.entry(root, p2).frame_number() == held);
        assert(second.table_frame(built) == held);
        assert(!pool.contains(held)) by {
            if start.entry(root, p2).is_present() {
                assert(start.entry(root, p2).is_table());
            }
        }
        lemma_redirected(built, frame, second);
        assert(turned.blank(frame.number as nat)) by {
            assert forall|index: nat| index < 1023 implies (#[trigger] turned.entry(
                frame.number as nat,
                index,
            )).is_unused() by {
                assert(built.entry(frame.number as nat, index).is_unused());
            }
        }
        assert(turned.unreferenced(pool)) by {
            assert forall|index: nat|
                index < 1024 && (#[trigger] turned.entry(
                    turned.root(),
                    index,
                )).is_table() implies !pool.contains(
                turned.entry(turned.root(), index).frame_number(),
            ) by {
                if index != 1023 && index != p2 {
                    assert(built.entry(root, index) == start.entry(root, index));
                    assert(start.entry(root, index).is_table());
                }
            }
        }
    }
    let edit = |m: &mut Mapper, h: &mut H, a: &mut A|
        requires
            h.state() == turned,
            a.available() == pool,
            boot.mappable(),
            turned.recursive(),
            turned.blank(turned.edited()),
            turned.clear_of(pool),
            turned.root() != turned.edited(),
            turned.unreferenced(pool),
            holds_at_least(pool, boot.tables_needed(1023)),
        ensures
            final(h).state().maps_exactly(turned.edited(), boot.plan()),
            final(h).state().tidy(turned.edited(), pool, final(a).available()),
            final(h).state().same_outside(turned, turned.edited(), pool),
            final(h).state().cr3 == turned.cr3,
            final(h).state().stale == turned.stale,
        {
            map_kernel_image(m, h, a, boot)
        };
    let ghost before = allocator;
    active_table.with(hw, &mut new_table, &mut temporary_page, allocator, edit);
    let ghost mended = hw.state();
    proof {
        assert forall|m: &mut Mapper, h: &mut H, a: &mut A|
            h.state() == turned && *a == *before && #[trigger] call_ensures(edit, (m, h, a), ())
                && mended == ActivePageTable::restored(
                final(h).state(),
                root,
                held,
                first.page,
            ) implies mended.maps_exactly(frame.number as nat, boot.plan()) && mended.self_mapped(
            frame.number as nat,
        ) && old_space_kept(start, mended, origin) && final(a).available().subset_of(origin) by {
            let edited = final(h).state();
            lemma_restored_keeps_image(
                edited,
                frame.number as nat,
                pool,
                final(a).available(),
                boot.plan(),
                root,
                held,
                first.page,
            );
            lemma_restored(edited, root, held, first.page);
            assert forall|f: nat, index: nat|
                !origin.contains(f) && !(f == root && (index == 1023 || index == TEMPORARY_PAGE
                    / 1024)) implies #[trigger] mended.entry(f, index) == start.entry(
                f,
                index,
            ) by {
                assert(edited.entry(f, index) == turned.entry(f, index));
                assert(built.entry(f, index) == start.entry(f, index));
                if f == held && index == p1 {
                    assert(start.entry(f, index).is_unused());
                }
            }
        }
        assert(mended.maps_exactly(frame.number as nat, boot.plan()));
        assert(mended.self_mapped(frame.number as nat));
    }
    let old_table = active_table.switch(hw, new_table);
    let old_p4_page = Page::containing_address(old_table.p2_frame.start_address());
    active_table.mapper.unmap(hw, old_p4_page, allocator);
    proof {
        let done = hw.state();
        let image = frame.number as nat;
        assert(done.root() == image);
        assert forall|page: nat| page < kernel_image::WINDOW_START implies #[trigger] done.leaf(
            image,
            page,
        ) == mended.leaf(image, page) by {}
        assert forall|index: nat| index < 1023 implies ({
            let top = #[trigger] done.entry(image, index);
            top.is_unused() || top.is_table()
        }) by {
            assert(done.entry(image, index) == mended.entry(image, index));
        }
        assert(done.maps_exactly(image, boot.plan()));
        assert forall|f: nat, index: nat|
            !origin.contains(f) && !(f == start.root() && (index == 1023 || index
                == TEMPORARY_PAGE / 1024)) implies #[trigger] done.entry(f, index) == start.entry(
            f,
            index,
        ) by {
            assert(mended.entry(f, index) == start.entry(f, index));
        }
    }
    active_table
}

} // verus!
