//! Page tables, reached through the recursive window.
//!
//! A [`Table`] is a typed view of the 1024 words at a page-aligned virtual
//! address. The words themselves live in the frame that the address is
//! mapped to.

use vstd::prelude::*;
use core::marker::PhantomData;
use crate::hardware::{lemma_cleared, window_page, Hardware, State};
use crate::memory::FrameAllocator;
use super::table_entry::{
    lemma_encode_decode, lemma_table_flags, lemma_unused_not_present, TableEntry, TableEntryFlags,
    HUGE_PAGE, PRESENT, WRITABLE,
};

verus! {

/// Tag of a top-level table.
pub enum Level2 {
    Tag,
}

/// Tag of a second-level table.
pub enum Level1 {
    Tag,
}

/// The levels of the hierarchy.
pub trait TableLevel {

}

impl TableLevel for Level2 {

}

impl TableLevel for Level1 {

}

/// A level whose tables refer to tables of a next level.
pub trait HierachicalLevel: TableLevel {
    type NextLevel: TableLevel;
}

impl HierachicalLevel for Level2 {
    type NextLevel = Level1;
}

/// Virtual address at which the recursive entry makes the top-level table
/// appear.
pub const P2: u32 = 0xffff_f000;

/// Virtual address of `index`-th table of the recursive window.
pub open spec fn window_address(index: usize) -> u32 {
    (0xffc0_0000 + index * 4096) as u32
}

/// The table of level `L` at a virtual address.
pub struct Table<L: TableLevel> {
    pub address: u32,
    pub level: PhantomData<L>,
}

impl<L: TableLevel> Table<L> {
    /// Number of the page that shows the table.
    pub open spec fn page(self) -> nat {
        (self.address / 4096) as nat
    }

    /// The table can be accessed: its address is page-aligned and mapped,
    /// and the translation cache is up to date for its page.
    pub open spec fn mapped(self, s: State) -> bool {
        self.address % 4096 == 0 && s.reaches(self.page())
    }

    /// Number of the frame that holds the table's words.
    pub open spec fn frame(self, s: State) -> nat
        recommends
            self.mapped(s),
    {
        s.mmu(self.page()).unwrap()
    }

    /// The frame that holds the table is none of the tables through which
    /// its own address is translated, so that writing to the table leaves
    /// it where it is.
    pub open spec fn detached(self, s: State) -> bool {
        let top = s.entry(s.root(), (self.page() / 1024) % 1024);
        self.frame(s) != s.root() && (top.is_huge() || self.frame(s) != top.frame_number())
    }

    /// The table at `address`.
    pub open spec fn at_spec(address: u32) -> Table<L> {
        Table { address, level: PhantomData }
    }

    /// The table at `address`.
    #[verifier::when_used_as_spec(at_spec)]
    pub fn at(address: u32) -> (table: Table<L>)
        ensures
            table == Self::at_spec(address),
            table.address == address,
    {
        Table { address, level: PhantomData }
    }

    /// Reads the entry at `index`.
    pub fn index<H: Hardware>(&self, hw: &H, index: usize) -> (entry: TableEntry)
        requires
            self.mapped(hw.state()),
            index < 1024,
        ensures
            entry == hw.state().entry(self.frame(hw.state()), index as nat),
    {
        TableEntry(hw.read(self.address + 4 * (index as u32)))
    }

    /// Stores `entry` at `index`.
    pub fn store<H: Hardware>(&mut self, hw: &mut H, index: usize, entry: TableEntry)
        requires
            old(self).mapped(old(hw).state()),
            index < 1024,
        ensures
            *final(self) == *old(self),
            final(hw).state() == old(hw).state().write(
                old(self).frame(old(hw).state()),
                index as nat,
                entry,
            ),
    {
        hw.write(self.address + 4 * (index as u32), entry.0);
    }

    /// Sets every entry of the table to unused.
    pub fn zero<H: Hardware>(&mut self, hw: &mut H)
        requires
            old(self).mapped(old(hw).state()),
            old(self).detached(old(hw).state()),
        ensures
            *final(self) == *old(self),
            final(hw).state() == old(hw).state().zeroed(old(self).frame(old(hw).state())),
    {
        let ghost start = hw.state();
        let ghost frame = self.frame(start);
        for index in 0..1024usize
            invariant
                *self == *old(self),
                self.mapped(start),
                self.detached(start),
                frame == self.frame(start),
                hw.state() == start.cleared(frame, index as nat),
        {
            let ghost before = hw.state();
            proof {
                lemma_cleared(start, frame, index as nat);
                assert(before.mmu(self.page()) == start.mmu(self.page()));
                assert(before.fresh(self.page()));
            }
            let mut entry = self.index(hw, index);
            entry.set_unused();
            self.store(hw, index, entry);
        }
    }
}

impl<L: HierachicalLevel> Table<L> {
    /// Virtual address at which the table that entry `index` refers to
    /// appears, given that this table is itself seen through the recursive
    /// window.
    pub open spec fn child_address(self, index: usize) -> u32 {
        (self.address << 10) | ((index as u32) << 12)
    }

    /// Address of the table that entry `index` refers to; `None` unless the
    /// entry is present and no large page.
    pub fn next_table_address<H: Hardware>(&self, hw: &H, index: usize) -> (address: Option<u32>)
        requires
            self.mapped(hw.state()),
            index < 1024,
        ensures
            address == if hw.state().entry(self.frame(hw.state()), index as nat).is_table() {
                Some(self.child_address(index))
            } else {
                None
            },
    {
        let entry_flags = self.index(hw, index).flags();
        if entry_flags.contains(PRESENT) && !entry_flags.contains(HUGE_PAGE) {
            let table_address = self.address;
            Some((table_address << 10) | ((index as u32) << 12))
        } else {
            None
        }
    }

    /// The table that entry `index` refers to.
    pub fn next_table<H: Hardware>(&self, hw: &H, index: usize) -> (table: Option<
        Table<L::NextLevel>,
    >)
        requires
            self.mapped(hw.state()),
            index < 1024,
        ensures
            table is Some <==> hw.state().entry(self.frame(hw.state()), index as nat).is_table(),
            table matches Some(t) ==> t.address == self.child_address(index),
    {
        match self.next_table_address(hw, index) {
            Some(address) => Some(Table::at(address)),
            None => None,
        }
    }

    /// The table that entry `index` refers to, for editing.
    pub fn next_table_mut<H: Hardware>(&mut self, hw: &H, index: usize) -> (table: Option<
        Table<L::NextLevel>,
    >)
        requires
            old(self).mapped(hw.state()),
            index < 1024,
        ensures
            *final(self) == *old(self),
            table is Some <==> hw.state().entry(
                old(self).frame(hw.state()),
                index as nat,
            ).is_table(),
            table matches Some(t) ==> t.address == old(self).child_address(index),
    {
        match self.next_table_address(hw, index) {
            Some(address) => Some(Table::at(address)),
            None => None,
        }
    }

    /// The table that entry `index` refers to; where there is none yet, a new
    /// empty table in a frame taken from `allocator`.
    pub fn next_table_create<H: Hardware, A: FrameAllocator>(
        &mut self,
        hw: &mut H,
        index: usize,
        allocator: &mut A,
    ) -> (table: Table<L::NextLevel>)
        requires
            old(self).address == P2,
            old(hw).state().recursive(),
            index < 1024,
            !old(hw).state().entry(old(hw).state().edited(), index as nat).is_huge(),
            !old(hw).state().entry(old(hw).state().edited(), index as nat).is_present() ==> {
                &&& !old(allocator).available().is_empty()
                &&& old(hw).state().clear_of(old(allocator).available())
            },
        ensures
            *final(self) == *old(self),
            table.address == window_address(index),
            table.mapped(final(hw).state()),
            table.frame(final(hw).state()) == final(hw).state().entry(
                old(hw).state().edited(),
                index as nat,
            ).frame_number(),
            final(hw).state().entry(old(hw).state().edited(), index as nat).is_table(),
            final(hw).state().recursive(),
            final(hw).state().edited() == old(hw).state().edited(),
            final(hw).state().cr3 == old(hw).state().cr3,
            old(hw).state().entry(old(hw).state().edited(), index as nat).is_present() ==> {
                &&& final(hw).state() == old(hw).state()
                &&& final(allocator).available() == old(allocator).available()
            },
            !old(hw).state().entry(old(hw).state().edited(), index as nat).is_present() ==> {
                let made = final(hw).state().entry(
                    old(hw).state().edited(),
                    index as nat,
                ).frame_number();
                &&& made < 0x10_0000
                &&& old(allocator).available().contains(made)
                &&& final(allocator).available() == old(allocator).available().remove(made)
                &&& final(hw).state() == old(hw).state().with_new_table(
                    old(hw).state().edited(),
                    index as nat,
                    made,
                )
            },
    {
        let ghost start = hw.state();
        let ghost edited = start.edited();
        proof {
            lemma_window(start, index);
            lemma_table_flags();
            lemma_unused_not_present();
        }
        if self.next_table(hw, index).is_none() {
            let frame = allocator.allocate_frame().unwrap();
            let mut entry = TableEntry::unused();
            entry.set(frame, TableEntryFlags::from_bits_truncate(PRESENT | WRITABLE));
            self.store(hw, index, entry);
            let ghost installed = hw.state();
            proof {
                lemma_encode_decode(frame, PRESENT | WRITABLE);
                assert(installed.entry(installed.root(), 1023) == start.entry(start.root(), 1023));
                assert(installed.entry(edited, 1023) == start.entry(edited, 1023));
                assert(start.staled_by(edited, index as nat) =~= Set::empty());
                assert(installed.stale =~= start.stale);
                assert(installed.recursive());
                lemma_window(installed, index);
            }
            let mut created = self.next_table_mut(hw, index).unwrap();
            created.zero(hw);
            proof {
                let done = hw.state();
                lemma_cleared(installed, frame.number as nat, 1024);
                assert(done.entry(done.root(), 1023) == start.entry(start.root(), 1023));
                assert(done.entry(edited, 1023) == start.entry(edited, 1023));
                assert(done.entry(edited, index as nat) == TableEntry::encode(
                    frame,
                    PRESENT | WRITABLE,
                ));
                assert forall|i: nat| i < 1024 implies done.fresh(#[trigger] window_page(i)) by {
                    assert(installed.fresh(window_page(i)));
                    assert((window_page(i) / 1024) % 1024 == 1023);
                }
            }
        }
        proof {
            lemma_window(hw.state(), index);
        }
        self.next_table_mut(hw, index).unwrap()
    }
}

/// Where the recursive window shows which table.
pub proof fn lemma_window(s: State, index: usize)
    requires
        s.recursive(),
        index < 1024,
    ensures
        Table::<Level2>::at(P2).mapped(s),
        Table::<Level2>::at(P2).frame(s) == s.edited(),
        Table::<Level2>::at(P2).child_address(index) == window_address(index),
        window_address(index) % 4096 == 0,
        (window_address(index) / 4096) as nat == window_page(index as nat),
        s.fresh(window_page(index as nat)),
        s.entry(s.edited(), index as nat).is_present() ==> {
            &&& s.mmu(window_page(index as nat)) == Some(
                s.entry(s.edited(), index as nat).frame_number(),
            )
        },
        !s.entry(s.edited(), index as nat).is_present() ==> s.mmu(window_page(index as nat))
            is None,
{
    let i = index as u32;
    assert(s.fresh(window_page(1023)));
    assert(s.fresh(window_page(index as nat)));
    assert((0xffff_f000u32 << 10) | (i << 12) == 0xffc0_0000 + i * 4096) by (bit_vector)
        requires
            i < 1024,
    ;
}

} // verus!
