//! A machine in software: physical memory that starts out as zeros, a
//! table-base register, and a translation unit that walks the tables in that
//! memory and refuses every access to a page whose cached translation may be
//! out of date. It implements [`Hardware`], so the paging code can run on it.

use vstd::prelude::*;
use std::collections::{HashMap, HashSet};
use crate::hardware::{Hardware, State};
use crate::memory::paging::PAGE_COUNT;
use crate::memory::Frame;
use crate::memory::paging::table_entry::{
    lemma_encode_decode, lemma_table_flags, lemma_unused_not_present, TableEntry, TableEntryFlags,
    HUGE_PAGE, PRESENT, WRITABLE,
};

verus! {

broadcast use vstd::std_specs::hash::group_hash_axioms;

/// The simulated machine.
pub struct Machine {
    /// The words that were ever written, by frame number times 1024 plus
    /// word index. A word that is not here is zero.
    words: HashMap<u32, u32>,
    cr3: u32,
    /// The numbers of the stale pages.
    stale: HashSet<u32>,
}

/// `index` is a word of `frame`, and `frame` a frame of the machine.
pub open spec fn in_memory(frame: nat, index: nat) -> bool {
    frame < 0x10_0000 && index < 1024
}

impl Machine {
    /// The word at `index` of `frame`.
    pub closed spec fn word(&self, frame: nat, index: nat) -> u32 {
        let key = (frame * 1024 + index) as u32;
        if in_memory(frame, index) && self.words@.contains_key(key) {
            self.words@[key]
        } else {
            0
        }
    }

    /// The table-base register.
    pub closed spec fn register(&self) -> u32 {
        self.cr3
    }

    /// Whether `page` is marked as stale.
    pub closed spec fn is_stale(&self, page: nat) -> bool {
        page < PAGE_COUNT && self.stale@.contains(page as u32)
    }

    /// The machine's memory, register and stale pages.
    pub open spec fn model(&self) -> State {
        State {
            mem: |k: (nat, nat)| self.word(k.0, k.1),
            cr3: self.register(),
            stale: Set::new(|page: nat| self.is_stale(page)),
        }
    }

    /// A machine whose memory is all zero but for the top-level table in
    /// `root`, which maps itself, whose table-base register holds the address
    /// of `root`, and whose translation cache is empty.
    pub fn new(root: Frame) -> (machine: Machine)
        requires
            root.addressable(),
        ensures
            machine.model().cr3 == root.start_address_spec(),
            machine.model().root() == root.number,
            machine.model().stale == Set::<nat>::empty(),
            forall|frame: nat, index: nat|
                !(frame == root.number && index == 1023) ==> (#[trigger] machine.model().entry(
                    frame,
                    index,
                )).is_unused(),
            machine.model().entry(root.number as nat, 1023) == TableEntry::encode(
                root,
                PRESENT | WRITABLE,
            ),
            machine.model().direct(),
            machine.model().recursive(),
    {
        let mut machine = Machine {
            words: HashMap::new(),
            cr3: root.start_address(),
            stale: HashSet::new(),
        };
        let ghost blank = machine.model();
        let flags = TableEntryFlags::from_bits_truncate(PRESENT | WRITABLE);
        let mut entry = TableEntry::unused();
        entry.set(root, flags);
        proof {
            lemma_unused_not_present();
            assert(blank.stale =~= Set::empty());
            assert(blank.staled_by(root.number as nat, 1023) =~= Set::empty());
        }
        machine.poke(root, 1023, entry);
        proof {
            lemma_table_flags();
            lemma_encode_decode(root, PRESENT | WRITABLE);
            assert(machine.model().stale =~= Set::empty());
        }
        machine
    }

    /// Reads a word of physical memory.
    pub fn peek(&self, frame: Frame, index: usize) -> (entry: TableEntry)
        requires
            frame.addressable(),
            index < 1024,
        ensures
            entry == self.model().entry(frame.number as nat, index as nat),
    {
        let key: u32 = (frame.number as u32) * 1024 + (index as u32);
        match self.words.get(&key) {
            Some(word) => TableEntry(*word),
            None => TableEntry(0),
        }
    }

    /// Whether the translation of `page` may be out of date.
    pub fn stale_page(&self, page: usize) -> (stale: bool)
        requires
            page < PAGE_COUNT,
        ensures
            stale == !self.model().fresh(page as nat),
    {
        self.stale.contains(&(page as u32))
    }

    /// Marks as stale the pages in whose walk the entry at `index` of
    /// `frame` is read.
    fn mark_stale(&mut self, frame: Frame, index: usize)
        requires
            frame.addressable(),
            index < 1024,
        ensures
            final(self).model() == (State {
                stale: old(self).model().stale.union(
                    old(self).model().staled_by(frame.number as nat, index as nat),
                ),
                ..old(self).model()
            }),
    {
        let ghost start = self.model();
        let ghost target = start.stale.union(start.staled_by(frame.number as nat, index as nat));
        let root = Frame::containing_address(self.cr3);
        if !self.peek(frame, index).flags().contains(PRESENT) {
            proof {
                assert(target =~= start.stale);
            }
            return ;
        }
        let through_root = frame.number == root.number;
        let mut low: usize = 0;
        while through_root && low < 1024
            invariant
                low <= 1024,
                index < 1024,
                frame.addressable(),
                through_root == (frame.number == start.root()),
                start.entry(frame.number as nat, index as nat).is_present(),
                self.model().mem == start.mem,
                self.model().cr3 == start.cr3,
                forall|page: nat| #[trigger]
                    self.model().stale.contains(page) <==> start.stale.contains(page) || (page
                        < PAGE_COUNT && through_root && page / 1024 == index && page % 1024 < low),
            decreases 1024 - low,
        {
            let ghost before = self.model();
            self.stale.insert((index * 1024 + low) as u32);
            proof {
                assert(self.model().mem =~= start.mem);
                assert forall|page: nat| #[trigger]
                    self.model().stale.contains(page) <==> before.stale.contains(page) || (page
                        < PAGE_COUNT && page / 1024 == index && page % 1024 == low) by {
                    if page < PAGE_COUNT {
                        assert(page as u32 == (index * 1024 + low) as u32 <==> page / 1024 == index
                            && page % 1024 == low);
                    }
                }
            }
            low += 1;
        }
        let mut high: usize = 0;
        while high < 1024
            invariant
                high <= 1024,
                index < 1024,
                frame.addressable(),
                root.number == start.root(),
                root.addressable(),
                through_root == (frame.number == start.root()),
                start.entry(frame.number as nat, index as nat).is_present(),
                self.model().mem == start.mem,
                self.model().cr3 == start.cr3,
                forall|page: nat| #[trigger]
                    self.model().stale.contains(page) <==> start.stale.contains(page) || (page
                        < PAGE_COUNT && through_root && page / 1024 == index) || (page < PAGE_COUNT && page
                        / 1024 < high && start.entry(start.root(), page / 1024).is_table()
                        && start.entry(start.root(), page / 1024).frame_number() == frame.number
                        && page % 1024 == index),
            decreases 1024 - high,
        {
            let top = self.peek(root, high);
            let top_flags = top.flags();
            if top_flags.contains(PRESENT) && !top_flags.contains(HUGE_PAGE) && top.0 / 4096
                == frame.number as u32 {
                let ghost before = self.model();
                self.stale.insert((high * 1024 + index) as u32);
                proof {
                    assert(self.model().mem =~= start.mem);
                    assert forall|page: nat| #[trigger]
                        self.model().stale.contains(page) <==> before.stale.contains(page) || (page
                            < PAGE_COUNT && page / 1024 == high && page % 1024 == index) by {
                        if page < PAGE_COUNT {
                            assert(page as u32 == (high * 1024 + index) as u32 <==> page / 1024
                                == high && page % 1024 == index);
                        }
                    }
                }
            }
            high += 1;
        }
        proof {
            assert forall|page: nat| #[trigger]
                self.model().stale.contains(page) <==> target.contains(page) by {
                if page < PAGE_COUNT {
                    assert((page / 1024) % 1024 == page / 1024);
                }
            }
            assert(self.model().stale =~= target);
        }
    }

    /// Writes a word of physical memory.
    pub fn poke(&mut self, frame: Frame, index: usize, entry: TableEntry)
        requires
            frame.addressable(),
            index < 1024,
        ensures
            final(self).model() == old(self).model().write(
                frame.number as nat,
                index as nat,
                entry,
            ),
    {
        self.mark_stale(frame, index);
        let ghost marked = self.model();
        let key: u32 = (frame.number as u32) * 1024 + (index as u32);
        self.words.insert(key, entry.0);
        proof {
            let before = old(self).model();
            let after = final(self).model();
            assert forall|k: (nat, nat)| #[trigger]
                (after.mem)(k) == (before.write(frame.number as nat, index as nat, entry).mem)(
                    k,
                ) by {
                if in_memory(k.0, k.1) {
                    assert((k.0 * 1024 + k.1) as u32 == key <==> k == (
                        frame.number as nat,
                        index as nat,
                    ));
                }
            }
            assert(after.mem =~= before.write(frame.number as nat, index as nat, entry).mem);
            assert(after.stale =~= marked.stale);
        }
    }

    /// The walk of the tables for `page`, whatever the cache holds.
    fn walk(&self, page: usize) -> (frame: Option<Frame>)
        requires
            page < PAGE_COUNT,
        ensures
            frame is Some <==> self.model().mmu(page as nat) is Some,
            frame matches Some(f) ==> f.addressable() && self.model().mmu(page as nat) == Some(
                f.number as nat,
            ),
    {
        let root = Frame::containing_address(self.cr3);
        let top = self.peek(root, page / 1024);
        let top_flags = top.flags();
        if !top_flags.contains(PRESENT) {
            None
        } else if top_flags.contains(HUGE_PAGE) {
            let start = top.0 / 4096;
            Some(Frame { number: ((start / 1024) * 1024 + (page as u32) % 1024) as usize })
        } else {
            let table = Frame { number: (top.0 / 4096) as usize };
            let leaf = self.peek(table, page % 1024);
            if leaf.flags().contains(PRESENT) {
                Some(Frame { number: (leaf.0 / 4096) as usize })
            } else {
                None
            }
        }
    }

    /// The translation unit: the frame behind `page`; `None` where an
    /// access would fault, and where the page is stale, so that the
    /// processor might reach another frame than the tables say.
    pub fn translate(&self, page: usize) -> (frame: Option<Frame>)
        requires
            page < PAGE_COUNT,
        ensures
            frame is Some <==> self.model().reaches(page as nat),
            frame matches Some(f) ==> f.addressable() && self.model().mmu(page as nat) == Some(
                f.number as nat,
            ),
    {
        if self.stale_page(page) {
            None
        } else {
            self.walk(page)
        }
    }
}

impl Hardware for Machine {
    open spec fn state(&self) -> State {
        self.model()
    }

    fn cr3_read(&self) -> (value: u32) {
        self.cr3
    }

    fn cr3_write(&mut self, address: u32) {
        self.cr3 = address;
        self.stale.clear();
        proof {
            assert(final(self).model().mem =~= old(self).model().mem);
            assert(final(self).model().stale =~= Set::empty());
        }
    }

    fn tlb_flush(&mut self, address: u32) {
        self.stale.remove(&(address / 4096));
        proof {
            assert(final(self).model().mem =~= old(self).model().mem);
            assert(final(self).model().stale =~= old(self).model().stale.remove(
                (address / 4096) as nat,
            ));
        }
    }

    fn tlb_flush_all(&mut self) {
        self.stale.clear();
        proof {
            assert(final(self).model().mem =~= old(self).model().mem);
            assert(final(self).model().stale =~= Set::empty());
        }
    }

    /// An access that the translation unit refuses reads zero.
    fn read(&self, address: u32) -> (word: u32) {
        match self.translate((address / 4096) as usize) {
            Some(frame) => self.peek(frame, ((address % 4096) / 4) as usize).0,
            None => 0,
        }
    }

    /// An access that the translation unit refuses writes nothing.
    fn write(&mut self, address: u32, word: u32) {
        match self.translate((address / 4096) as usize) {
            Some(frame) => self.poke(frame, ((address % 4096) / 4) as usize, TableEntry(word)),
            None => {},
        }
    }
}

} // verus!
