//! The machine as the paging code sees it.
//!
//! [`State`] describes physical memory, the table-base register and the
//! translation cache, and [`State::mmu`] the translation that the processor
//! performs on every memory access. [`Hardware`] is the interface through
//! which the paging code reads and writes memory and reaches the privileged
//! registers.
//!
//! The processor keeps translations that it has used, and the table
//! entries that led to them, in a cache, and does not notice when the
//! tables change. The state does not say what the cache holds. It says
//! which pages the cache may translate otherwise than the tables do: those
//! whose walk read an entry that was present and has been written since
//! the page was last flushed. An entry that is not present is never
//! cached, so filling it makes no page stale.

use vstd::prelude::*;
use crate::memory::Frame;
use crate::memory::paging::table_entry::{TableEntry, PRESENT, WRITABLE};
use crate::memory::paging::PAGE_COUNT;

verus! {

/// Index of the entry through which a top-level table maps itself.
pub const RECURSIVE_INDEX: usize = 1023;

/// Physical memory, seen as frames of 1024 words each, the register that
/// holds the address of the top-level table, and the pages whose cached
/// translation may be out of date.
pub struct State {
    /// The word at each (frame number, word index).
    pub mem: spec_fn((nat, nat)) -> u32,
    /// The table-base register.
    pub cr3: u32,
    /// The pages that the translation cache may translate otherwise than
    /// the tables do.
    pub stale: Set<nat>,
}

impl State {
    /// Number of the frame that holds the top-level table the processor walks.
    pub open spec fn root(self) -> nat {
        (self.cr3 / 4096) as nat
    }

    /// The word at `index` of `frame`, read as a table entry.
    pub open spec fn entry(self, frame: nat, index: nat) -> TableEntry {
        TableEntry((self.mem)((frame, index)))
    }

    /// Whether the walk for `page` reads the entry at `index` of `frame`
    /// and finds it present, so that the cache may hold what the entry
    /// said: the entry is the page's entry in the top-level table, or that
    /// entry refers to a table and the entry is the page's entry there.
    pub open spec fn walk_reads(self, page: nat, frame: nat, index: nat) -> bool {
        let top = self.entry(self.root(), (page / 1024) % 1024);
        &&& page < PAGE_COUNT
        &&& self.entry(frame, index).is_present()
        &&& {
            ||| frame == self.root() && index == (page / 1024) % 1024
            ||| top.is_table() && frame == top.frame_number() && index == page % 1024
        }
    }

    /// The pages that a write to the entry at `index` of `frame` makes stale.
    pub open spec fn staled_by(self, frame: nat, index: nat) -> Set<nat> {
        Set::new(|page: nat| self.walk_reads(page, frame, index))
    }

    /// The state after `entry` is stored at `index` of `frame`.
    pub open spec fn write(self, frame: nat, index: nat, entry: TableEntry) -> State {
        State {
            mem: |k: (nat, nat)|
                if k == (frame, index) {
                    entry.0
                } else {
                    (self.mem)(k)
                },
            cr3: self.cr3,
            stale: self.stale.union(self.staled_by(frame, index)),
        }
    }

    /// The state after the first `count` words of `frame` are set to zero,
    /// one after the other.
    pub open spec fn cleared(self, frame: nat, count: nat) -> State
        decreases count,
    {
        if count == 0 {
            self
        } else {
            self.cleared(frame, (count - 1) as nat).write(frame, (count - 1) as nat, TableEntry(0))
        }
    }

    /// The state after every word of `frame` is set to zero.
    pub open spec fn zeroed(self, frame: nat) -> State {
        self.cleared(frame, 1024)
    }

    /// The state after the table-base register is loaded with `address`,
    /// which empties the translation cache.
    pub open spec fn switched(self, address: u32) -> State {
        State { mem: self.mem, cr3: address, stale: Set::empty() }
    }

    /// The state after the cached translation of `page` is dropped.
    pub open spec fn flushed(self, page: nat) -> State {
        State { mem: self.mem, cr3: self.cr3, stale: self.stale.remove(page) }
    }

    /// The state after the translation cache is emptied.
    pub open spec fn flushed_all(self) -> State {
        State { mem: self.mem, cr3: self.cr3, stale: Set::empty() }
    }

    /// The cache translates `page` as the tables do.
    pub open spec fn fresh(self, page: nat) -> bool {
        !self.stale.contains(page)
    }

    /// An access to `page` reaches memory, and the memory that the tables
    /// say.
    pub open spec fn reaches(self, page: nat) -> bool {
        self.mmu(page) is Some && self.fresh(page)
    }

    /// The cache translates every page of the recursive window as the
    /// tables do.
    pub open spec fn window_fresh(self) -> bool {
        forall|index: nat| index < 1024 ==> self.fresh(#[trigger] window_page(index))
    }

    /// The frame that the processor reaches for an access to `page`, by a
    /// walk from the table in the table-base register; `None` where the access
    /// faults.
    pub open spec fn mmu(self, page: nat) -> Option<nat> {
        let top = self.entry(self.root(), (page / 1024) % 1024);
        if !top.is_present() {
            None
        } else if top.is_huge() {
            Some(((top.frame_number() / 1024) * 1024 + page % 1024) as nat)
        } else {
            let leaf = self.entry(top.frame_number(), page % 1024);
            if leaf.is_present() {
                Some(leaf.frame_number())
            } else {
                None
            }
        }
    }

    /// The frame that a walk in software from the top-level table in frame
    /// `root` finds for `page`.
    pub open spec fn walk(self, root: nat, page: nat) -> Option<Frame> {
        let top = self.entry(root, (page / 1024) % 1024);
        if top.is_table() {
            self.entry(top.frame_number(), page % 1024).pointed_frame_spec()
        } else if top.is_present() {
            Some(Frame { number: (top.frame_number() + page % 1024) as usize })
        } else {
            None
        }
    }

    /// Whether the top-level entry for `page` in the table of frame `root`, if
    /// it is a large page, starts at a frame whose number is a multiple of the
    /// number of entries in a table.
    pub open spec fn huge_aligned(self, root: nat, page: nat) -> bool {
        let top = self.entry(root, (page / 1024) % 1024);
        top.is_present() && top.is_huge() ==> top.frame_number() % 1024 == 0
    }

    /// Number of the frame that holds the table reached through the recursive
    /// entry: the table that the mapper reads and edits.
    pub open spec fn edited(self) -> nat {
        self.entry(self.root(), RECURSIVE_INDEX as nat).frame_number()
    }

    /// The recursive window works: the last entry of the table that the
    /// processor walks refers to a table, the last entry of that table
    /// refers to the table itself, and no page of the window is stale.
    pub open spec fn recursive(self) -> bool {
        let through = self.entry(self.root(), RECURSIVE_INDEX as nat);
        let back = self.entry(through.frame_number(), RECURSIVE_INDEX as nat);
        &&& through.is_table()
        &&& back.is_table()
        &&& back.frame_number() == through.frame_number()
        &&& self.window_fresh()
    }

    /// The table in frame `frame` maps itself through its last entry.
    pub open spec fn self_mapped(self, frame: nat) -> bool {
        let last = self.entry(frame, RECURSIVE_INDEX as nat);
        last.is_table() && last.frame_number() == frame
    }

    /// The mapper edits the very table that the processor walks.
    pub open spec fn direct(self) -> bool {
        self.self_mapped(self.root()) && self.window_fresh()
    }

    /// The table in `frame` has the same entries in `self` and in `other`,
    /// but perhaps for the entry at `index`.
    pub open spec fn same_table_but(self, other: State, frame: nat, index: nat) -> bool {
        forall|i: nat|
            i < 1024 && i != index ==> #[trigger] self.entry(frame, i) == other.entry(frame, i)
    }

    /// None of `frames` holds one of the tables that make the recursive
    /// window work.
    pub open spec fn clear_of(self, frames: Set<nat>) -> bool {
        !frames.contains(self.root()) && !frames.contains(self.edited())
    }

    /// The state after a new, empty table in frame `table` is installed at
    /// `index` of the top-level table in frame `root`.
    pub open spec fn with_new_table(self, root: nat, index: nat, table: nat) -> State {
        self.write(
            root,
            index,
            TableEntry::encode(Frame { number: table as usize }, PRESENT | WRITABLE),
        ).zeroed(table)
    }

    /// What the mapper translates `page` to.
    pub open spec fn translation(self, page: nat) -> Option<Frame> {
        self.walk(self.edited(), page)
    }

    /// What the mapper translates the virtual address `address` to.
    pub open spec fn translate_address(self, address: u32) -> Option<u32> {
        match self.translation((address / 4096) as nat) {
            Some(frame) => Some((frame.number * 4096 + address % 4096) as u32),
            None => None,
        }
    }

    /// `page` can be given a mapping: the window works, no large page is in
    /// the way, the page's slot is unused, and where a second-level table is
    /// missing, `available` holds a frame for it and none that is in use as
    /// one of the window's tables.
    pub open spec fn can_map(self, page: nat, available: Set<nat>) -> bool {
        let top = self.entry(self.edited(), (page / 1024) % 1024);
        &&& self.recursive()
        &&& !top.is_huge()
        &&& top.is_present() ==> self.entry(top.frame_number(), page % 1024).is_unused()
        &&& !top.is_present() ==> !available.is_empty() && self.clear_of(available)
    }

    /// `page` can be mapped to a frame that is itself taken from
    /// `available`: as `can_map`, and where a second-level table is missing,
    /// `available` holds a second frame for it.
    pub open spec fn can_map_new(self, page: nat, available: Set<nat>) -> bool {
        let top = self.entry(self.edited(), (page / 1024) % 1024);
        &&& self.recursive()
        &&& !top.is_huge()
        &&& !available.is_empty()
        &&& top.is_present() ==> self.entry(top.frame_number(), page % 1024).is_unused()
        &&& !top.is_present() ==> self.clear_of(available) && forall|f: nat|
            available.contains(f) ==> !(#[trigger] available.remove(f)).is_empty()
    }

    /// The state after `page` is mapped to `frame` with `flags`, where
    /// `made` is the frame of the second-level table that had to be created,
    /// if one had to be.
    pub open spec fn mapped_to(self, page: nat, frame: Frame, flags: u32, made: nat) -> State {
        let top = self.entry(self.edited(), (page / 1024) % 1024);
        let leaf = TableEntry::encode(frame, flags | PRESENT);
        if top.is_present() {
            self.write(top.frame_number(), page % 1024, leaf)
        } else {
            self.with_new_table(self.edited(), (page / 1024) % 1024, made).write(
                made,
                page % 1024,
                leaf,
            )
        }
    }
}

/// Number of the `index`-th page of the recursive window: the page that
/// shows the table to which entry `index` of the edited top-level table
/// refers, and for the last index that table itself.
pub open spec fn window_page(index: nat) -> nat {
    0xffc00 + index
}

/// What clearing a frame changes and what it leaves alone.
pub proof fn lemma_cleared(s: State, frame: nat, count: nat)
    requires
        count <= 1024,
    ensures
        s.cleared(frame, count).cr3 == s.cr3,
        forall|g: nat, i: nat| #[trigger]
            s.cleared(frame, count).entry(g, i) == if g == frame && i < count {
                TableEntry(0)
            } else {
                s.entry(g, i)
            },
        s.stale.subset_of(s.cleared(frame, count).stale),
        forall|page: nat|
            frame != s.root() && !(s.entry(s.root(), (page / 1024) % 1024).is_table() && s.entry(
                s.root(),
                (page / 1024) % 1024,
            ).frame_number() == frame) ==> (#[trigger] s.cleared(frame, count).stale.contains(page)
                <==> s.stale.contains(page)),
        (forall|i: nat| i < count ==> !(#[trigger] s.entry(frame, i)).is_present()) ==> s.cleared(
            frame,
            count,
        ).stale == s.stale,
    decreases count,
{
    if count > 0 {
        let before = s.cleared(frame, (count - 1) as nat);
        lemma_cleared(s, frame, (count - 1) as nat);
        let after = s.cleared(frame, count);
        assert(after == before.write(frame, (count - 1) as nat, TableEntry(0)));
        assert forall|g: nat, i: nat| #[trigger]
            after.entry(g, i) == if g == frame && i < count {
                TableEntry(0)
            } else {
                s.entry(g, i)
            } by {
            assert(before.entry(g, i) == if g == frame && i < count - 1 {
                TableEntry(0)
            } else {
                s.entry(g, i)
            });
        }
        assert forall|page: nat|
            frame != s.root() && !(s.entry(s.root(), (page / 1024) % 1024).is_table() && s.entry(
                s.root(),
                (page / 1024) % 1024,
            ).frame_number() == frame) implies (#[trigger] after.stale.contains(page)
            <==> s.stale.contains(page)) by {
            assert(before.entry(s.root(), (page / 1024) % 1024) == s.entry(
                s.root(),
                (page / 1024) % 1024,
            ));
            assert(!before.walk_reads(page, frame, (count - 1) as nat));
        }
        if forall|i: nat| i < count ==> !(#[trigger] s.entry(frame, i)).is_present() {
            assert(!s.entry(frame, (count - 1) as nat).is_present());
            assert(before.entry(frame, (count - 1) as nat) == s.entry(frame, (count - 1) as nat));
            assert(before.staled_by(frame, (count - 1) as nat) =~= Set::empty());
            assert(after.stale =~= s.stale);
        }
    }
}

/// What memory holds after a page is mapped.
pub proof fn lemma_mapped_to_memory(s: State, page: nat, frame: Frame, flags: u32, made: nat)
    ensures
        s.mapped_to(page, frame, flags, made).cr3 == s.cr3,
        s.stale.subset_of(s.mapped_to(page, frame, flags, made).stale),
        forall|g: nat, i: nat| #[trigger]
            s.mapped_to(page, frame, flags, made).entry(g, i) == {
                let top = s.entry(s.edited(), (page / 1024) % 1024);
                let leaf = TableEntry::encode(frame, flags | PRESENT);
                if top.is_present() {
                    if g == top.frame_number() && i == page % 1024 {
                        leaf
                    } else {
                        s.entry(g, i)
                    }
                } else if g == made && i == page % 1024 {
                    leaf
                } else if g == made && i < 1024 {
                    TableEntry(0)
                } else if g == s.edited() && i == (page / 1024) % 1024 {
                    TableEntry::encode(Frame { number: made as usize }, PRESENT | WRITABLE)
                } else {
                    s.entry(g, i)
                }
            },
{
    let top = s.entry(s.edited(), (page / 1024) % 1024);
    if !top.is_present() {
        let installed = s.write(
            s.edited(),
            (page / 1024) % 1024,
            TableEntry::encode(Frame { number: made as usize }, PRESENT | WRITABLE),
        );
        lemma_cleared(installed, made, 1024);
        let blank = installed.zeroed(made);
        assert(blank == installed.cleared(made, 1024));
        let after = s.mapped_to(page, frame, flags, made);
        let leaf = TableEntry::encode(frame, flags | PRESENT);
        assert(after == blank.write(made, page % 1024, leaf));
        assert forall|g: nat, i: nat| #[trigger]
            after.entry(g, i) == if g == made && i == page % 1024 {
                leaf
            } else if g == made && i < 1024 {
                TableEntry(0)
            } else if g == s.edited() && i == (page / 1024) % 1024 {
                TableEntry::encode(Frame { number: made as usize }, PRESENT | WRITABLE)
            } else {
                s.entry(g, i)
            } by {
            assert(blank.entry(g, i) == if g == made && i < 1024 {
                TableEntry(0)
            } else {
                installed.entry(g, i)
            });
        }
    }
}

/// Which pages mapping a page can make stale: none where the page's
/// second-level table was there before; else only those that the processor
/// reaches through the new table.
pub proof fn lemma_mapped_to_stale(s: State, page: nat, frame: Frame, flags: u32, made: nat)
    requires
        s.entry(s.edited(), (page / 1024) % 1024).is_present() ==> !s.entry(
            s.entry(s.edited(), (page / 1024) % 1024).frame_number(),
            page % 1024,
        ).is_present(),
        !s.entry(s.edited(), (page / 1024) % 1024).is_present() ==> made != s.root(),
    ensures
        s.entry(s.edited(), (page / 1024) % 1024).is_present() ==> s.mapped_to(
            page,
            frame,
            flags,
            made,
        ).stale == s.stale,
        forall|p: nat| #[trigger]
            s.mapped_to(page, frame, flags, made).stale.contains(p) ==> s.stale.contains(p) || {
                let installed = s.write(
                    s.edited(),
                    (page / 1024) % 1024,
                    TableEntry::encode(Frame { number: made as usize }, PRESENT | WRITABLE),
                );
                &&& installed.entry(s.root(), (p / 1024) % 1024).is_table()
                &&& installed.entry(s.root(), (p / 1024) % 1024).frame_number() == made
            },
{
    let top = s.entry(s.edited(), (page / 1024) % 1024);
    let after = s.mapped_to(page, frame, flags, made);
    let leaf = TableEntry::encode(frame, flags | PRESENT);
    if top.is_present() {
        assert(s.staled_by(top.frame_number(), page % 1024) =~= Set::empty());
        assert(after.stale =~= s.stale);
    } else {
        let installed = s.write(
            s.edited(),
            (page / 1024) % 1024,
            TableEntry::encode(Frame { number: made as usize }, PRESENT | WRITABLE),
        );
        assert(s.staled_by(s.edited(), (page / 1024) % 1024) =~= Set::empty());
        assert(installed.stale =~= s.stale);
        lemma_cleared(installed, made, 1024);
        let blank = installed.zeroed(made);
        assert(blank == installed.cleared(made, 1024));
        assert(after == blank.write(made, page % 1024, leaf));
        assert(blank.entry(made, page % 1024) == TableEntry(0));
        assert(0u32 & PRESENT != PRESENT) by (bit_vector);
        assert(blank.staled_by(made, page % 1024) =~= Set::empty());
        assert(after.stale =~= blank.stale);
    }
}

/// The privileged operations and the memory accesses that the paging code
/// performs. Memory is reached by virtual address, one aligned 32-bit word at
/// a time.
pub trait Hardware {
    /// Physical memory and the table-base register.
    spec fn state(&self) -> State;

    /// Reads the table-base register.
    fn cr3_read(&self) -> (value: u32)
        ensures
            value == self.state().cr3,
    ;

    /// Loads the table-base register: from now on the processor walks the
    /// table at `address`, and its translation cache is empty.
    fn cr3_write(&mut self, address: u32)
        ensures
            final(self).state() == old(self).state().switched(address),
    ;

    /// Drops the cached translation of the page that holds `address`.
    fn tlb_flush(&mut self, address: u32)
        ensures
            final(self).state() == old(self).state().flushed((address / 4096) as nat),
    ;

    /// Empties the translation cache.
    fn tlb_flush_all(&mut self)
        ensures
            final(self).state() == old(self).state().flushed_all(),
    ;

    /// Reads the word at virtual address `address`.
    fn read(&self, address: u32) -> (word: u32)
        requires
            address % 4 == 0,
            self.state().reaches((address / 4096) as nat),
        ensures
            word == self.state().entry(
                self.state().mmu((address / 4096) as nat).unwrap(),
                ((address % 4096) / 4) as nat,
            ).0,
    ;

    /// Writes `word` to virtual address `address`.
    fn write(&mut self, address: u32, word: u32)
        requires
            address % 4 == 0,
            old(self).state().reaches((address / 4096) as nat),
        ensures
            final(self).state() == old(self).state().write(
                old(self).state().mmu((address / 4096) as nat).unwrap(),
                ((address % 4096) / 4) as nat,
                TableEntry(word),
            ),
    ;
}

} // verus!
