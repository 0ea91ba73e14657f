//! One word of a page table: a frame address together with flag bits.

use vstd::prelude::*;
use crate::memory::Frame;
use crate::multiboot::ElfSection;

verus! {

/// The bits of an entry that hold the frame's address.
pub const ADDRESS_MASK: u32 = 0xffff_f000;

/// The entry refers to a frame.
pub const PRESENT: u32 = 1 << 0;
/// Writes through the entry are allowed.
pub const WRITABLE: u32 = 1 << 1;
/// Code running in user mode may use the entry.
pub const USER_ACCESSIBLE: u32 = 1 << 2;
/// Writes go straight to memory.
pub const WRITE_THROUGH: u32 = 1 << 3;
/// The cache is bypassed.
pub const NO_CACHE: u32 = 1 << 4;
/// Set by the processor when the entry is used.
pub const ACCESSED: u32 = 1 << 5;
/// Set by the processor on a write through the entry.
pub const DIRTY: u32 = 1 << 6;
/// In a top-level table: the entry maps one large page instead of a table.
pub const HUGE_PAGE: u32 = 1 << 7;
/// The translation survives a switch of address space.
pub const GLOBAL: u32 = 1 << 8;
/// Every flag bit that has a meaning.
pub const ALL_FLAGS: u32 = 0x1ff;

/// A set of entry flags. Only bits of `ALL_FLAGS` are ever set.
#[derive(Clone, Copy)]
pub struct TableEntryFlags {
    bits: u32,
}

impl TableEntryFlags {
    /// The raw bits of the set.
    pub closed spec fn view(self) -> u32 {
        self.bits
    }

    /// No bit outside `ALL_FLAGS` is set.
    pub open spec fn known_bits_only(self) -> bool {
        self@ & !ALL_FLAGS == 0
    }

    #[verifier::type_invariant]
    spec fn inv(self) -> bool {
        self.known_bits_only()
    }

    /// Whether every bit of `bits` is in the set.
    pub open spec fn contains_spec(&self, bits: u32) -> bool {
        self@ & bits == bits
    }

    /// The empty set.
    pub fn empty() -> (flags: TableEntryFlags)
        ensures
            flags@ == 0,
            flags.known_bits_only(),
    {
        assert(0u32 & !ALL_FLAGS == 0) by (bit_vector);
        TableEntryFlags { bits: 0 }
    }

    /// The set with exactly the known bits of `bits`.
    pub fn from_bits_truncate(bits: u32) -> (flags: TableEntryFlags)
        ensures
            flags@ == bits & ALL_FLAGS,
            flags.known_bits_only(),
    {
        assert((bits & ALL_FLAGS) & !ALL_FLAGS == 0) by (bit_vector);
        TableEntryFlags { bits: bits & ALL_FLAGS }
    }

    /// The raw bits of the set.
    pub fn bits(&self) -> (bits: u32)
        ensures
            bits == self@,
            self.known_bits_only(),
    {
        proof {
            use_type_invariant(self);
        }
        self.bits
    }

    /// Whether every bit of `bits` is in the set.
    #[verifier::when_used_as_spec(contains_spec)]
    pub fn contains(&self, bits: u32) -> (held: bool)
        ensures
            held == self.contains_spec(bits),
    {
        self.bits & bits == bits
    }

    /// The set with the flags of both.
    pub fn union(self, other: TableEntryFlags) -> (flags: TableEntryFlags)
        ensures
            flags@ == self@ | other@,
            flags.known_bits_only(),
            self.known_bits_only(),
            other.known_bits_only(),
    {
        proof {
            use_type_invariant(self);
            use_type_invariant(other);
            let a = self.bits;
            let b = other.bits;
            assert((a | b) & !ALL_FLAGS == 0) by (bit_vector)
                requires
                    a & !ALL_FLAGS == 0,
                    b & !ALL_FLAGS == 0,
            ;
        }
        TableEntryFlags { bits: self.bits | other.bits }
    }

    /// Adds the known bits of `bits` to the set.
    pub fn insert(&mut self, bits: u32)
        ensures
            final(self)@ == old(self)@ | (bits & ALL_FLAGS),
            final(self).known_bits_only(),
    {
        proof {
            use_type_invariant(&*self);
            let a = self.bits;
            assert((a | (bits & ALL_FLAGS)) & !ALL_FLAGS == 0) by (bit_vector)
                requires
                    a & !ALL_FLAGS == 0,
            ;
        }
        self.bits = self.bits | (bits & ALL_FLAGS);
    }

    /// The page permissions that a loaded section asks for: present when the
    /// section is allocated, writable when it is writable, and nothing else.
    pub open spec fn from_elf_section_flags_spec(section: ElfSection) -> u32 {
        (if section.flags().contains(crate::multiboot::ALLOCATED) {
            PRESENT
        } else {
            0u32
        }) | (if section.flags().contains(crate::multiboot::WRITABLE) {
            WRITABLE
        } else {
            0u32
        })
    }

    /// The page permissions that a loaded section asks for.
    pub fn from_elf_section_flags(section: &ElfSection) -> (flags: TableEntryFlags)
        ensures
            flags@ == Self::from_elf_section_flags_spec(*section),
            flags.known_bits_only(),
    {
        let mut flags = TableEntryFlags::empty();
        if section.flags().contains(crate::multiboot::ALLOCATED) {
            flags.insert(PRESENT);
        }
        if section.flags().contains(crate::multiboot::WRITABLE) {
            flags.insert(WRITABLE);
        }
        proof {
            assert(0u32 | (PRESENT & ALL_FLAGS) == PRESENT && (0u32 | (PRESENT & ALL_FLAGS)) | (
            WRITABLE & ALL_FLAGS) == PRESENT | WRITABLE && 0u32 | (WRITABLE & ALL_FLAGS) == 0u32
                | WRITABLE && 0u32 | 0u32 == 0u32 && PRESENT | 0u32 == PRESENT) by (bit_vector);
        }
        flags
    }
}

/// One 32-bit word of a page table.
#[derive(Clone, Copy)]
pub struct TableEntry(pub u32);

impl TableEntry {
    /// The word that refers to `frame` and has the flag bits `flags`.
    pub open spec fn encode(frame: Frame, flags: u32) -> TableEntry {
        TableEntry(frame.start_address_spec() | flags)
    }

    /// The word is all zero.
    pub open spec fn is_unused_spec(&self) -> bool {
        self.0 == 0
    }

    /// The flag bits of the word.
    pub open spec fn flags_spec(self) -> u32 {
        self.0 & ALL_FLAGS
    }

    /// The present flag is set.
    pub open spec fn is_present(self) -> bool {
        self.0 & PRESENT == PRESENT
    }

    /// The large-page flag is set.
    pub open spec fn is_huge(self) -> bool {
        self.0 & HUGE_PAGE == HUGE_PAGE
    }

    /// Number of the frame whose address the word holds, whatever its flags.
    pub open spec fn frame_number(self) -> nat {
        (self.0 / 4096) as nat
    }

    /// A present entry that is not a large page: it refers to a table, or,
    /// in a second-level table, to a mapped frame.
    pub open spec fn is_table(self) -> bool {
        self.is_present() && !self.is_huge()
    }

    /// The frame that the entry refers to; `None` unless it is present.
    pub open spec fn pointed_frame_spec(&self) -> Option<Frame> {
        if self.is_present() {
            Some(Frame { number: (self.0 / 4096) as usize })
        } else {
            None
        }
    }

    /// An entry that is all zero.
    pub fn unused() -> (entry: TableEntry)
        ensures
            entry.0 == 0,
    {
        TableEntry(0)
    }

    /// Whether the entry is all zero.
    #[verifier::when_used_as_spec(is_unused_spec)]
    pub fn is_unused(&self) -> (unused: bool)
        ensures
            unused == (self.0 == 0),
    {
        self.0 == 0
    }

    /// Makes the entry all zero.
    pub fn set_unused(&mut self)
        ensures
            final(self).0 == 0,
    {
        self.0 = 0;
    }

    /// The flags of the entry.
    pub fn flags(&self) -> (flags: TableEntryFlags)
        ensures
            flags@ == self.flags_spec(),
            flags.contains(PRESENT) == self.is_present(),
            flags.contains(HUGE_PAGE) == self.is_huge(),
    {
        let word = self.0;
        assert((word & ALL_FLAGS) & PRESENT == word & PRESENT && (word & ALL_FLAGS) & HUGE_PAGE
            == word & HUGE_PAGE) by (bit_vector);
        TableEntryFlags::from_bits_truncate(self.0)
    }

    /// The frame that the entry refers to; `None` unless it is present.
    #[verifier::when_used_as_spec(pointed_frame_spec)]
    pub fn pointed_frame(&self) -> (frame: Option<Frame>)
        ensures
            frame == self.pointed_frame_spec(),
            frame matches Some(f) ==> f.addressable() && f.number == self.frame_number(),
    {
        if self.flags().contains(PRESENT) {
            let word = self.0;
            assert((word & ADDRESS_MASK) / 4096 == word / 4096) by (bit_vector);
            Some(Frame::containing_address(self.0 & ADDRESS_MASK))
        } else {
            None
        }
    }

    /// Makes the entry refer to `frame` with `flags`.
    pub fn set(&mut self, frame: Frame, flags: TableEntryFlags)
        requires
            frame.addressable(),
        ensures
            *final(self) == Self::encode(frame, flags@),
    {
        self.0 = frame.start_address() | flags.bits();
    }
}

/// What an encoded entry decodes to.
pub proof fn lemma_encode_decode(frame: Frame, flags: u32)
    requires
        frame.addressable(),
        flags & !ALL_FLAGS == 0,
    ensures
        TableEntry::encode(frame, flags).frame_number() == frame.number,
        TableEntry::encode(frame, flags).flags_spec() == flags,
        TableEntry::encode(frame, flags).is_present() == (flags & PRESENT == PRESENT),
        TableEntry::encode(frame, flags).is_huge() == (flags & HUGE_PAGE == HUGE_PAGE),
        TableEntry::encode(frame, flags).pointed_frame_spec() == if flags & PRESENT == PRESENT {
            Some(frame)
        } else {
            None
        },
        flags & PRESENT == PRESENT ==> !TableEntry::encode(frame, flags).is_unused(),
{
    let n = frame.number as u32;
    let b = flags;
    let a = frame.start_address_spec();
    assert(a == n * 4096);
    assert(((n * 4096) as u32 | b) / 4096 == n && ((n * 4096) as u32 | b) & ALL_FLAGS == b
        && ((n * 4096) as u32 | b) & PRESENT == b & PRESENT
        && ((n * 4096) as u32 | b) & HUGE_PAGE == b & HUGE_PAGE) by (bit_vector)
        requires
            n < 0x10_0000,
            b & !ALL_FLAGS == 0,
    ;
    assert(b & PRESENT == PRESENT ==> ((n * 4096) as u32 | b) != 0) by (bit_vector);
}

/// The flag sets that the paging code itself installs.
pub proof fn lemma_table_flags()
    ensures
        (PRESENT | WRITABLE) & !ALL_FLAGS == 0,
        (PRESENT | WRITABLE) & ALL_FLAGS == PRESENT | WRITABLE,
        (PRESENT | WRITABLE) & PRESENT == PRESENT,
        (PRESENT | WRITABLE) & HUGE_PAGE != HUGE_PAGE,
        PRESENT & ALL_FLAGS == PRESENT,
        WRITABLE & ALL_FLAGS == WRITABLE,
        PRESENT & !ALL_FLAGS == 0,
        WRITABLE & !ALL_FLAGS == 0,
        WRITABLE | PRESENT == PRESENT | WRITABLE,
        PRESENT | PRESENT == PRESENT,
        0u32 | PRESENT == PRESENT,
        forall|flags: u32| #[trigger] (flags | PRESENT) & PRESENT == PRESENT,
        forall|flags: u32|
            flags & !ALL_FLAGS == 0 ==> #[trigger] (flags | PRESENT) & !ALL_FLAGS == 0,
{
    assert((PRESENT | WRITABLE) & !ALL_FLAGS == 0 && (PRESENT | WRITABLE) & ALL_FLAGS == PRESENT
        | WRITABLE && (PRESENT | WRITABLE) & PRESENT == PRESENT && (PRESENT | WRITABLE) & HUGE_PAGE
        != HUGE_PAGE && PRESENT & ALL_FLAGS == PRESENT && WRITABLE & ALL_FLAGS == WRITABLE
        && PRESENT & !ALL_FLAGS == 0 && WRITABLE & !ALL_FLAGS == 0 && WRITABLE | PRESENT == PRESENT
        | WRITABLE && PRESENT | PRESENT == PRESENT && 0u32 | PRESENT == PRESENT) by (bit_vector);
    assert forall|flags: u32| #[trigger] (flags | PRESENT) & PRESENT == PRESENT by {
        assert((flags | PRESENT) & PRESENT == PRESENT) by (bit_vector);
    }
    assert forall|flags: u32| flags & !ALL_FLAGS == 0 implies #[trigger] (flags | PRESENT)
        & !ALL_FLAGS == 0 by {
        assert((flags | PRESENT) & !ALL_FLAGS == 0) by (bit_vector)
            requires
                flags & !ALL_FLAGS == 0,
        ;
    }
}

/// The all-zero word is not present.
pub proof fn lemma_unused_not_present()
    ensures
        !TableEntry(0).is_present(),
        !TableEntry(0).is_huge(),
        TableEntry(0).pointed_frame_spec() is None,
{
    assert(0u32 & PRESENT != PRESENT && 0u32 & HUGE_PAGE != HUGE_PAGE) by (bit_vector);
}

} // verus!
