//! What the boot loader reports about the loaded kernel image, as plain values.

use vstd::prelude::*;

verus! {

/// The section holds data that is written at run time.
pub const WRITABLE: u32 = 0x1;
/// The section occupies memory while the kernel runs.
pub const ALLOCATED: u32 = 0x2;
/// The section holds machine code.
pub const EXECUTABLE: u32 = 0x4;
/// Every section flag that has a meaning here.
pub const ALL_SECTION_FLAGS: u32 = 0x7;

/// The flags of a section of the kernel image.
#[derive(Clone, Copy)]
pub struct ElfSectionFlags {
    pub bits: u32,
}

impl ElfSectionFlags {
    /// Whether every bit of `bits` is in the set.
    pub open spec fn contains_spec(&self, bits: u32) -> bool {
        self.bits & bits == bits
    }

    /// The set with exactly the known bits of `bits`.
    pub fn from_bits_truncate(bits: u32) -> (flags: ElfSectionFlags)
        ensures
            flags.bits == bits & ALL_SECTION_FLAGS,
    {
        ElfSectionFlags { bits: bits & ALL_SECTION_FLAGS }
    }

    /// Whether every bit of `bits` is in the set.
    #[verifier::when_used_as_spec(contains_spec)]
    pub fn contains(&self, bits: u32) -> (held: bool)
        ensures
            held == self.contains_spec(bits),
    {
        self.bits & bits == bits
    }
}

/// One section of the kernel image: where it lies and what it needs.
#[derive(Clone, Copy)]
pub struct ElfSection {
    /// Address of the first byte.
    pub start: u32,
    /// Address of the first byte after the section.
    pub end: u32,
    /// The section's flag bits.
    pub flag_bits: u32,
}

impl ElfSection {
    /// The section's flags, as far as they have a meaning here.
    pub open spec fn flags_spec(&self) -> ElfSectionFlags {
        ElfSectionFlags { bits: self.flag_bits & ALL_SECTION_FLAGS }
    }

    /// Whether the section occupies memory while the kernel runs.
    pub open spec fn is_allocated_spec(&self) -> bool {
        self.flags_spec().contains(ALLOCATED)
    }

    /// Whether `frame` holds a byte of the section, or would if the section
    /// had a byte: the frames from that of the first byte to that of the
    /// last.
    pub open spec fn covers(self, frame: nat) -> bool {
        self.end >= 1 && self.start / 4096 <= frame <= (self.end - 1) / 4096
    }

    /// Address of the first byte of the section.
    pub fn start_address(&self) -> (address: u32)
        ensures
            address == self.start,
    {
        self.start
    }

    /// Address of the first byte after the section.
    pub fn end_address(&self) -> (address: u32)
        ensures
            address == self.end,
    {
        self.end
    }

    /// The section's flags, as far as they have a meaning here.
    #[verifier::when_used_as_spec(flags_spec)]
    pub fn flags(&self) -> (flags: ElfSectionFlags)
        ensures
            flags == self.flags_spec(),
    {
        ElfSectionFlags::from_bits_truncate(self.flag_bits)
    }

    /// Whether the section occupies memory while the kernel runs.
    #[verifier::when_used_as_spec(is_allocated_spec)]
    pub fn is_allocated(&self) -> (allocated: bool)
        ensures
            allocated == self.is_allocated_spec(),
    {
        self.flags().contains(ALLOCATED)
    }
}

/// A range of physical memory that is free to use.
#[derive(Clone, Copy)]
pub struct MemoryArea {
    /// Address of the first byte.
    pub start_address: u32,
    /// Number of bytes.
    pub size: u32,
}

impl MemoryArea {
    /// Whether `frame` holds a byte of the area.
    pub open spec fn covers(self, frame: nat) -> bool {
        self.size >= 1 && self.start_address / 4096 <= frame <= (self.start_address + self.size
            - 1) / 4096
    }

    /// Whether `frame` holds a byte of the area.
    pub fn holds(&self, frame: usize) -> (held: bool)
        ensures
            held == self.covers(frame as nat),
    {
        if self.size == 0 {
            false
        } else {
            let first: u64 = (self.start_address / 4096) as u64;
            let last: u64 = (self.start_address as u64 + self.size as u64 - 1) / 4096;
            first <= frame as u64 && frame as u64 <= last
        }
    }
}

/// The boot information: where the record itself lies, the sections of the
/// kernel image, and the memory that is free to use.
pub struct MultiBoot {
    /// Address of the first byte of the record.
    pub start_address: u32,
    /// Address of the first byte after the record.
    pub end_address: u32,
    /// The sections of the kernel image.
    pub sections: Vec<ElfSection>,
    /// The free memory areas that lie in the 32-bit address space.
    pub areas: Vec<MemoryArea>,
}

/// Kind of the tag that ends the record.
pub const END_TAG: u32 = 0;

/// Kind of the tag that holds the memory map.
pub const MEMORY_MAP_TAG: u32 = 6;

/// Kind of the tag that holds the section headers of the kernel image.
pub const ELF_SECTIONS_TAG: u32 = 9;

/// Kind of a memory map entry that is free to use.
pub const AVAILABLE_MEMORY: u32 = 1;

/// The little-endian word that starts at byte `at`.
pub open spec fn word_at(bytes: Seq<u8>, at: int) -> u32 {
    (bytes[at] + bytes[at + 1] * 0x100 + bytes[at + 2] * 0x1_0000 + bytes[at + 3] * 0x100_0000) as u32
}

/// The memory area of the memory map entry at `entry`: base and length are
/// 64-bit numbers, followed by the kind. `None` where the memory is not free
/// or does not lie in the 32-bit address space.
pub open spec fn area_at(bytes: Seq<u8>, entry: int) -> Option<MemoryArea> {
    if word_at(bytes, entry + 16) == AVAILABLE_MEMORY && word_at(bytes, entry + 4) == 0 && word_at(
        bytes,
        entry + 12,
    ) == 0 {
        Some(MemoryArea { start_address: word_at(bytes, entry), size: word_at(bytes, entry + 8) })
    } else {
        None
    }
}

/// The memory areas of the entries of `entry_size` bytes each that lie
/// whole between `entry` and `end`.
pub open spec fn areas_in(bytes: Seq<u8>, entry: int, entry_size: int, end: int) -> Seq<MemoryArea>
    decreases end - entry,
{
    if entry_size < 24 || entry + entry_size > end {
        Seq::empty()
    } else {
        (match area_at(bytes, entry) {
            Some(area) => seq![area],
            None => Seq::empty(),
        }) + areas_in(bytes, entry + entry_size, entry_size, end)
    }
}

/// The section of the 32-bit section header at `header`: the flags are the
/// third word, the address the fourth and the size the sixth.
pub open spec fn section_at(bytes: Seq<u8>, header: int) -> ElfSection {
    ElfSection {
        start: word_at(bytes, header + 12),
        end: word_at(bytes, header + 12).wrapping_add(word_at(bytes, header + 20)),
        flag_bits: word_at(bytes, header + 8),
    }
}

/// The sections of the first `count` headers of `entry_size` bytes each
/// that lie whole between `header` and `end`.
pub open spec fn sections_in(
    bytes: Seq<u8>,
    header: int,
    entry_size: int,
    count: int,
    end: int,
) -> Seq<ElfSection>
    decreases count,
{
    if count <= 0 || entry_size < 24 || header + entry_size > end {
        Seq::empty()
    } else {
        seq![section_at(bytes, header)] + sections_in(
            bytes,
            header + entry_size,
            entry_size,
            count - 1,
            end,
        )
    }
}

/// Where the part of the tag at `tag` that lies below `limit` ends.
pub open spec fn tag_end(bytes: Seq<u8>, tag: int, limit: int) -> int {
    if tag + word_at(bytes, tag + 4) < limit {
        tag + word_at(bytes, tag + 4)
    } else {
        limit
    }
}

/// The memory areas of the tag at `tag`, which holds at least its kind and
/// size: those of the entries of a memory map, whose third word is the size
/// of an entry and whose entries start after the fourth.
pub open spec fn tag_areas(bytes: Seq<u8>, tag: int, limit: int) -> Seq<MemoryArea> {
    if word_at(bytes, tag) == MEMORY_MAP_TAG && tag + 16 <= tag_end(bytes, tag, limit) {
        areas_in(bytes, tag + 16, word_at(bytes, tag + 8) as int, tag_end(bytes, tag, limit))
    } else {
        Seq::empty()
    }
}

/// The sections of the tag at `tag`, which holds at least its kind and
/// size: those of the headers of a section tag, whose third word is the
/// number of headers and whose fourth is the size of one, and whose headers
/// start after the fifth.
pub open spec fn tag_sections(bytes: Seq<u8>, tag: int, limit: int) -> Seq<ElfSection> {
    if word_at(bytes, tag) == ELF_SECTIONS_TAG && tag + 20 <= tag_end(bytes, tag, limit) {
        sections_in(
            bytes,
            tag + 20,
            word_at(bytes, tag + 12) as int,
            word_at(bytes, tag + 8) as int,
            tag_end(bytes, tag, limit),
        )
    } else {
        Seq::empty()
    }
}

/// The memory areas of the tags from `tag` on. The tags end where no tag
/// fits any more below `limit`, or with the end tag or one that is too small
/// to be a tag. The next tag starts at the first multiple of eight after the
/// end of a tag.
pub open spec fn record_areas(bytes: Seq<u8>, tag: int, limit: int) -> Seq<MemoryArea>
    decreases
            if limit > tag {
                limit - tag
            } else {
                0
            },
{
    if tag + 8 > limit || word_at(bytes, tag) == END_TAG || word_at(bytes, tag + 4) < 8 {
        Seq::empty()
    } else {
        let next = tag + word_at(bytes, tag + 4) + (8 - word_at(bytes, tag + 4) % 8) % 8;
        tag_areas(bytes, tag, limit) + record_areas(bytes, next, limit)
    }
}

/// The sections of the tags from `tag` on.
pub open spec fn record_sections(bytes: Seq<u8>, tag: int, limit: int) -> Seq<ElfSection>
    decreases
            if limit > tag {
                limit - tag
            } else {
                0
            },
{
    if tag + 8 > limit || word_at(bytes, tag) == END_TAG || word_at(bytes, tag + 4) < 8 {
        Seq::empty()
    } else {
        let next = tag + word_at(bytes, tag + 4) + (8 - word_at(bytes, tag + 4) % 8) % 8;
        tag_sections(bytes, tag, limit) + record_sections(bytes, next, limit)
    }
}

/// The size that the record states in its first word, as far as `bytes`
/// reaches.
pub open spec fn record_limit(bytes: Seq<u8>) -> int {
    if bytes.len() < 8 {
        0
    } else if word_at(bytes, 0) < bytes.len() {
        word_at(bytes, 0) as int
    } else {
        bytes.len() as int
    }
}

/// Reads the little-endian word that starts at byte `at`.
pub fn read_word(bytes: &[u8], at: usize) -> (word: u32)
    requires
        at + 4 <= bytes.len(),
    ensures
        word == word_at(bytes@, at as int),
{
    bytes[at] as u32 + bytes[at + 1] as u32 * 0x100 + bytes[at + 2] as u32 * 0x1_0000 + bytes[at
        + 3] as u32 * 0x100_0000
}

/// Appending is associative.
proof fn lemma_step<T>(before: Seq<T>, here: Seq<T>, rest: Seq<T>)
    ensures
        (before + here) + rest == before + (here + rest),
{
    assert((before + here) + rest =~= before + (here + rest));
}

/// Adds the memory areas of a memory map tag to `areas`.
fn read_areas(bytes: &[u8], tag: usize, end: usize, areas: &mut Vec<MemoryArea>)
    requires
        tag + 16 <= end <= bytes.len(),
    ensures
        final(areas)@ == old(areas)@ + areas_in(
            bytes@,
            tag + 16,
            word_at(bytes@, tag + 8) as int,
            end as int,
        ),
{
    let entry_size = read_word(bytes, tag + 8) as usize;
    let mut entry = tag + 16;
    let ghost all = areas_in(bytes@, tag + 16, entry_size as int, end as int);
    while entry_size >= 24 && entry_size <= end - entry
        invariant
            tag + 16 <= entry <= end <= bytes.len(),
            all == areas_in(bytes@, tag + 16, entry_size as int, end as int),
            areas@ + areas_in(bytes@, entry as int, entry_size as int, end as int) == old(areas)@
                + all,
        decreases end - entry,
    {
        let ghost before = areas@;
        let ghost rest = areas_in(bytes@, entry + entry_size, entry_size as int, end as int);
        if read_word(bytes, entry + 16) == AVAILABLE_MEMORY && read_word(bytes, entry + 4) == 0
            && read_word(bytes, entry + 12) == 0 {
            areas.push(
                MemoryArea {
                    start_address: read_word(bytes, entry),
                    size: read_word(bytes, entry + 8),
                },
            );
            proof {
                assert(areas@ + rest =~= before + (seq![area_at(bytes@, entry as int).unwrap()]
                    + rest));
            }
        } else {
            proof {
                assert(areas@ + rest =~= before + (Seq::<MemoryArea>::empty() + rest));
            }
        }
        entry += entry_size;
    }
    proof {
        assert(areas@ + Seq::<MemoryArea>::empty() =~= areas@);
    }
}

/// Adds the sections of a section tag to `sections`.
fn read_sections(bytes: &[u8], tag: usize, end: usize, sections: &mut Vec<ElfSection>)
    requires
        tag + 20 <= end <= bytes.len(),
    ensures
        final(sections)@ == old(sections)@ + sections_in(
            bytes@,
            tag + 20,
            word_at(bytes@, tag + 12) as int,
            word_at(bytes@, tag + 8) as int,
            end as int,
        ),
{
    let count = read_word(bytes, tag + 8);
    let entry_size = read_word(bytes, tag + 12) as usize;
    let mut header = tag + 20;
    let mut left = count;
    let ghost all = sections_in(bytes@, tag + 20, entry_size as int, count as int, end as int);
    while left > 0 && entry_size >= 24 && entry_size <= end - header
        invariant
            tag + 20 <= header <= end <= bytes.len(),
            all == sections_in(bytes@, tag + 20, entry_size as int, count as int, end as int),
            sections@ + sections_in(
                bytes@,
                header as int,
                entry_size as int,
                left as int,
                end as int,
            ) == old(sections)@ + all,
        decreases left,
    {
        let ghost before = sections@;
        let ghost rest = sections_in(
            bytes@,
            header + entry_size,
            entry_size as int,
            left - 1,
            end as int,
        );
        let start = read_word(bytes, header + 12);
        sections.push(
            ElfSection {
                start,
                end: start.wrapping_add(read_word(bytes, header + 20)),
                flag_bits: read_word(bytes, header + 8),
            },
        );
        proof {
            assert(sections@ + rest =~= before + (seq![section_at(bytes@, header as int)] + rest));
        }
        header += entry_size;
        left -= 1;
    }
    proof {
        assert(sections@ + Seq::<ElfSection>::empty() =~= sections@);
    }
}

/// Adds the sections and the memory areas of the tag at `tag` to `boot`.
fn read_tag(bytes: &[u8], tag: usize, limit: usize, boot: &mut MultiBoot)
    requires
        tag + 8 <= limit <= bytes.len(),
    ensures
        final(boot).start_address == old(boot).start_address,
        final(boot).end_address == old(boot).end_address,
        final(boot).sections@ == old(boot).sections@ + tag_sections(
            bytes@,
            tag as int,
            limit as int,
        ),
        final(boot).areas@ == old(boot).areas@ + tag_areas(bytes@, tag as int, limit as int),
{
    let kind = read_word(bytes, tag);
    let size = read_word(bytes, tag + 4);
    let end: usize = if (size as u64) < ((limit - tag) as u64) {
        tag + size as usize
    } else {
        limit
    };
    proof {
        assert(end == tag_end(bytes@, tag as int, limit as int));
        assert(boot.sections@ + Seq::<ElfSection>::empty() =~= boot.sections@);
        assert(boot.areas@ + Seq::<MemoryArea>::empty() =~= boot.areas@);
    }
    if kind == MEMORY_MAP_TAG && end - tag >= 16 {
        read_areas(bytes, tag, end, &mut boot.areas);
    }
    if kind == ELF_SECTIONS_TAG && end - tag >= 20 {
        read_sections(bytes, tag, end, &mut boot.sections);
    }
}

impl MultiBoot {
    /// Reads the boot information record `bytes`, which lies at `address`
    /// in memory: a word that states the size of the record, a word that is
    /// not used, and then tags, each a kind, a size and what the kind calls
    /// for. The sections come from the tags that hold section headers, the
    /// memory areas from the tags that hold a memory map.
    pub fn load(bytes: &[u8], address: u32) -> (boot: MultiBoot)
        ensures
            boot.start_address == address,
            boot.end_address == address.wrapping_add(
                if bytes.len() >= 4 {
                    word_at(bytes@, 0)
                } else {
                    0
                },
            ),
            boot.sections@ == record_sections(bytes@, 8, record_limit(bytes@)),
            boot.areas@ == record_areas(bytes@, 8, record_limit(bytes@)),
    {
        let total: u32 = if bytes.len() >= 4 {
            read_word(bytes, 0)
        } else {
            0
        };
        let limit: usize = if bytes.len() < 8 {
            0
        } else if (total as u64) < (bytes.len() as u64) {
            total as usize
        } else {
            bytes.len()
        };
        let mut boot = MultiBoot {
            start_address: address,
            end_address: address.wrapping_add(total),
            sections: Vec::new(),
            areas: Vec::new(),
        };
        let mut tag: usize = 8;
        let ghost all_sections = record_sections(bytes@, 8, limit as int);
        let ghost all_areas = record_areas(bytes@, 8, limit as int);
        proof {
            assert(boot.sections@ + all_sections =~= all_sections);
            assert(boot.areas@ + all_areas =~= all_areas);
        }
        while tag <= limit && limit - tag >= 8
            invariant_except_break
                boot.sections@ + record_sections(bytes@, tag as int, limit as int) == all_sections,
                boot.areas@ + record_areas(bytes@, tag as int, limit as int) == all_areas,
            invariant
                limit <= bytes.len(),
                8 <= tag,
                boot.start_address == address,
                boot.end_address == address.wrapping_add(total),
            ensures
                boot.start_address == address,
                boot.end_address == address.wrapping_add(total),
                boot.sections@ == all_sections,
                boot.areas@ == all_areas,
            decreases limit - tag,
        {
            let kind = read_word(bytes, tag);
            let size = read_word(bytes, tag + 4);
            if kind == END_TAG || size < 8 {
                proof {
                    assert(boot.sections@ + Seq::<ElfSection>::empty() =~= boot.sections@);
                    assert(boot.areas@ + Seq::<MemoryArea>::empty() =~= boot.areas@);
                }
                break;
            }
            let ghost sections_before = boot.sections@;
            let ghost areas_before = boot.areas@;
            let ghost next = tag + size + (8 - size % 8) % 8;
            read_tag(bytes, tag, limit, &mut boot);
            proof {
                lemma_step(
                    sections_before,
                    tag_sections(bytes@, tag as int, limit as int),
                    record_sections(bytes@, next, limit as int),
                );
                lemma_step(
                    areas_before,
                    tag_areas(bytes@, tag as int, limit as int),
                    record_areas(bytes@, next, limit as int),
                );
            }
            let step: u64 = size as u64 + (8 - size as u64 % 8) % 8;
            if step > (limit - tag) as u64 {
                proof {
                    assert(next > limit);
                    assert(boot.sections@ + Seq::<ElfSection>::empty() =~= boot.sections@);
                    assert(boot.areas@ + Seq::<MemoryArea>::empty() =~= boot.areas@);
                }
                break;
            }
            tag += step as usize;
        }
        proof {
            assert(boot.sections@ + Seq::<ElfSection>::empty() =~= boot.sections@);
            assert(boot.areas@ + Seq::<MemoryArea>::empty() =~= boot.areas@);
        }
        boot
    }

    /// The sections of the kernel image.
    pub fn elf_sections(&self) -> (sections: &Vec<ElfSection>)
        ensures
            *sections == self.sections,
    {
        &self.sections
    }

    /// The free memory areas.
    pub fn memory_areas(&self) -> (areas: &Vec<MemoryArea>)
        ensures
            *areas == self.areas,
    {
        &self.areas
    }
}

impl MultiBoot {
    /// Whether `frame` holds a byte of the boot information record.
    pub open spec fn covers(self, frame: nat) -> bool {
        self.end_address >= 1 && self.start_address / 4096 <= frame <= (self.end_address - 1)
            / 4096
    }

    /// Whether one of the first `count` sections is loaded and covers `frame`.
    pub open spec fn loaded(self, frame: nat, count: int) -> bool {
        exists|j: int|
            0 <= j < count && j < self.sections.len() && (#[trigger] self.sections[j]).is_allocated()
                && self.sections[j].covers(frame)
    }

    /// A loaded section among the first `count` that covers `frame`.
    pub open spec fn section_of(self, frame: nat, count: int) -> ElfSection {
        let j = choose|j: int|
            0 <= j < count && j < self.sections.len() && (#[trigger] self.sections[j]).is_allocated()
                && self.sections[j].covers(frame);
        self.sections[j]
    }
}

impl ElfSection {
    /// Number of the first frame that `covers` speaks of.
    pub fn first_frame(&self) -> (frame: usize)
        ensures
            frame == self.start / 4096,
    {
        (self.start / 4096) as usize
    }

    /// Number of the last frame that `covers` speaks of.
    pub fn last_frame(&self) -> (frame: usize)
        requires
            self.end >= 1,
        ensures
            frame == (self.end - 1) / 4096,
    {
        ((self.end - 1) / 4096) as usize
    }
}

impl MultiBoot {
    /// Whether a section is loaded.
    pub open spec fn any_loaded(self) -> bool {
        exists|j: int| 0 <= j < self.sections.len() && (#[trigger] self.sections[j]).is_allocated()
    }

    /// Lowest start address of a loaded section; `None` where no section is
    /// loaded.
    pub fn kernel_start(&self) -> (start: Option<u32>)
        ensures
            start is None <==> !self.any_loaded(),
            start matches Some(address) ==> {
                &&& exists|j: int|
                    0 <= j < self.sections.len() && (#[trigger] self.sections[j]).is_allocated()
                        && self.sections[j].start == address
                &&& forall|j: int|
                    0 <= j < self.sections.len() && (#[trigger] self.sections[j]).is_allocated()
                        ==> address <= self.sections[j].start
            },
    {
        let mut lowest: Option<u32> = None;
        let mut j: usize = 0;
        while j < self.sections.len()
            invariant
                j <= self.sections.len(),
                lowest is None <==> !(exists|k: int|
                    0 <= k < j && (#[trigger] self.sections[k]).is_allocated()),
                lowest matches Some(address) ==> {
                    &&& exists|k: int|
                        0 <= k < j && (#[trigger] self.sections[k]).is_allocated()
                            && self.sections[k].start == address
                    &&& forall|k: int|
                        0 <= k < j && (#[trigger] self.sections[k]).is_allocated() ==> address
                            <= self.sections[k].start
                },
            decreases self.sections.len() - j,
        {
            let section = &self.sections[j];
            if section.is_allocated() {
                let address = section.start_address();
                match lowest {
                    Some(least) if least <= address => {},
                    _ => {
                        lowest = Some(address);
                    },
                }
            }
            j += 1;
        }
        lowest
    }

    /// Highest end address of a loaded section; `None` where no section is
    /// loaded.
    pub fn kernel_end(&self) -> (end: Option<u32>)
        ensures
            end is None <==> !self.any_loaded(),
            end matches Some(address) ==> {
                &&& exists|j: int|
                    0 <= j < self.sections.len() && (#[trigger] self.sections[j]).is_allocated()
                        && self.sections[j].end == address
                &&& forall|j: int|
                    0 <= j < self.sections.len() && (#[trigger] self.sections[j]).is_allocated()
                        ==> self.sections[j].end <= address
            },
    {
        let mut highest: Option<u32> = None;
        let mut j: usize = 0;
        while j < self.sections.len()
            invariant
                j <= self.sections.len(),
                highest is None <==> !(exists|k: int|
                    0 <= k < j && (#[trigger] self.sections[k]).is_allocated()),
                highest matches Some(address) ==> {
                    &&& exists|k: int|
                        0 <= k < j && (#[trigger] self.sections[k]).is_allocated()
                            && self.sections[k].end == address
                    &&& forall|k: int|
                        0 <= k < j && (#[trigger] self.sections[k]).is_allocated()
                            ==> self.sections[k].end <= address
                },
            decreases self.sections.len() - j,
        {
            let section = &self.sections[j];
            if section.is_allocated() {
                let address = section.end_address();
                match highest {
                    Some(most) if address <= most => {},
                    _ => {
                        highest = Some(address);
                    },
                }
            }
            j += 1;
        }
        highest
    }
}

} // verus!
