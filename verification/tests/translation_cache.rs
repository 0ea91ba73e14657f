use kernel_core::hardware::Hardware;
use kernel_core::machine::Machine;
use kernel_core::memory::frame::AreaFrameAllocator;
use kernel_core::memory::paging::mapper::Mapper;
use kernel_core::memory::paging::table::{Level2, Table, P2};
use kernel_core::memory::paging::table_entry::{
    TableEntry, TableEntryFlags, HUGE_PAGE, PRESENT, WRITABLE,
};
use kernel_core::memory::paging::temporary_page::TemporaryPage;
use kernel_core::memory::paging::{
    remap_the_kernel, ActivePageTable, InactivePageTable, Page, TEMPORARY_PAGE,
};
use kernel_core::memory::{Frame, FrameAllocator};
use kernel_core::multiboot::{ElfSection, MemoryArea, MultiBoot, ALLOCATED};

const ROOT: Frame = Frame { number: 0x10 };

fn allocator() -> AreaFrameAllocator {
    AreaFrameAllocator::new(
        0,
        0,
        0,
        0,
        vec![MemoryArea { start_address: 0x10_0000, size: 0x10_0000 }],
    )
}

fn flags(bits: u32) -> TableEntryFlags {
    TableEntryFlags::from_bits_truncate(bits)
}

fn stale_pages(machine: &Machine) -> Vec<usize> {
    (0..0x10_0000).filter(|page| machine.stale_page(*page)).collect()
}

#[test]
fn a_new_machine_has_no_stale_page() {
    let machine = Machine::new(ROOT);
    assert!(stale_pages(&machine).is_empty());
}

#[test]
fn filling_an_entry_that_is_not_present_makes_no_page_stale() {
    let mut machine = Machine::new(ROOT);
    machine.poke(ROOT, 3, TableEntry(0x5000 | PRESENT));
    machine.poke(Frame { number: 5 }, 7, TableEntry(0x9000 | PRESENT));
    machine.poke(ROOT, 4, TableEntry(0x6000));
    machine.poke(ROOT, 4, TableEntry(0x7000 | PRESENT));
    assert!(stale_pages(&machine).is_empty());
    assert_eq!(machine.translate(3 * 1024 + 7), Some(Frame { number: 9 }));
}

#[test]
fn writing_a_present_second_level_entry_makes_its_page_stale() {
    let mut machine = Machine::new(ROOT);
    machine.poke(ROOT, 3, TableEntry(0x5000 | PRESENT));
    machine.poke(Frame { number: 5 }, 7, TableEntry(0x9000 | PRESENT));
    machine.poke(Frame { number: 5 }, 8, TableEntry(0xa000 | PRESENT));
    machine.poke(Frame { number: 5 }, 7, TableEntry(0xb000 | PRESENT));
    assert_eq!(stale_pages(&machine), vec![3 * 1024 + 7]);
    // the machine refuses the access whose outcome is open
    assert_eq!(machine.translate(3 * 1024 + 7), None);
    assert_eq!(machine.read(0x00c0_7000), 0);
    assert_eq!(machine.translate(3 * 1024 + 8), Some(Frame { number: 0xa }));
    machine.tlb_flush(0x00c0_7abc);
    assert!(stale_pages(&machine).is_empty());
    assert_eq!(machine.translate(3 * 1024 + 7), Some(Frame { number: 0xb }));
}

#[test]
fn a_table_that_two_entries_refer_to_makes_two_pages_stale() {
    let mut machine = Machine::new(ROOT);
    machine.poke(ROOT, 3, TableEntry(0x5000 | PRESENT));
    machine.poke(ROOT, 9, TableEntry(0x5000 | PRESENT | WRITABLE));
    machine.poke(ROOT, 10, TableEntry(0x5000 | PRESENT | HUGE_PAGE));
    machine.poke(ROOT, 11, TableEntry(0x5000 | WRITABLE));
    machine.poke(Frame { number: 5 }, 7, TableEntry(0x9000 | PRESENT));
    machine.poke(Frame { number: 5 }, 7, TableEntry(0));
    assert_eq!(stale_pages(&machine), vec![3 * 1024 + 7, 9 * 1024 + 7]);
    machine.tlb_flush(0x00c0_7000);
    assert_eq!(stale_pages(&machine), vec![9 * 1024 + 7]);
}

#[test]
fn writing_a_present_top_level_entry_makes_its_pages_stale() {
    let mut machine = Machine::new(ROOT);
    machine.poke(ROOT, 3, TableEntry(0x5000 | PRESENT));
    machine.poke(ROOT, 3, TableEntry(0x6000 | PRESENT));
    // the pages of the entry, and the page of the window that shows the
    // table of the entry
    let mut expected: Vec<usize> = (3 * 1024..4 * 1024).collect();
    expected.push(0xf_fc03);
    assert_eq!(stale_pages(&machine), expected);
    machine.tlb_flush_all();
    assert!(stale_pages(&machine).is_empty());
}

#[test]
fn writing_memory_that_no_walk_reads_makes_no_page_stale() {
    let mut machine = Machine::new(ROOT);
    machine.poke(ROOT, 3, TableEntry(0x5000 | PRESENT));
    machine.poke(Frame { number: 6 }, 7, TableEntry(0x9000 | PRESENT));
    machine.poke(Frame { number: 6 }, 7, TableEntry(0xa000 | PRESENT));
    assert!(stale_pages(&machine).is_empty());
}

#[test]
fn loading_the_register_empties_the_cache() {
    let mut machine = Machine::new(ROOT);
    machine.poke(ROOT, 3, TableEntry(0x5000 | PRESENT));
    machine.poke(ROOT, 3, TableEntry(0));
    assert_eq!(stale_pages(&machine).len(), 1025);
    machine.cr3_write(0x10000);
    assert!(stale_pages(&machine).is_empty());
}

#[test]
fn mapping_into_a_table_that_is_there_needs_no_flush() {
    let mut machine = Machine::new(ROOT);
    let mut frames = allocator();
    let mut mapper = Mapper::new();
    mapper.map_to(&mut machine, Page { number: 0x400 }, Frame { number: 0x55 }, flags(0), &mut frames);
    mapper.map_to(&mut machine, Page { number: 0x401 }, Frame { number: 0x56 }, flags(0), &mut frames);
    assert!(stale_pages(&machine).is_empty());
    machine.poke(Frame { number: 0x56 }, 0, TableEntry(0x1234));
    assert_eq!(machine.read(0x40_1000), 0x1234);
}

#[test]
fn a_new_table_in_a_frame_of_zeros_needs_no_flush() {
    let mut machine = Machine::new(ROOT);
    let mut frames = allocator();
    let mut mapper = Mapper::new();
    mapper.map_to(&mut machine, Page { number: 0x400 }, Frame { number: 0x55 }, flags(0), &mut frames);
    assert!(stale_pages(&machine).is_empty());
    assert_eq!(machine.translate(0x400), Some(Frame { number: 0x55 }));
}

#[test]
fn a_new_table_in_a_frame_with_present_entries_leaves_stale_pages() {
    let mut machine = Machine::new(ROOT);
    let mut frames = allocator();
    let mut mapper = Mapper::new();
    // what the frame of the new table held before
    machine.poke(Frame { number: 0x100 }, 0, TableEntry(0xdead_b000 | PRESENT));
    machine.poke(Frame { number: 0x100 }, 9, TableEntry(0xdead_b000 | PRESENT));
    machine.poke(Frame { number: 0x100 }, 10, TableEntry(0xdead_b000));
    mapper.map_to(&mut machine, Page { number: 0x400 }, Frame { number: 0x55 }, flags(0), &mut frames);
    // between the moment the table was installed and the moment it was
    // cleared the processor could walk through what the frame held
    assert_eq!(stale_pages(&machine), vec![0x400, 0x409]);
    assert_eq!(mapper.translate_page(&machine, Page { number: 0x400 }), Some(Frame { number: 0x55 }));
    assert_eq!(machine.translate(0x400), None);
    machine.tlb_flush(0x40_0000);
    assert_eq!(machine.translate(0x400), Some(Frame { number: 0x55 }));
    // the window itself stayed usable all along
    assert!(!machine.stale_page(0xf_ffff));
    assert!(!machine.stale_page(0xf_fc01));
}

#[test]
fn turning_the_window_without_a_flush_leaves_it_stale() {
    let mut machine = Machine::new(ROOT);
    machine.poke(Frame { number: 0x20 }, 1023, TableEntry(0x20000 | PRESENT | WRITABLE));
    machine.poke(Frame { number: 0x20 }, 5, TableEntry(0x1234_5000 | PRESENT));
    let mut p2 = Table::<Level2>::at(P2);
    p2.store(&mut machine, 1023, TableEntry(0x20000 | PRESENT | WRITABLE));
    assert_eq!(stale_pages(&machine).len(), 1024);
    assert!(machine.stale_page(0xf_ffff));
    // the window is refused until the cache is emptied
    assert_eq!(p2.index(&machine, 5).0, 0);
    machine.tlb_flush_all();
    assert_eq!(p2.index(&machine, 5).0, 0x1234_5000 | PRESENT);
}

#[test]
fn the_temporary_page_is_flushed_when_mapped_and_unmapped() {
    let mut machine = Machine::new(ROOT);
    let mut frames = allocator();
    let mut active = ActivePageTable::new(&machine);
    // the frame that becomes the table of the page held present entries
    for index in 0..1024 {
        machine.poke(Frame { number: 0x100 }, index, TableEntry(0xdead_b000 | PRESENT));
    }
    let mut temporary = TemporaryPage::new(Page { number: TEMPORARY_PAGE }, &mut frames);
    temporary.map(&mut machine, Frame { number: 0x77 }, &mut active);
    assert!(!machine.stale_page(TEMPORARY_PAGE));
    assert_eq!(machine.translate(TEMPORARY_PAGE), Some(Frame { number: 0x77 }));
    assert_eq!(stale_pages(&machine).len(), 1023);
    machine.tlb_flush_all();
    temporary.unmap(&mut machine, &mut active);
    assert!(stale_pages(&machine).is_empty());
    assert_eq!(machine.translate(TEMPORARY_PAGE), None);
    temporary.map(&mut machine, Frame { number: 0x88 }, &mut active);
    assert!(stale_pages(&machine).is_empty());
    assert_eq!(machine.translate(TEMPORARY_PAGE), Some(Frame { number: 0x88 }));
}

#[test]
fn with_leaves_no_stale_page() {
    let mut machine = Machine::new(ROOT);
    let mut frames = allocator();
    let mut active = ActivePageTable::new(&machine);
    let mut temporary = TemporaryPage::new(Page { number: TEMPORARY_PAGE }, &mut frames);
    let frame = frames.allocate_frame().unwrap();
    let mut table = InactivePageTable::new(&mut machine, frame, &mut active, &mut temporary);
    assert!(stale_pages(&machine).is_empty());
    active.with(&mut machine, &mut table, &mut temporary, &mut frames, |mapper, hw, allocator| {
        assert!(stale_pages(hw).is_empty());
        mapper.identity_map(hw, Frame { number: 0x30 }, flags(0), allocator);
        assert!(stale_pages(hw).is_empty());
    });
    assert!(stale_pages(&machine).is_empty());
}

#[test]
fn remap_leaves_no_stale_page() {
    let mut machine = Machine::new(ROOT);
    let mut frames = allocator();
    let boot = MultiBoot {
        start_address: 0x9000,
        end_address: 0x9800,
        sections: vec![ElfSection { start: 0x1000, end: 0x40_2000, flag_bits: ALLOCATED }],
        areas: vec![],
    };
    remap_the_kernel(&mut machine, &mut frames, &boot);
    assert!(stale_pages(&machine).is_empty());
    assert_eq!(machine.translate(0x401), Some(Frame { number: 0x401 }));
    assert_eq!(machine.translate(0x402), None);
}
