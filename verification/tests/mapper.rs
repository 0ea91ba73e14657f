use kernel_core::hardware::Hardware;
use kernel_core::machine::Machine;
use kernel_core::memory::frame::AreaFrameAllocator;
use kernel_core::memory::paging::mapper::Mapper;
use kernel_core::memory::paging::table::P2;
use kernel_core::memory::paging::table_entry::{
    TableEntry, TableEntryFlags, GLOBAL, HUGE_PAGE, PRESENT, USER_ACCESSIBLE, WRITABLE,
};
use kernel_core::memory::paging::Page;
use kernel_core::memory::{Frame, FrameAllocator};
use kernel_core::multiboot::MemoryArea;

const ROOT: Frame = Frame { number: 0x10 };

fn allocator() -> AreaFrameAllocator {
    AreaFrameAllocator::new(
        0,
        0,
        0,
        0,
        vec![MemoryArea { start_address: 0x10_0000, size: 0x10_0000 }],
    )
}

fn flags(bits: u32) -> TableEntryFlags {
    TableEntryFlags::from_bits_truncate(bits)
}

#[test]
fn nothing_is_mapped_at_first() {
    let machine = Machine::new(ROOT);
    let mapper = Mapper::new();
    assert_eq!(mapper.translate_page(&machine, Page { number: 0 }), None);
    assert_eq!(mapper.translate_page(&machine, Page { number: 0x400 }), None);
    assert_eq!(mapper.translate(&machine, 0x1234_5678), None);
}

#[test]
fn the_window_shows_the_top_level_table() {
    let machine = Machine::new(ROOT);
    let mapper = Mapper::new();
    assert_eq!(mapper.p2().address, P2);
    assert_eq!(mapper.translate(&machine, P2), Some(0x10000));
    assert_eq!(mapper.translate_page(&machine, Page { number: 0xf_ffff }), Some(ROOT));
    assert_eq!(mapper.translate(&machine, 0xffff_fffc), Some(0x10ffc));
}

#[test]
fn map_to_then_translate_gives_the_frame() {
    let mut machine = Machine::new(ROOT);
    let mut frames = allocator();
    let mut mapper = Mapper::new();
    let page = Page { number: 0x400 };
    let frame = Frame { number: 0x55 };
    mapper.map_to(&mut machine, page, frame, flags(WRITABLE), &mut frames);
    assert_eq!(mapper.translate_page(&machine, page), Some(frame));
    assert_eq!(mapper.translate(&machine, page.start_address()), Some(frame.start_address()));
    assert_eq!(mapper.translate(&machine, 0x40_0abc), Some(0x55abc));
    assert_eq!(mapper.translate_page(&machine, Page { number: 0x401 }), None);
    assert_eq!(mapper.translate_page(&machine, Page { number: 0x3ff }), None);
}

#[test]
fn map_to_creates_the_second_level_table_once() {
    let mut machine = Machine::new(ROOT);
    let mut frames = allocator();
    let mut mapper = Mapper::new();
    mapper.map_to(&mut machine, Page { number: 0x400 }, Frame { number: 0x55 }, flags(0), &mut frames);
    let table = Frame { number: 0x100 };
    assert_eq!(machine.peek(ROOT, 1).0, 0x10_0000 | PRESENT | WRITABLE);
    assert_eq!(machine.peek(table, 0).0, 0x55000 | PRESENT);
    for index in 1..1024 {
        assert!(machine.peek(table, index).is_unused());
    }
    mapper.map_to(
        &mut machine,
        Page { number: 0x7ff },
        Frame { number: 0x66 },
        flags(USER_ACCESSIBLE | GLOBAL),
        &mut frames,
    );
    assert_eq!(machine.peek(ROOT, 1).0, 0x10_0000 | PRESENT | WRITABLE);
    assert_eq!(machine.peek(table, 1023).0, 0x66000 | PRESENT | USER_ACCESSIBLE | GLOBAL);
    assert_eq!(machine.peek(table, 0).0, 0x55000 | PRESENT);
    assert_eq!(frames.allocate_frame(), Some(Frame { number: 0x101 }));
}

#[test]
fn map_to_zeroes_the_new_table() {
    let mut machine = Machine::new(ROOT);
    let mut frames = allocator();
    let mut mapper = Mapper::new();
    let table = Frame { number: 0x100 };
    for index in 0..1024 {
        machine.poke(table, index, TableEntry(0xdead_b000 | PRESENT));
    }
    mapper.map_to(&mut machine, Page { number: 5 }, Frame { number: 9 }, flags(0), &mut frames);
    for index in 0..1024 {
        let expected = if index == 5 { 0x9000 | PRESENT } else { 0 };
        assert_eq!(machine.peek(table, index).0, expected);
    }
    assert_eq!(mapper.translate_page(&machine, Page { number: 6 }), None);
}

#[test]
fn map_to_always_sets_the_present_flag() {
    let mut machine = Machine::new(ROOT);
    let mut frames = allocator();
    let mut mapper = Mapper::new();
    mapper.map_to(&mut machine, Page { number: 1 }, Frame { number: 2 }, flags(0), &mut frames);
    mapper.map_to(&mut machine, Page { number: 2 }, Frame { number: 3 }, flags(PRESENT), &mut frames);
    assert_eq!(machine.peek(Frame { number: 0x100 }, 1).0, 0x2000 | PRESENT);
    assert_eq!(machine.peek(Frame { number: 0x100 }, 2).0, 0x3000 | PRESENT);
}

#[test]
fn map_to_leaves_other_pages_alone() {
    let mut machine = Machine::new(ROOT);
    let mut frames = allocator();
    let mut mapper = Mapper::new();
    mapper.map_to(&mut machine, Page { number: 0x400 }, Frame { number: 1 }, flags(0), &mut frames);
    mapper.map_to(&mut machine, Page { number: 0x800 }, Frame { number: 2 }, flags(0), &mut frames);
    mapper.map_to(&mut machine, Page { number: 0x401 }, Frame { number: 3 }, flags(0), &mut frames);
    assert_eq!(mapper.translate_page(&machine, Page { number: 0x400 }), Some(Frame { number: 1 }));
    assert_eq!(mapper.translate_page(&machine, Page { number: 0x800 }), Some(Frame { number: 2 }));
    assert_eq!(mapper.translate_page(&machine, Page { number: 0x401 }), Some(Frame { number: 3 }));
    assert_eq!(mapper.translate_page(&machine, Page { number: 0x801 }), None);
    assert_eq!(machine.peek(ROOT, 1).pointed_frame(), Some(Frame { number: 0x100 }));
    assert_eq!(machine.peek(ROOT, 2).pointed_frame(), Some(Frame { number: 0x101 }));
}

#[test]
fn a_used_slot_can_be_told_before_mapping() {
    let mut machine = Machine::new(ROOT);
    let mut frames = allocator();
    let mut mapper = Mapper::new();
    let page = Page { number: 0x123 };
    assert!(mapper.translate_page(&machine, page).is_none());
    mapper.map_to(&mut machine, page, Frame { number: 7 }, flags(0), &mut frames);
    assert!(mapper.translate_page(&machine, page).is_some());
    let slot = machine.peek(machine.peek(ROOT, 0).pointed_frame().unwrap(), 0x123);
    assert!(!slot.is_unused());
}

#[test]
fn map_takes_the_frame_from_the_allocator() {
    let mut machine = Machine::new(ROOT);
    let mut frames = allocator();
    let mut mapper = Mapper::new();
    let page = Page { number: 0x2345 };
    mapper.map(&mut machine, page, flags(WRITABLE), &mut frames);
    // the first frame is the page's, the second its table's
    assert_eq!(mapper.translate_page(&machine, page), Some(Frame { number: 0x100 }));
    assert_eq!(machine.peek(ROOT, 8).pointed_frame(), Some(Frame { number: 0x101 }));
    assert_eq!(machine.peek(Frame { number: 0x101 }, 0x345).0, 0x10_0000 | PRESENT | WRITABLE);
    mapper.map(&mut machine, Page { number: 0x2346 }, flags(0), &mut frames);
    assert_eq!(
        mapper.translate_page(&machine, Page { number: 0x2346 }),
        Some(Frame { number: 0x102 })
    );
    assert_eq!(frames.allocate_frame(), Some(Frame { number: 0x103 }));
}

#[test]
fn identity_map_makes_addresses_coincide() {
    let mut machine = Machine::new(ROOT);
    let mut frames = allocator();
    let mut mapper = Mapper::new();
    let frame = Frame { number: 0xb8 };
    mapper.identity_map(&mut machine, frame, flags(WRITABLE), &mut frames);
    assert_eq!(mapper.translate(&machine, frame.start_address()), Some(frame.start_address()));
    assert_eq!(mapper.translate(&machine, 0xb8f00), Some(0xb8f00));
    assert_eq!(mapper.translate_page(&machine, Page { number: 0xb8 }), Some(frame));
    assert_eq!(mapper.translate(&machine, 0xb9000), None);
}

#[test]
fn identity_map_of_the_highest_frame_below_the_window() {
    let mut machine = Machine::new(ROOT);
    let mut frames = allocator();
    let mut mapper = Mapper::new();
    let frame = Frame { number: 0xf_fbff };
    mapper.identity_map(&mut machine, frame, flags(0), &mut frames);
    assert_eq!(mapper.translate(&machine, 0xffbf_ffff), Some(0xffbf_ffff));
    assert_eq!(machine.peek(ROOT, 1022).pointed_frame(), Some(Frame { number: 0x100 }));
}

#[test]
fn a_huge_page_translates_by_its_low_index() {
    let mut machine = Machine::new(ROOT);
    let mapper = Mapper::new();
    let mut entry = TableEntry::unused();
    entry.set(Frame { number: 0x800 }, flags(PRESENT | HUGE_PAGE));
    machine.poke(ROOT, 5, entry);
    assert_eq!(
        mapper.translate_page(&machine, Page { number: 5 * 1024 }),
        Some(Frame { number: 0x800 })
    );
    assert_eq!(
        mapper.translate_page(&machine, Page { number: 5 * 1024 + 7 }),
        Some(Frame { number: 0x807 })
    );
    assert_eq!(
        mapper.translate_page(&machine, Page { number: 5 * 1024 + 1023 }),
        Some(Frame { number: 0xbff })
    );
    assert_eq!(mapper.translate(&machine, 0x0140_7abc), Some(0x0080_7abc));
    assert_eq!(mapper.translate_page(&machine, Page { number: 6 * 1024 }), None);
    // the processor agrees
    assert_eq!(machine.translate(5 * 1024 + 7), Some(Frame { number: 0x807 }));
}

#[test]
fn a_huge_page_at_frame_zero() {
    let mut machine = Machine::new(ROOT);
    let mapper = Mapper::new();
    machine.poke(ROOT, 0, TableEntry(PRESENT | HUGE_PAGE | WRITABLE));
    assert_eq!(mapper.translate(&machine, 0x12_3456), Some(0x12_3456));
}

#[test]
fn an_entry_that_is_huge_but_not_present_maps_nothing() {
    let mut machine = Machine::new(ROOT);
    let mapper = Mapper::new();
    machine.poke(ROOT, 5, TableEntry(0x80_0000 | HUGE_PAGE));
    assert_eq!(mapper.translate_page(&machine, Page { number: 5 * 1024 + 7 }), None);
}

#[test]
fn a_present_table_with_an_absent_entry_maps_nothing() {
    let mut machine = Machine::new(ROOT);
    let mapper = Mapper::new();
    machine.poke(ROOT, 3, TableEntry(0x20_0000 | PRESENT));
    machine.poke(Frame { number: 0x200 }, 4, TableEntry(0x7000 | WRITABLE));
    machine.poke(Frame { number: 0x200 }, 5, TableEntry(0x7000 | PRESENT));
    assert_eq!(mapper.translate_page(&machine, Page { number: 3 * 1024 + 4 }), None);
    assert_eq!(
        mapper.translate_page(&machine, Page { number: 3 * 1024 + 5 }),
        Some(Frame { number: 7 })
    );
}

#[test]
fn unmap_changes_nothing() {
    let mut machine = Machine::new(ROOT);
    let mut frames = allocator();
    let mut mapper = Mapper::new();
    let page = Page { number: 0x400 };
    mapper.map_to(&mut machine, page, Frame { number: 0x55 }, flags(0), &mut frames);
    mapper.unmap(&mut machine, page, &mut frames);
    assert_eq!(mapper.translate_page(&machine, page), Some(Frame { number: 0x55 }));
    assert_eq!(machine.peek(Frame { number: 0x100 }, 0).0, 0x55000 | PRESENT);
    assert_eq!(frames.allocate_frame(), Some(Frame { number: 0x101 }));
}

#[test]
fn the_processor_sees_what_the_mapper_mapped() {
    let mut machine = Machine::new(ROOT);
    let mut frames = allocator();
    let mut mapper = Mapper::new();
    mapper.map_to(&mut machine, Page { number: 0x400 }, Frame { number: 0x55 }, flags(0), &mut frames);
    machine.poke(Frame { number: 0x55 }, 3, TableEntry(0x1234_5678));
    assert_eq!(machine.read(0x40_000c), 0x1234_5678);
    machine.write(0x40_0010, 0x9abc_def0);
    assert_eq!(machine.peek(Frame { number: 0x55 }, 4).0, 0x9abc_def0);
    assert_eq!(machine.translate(0x400), Some(Frame { number: 0x55 }));
    assert_eq!(machine.translate(0x401), None);
}

#[test]
fn a_used_slot_is_not_mapped_again() {
    let mut machine = Machine::new(ROOT);
    let mut frames = allocator();
    let mut mapper = Mapper::new();
    let page = Page { number: 0x400 };
    assert!(mapper.try_map_to(&mut machine, page, Frame { number: 0x55 }, flags(0), &mut frames));
    assert!(!mapper.try_map_to(&mut machine, page, Frame { number: 0x66 }, flags(WRITABLE), &mut frames));
    assert_eq!(mapper.translate_page(&machine, page), Some(Frame { number: 0x55 }));
    assert_eq!(machine.peek(Frame { number: 0x100 }, 0).0, 0x55000 | PRESENT);
    assert_eq!(frames.allocate_frame(), Some(Frame { number: 0x101 }));
    // an entry that holds anything at all is in use
    machine.poke(Frame { number: 0x100 }, 1, TableEntry(WRITABLE));
    assert!(!mapper.try_map_to(&mut machine, Page { number: 0x401 }, Frame { number: 1 }, flags(0), &mut frames));
    assert_eq!(machine.peek(Frame { number: 0x100 }, 1).0, WRITABLE);
    assert!(mapper.try_map_to(&mut machine, Page { number: 0x402 }, Frame { number: 1 }, flags(0), &mut frames));
}

#[test]
fn a_large_page_is_not_mapped_over() {
    let mut machine = Machine::new(ROOT);
    let mut frames = allocator();
    let mut mapper = Mapper::new();
    machine.poke(ROOT, 5, TableEntry(0x80_0000 | PRESENT | HUGE_PAGE));
    let page = Page { number: 5 * 1024 + 7 };
    assert!(!mapper.try_map_to(&mut machine, page, Frame { number: 1 }, flags(0), &mut frames));
    assert_eq!(machine.peek(ROOT, 5).0, 0x80_0000 | PRESENT | HUGE_PAGE);
    assert_eq!(mapper.translate_page(&machine, page), Some(Frame { number: 0x807 }));
    assert_eq!(frames.allocate_frame(), Some(Frame { number: 0x100 }));
}

#[test]
fn the_recursive_entry_is_not_mapped_over() {
    let mut machine = Machine::new(ROOT);
    let mut frames = allocator();
    let mut mapper = Mapper::new();
    let page = Page { number: 0xf_ffff };
    assert!(!mapper.try_map_to(&mut machine, page, Frame { number: 1 }, flags(0), &mut frames));
    assert_eq!(machine.peek(ROOT, 1023).0, 0x10000 | PRESENT | WRITABLE);
}
