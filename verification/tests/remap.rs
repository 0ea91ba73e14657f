use kernel_core::hardware::Hardware;
use kernel_core::machine::Machine;
use kernel_core::memory::frame::AreaFrameAllocator;
use kernel_core::memory::paging::kernel_image::{map_kernel_image, tables_are_kept, VGA_FRAME};
use kernel_core::memory::paging::mapper::Mapper;
use kernel_core::memory::paging::remap_the_kernel;
use kernel_core::memory::paging::table_entry::TableEntry;
use kernel_core::memory::paging::table_entry::{PRESENT, WRITABLE};
use kernel_core::memory::{Frame, FrameAllocator};
use kernel_core::multiboot::{ElfSection, MemoryArea, MultiBoot, ALLOCATED};
use kernel_core::multiboot::WRITABLE as SECTION_WRITABLE;

fn boot_info() -> MultiBoot {
    MultiBoot {
        start_address: 0x9000,
        end_address: 0x9800,
        sections: vec![
            ElfSection { start: 0x1000, end: 0x2000, flag_bits: ALLOCATED | SECTION_WRITABLE },
            ElfSection { start: 0x2000, end: 0x3000, flag_bits: ALLOCATED },
            ElfSection { start: 0x3000, end: 0x4000, flag_bits: 0 },
        ],
        areas: vec![MemoryArea { start_address: 0x10_0000, size: 0x10_0000 }],
    }
}

fn allocator() -> AreaFrameAllocator {
    AreaFrameAllocator::new(
        0x1000,
        0x2fff,
        0x9000,
        0x97ff,
        vec![MemoryArea { start_address: 0x10_0000, size: 0x10_0000 }],
    )
}

#[test]
fn remap_maps_loaded_sections_and_skips_the_rest() {
    let mut machine = Machine::new(Frame { number: 0x10 });
    let mut frames = allocator();
    let boot = boot_info();
    let active = remap_the_kernel(&mut machine, &mut frames, &boot);

    // the first frame of the area went to the temporary page, the second
    // became the new top-level table
    assert_eq!(machine.cr3_read(), 0x10_1000);

    let mapper = &active.mapper;
    assert_eq!(mapper.translate(&machine, 0x1000), Some(0x1000));
    assert_eq!(mapper.translate(&machine, 0x1abc), Some(0x1abc));
    assert_eq!(mapper.translate(&machine, 0x2000), Some(0x2000));
    assert_eq!(mapper.translate(&machine, 0x2fff), Some(0x2fff));
    assert_eq!(mapper.translate(&machine, 0x3000), None);
    assert_eq!(mapper.translate(&machine, 0x3fff), None);
    assert_eq!(mapper.translate(&machine, 0xb8000), Some(0xb8000));
    assert_eq!(mapper.translate(&machine, 0xb8f9e), Some(0xb8f9e));
    assert_eq!(mapper.translate(&machine, 0x9000), Some(0x9000));
    assert_eq!(mapper.translate(&machine, 0x97ff), Some(0x97ff));
    assert_eq!(mapper.translate(&machine, 0xa000), None);
    assert_eq!(mapper.translate(&machine, 0x0), None);
    assert_eq!(mapper.translate(&machine, 0x40_0000), None);

    // the processor sees the same
    assert_eq!(machine.translate(0x1), Some(Frame { number: 0x1 }));
    assert_eq!(machine.translate(0x3), None);
    assert_eq!(machine.translate(0xb8), Some(Frame { number: 0xb8 }));
}

#[test]
fn remap_gives_each_frame_the_flags_of_its_section() {
    let mut machine = Machine::new(Frame { number: 0x10 });
    let mut frames = allocator();
    let boot = boot_info();
    remap_the_kernel(&mut machine, &mut frames, &boot);

    let root = Frame { number: 0x101 };
    let top = machine.peek(root, 0);
    let table = top.pointed_frame().unwrap();
    assert_eq!(top.flags().bits(), PRESENT | WRITABLE);
    assert_eq!(machine.peek(table, 1).0, 0x1000 | PRESENT | WRITABLE);
    assert_eq!(machine.peek(table, 2).0, 0x2000 | PRESENT);
    assert_eq!(machine.peek(table, 3).0, 0);
    assert_eq!(machine.peek(table, 9).0, 0x9000 | PRESENT);
    assert_eq!(machine.peek(table, 0xb8).0, 0xb8000 | PRESENT | WRITABLE);
    assert_eq!(machine.peek(table, 0xb9).0, 0);
    // the new table maps itself
    assert_eq!(machine.peek(root, 1023).0, 0x10_1000 | PRESENT | WRITABLE);
    assert_eq!(machine.peek(root, 1023).pointed_frame(), Some(root));
    for index in 1..1023 {
        assert!(machine.peek(root, index).is_unused());
    }
}

#[test]
fn remap_takes_three_frames_for_one_table() {
    let mut machine = Machine::new(Frame { number: 0x10 });
    let mut frames = allocator();
    let boot = boot_info();
    remap_the_kernel(&mut machine, &mut frames, &boot);
    // temporary page, new top-level table, one second-level table
    assert_eq!(frames.allocate_frame(), Some(Frame { number: 0x103 }));
}

#[test]
fn remap_leaves_the_old_table_with_its_recursive_entry() {
    let mut machine = Machine::new(Frame { number: 0x10 });
    let mut frames = allocator();
    let boot = boot_info();
    remap_the_kernel(&mut machine, &mut frames, &boot);
    let old_root = Frame { number: 0x10 };
    assert_eq!(machine.peek(old_root, 1023).0, 0x10000 | PRESENT | WRITABLE);
    // the temporary page is unmapped again
    let top = machine.peek(old_root, 0xebabe >> 10);
    let table = top.pointed_frame().unwrap();
    assert_eq!(table, Frame { number: 0x100 });
    assert!(machine.peek(table, 0xebabe & 0x3ff).is_unused());
}

#[test]
fn an_allocator_that_holds_an_active_table_is_told() {
    let mut machine = Machine::new(Frame { number: 0x10 });
    let frames = allocator();
    let mapper = Mapper::new();
    assert!(tables_are_kept(&mapper, &machine, &frames));
    machine.poke(Frame { number: 0x10 }, 7, TableEntry(0x0010_0000 | PRESENT));
    assert!(!tables_are_kept(&mapper, &machine, &frames));
    machine.poke(Frame { number: 0x10 }, 7, TableEntry(0x0010_0000));
    machine.tlb_flush_all();
    assert!(tables_are_kept(&mapper, &machine, &frames));
    // the top-level table itself counts
    let inside = AreaFrameAllocator::new(
        0,
        0,
        0,
        0,
        vec![MemoryArea { start_address: 0x10000, size: 0x1000 }],
    );
    assert!(!tables_are_kept(&mapper, &machine, &inside));
}

#[test]
fn the_image_can_be_built_in_the_active_table() {
    let mut machine = Machine::new(Frame { number: 0x10 });
    let mut frames = allocator();
    let mut mapper = Mapper::new();
    let boot = boot_info();
    map_kernel_image(&mut mapper, &mut machine, &mut frames, &boot);
    assert_eq!(VGA_FRAME, 0xb8);
    assert_eq!(mapper.translate(&machine, 0x1000), Some(0x1000));
    assert_eq!(mapper.translate(&machine, 0x3000), None);
    assert_eq!(mapper.translate(&machine, 0xb8000), Some(0xb8000));
    assert_eq!(mapper.translate(&machine, 0x9000), Some(0x9000));
    assert_eq!(machine.cr3_read(), 0x10000);
    assert_eq!(frames.allocate_frame(), Some(Frame { number: 0x101 }));
}

#[test]
fn an_image_of_many_tables() {
    let mut machine = Machine::new(Frame { number: 0x10 });
    let mut frames = allocator();
    let boot = MultiBoot {
        start_address: 0x0080_0000,
        end_address: 0x0080_0001,
        sections: vec![
            ElfSection { start: 0x003f_f000, end: 0x0040_1000, flag_bits: ALLOCATED },
            ElfSection { start: 0x0100_0000, end: 0x0100_0001, flag_bits: ALLOCATED | SECTION_WRITABLE },
        ],
        areas: vec![],
    };
    let active = remap_the_kernel(&mut machine, &mut frames, &boot);
    let mapper = &active.mapper;
    assert_eq!(mapper.translate(&machine, 0x003f_efff), None);
    assert_eq!(mapper.translate(&machine, 0x003f_f000), Some(0x003f_f000));
    assert_eq!(mapper.translate(&machine, 0x0040_0fff), Some(0x0040_0fff));
    assert_eq!(mapper.translate(&machine, 0x0040_1000), None);
    assert_eq!(mapper.translate(&machine, 0x0080_0000), Some(0x0080_0000));
    assert_eq!(mapper.translate(&machine, 0x0100_0fff), Some(0x0100_0fff));
    // temporary page, top-level table, and tables for the entries 0, 1, 4
    // and 2, in the order in which they were needed
    let root = Frame { number: 0x101 };
    assert_eq!(machine.peek(root, 0).0, 0x10_2000 | PRESENT | WRITABLE);
    assert_eq!(machine.peek(root, 1).0, 0x10_3000 | PRESENT | WRITABLE);
    assert_eq!(machine.peek(root, 4).0, 0x10_4000 | PRESENT | WRITABLE);
    assert_eq!(machine.peek(root, 2).0, 0x10_5000 | PRESENT | WRITABLE);
    assert_eq!(machine.peek(root, 3).0, 0);
    assert_eq!(frames.allocate_frame(), Some(Frame { number: 0x106 }));
}
