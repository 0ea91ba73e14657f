use kernel_core::hardware::{Hardware, RECURSIVE_INDEX};
use kernel_core::machine::Machine;
use kernel_core::memory::paging::table_entry::{TableEntry, HUGE_PAGE, PRESENT, WRITABLE};
use kernel_core::memory::Frame;

#[test]
fn a_new_machine_holds_one_table_that_maps_itself() {
    let machine = Machine::new(Frame { number: 0x10 });
    assert_eq!(machine.cr3_read(), 0x10000);
    assert_eq!(RECURSIVE_INDEX, 1023);
    assert_eq!(machine.peek(Frame { number: 0x10 }, 1023).0, 0x10000 | PRESENT | WRITABLE);
    for index in 0..1023 {
        assert_eq!(machine.peek(Frame { number: 0x10 }, index).0, 0);
    }
    assert_eq!(machine.peek(Frame { number: 0 }, 0).0, 0);
    assert_eq!(machine.peek(Frame { number: 0xf_ffff }, 1023).0, 0);
}

#[test]
fn poke_then_peek() {
    let mut machine = Machine::new(Frame { number: 1 });
    machine.poke(Frame { number: 7 }, 9, TableEntry(0xdead_beef));
    assert_eq!(machine.peek(Frame { number: 7 }, 9).0, 0xdead_beef);
    assert_eq!(machine.peek(Frame { number: 7 }, 8).0, 0);
    assert_eq!(machine.peek(Frame { number: 9 }, 7).0, 0);
    machine.poke(Frame { number: 7 }, 9, TableEntry(1));
    assert_eq!(machine.peek(Frame { number: 7 }, 9).0, 1);
    machine.poke(Frame { number: 0xf_ffff }, 1023, TableEntry(2));
    assert_eq!(machine.peek(Frame { number: 0xf_ffff }, 1023).0, 2);
    assert_eq!(machine.peek(Frame { number: 0xf_ffff }, 1022).0, 0);
}

#[test]
fn the_translation_unit_walks_two_levels() {
    let mut machine = Machine::new(Frame { number: 1 });
    machine.poke(Frame { number: 1 }, 2, TableEntry(0x5000 | PRESENT));
    machine.poke(Frame { number: 5 }, 3, TableEntry(0x9000 | PRESENT));
    assert_eq!(machine.translate(2 * 1024 + 3), Some(Frame { number: 9 }));
    assert_eq!(machine.translate(2 * 1024 + 4), None);
    assert_eq!(machine.translate(3 * 1024 + 3), None);
}

#[test]
fn the_translation_unit_takes_large_pages() {
    let mut machine = Machine::new(Frame { number: 1 });
    machine.poke(Frame { number: 1 }, 2, TableEntry(0x0040_0000 | PRESENT | HUGE_PAGE));
    assert_eq!(machine.translate(2 * 1024), Some(Frame { number: 0x400 }));
    assert_eq!(machine.translate(2 * 1024 + 0x3ff), Some(Frame { number: 0x7ff }));
    // the low bits of the frame number do not count
    machine.poke(Frame { number: 1 }, 3, TableEntry(0x0040_3000 | PRESENT | HUGE_PAGE));
    assert_eq!(machine.translate(3 * 1024 + 1), Some(Frame { number: 0x401 }));
}

#[test]
fn the_window_reaches_the_tables() {
    let mut machine = Machine::new(Frame { number: 1 });
    machine.poke(Frame { number: 1 }, 2, TableEntry(0x5000 | PRESENT));
    machine.poke(Frame { number: 5 }, 3, TableEntry(0x9000 | PRESENT));
    // the top-level table through the window
    assert_eq!(machine.read(0xffff_f000 + 4 * 2), 0x5000 | PRESENT);
    assert_eq!(machine.read(0xffff_f000 + 4 * 1023), 0x1000 | PRESENT | WRITABLE);
    // the second-level table of entry 2
    assert_eq!(machine.read(0xffc0_2000 + 4 * 3), 0x9000 | PRESENT);
    machine.write(0xffc0_2000 + 4 * 4, 0xa000 | PRESENT);
    assert_eq!(machine.peek(Frame { number: 5 }, 4).0, 0xa000 | PRESENT);
    assert_eq!(machine.translate(2 * 1024 + 4), Some(Frame { number: 0xa }));
}

#[test]
fn loading_the_register_changes_the_walk() {
    let mut machine = Machine::new(Frame { number: 1 });
    machine.poke(Frame { number: 2 }, 0, TableEntry(0x5000 | PRESENT));
    machine.poke(Frame { number: 5 }, 0, TableEntry(0x9000 | PRESENT));
    assert_eq!(machine.translate(0), None);
    machine.cr3_write(0x2000);
    assert_eq!(machine.cr3_read(), 0x2000);
    assert_eq!(machine.translate(0), Some(Frame { number: 9 }));
    assert_eq!(machine.peek(Frame { number: 1 }, 1023).0, 0x1000 | PRESENT | WRITABLE);
}

#[test]
fn flushing_changes_no_memory() {
    let mut machine = Machine::new(Frame { number: 1 });
    machine.poke(Frame { number: 7 }, 9, TableEntry(0xdead_beef));
    machine.tlb_flush(0x1000);
    machine.tlb_flush_all();
    assert_eq!(machine.cr3_read(), 0x1000);
    assert_eq!(machine.peek(Frame { number: 7 }, 9).0, 0xdead_beef);
    assert_eq!(machine.peek(Frame { number: 1 }, 1023).0, 0x1000 | PRESENT | WRITABLE);
}
