//! The verified core of a small 32-bit x86 kernel.
//!
//! * [`memory`] holds the virtual-memory layer: frames and their allocators,
//!   pages, the two-level page tables reached through a recursive entry,
//!   the mapper, the temporary page, the switch between address spaces, and
//!   the address space that the kernel gives itself at start-up.
//! * [`hardware`] describes the machine that this layer runs on: physical
//!   memory, the table-base register and the translation cache, and the
//!   interface through which the layer reaches them. Every function of the
//!   virtual-memory layer is proved against that description.
//! * [`machine`] is such a machine in software.
//! * [`multiboot`] holds what the boot loader reports, and reads it from
//!   the boot loader's record.
//! * [`keyboard`] turns the bytes of a keyboard into keys.
//! * [`vga_buffer`] keeps the text screens and says what the display is to
//!   show.

pub mod hardware;
pub mod keyboard;
pub mod machine;
pub mod memory;
pub mod multiboot;
pub mod vga_buffer;
