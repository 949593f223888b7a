//! A small x86-64 hobby kernel's logic: addresses and paging structures, the
//! page-table walk and mapping, the buddy heap allocator, the VGA text writers,
//! the shell's parsers and the interrupt-controller command sequences.
pub mod interrupts;
pub mod memory;
pub mod scheduler;
pub mod test_framework;
pub mod utils;
pub mod vga_buffer;
