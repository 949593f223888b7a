# kalopsia_os

The logic of a small x86-64 hobby kernel, written in Verus and proved against its
contracts, with the kernel around it in ordinary Rust.

- `src/` is the verified library: virtual and physical addresses, page-table entries and
  tables, the four-level page-table walk and the mapping of 4 KiB pages, the boot frame
  allocator, the buddy heap allocator, the VGA text buffer and its writers, the port-write
  sequences of the interrupt controllers, the speaker and the real-time clock, the
  scancode queues, the executor's run queue, and the shell's parsers and output.
- `tests/` runs the library on concrete values.
- `app/` is the kernel: the boot entry, port I/O and CPU instructions, the interrupt
  handlers, the copy of the text buffer to video memory, and the async tasks.

The library models the machine's memory where the kernel reads it. Page tables are held
in a map from their virtual addresses, and `app/` reads the tables on a walk from memory
into that map and writes them back after a mapping. The text buffer is a vector of cells
that `app/` copies to video memory. The buddy allocator keeps its block headers in a map
of its own, from block addresses; they are not written into the heap's memory.
