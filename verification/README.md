# vados

The verified core of a small x86_64 kernel, written in Verus.

`src/` is the library; every function in it is verified against its contract:

- `allocator` — the physical frame allocator: a bitmap with one bit per 4 KiB page,
  built from the boot memory map and held in a `Vec`. Its view is the sequence of page
  states; allocation returns the lowest free page and freeing undoes it; the free-page
  counter is never below the number of free pages, and equals it whenever the memory
  map's usable regions do not overlap.
- `heap` — the kernel heap's first-fit allocator over a list of free blocks (held in a
  `Vec`, in list order), with the alignment arithmetic and the proof that allocations
  never overlap free blocks.
- `vmm` — page-table entries, the four-level walk, and `map_page`, proved to install
  the requested mapping while building missing tables from fresh frames. `map_page`
  works on `TableMemory`, a value that stands for the physical frames holding page
  tables; `app/` reads the tables of a walk from the hardware tables through the
  higher-half direct map into it before the call, and writes them back after.
- `gdt`, `idt` — descriptor and gate encodings, and the operands of `lgdt`/`lidt`.
- `pic`, `pit` — the exact port-write sequences that program the interrupt
  controllers and the timer.

`app/` is the boot path around the library: bootloader requests, port I/O and
privileged instructions, interrupt handlers and console output.

`tests/` exercises the library on concrete values.
