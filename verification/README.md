# safa_core

The logic of the SafaOS kernel, its build helper and its userspace programs,
written in Verus with its behaviour stated in contracts and proved.

- `src/` is the verified library. Kernel side: `addr` (virtual and physical
  addresses), `paging` (page-table copy plans and pending unmaps), `page_table`
  (which page maps which frame, and the mapping steps), `vmm` (the region
  manager of an address space), `address_space` (regions and their page
  table together), `buddy` (the heap allocator), `process_mem`, `threads`,
  `thread`, `scheduler`, `wait_queue`, `process`, `percpu`, `timer`, `vtty`
  (virtual terminals and their line discipline), `net`, `udp`, `arp`,
  `sockets`, `table` (handle and ID tables), `elf`, `decimal`, `errors`.
  Build helper: `toolchain` (target names, cargo messages, release assets)
  and `digest`. Userspace: `dhcp` (the DHCP client's packets),
  `calculator` (the keypad's line of tokens), `terminal` (the terminal
  emulator's screen), `dock` (the desktop's task buttons) and `journal`
  (the journal viewer's choice of lines).
- `tests/` runs the library on concrete values.
- `app/` is the command-line front end: sockets, files, processes, JSON,
  random numbers, the escape-sequence parser and floating-point evaluation.

Laws that span several operations are public proof functions named `law_*`.
