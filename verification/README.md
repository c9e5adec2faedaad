# rcore_tasks

A verified model of the task manager and the process-management system
calls of a small RISC-V (SV39) teaching kernel.

- `src/config.rs`: page size, SV39 limits, system-call and user-address bounds.
- `src/mm.rs`: virtual addresses, page-table flags, and `MemorySet`, a task's
  user address space (mapped pages, their flags and bytes, and which pages
  the program mapped itself through `mmap`), with range mapping/unmapping,
  byte access and the per-page cutting of user buffers.
- `src/task/`: task control blocks (status, times, system-call counts,
  program break, address space), the round-robin `TaskManager`, the
  `Kernel` state, switch-time accounting, and their laws.
- `src/syscall/process.rs`: `exit`, `yield`, `get_time`, `trace`, `mmap`,
  `munmap`, `sbrk`, and their laws.
- `app/lib.rs`: the global kernel state, the clock and the context switch
  around the library.

Every function in `src/` is verified with Verus except one trusted wrapper,
`u64_to_ne_bytes`, whose body calls `u64::to_ne_bytes` and whose contract
states the machine's byte order through vstd's `endianness()`. `tests/`
runs the library.
