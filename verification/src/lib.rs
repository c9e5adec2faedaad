//! A verified model of the task manager and the process-management system
//! calls of a small RISC-V teaching kernel: round-robin scheduling, per-task
//! time and system-call accounting, and the `mmap`/`munmap`/`sbrk`/`trace`/
//! `get_time` calls over a per-task user address space.
pub mod config;
pub mod mm;
pub mod task;
pub mod syscall;
