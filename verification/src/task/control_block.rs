//! The per-task state: scheduling status, accounting, program break and the
//! task's user address space.
use vstd::prelude::*;
use std::collections::BTreeMap;
use crate::config::{VA_LIMIT, VPN_LIMIT};
use crate::mm::{
    MemorySet, VirtAddr, page_floor, page_ceil, range_mapped, range_unmapped,
    range_all_mapped, range_none_mapped, MAP_PERM_R, MAP_PERM_W, MAP_PERM_U, PTE_V,
    lemma_page_ceil_monotonic, lemma_page_ceil_bound, page_range, area_inserted, area_removed,
};

verus! {

/// The scheduling status of a task.
#[derive(Clone, Copy, Debug, PartialEq, Eq, Structural)]
pub enum TaskStatus {
    UnInit,
    Ready,
    Running,
    Exited,
}

/// The permission with which heap pages are mapped: readable, writable,
/// user-accessible.
pub open spec fn heap_perm() -> u8 {
    MAP_PERM_R | MAP_PERM_W | MAP_PERM_U
}

/// Everything the kernel keeps about one task.
pub struct TaskControlBlock {
    /// Scheduling status.
    pub task_status: TaskStatus,
    /// The task's user address space.
    pub memory_set: MemorySet,
    /// The value that selects the task's page table (`satp`).
    pub token: usize,
    /// Lowest address of the heap.
    pub heap_bottom: u64,
    /// Current end of the heap.
    pub program_brk: u64,
    /// Time spent in user mode, in milliseconds.
    pub user_time: usize,
    /// Time spent in the kernel, in milliseconds.
    pub kernel_time: usize,
    /// How many times each system call was made.
    pub calls: BTreeMap<usize, usize>,
}

/// How many times system call `id` was counted in `calls`.
pub open spec fn count_of(calls: Map<usize, usize>, id: usize) -> nat {
    if calls.contains_key(id) {
        calls[id] as nat
    } else {
        0
    }
}

/// The program break after adding `size` to `brk`.
pub open spec fn moved_brk(brk: u64, size: i32) -> int {
    brk as int + size as int
}

/// `after` and `r` are what moving the break of `before` by `size` gives.
pub open spec fn brk_changed(
    before: TaskControlBlock,
    after: TaskControlBlock,
    size: i32,
    r: Option<u64>,
) -> bool {
    &&& after.task_status == before.task_status
    &&& after.token == before.token
    &&& after.heap_bottom == before.heap_bottom
    &&& after.user_time == before.user_time
    &&& after.kernel_time == before.kernel_time
    &&& after.calls@ == before.calls@
    &&& moved_brk(before.program_brk, size) < before.heap_bottom ==> {
        &&& r is None
        &&& after.program_brk == before.program_brk
        &&& after.memory_set@ == before.memory_set@
        &&& after.memory_set.app_pages() == before.memory_set.app_pages()
    }
    &&& moved_brk(before.program_brk, size) >= before.heap_bottom ==> {
        &&& r == Some(before.program_brk)
        &&& after.program_brk == moved_brk(before.program_brk, size)
        &&& after.memory_set@ == (if size < 0 {
            range_unmapped(
                before.memory_set@,
                page_ceil(moved_brk(before.program_brk, size) as nat),
                page_ceil(before.program_brk as nat),
            )
        } else {
            range_mapped(
                before.memory_set@,
                page_ceil(before.program_brk as nat),
                page_ceil(moved_brk(before.program_brk, size) as nat),
                heap_perm() | PTE_V,
            )
        })
        &&& after.memory_set.app_pages() == (if size < 0 {
            before.memory_set.app_pages().difference(
                page_range(
                    page_ceil(moved_brk(before.program_brk, size) as nat),
                    page_ceil(before.program_brk as nat),
                ),
            )
        } else {
            before.memory_set.app_pages()
        })
    }
}

impl TaskControlBlock {
    /// Well-formedness: the address space is well formed and the heap lies
    /// inside the SV39 range, above its bottom.
    pub open spec fn wf(&self) -> bool {
        &&& self.memory_set.wf()
        &&& self.heap_bottom <= self.program_brk <= VA_LIMIT
    }

    /// How many times system call `id` was counted.
    pub open spec fn syscall_count(&self, id: usize) -> nat {
        count_of(self.calls@, id)
    }

    /// A task created `Ready` over the address space `memory_set`, with
    /// nothing counted and an empty heap that starts at `heap_bottom`.
    pub fn new(memory_set: MemorySet, token: usize, heap_bottom: u64) -> (r: Self)
        requires
            memory_set.wf(),
            heap_bottom <= VA_LIMIT,
        ensures
            r.wf(),
            r.task_status == TaskStatus::Ready,
            r.memory_set@ == memory_set@,
            r.memory_set.app_pages() == memory_set.app_pages(),
            r.token == token,
            r.heap_bottom == heap_bottom,
            r.program_brk == heap_bottom,
            r.user_time == 0,
            r.kernel_time == 0,
            r.calls@ == Map::<usize, usize>::empty(),
    {
        TaskControlBlock {
            task_status: TaskStatus::Ready,
            memory_set,
            token,
            heap_bottom,
            program_brk: heap_bottom,
            user_time: 0,
            kernel_time: 0,
            calls: BTreeMap::new(),
        }
    }

    /// The token of the task's page table.
    pub fn get_user_token(&self) -> (r: usize)
        ensures
            r == self.token,
    {
        self.token
    }

    /// Whether moving the program break by `size` keeps to what the heap
    /// area allows: growing maps only unmapped pages inside the SV39 range,
    /// shrinking unmaps only mapped pages. A move below the heap bottom is
    /// refused and is always allowed to be asked for.
    pub open spec fn brk_change_is_sound(&self, size: i32) -> bool {
        let new = moved_brk(self.program_brk, size);
        ||| new < self.heap_bottom
        ||| size < 0 && range_all_mapped(
            self.memory_set@,
            page_ceil(new as nat),
            page_ceil(self.program_brk as nat),
        )
        ||| size >= 0 && page_ceil(new as nat) <= VPN_LIMIT && range_none_mapped(
            self.memory_set@,
            page_ceil(self.program_brk as nat),
            page_ceil(new as nat),
        )
    }

    /// Moves the program break by `size` bytes. Returns the old break, or
    /// `None` when the new break would fall below the heap bottom (and
    /// then nothing changes). Growing maps the new heap pages, shrinking
    /// unmaps the pages that fall off the heap.
    pub fn change_program_brk(&mut self, size: i32) -> (r: Option<u64>)
        requires
            old(self).wf(),
            old(self).brk_change_is_sound(size),
        ensures
            final(self).wf(),
            brk_changed(*old(self), *final(self), size, r),
    {
        let old_break = self.program_brk;
        let new_brk: i64 = self.program_brk as i64 + size as i64;
        if new_brk < self.heap_bottom as i64 {
            return None;
        }
        let new_end: u64 = new_brk as u64;
        let old_end_page = VirtAddr(old_break).ceil();
        let new_end_page = VirtAddr(new_end).ceil();
        if size < 0 {
            proof {
                lemma_page_ceil_monotonic(new_end as nat, old_break as nat);
            }
            let done = self.memory_set.unmap_range(new_end_page, old_end_page);
            assert(done);
        } else {
            proof {
                lemma_page_ceil_monotonic(old_break as nat, new_end as nat);
                lemma_page_ceil_bound(new_end as nat);
            }
            self.memory_set.map_range(old_end_page, new_end_page, MAP_PERM_R | MAP_PERM_W | MAP_PERM_U);
        }
        self.program_brk = new_end;
        Some(old_break)
    }

    /// Maps the pages from the one holding `start_va` up to the one that
    /// starts at or above `end_va` onto fresh frames with `permission`.
    pub fn insert_framed_area(&mut self, start_va: VirtAddr, end_va: VirtAddr, permission: u8)
        requires
            old(self).wf(),
            page_floor(start_va.0 as nat) <= page_ceil(end_va.0 as nat) <= VPN_LIMIT,
            range_none_mapped(
                old(self).memory_set@,
                page_floor(start_va.0 as nat),
                page_ceil(end_va.0 as nat),
            ),
        ensures
            final(self).wf(),
            area_inserted(
                old(self).memory_set,
                final(self).memory_set,
                page_floor(start_va.0 as nat),
                page_ceil(end_va.0 as nat),
                permission | PTE_V,
            ),
            final(self).same_but_memory(*old(self)),
    {
        let start = start_va.floor();
        let end = end_va.ceil();
        self.memory_set.map_app_range(start, end, permission);
    }

    /// Unmaps the pages from the one holding `start_va` up to the one that
    /// starts at or above `end_va`, if the program mapped every one of them
    /// itself (areas the kernel set up are refused); reports whether it did.
    pub fn unmap_framed_area(&mut self, start_va: VirtAddr, end_va: VirtAddr) -> (r: bool)
        requires
            old(self).wf(),
            page_floor(start_va.0 as nat) <= page_ceil(end_va.0 as nat),
        ensures
            final(self).wf(),
            area_removed(
                old(self).memory_set,
                final(self).memory_set,
                page_floor(start_va.0 as nat),
                page_ceil(end_va.0 as nat),
                r,
            ),
            final(self).same_but_memory(*old(self)),
    {
        let start = start_va.floor();
        let end = end_va.ceil();
        self.memory_set.unmap_app_range(start, end)
    }

    /// Every field but the status is the same in `self` and `other`.
    pub open spec fn same_but_status(&self, other: Self) -> bool {
        &&& self.same_but_status_and_times(other)
        &&& self.user_time == other.user_time
        &&& self.kernel_time == other.kernel_time
    }

    /// Every field but the status and the two time counters is the same in
    /// `self` and `other`.
    pub open spec fn same_but_status_and_times(&self, other: Self) -> bool {
        &&& self.memory_set@ == other.memory_set@
        &&& self.memory_set.app_pages() == other.memory_set.app_pages()
        &&& self.token == other.token
        &&& self.heap_bottom == other.heap_bottom
        &&& self.program_brk == other.program_brk
        &&& self.calls@ == other.calls@
    }

    /// Every field but the system-call counts is the same in `self` and `other`.
    pub open spec fn same_but_calls(&self, other: Self) -> bool {
        &&& self.task_status == other.task_status
        &&& self.memory_set@ == other.memory_set@
        &&& self.memory_set.app_pages() == other.memory_set.app_pages()
        &&& self.token == other.token
        &&& self.heap_bottom == other.heap_bottom
        &&& self.program_brk == other.program_brk
        &&& self.user_time == other.user_time
        &&& self.kernel_time == other.kernel_time
    }

    /// Every field but the address space is the same in `self` and `other`.
    pub open spec fn same_but_memory(&self, other: Self) -> bool {
        &&& self.task_status == other.task_status
        &&& self.token == other.token
        &&& self.heap_bottom == other.heap_bottom
        &&& self.program_brk == other.program_brk
        &&& self.user_time == other.user_time
        &&& self.kernel_time == other.kernel_time
        &&& self.calls@ == other.calls@
    }
    /// Whether moving the program break by `size` is sound, in the sense
    /// of `brk_change_is_sound`.
    pub fn can_change_program_brk(&self, size: i32) -> (r: bool)
        requires
            self.wf(),
        ensures
            r == self.brk_change_is_sound(size),
    {
        let new_brk: i64 = self.program_brk as i64 + size as i64;
        if new_brk < self.heap_bottom as i64 {
            return true;
        }
        let new_end: u64 = new_brk as u64;
        let old_end_page = VirtAddr(self.program_brk).ceil();
        let new_end_page = VirtAddr(new_end).ceil();
        if size < 0 {
            self.memory_set.range_is_mapped(new_end_page, old_end_page)
        } else {
            new_end_page <= VPN_LIMIT && self.memory_set.range_is_unmapped(old_end_page, new_end_page)
        }
    }
}

} // verus!
