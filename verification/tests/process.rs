use rcore_tasks::mm::{MemorySet, VirtAddr, MAP_PERM_R, MAP_PERM_U, MAP_PERM_W, PTE_R, PTE_U, PTE_V, PTE_W, PTE_X};
use rcore_tasks::syscall::process::{
    sys_exit, sys_get_time, sys_mmap, sys_munmap, sys_sbrk, sys_trace, sys_yield, TimeVal,
};
use rcore_tasks::task::control_block::{TaskControlBlock, TaskStatus};
use rcore_tasks::task::{add_up_syscall, run_first_task, Kernel, Schedule, TaskManager};

const HEAP_BOTTOM: u64 = 0x2_0000;

fn kernel(n: usize) -> Kernel {
    let tasks: Vec<TaskControlBlock> = (0..n)
        .map(|i| {
            let mut ms = MemorySet::new();
            // one data page, user read/write, at 0x10000
            ms.map_range(0x10, 0x11, MAP_PERM_R | MAP_PERM_W | MAP_PERM_U);
            // one kernel-only page at 0x11000
            ms.map_range(0x11, 0x12, MAP_PERM_R | MAP_PERM_W);
            TaskControlBlock::new(ms, i, HEAP_BOTTOM)
        })
        .collect();
    let mut k = Kernel::new(TaskManager::new(tasks));
    run_first_task(&mut k, 0, 0);
    k
}

fn cur(k: &Kernel) -> &TaskControlBlock {
    &k.task_manager.tasks[k.task_manager.current_task]
}

#[test]
fn time_val_fields() {
    let tv = TimeVal { sec: 3, usec: 4 };
    assert_eq!(tv.sec, 3);
    assert_eq!(tv.usec, 4);
}

#[test]
fn get_time_writes_time_val() {
    let mut k = kernel(1);
    let time_us = 12_345_678usize;
    assert_eq!(sys_get_time(&mut k, 0x10100, 0, time_us), 0);
    let ms = &cur(&k).memory_set;
    let bytes: Vec<u8> = (0..16).map(|i| ms.read_byte(0x10100 + i)).collect();
    let mut expected = Vec::new();
    expected.extend_from_slice(&12usize.to_ne_bytes());
    expected.extend_from_slice(&345_678usize.to_ne_bytes());
    assert_eq!(bytes, expected);
    assert_eq!(ms.read_byte(0x100ff), 0);
    assert_eq!(ms.read_byte(0x10110), 0);
}

#[test]
fn get_time_across_a_page_boundary() {
    let mut k = kernel(1);
    // the buffer starts 8 bytes before the end of the first page
    assert_eq!(sys_get_time(&mut k, 0x10ff8, 0, 2_000_001), 0);
    let ms = &cur(&k).memory_set;
    let bytes: Vec<u8> = (0..16).map(|i| ms.read_byte(0x10ff8 + i)).collect();
    let mut expected = Vec::new();
    expected.extend_from_slice(&2usize.to_ne_bytes());
    expected.extend_from_slice(&1usize.to_ne_bytes());
    assert_eq!(bytes, expected);
}

#[test]
fn translated_buffer_splits_at_pages() {
    let k = kernel(1);
    let ms = &cur(&k).memory_set;
    assert_eq!(ms.translated_byte_buffer(0x10ff8, 16), vec![(0x10ff8, 8), (0x11000, 8)]);
    assert_eq!(ms.translated_byte_buffer(0x10100, 16), vec![(0x10100, 16)]);
    assert_eq!(ms.translated_byte_buffer(0x10100, 0), vec![]);
}

#[test]
fn trace_write_then_read() {
    let mut k = kernel(1);
    assert_eq!(sys_trace(&mut k, 1, 0x10010, 0x1ab), 0);
    assert_eq!(sys_trace(&mut k, 0, 0x10010, 0), 0xab);
    assert_eq!(sys_trace(&mut k, 0, 0x10011, 0), 0);
}

#[test]
fn trace_refuses_what_the_page_table_refuses() {
    let mut k = kernel(1);
    // unmapped page
    assert_eq!(sys_trace(&mut k, 0, 0x30000, 0), -1);
    // kernel-only page
    assert_eq!(sys_trace(&mut k, 0, 0x11000, 0), -1);
    assert_eq!(sys_trace(&mut k, 1, 0x11000, 7), -1);
    assert_eq!(cur(&k).memory_set.read_byte(0x11000), 0);
    // beyond the user range
    assert_eq!(sys_trace(&mut k, 0, 0x40_0000_0000, 0), -1);
    // unknown request
    assert_eq!(sys_trace(&mut k, 3, 0x10000, 0), -1);
}

#[test]
fn trace_refuses_write_to_read_only_page() {
    let mut k = kernel(1);
    assert_eq!(sys_mmap(&mut k, 0x40000, 4096, 1), 0);
    assert_eq!(sys_trace(&mut k, 1, 0x40000, 9), -1);
    assert_eq!(sys_trace(&mut k, 0, 0x40000, 0), 0);
}

#[test]
fn trace_counts_syscalls() {
    let mut k = kernel(1);
    add_up_syscall(&mut k, 410);
    add_up_syscall(&mut k, 410);
    assert_eq!(sys_trace(&mut k, 2, 410, 0), 2);
    assert_eq!(sys_trace(&mut k, 2, 93, 0), 0);
    assert_eq!(sys_trace(&mut k, 2, 500, 0), -1);
}

#[test]
fn mmap_maps_zeroed_pages_with_prot() {
    let mut k = kernel(1);
    assert_eq!(sys_mmap(&mut k, 0x50000, 0x1800, 3), 0);
    let ms = &cur(&k).memory_set;
    for vpn in [0x50u64, 0x51] {
        let pte = ms.translate(vpn).unwrap();
        assert_eq!(pte.flags, PTE_V | PTE_R | PTE_W | PTE_U);
        assert!(pte.is_valid() && pte.readable() && pte.writable() && !pte.executable());
    }
    assert!(ms.translate(0x52).is_none());
    assert_eq!(ms.read_byte(0x517ff), 0);
    assert_eq!(sys_trace(&mut k, 1, 0x51000, 5), 0);
    assert_eq!(sys_trace(&mut k, 0, 0x51000, 0), 5);
}

#[test]
fn mmap_exec_only() {
    let mut k = kernel(1);
    assert_eq!(sys_mmap(&mut k, 0x60000, 1, 4), 0);
    let pte = cur(&k).memory_set.translate(0x60).unwrap();
    assert_eq!(pte.flags, PTE_V | PTE_X | PTE_U);
    assert_eq!(sys_trace(&mut k, 0, 0x60000, 0), -1);
}

#[test]
fn mmap_rejects_bad_arguments() {
    let mut k = kernel(1);
    assert_eq!(sys_mmap(&mut k, 0x50800, 4096, 3), -1);
    assert_eq!(sys_mmap(&mut k, 0x50001, 4096, 3), -1);
    assert_eq!(sys_mmap(&mut k, 0x50000, 4096, 0), -1);
    assert_eq!(sys_mmap(&mut k, 0x50000, 4096, 8), -1);
    assert!(cur(&k).memory_set.translate(0x50).is_none());
}

#[test]
fn mmap_rejects_overlap() {
    let mut k = kernel(1);
    assert_eq!(sys_mmap(&mut k, 0x50000, 0x2000, 1), 0);
    assert_eq!(sys_mmap(&mut k, 0x51000, 0x2000, 1), -1);
    assert!(cur(&k).memory_set.translate(0x52).is_none());
    assert_eq!(sys_mmap(&mut k, 0x52000, 0x1000, 1), 0);
    // an area over the task's own data page
    assert_eq!(sys_mmap(&mut k, 0x10000, 0x1000, 1), -1);
}

#[test]
fn mmap_of_zero_length_maps_nothing() {
    let mut k = kernel(1);
    assert_eq!(sys_mmap(&mut k, 0x50000, 0, 3), 0);
    assert!(cur(&k).memory_set.translate(0x50).is_none());
}

#[test]
fn munmap_undoes_mmap() {
    let mut k = kernel(1);
    assert_eq!(sys_mmap(&mut k, 0x50000, 0x3000, 3), 0);
    assert_eq!(sys_munmap(&mut k, 0x50000, 0x3000), 0);
    for vpn in 0x50u64..0x53 {
        assert!(cur(&k).memory_set.translate(vpn).is_none());
    }
    assert_eq!(sys_mmap(&mut k, 0x50000, 0x3000, 3), 0);
}

#[test]
fn munmap_refuses_partly_unmapped_area() {
    let mut k = kernel(1);
    assert_eq!(sys_mmap(&mut k, 0x50000, 0x1000, 3), 0);
    assert_eq!(sys_munmap(&mut k, 0x50000, 0x2000), -1);
    assert!(cur(&k).memory_set.translate(0x50).is_some());
    assert_eq!(sys_munmap(&mut k, 0x50800, 0x800), -1);
    assert_eq!(sys_munmap(&mut k, 0x50001, 0x800), -1);
    assert!(cur(&k).memory_set.translate(0x50).is_some());
}

#[test]
fn sbrk_grows_and_shrinks_the_heap() {
    let mut k = kernel(1);
    assert_eq!(sys_sbrk(&mut k, 0), HEAP_BOTTOM as isize);
    assert_eq!(sys_sbrk(&mut k, 0x1800), HEAP_BOTTOM as isize);
    assert_eq!(cur(&k).program_brk, HEAP_BOTTOM + 0x1800);
    assert!(cur(&k).memory_set.translate(0x20).is_some());
    assert!(cur(&k).memory_set.translate(0x21).is_some());
    assert!(cur(&k).memory_set.translate(0x22).is_none());
    assert_eq!(sys_trace(&mut k, 1, 0x21000, 77), 0);
    assert_eq!(sys_sbrk(&mut k, -0x1000), (HEAP_BOTTOM + 0x1800) as isize);
    assert!(cur(&k).memory_set.translate(0x20).is_some());
    assert!(cur(&k).memory_set.translate(0x21).is_none());
    assert_eq!(sys_sbrk(&mut k, -0x800), (HEAP_BOTTOM + 0x800) as isize);
    assert!(cur(&k).memory_set.translate(0x20).is_none());
    assert_eq!(sys_sbrk(&mut k, 0), HEAP_BOTTOM as isize);
}

#[test]
fn sbrk_below_heap_bottom_is_refused() {
    let mut k = kernel(1);
    assert_eq!(sys_sbrk(&mut k, -1), -1);
    assert_eq!(cur(&k).program_brk, HEAP_BOTTOM);
}

#[test]
fn yield_returns_zero_and_switches() {
    let mut k = kernel(2);
    let (r, s) = sys_yield(&mut k, 4);
    assert_eq!(r, 0);
    assert_eq!(s, Schedule::Switch { current: 0, next: 1 });
    assert_eq!(k.task_manager.tasks[0].task_status, TaskStatus::Ready);
}

#[test]
fn exit_until_all_completed() {
    let mut k = kernel(2);
    assert_eq!(sys_exit(&mut k, 0, 1), Schedule::Switch { current: 0, next: 1 });
    assert_eq!(sys_exit(&mut k, -1, 2), Schedule::AllCompleted);
}

#[test]
fn virt_addr_helpers() {
    let a = VirtAddr::from_u64(0x80_0000_1234);
    assert_eq!(a.0, 0x1234);
    assert_eq!(a.floor(), 1);
    assert_eq!(a.ceil(), 2);
    assert_eq!(a.page_offset(), 0x234);
    assert_eq!(VirtAddr(0).ceil(), 0);
    assert_eq!(VirtAddr(0x2000).ceil(), 2);
}

#[test]
fn syscalls_only_touch_the_current_task() {
    let mut k = kernel(2);
    assert_eq!(sys_mmap(&mut k, 0x50000, 0x1000, 3), 0);
    assert!(k.task_manager.tasks[1].memory_set.translate(0x50).is_none());
    sys_yield(&mut k, 1);
    assert_eq!(sys_mmap(&mut k, 0x50000, 0x1000, 3), 0);
}

#[test]
fn munmap_refuses_pages_the_program_did_not_map() {
    let mut k = kernel(1);
    // the task's own data page, set up with the task
    assert_eq!(sys_munmap(&mut k, 0x10000, 0x1000), -1);
    assert!(cur(&k).memory_set.translate(0x10).is_some());
    // a kernel-only page
    assert_eq!(sys_munmap(&mut k, 0x11000, 0x1000), -1);
    assert!(cur(&k).memory_set.translate(0x11).is_some());
    // a heap page
    assert_eq!(sys_sbrk(&mut k, 0x1000), HEAP_BOTTOM as isize);
    assert_eq!(sys_munmap(&mut k, HEAP_BOTTOM as usize, 0x1000), -1);
    assert!(cur(&k).memory_set.translate(HEAP_BOTTOM / 4096).is_some());
    // an area that is part mmapped, part the task's own
    assert_eq!(sys_mmap(&mut k, 0xf000, 0x1000, 3), 0);
    assert_eq!(sys_munmap(&mut k, 0xf000, 0x2000), -1);
    assert!(cur(&k).memory_set.translate(0xf).is_some());
    assert_eq!(sys_munmap(&mut k, 0xf000, 0x1000), 0);
}

#[test]
fn munmap_twice_is_refused() {
    let mut k = kernel(1);
    assert_eq!(sys_mmap(&mut k, 0x50000, 0x2000, 3), 0);
    assert_eq!(sys_munmap(&mut k, 0x50000, 0x2000), 0);
    assert_eq!(sys_munmap(&mut k, 0x50000, 0x2000), -1);
}

#[test]
fn trace_after_munmap_is_refused() {
    let mut k = kernel(1);
    assert_eq!(sys_mmap(&mut k, 0x50000, 0x2000, 3), 0);
    assert_eq!(sys_trace(&mut k, 1, 0x51000, 7), 0);
    assert_eq!(sys_munmap(&mut k, 0x50000, 0x2000), 0);
    assert_eq!(sys_trace(&mut k, 0, 0x51000, 0), -1);
    assert_eq!(sys_trace(&mut k, 1, 0x51000, 7), -1);
    assert_eq!(sys_mmap(&mut k, 0x50000, 0x2000, 3), 0);
    assert_eq!(sys_trace(&mut k, 0, 0x51000, 0), 0);
}

#[test]
fn mmap_overlapping_area_is_refused() {
    let mut k = kernel(1);
    assert_eq!(sys_mmap(&mut k, 0x50000, 0x3000, 1), 0);
    assert_eq!(sys_mmap(&mut k, 0x4f000, 0x2000, 7), -1);
    assert_eq!(sys_mmap(&mut k, 0x52000, 0x1, 2), -1);
    assert!(cur(&k).memory_set.translate(0x4f).is_none());
}

#[test]
fn mmap_end_wraps_around() {
    let mut k = kernel(1);
    let start: usize = 1 << 63;
    let len: usize = (1 << 63) + 0x1000;
    // start + len wraps to 0x1000; both ends reduce to SV39 pages 0..1
    assert_eq!(sys_mmap(&mut k, start, len, 1), 0);
    assert!(cur(&k).memory_set.translate(0).is_some());
    assert!(cur(&k).memory_set.translate(1).is_none());
    assert_eq!(sys_munmap(&mut k, start, len), 0);
    assert!(cur(&k).memory_set.translate(0).is_none());
}
