use rcore_tasks::mm::{MemorySet, VirtAddr, MAP_PERM_R, MAP_PERM_U, MAP_PERM_W, PTE_V};
use rcore_tasks::task::control_block::TaskControlBlock;
use rcore_tasks::task::{change_program_brk, insert_framed_area, run_first_task, unmap_framed_area, Kernel, TaskManager};

fn kernel() -> Kernel {
    let ms = MemorySet::new();
    let mut k = Kernel::new(TaskManager::new(vec![TaskControlBlock::new(ms, 7, 0x3_0000)]));
    run_first_task(&mut k, 0, 0);
    k
}

#[test]
fn map_and_unmap_ranges() {
    let mut ms = MemorySet::new();
    assert!(ms.range_is_unmapped(0, 10));
    ms.map_range(2, 5, MAP_PERM_R);
    assert_eq!(ms.translate(2).unwrap().flags, MAP_PERM_R | PTE_V);
    assert!(ms.range_is_mapped(2, 5));
    assert!(!ms.range_is_mapped(2, 6));
    assert!(!ms.range_is_unmapped(4, 8));
    assert!(ms.range_is_unmapped(5, 8));
    assert!(!ms.unmap_range(1, 3));
    assert!(ms.translate(2).is_some());
    assert!(ms.unmap_range(2, 4));
    assert!(ms.translate(3).is_none());
    assert!(ms.translate(4).is_some());
}

#[test]
fn bytes_mapped_check() {
    let mut ms = MemorySet::new();
    ms.map_range(1, 2, MAP_PERM_R);
    assert!(ms.bytes_are_mapped(0x1ff0, 16));
    assert!(!ms.bytes_are_mapped(0x1ff8, 16));
    assert!(ms.bytes_are_mapped(0x5000, 0));
}

#[test]
fn write_and_read_bytes() {
    let mut ms = MemorySet::new();
    ms.map_range(1, 2, MAP_PERM_R | MAP_PERM_W);
    ms.write_byte(0x1abc, 42);
    assert_eq!(ms.read_byte(0x1abc), 42);
    assert_eq!(ms.read_byte(0x1abd), 0);
}

#[test]
fn framed_areas_of_the_current_task() {
    let mut k = kernel();
    insert_framed_area(&mut k, VirtAddr(0x4000), VirtAddr(0x5001), MAP_PERM_R | MAP_PERM_U);
    let ms = &k.task_manager.tasks[0].memory_set;
    assert!(ms.translate(4).is_some() && ms.translate(5).is_some() && ms.translate(6).is_none());
    assert!(!unmap_framed_area(&mut k, VirtAddr(0x4000), VirtAddr(0x7000)));
    assert!(unmap_framed_area(&mut k, VirtAddr(0x4000), VirtAddr(0x6000)));
    assert!(k.task_manager.tasks[0].memory_set.translate(4).is_none());
}

#[test]
fn program_break_of_the_current_task() {
    let mut k = kernel();
    let t = &k.task_manager.tasks[0];
    assert!(t.can_change_program_brk(100));
    assert!(t.can_change_program_brk(-1));
    assert_eq!(change_program_brk(&mut k, 100), Some(0x3_0000));
    assert_eq!(k.task_manager.tasks[0].program_brk, 0x3_0064);
    let flags = k.task_manager.tasks[0].memory_set.translate(0x30).unwrap().flags;
    assert_eq!(flags, MAP_PERM_R | MAP_PERM_W | MAP_PERM_U | PTE_V);
    assert_eq!(change_program_brk(&mut k, -200), None);
    assert_eq!(change_program_brk(&mut k, -100), Some(0x3_0064));
    assert!(k.task_manager.tasks[0].memory_set.translate(0x30).is_none());
}

#[test]
fn program_break_that_would_overwrite_a_mapping_is_not_sound() {
    let mut k = kernel();
    insert_framed_area(&mut k, VirtAddr(0x3_1000), VirtAddr(0x3_2000), MAP_PERM_R | MAP_PERM_U);
    let t = &k.task_manager.tasks[0];
    assert!(t.can_change_program_brk(0x1000));
    assert!(!t.can_change_program_brk(0x1001));
}

#[test]
fn app_ranges_are_told_apart() {
    let mut ms = MemorySet::new();
    ms.map_range(1, 3, MAP_PERM_R);
    ms.map_app_range(3, 5, MAP_PERM_R | MAP_PERM_U);
    assert!(!ms.unmap_app_range(2, 4));
    assert!(ms.translate(2).is_some() && ms.translate(3).is_some());
    assert!(ms.unmap_app_range(3, 5));
    assert!(ms.translate(3).is_none() && ms.translate(4).is_none());
    assert!(!ms.unmap_app_range(3, 4));
    assert!(ms.unmap_app_range(3, 3));
}
