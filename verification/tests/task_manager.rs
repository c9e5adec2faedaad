use rcore_tasks::mm::{MemorySet, MAP_PERM_R, MAP_PERM_U, MAP_PERM_W};
use rcore_tasks::task::control_block::{TaskControlBlock, TaskStatus};
use rcore_tasks::task::switch::{add_switch_time, get_switch_time, switch_refresh_and_return, SwitchTime};
use rcore_tasks::task::{
    add_current_kernel_time, add_current_user_time, add_up_syscall, current_user_token,
    exit_current_and_run_next, get_syscall_times, refresh_and_return, run_first_task,
    suspend_current_and_run_next, Kernel, Schedule, TaskManager,
};

const HEAP_BOTTOM: u64 = 0x2_0000;

fn task(token: usize) -> TaskControlBlock {
    let mut ms = MemorySet::new();
    ms.map_range(0x10, 0x12, MAP_PERM_R | MAP_PERM_W | MAP_PERM_U);
    TaskControlBlock::new(ms, token, HEAP_BOTTOM)
}

fn kernel(n: usize) -> Kernel {
    let tasks: Vec<TaskControlBlock> = (0..n).map(|i| task(0x8000_0000_0000_0000 | i)).collect();
    Kernel::new(TaskManager::new(tasks))
}

#[test]
fn new_manager_starts_at_first_task() {
    let k = kernel(3);
    assert_eq!(k.task_manager.num_app, 3);
    assert_eq!(k.task_manager.current_task, 0);
    assert!(k.task_manager.tasks.iter().all(|t| t.task_status == TaskStatus::Ready));
}

#[test]
fn run_first_task_marks_task_zero_running() {
    let mut k = kernel(3);
    run_first_task(&mut k, 5, 70);
    assert_eq!(k.task_manager.tasks[0].task_status, TaskStatus::Running);
    assert_eq!(k.task_manager.tasks[1].task_status, TaskStatus::Ready);
    assert_eq!(k.tmp_time, 5);
    assert_eq!(k.switch_time.inner.stop_watch, 70);
}

#[test]
fn yield_switches_round_robin() {
    let mut k = kernel(3);
    run_first_task(&mut k, 0, 0);
    assert_eq!(suspend_current_and_run_next(&mut k, 10), Schedule::Switch { current: 0, next: 1 });
    assert_eq!(k.task_manager.current_task, 1);
    assert_eq!(k.task_manager.tasks[0].task_status, TaskStatus::Ready);
    assert_eq!(k.task_manager.tasks[0].kernel_time, 10);
    assert_eq!(k.task_manager.tasks[1].task_status, TaskStatus::Running);
    assert_eq!(suspend_current_and_run_next(&mut k, 15), Schedule::Switch { current: 1, next: 2 });
    assert_eq!(suspend_current_and_run_next(&mut k, 16), Schedule::Switch { current: 2, next: 0 });
    assert_eq!(k.task_manager.tasks[1].kernel_time, 5);
    assert_eq!(k.task_manager.tasks[2].kernel_time, 1);
}

#[test]
fn yield_with_one_task_resumes_it() {
    let mut k = kernel(1);
    run_first_task(&mut k, 0, 0);
    assert_eq!(suspend_current_and_run_next(&mut k, 3), Schedule::Switch { current: 0, next: 0 });
    assert_eq!(k.task_manager.tasks[0].task_status, TaskStatus::Running);
    assert_eq!(k.task_manager.tasks[0].kernel_time, 3);
}

#[test]
fn exit_skips_exited_tasks_and_completes() {
    let mut k = kernel(3);
    run_first_task(&mut k, 0, 0);
    assert_eq!(exit_current_and_run_next(&mut k, 1), Schedule::Switch { current: 0, next: 1 });
    assert_eq!(k.task_manager.tasks[0].task_status, TaskStatus::Exited);
    assert_eq!(suspend_current_and_run_next(&mut k, 2), Schedule::Switch { current: 1, next: 2 });
    assert_eq!(suspend_current_and_run_next(&mut k, 3), Schedule::Switch { current: 2, next: 1 });
    assert_eq!(exit_current_and_run_next(&mut k, 4), Schedule::Switch { current: 1, next: 2 });
    assert_eq!(exit_current_and_run_next(&mut k, 5), Schedule::AllCompleted);
    assert!(k.task_manager.tasks.iter().all(|t| t.task_status == TaskStatus::Exited));
    assert_eq!(k.task_manager.current_task, 2);
}

#[test]
fn find_next_task_wraps_around() {
    let mut tm = TaskManager::new(vec![task(1), task(2), task(3), task(4)]);
    tm.current_task = 2;
    tm.tasks[2].task_status = TaskStatus::Running;
    tm.tasks[3].task_status = TaskStatus::Exited;
    assert_eq!(tm.find_next_task(), Some(0));
    tm.tasks[0].task_status = TaskStatus::Exited;
    tm.tasks[1].task_status = TaskStatus::UnInit;
    assert_eq!(tm.find_next_task(), None);
    assert_eq!(tm.run_next_task(), Schedule::AllCompleted);
    assert_eq!(tm.current_task, 2);
}

#[test]
fn find_next_task_with_no_tasks() {
    let tm = TaskManager::new(Vec::new());
    assert_eq!(tm.find_next_task(), None);
}

#[test]
fn time_is_charged_to_current_task() {
    let mut k = kernel(2);
    run_first_task(&mut k, 100, 0);
    add_current_user_time(&mut k, 130);
    add_current_kernel_time(&mut k, 131);
    add_current_user_time(&mut k, 140);
    assert_eq!(k.task_manager.tasks[0].user_time, 39);
    assert_eq!(k.task_manager.tasks[0].kernel_time, 1);
    assert_eq!(k.task_manager.tasks[1].user_time, 0);
    assert_eq!(refresh_and_return(&mut k, 150), 10);
}

#[test]
fn syscall_counts_per_task() {
    let mut k = kernel(2);
    run_first_task(&mut k, 0, 0);
    assert_eq!(get_syscall_times(&k, 64), 0);
    add_up_syscall(&mut k, 64);
    add_up_syscall(&mut k, 64);
    add_up_syscall(&mut k, 169);
    assert_eq!(get_syscall_times(&k, 64), 2);
    assert_eq!(get_syscall_times(&k, 169), 1);
    assert_eq!(get_syscall_times(&k, 500), -1);
    add_up_syscall(&mut k, 600);
    assert_eq!(get_syscall_times(&k, 600), -1);
    suspend_current_and_run_next(&mut k, 1);
    assert_eq!(get_syscall_times(&k, 64), 0);
}

#[test]
fn current_token_follows_current_task() {
    let mut k = kernel(2);
    run_first_task(&mut k, 0, 0);
    assert_eq!(current_user_token(&k), 0x8000_0000_0000_0000);
    suspend_current_and_run_next(&mut k, 1);
    assert_eq!(current_user_token(&k), 0x8000_0000_0000_0001);
}

#[test]
fn switch_time_accumulates_measured_gaps() {
    let mut st = SwitchTime::new();
    assert_eq!(switch_refresh_and_return(&mut st, 100), 100);
    let gap = switch_refresh_and_return(&mut st, 130);
    assert_eq!(gap, 30);
    add_switch_time(&mut st, gap);
    add_switch_time(&mut st, 12);
    assert_eq!(get_switch_time(&st), 42);
    assert_eq!(st.inner.stop_watch, 130);
}
