//! Task management: the task list, round-robin scheduling, and per-task
//! accounting of time and system calls.
//!
//! `TaskManager` holds the tasks and the index of the running one. `Kernel`
//! bundles it with the clock readings that the kernel keeps between calls.
//! Switching machine contexts is left to the caller: the functions that
//! schedule return a `Schedule` saying which switch to perform.
pub mod control_block;
pub mod switch;

use vstd::prelude::*;
use crate::config::{MAX_SYSCALL_NUM, VPN_LIMIT};
use crate::mm::{
    VirtAddr, page_floor, page_ceil, range_none_mapped, PTE_V, area_inserted, area_removed,
};
use crate::task::control_block::{TaskControlBlock, TaskStatus, brk_changed};
use crate::task::switch::SwitchTime;

verus! {

/// What the caller has to do after a scheduling decision.
#[derive(Clone, Copy, Debug, PartialEq, Eq, Structural)]
pub enum Schedule {
    /// Save the context of task `current` and resume task `next`.
    Switch { current: usize, next: usize },
    /// No task is ready: every application has completed.
    AllCompleted,
}

/// The task `k` places after `cur` in round-robin order over `n` tasks.
pub open spec fn slot_after(cur: int, k: int, n: int) -> int {
    (cur + k) % n
}

/// All tasks and the index of the current one.
pub struct TaskManager {
    /// Total number of tasks.
    pub num_app: usize,
    /// The task list.
    pub tasks: Vec<TaskControlBlock>,
    /// Index of the current task.
    pub current_task: usize,
}

impl TaskManager {
    /// Well-formedness: one control block per task, the current index in
    /// range when there are tasks, every task well formed.
    pub open spec fn wf(&self) -> bool {
        &&& self.tasks.len() == self.num_app
        &&& (self.num_app > 0 ==> self.current_task < self.num_app)
        &&& (self.num_app == 0 ==> self.current_task == 0)
        &&& forall|i: int| 0 <= i < self.tasks.len() ==> (#[trigger] self.tasks[i]).wf()
    }

    /// Whether task `i` is ready to run.
    pub open spec fn is_ready(&self, i: int) -> bool {
        self.tasks[i].task_status == TaskStatus::Ready
    }

    /// `id` is the first ready task after the current one in round-robin
    /// order (the current task itself coming last).
    pub open spec fn is_next_ready(&self, id: int) -> bool {
        exists|k: int|
            1 <= k <= self.num_app && id == slot_after(self.current_task as int, k, self.num_app as int)
                && self.is_ready(id) && forall|j: int|
                1 <= j < k ==> !#[trigger] self.is_ready(
                    slot_after(self.current_task as int, j, self.num_app as int),
                )
    }

    /// No task is ready.
    pub open spec fn none_ready(&self) -> bool {
        forall|i: int| 0 <= i < self.num_app ==> !#[trigger] self.is_ready(i)
    }

    /// No task other than the current one is running.
    pub open spec fn running_only_current(&self) -> bool {
        forall|i: int|
            0 <= i < self.tasks.len() && i != self.current_task ==> (#[trigger] self.tasks[i]).task_status
                != TaskStatus::Running
    }

    /// `self` differs from `old` at most in the status of task `i`.
    pub open spec fn same_but_status_of(&self, old: Self, i: int) -> bool {
        &&& self.num_app == old.num_app
        &&& self.tasks.len() == old.tasks.len()
        &&& forall|j: int| 0 <= j < self.tasks.len() && j != i ==> #[trigger] self.tasks[j] == old.tasks[j]
        &&& self.tasks[i].same_but_status(old.tasks[i])
    }

    /// `self` differs from `old` at most in the current task's control block.
    pub open spec fn same_but_current(&self, old: Self) -> bool {
        &&& self.num_app == old.num_app
        &&& self.current_task == old.current_task
        &&& self.tasks.len() == old.tasks.len()
        &&& forall|j: int|
            0 <= j < self.tasks.len() && j != self.current_task ==> #[trigger] self.tasks[j]
                == old.tasks[j]
    }

    /// The current task's control block.
    pub open spec fn cur(&self) -> TaskControlBlock {
        self.tasks[self.current_task as int]
    }

    /// A manager over `tasks`, with the first task current.
    pub fn new(tasks: Vec<TaskControlBlock>) -> (r: Self)
        requires
            forall|i: int| 0 <= i < tasks.len() ==> (#[trigger] tasks[i]).wf(),
        ensures
            r.wf(),
            r.num_app == tasks.len(),
            r.tasks@ == tasks@,
            r.current_task == 0,
    {
        let num_app = tasks.len();
        TaskManager { num_app, tasks, current_task: 0 }
    }

    /// Marks the first task running.
    pub fn run_first_task(&mut self)
        requires
            old(self).wf(),
            old(self).num_app > 0,
        ensures
            final(self).wf(),
            final(self).current_task == old(self).current_task,
            final(self).tasks[0].task_status == TaskStatus::Running,
            final(self).same_but_status_of(*old(self), 0),
    {
        self.tasks[0].task_status = TaskStatus::Running;
    }

    /// Marks the current task ready and charges it `gap` of kernel time.
    pub fn mark_current_suspended(&mut self, gap: usize)
        requires
            old(self).wf(),
            old(self).num_app > 0,
            old(self).cur().kernel_time + gap <= usize::MAX,
        ensures
            final(self).wf(),
            final(self).same_but_current(*old(self)),
            final(self).cur().task_status == TaskStatus::Ready,
            final(self).cur().kernel_time == old(self).cur().kernel_time + gap,
            final(self).cur().same_but_status_and_times(old(self).cur()),
            final(self).cur().user_time == old(self).cur().user_time,
    {
        let cur = self.current_task;
        self.tasks[cur].task_status = TaskStatus::Ready;
        self.tasks[cur].kernel_time += gap;
    }

    /// Marks the current task exited and charges it `gap` of kernel time.
    pub fn mark_current_exited(&mut self, gap: usize)
        requires
            old(self).wf(),
            old(self).num_app > 0,
            old(self).cur().kernel_time + gap <= usize::MAX,
        ensures
            final(self).wf(),
            final(self).same_but_current(*old(self)),
            final(self).cur().task_status == TaskStatus::Exited,
            final(self).cur().kernel_time == old(self).cur().kernel_time + gap,
            final(self).cur().same_but_status_and_times(old(self).cur()),
            final(self).cur().user_time == old(self).cur().user_time,
    {
        let cur = self.current_task;
        self.tasks[cur].task_status = TaskStatus::Exited;
        self.tasks[cur].kernel_time += gap;
    }

    /// The first ready task after the current one in round-robin order,
    /// the current task itself coming last; `None` when no task is ready.
    pub fn find_next_task(&self) -> (r: Option<usize>)
        requires
            self.wf(),
        ensures
            match r {
                Some(id) => id < self.num_app && self.is_next_ready(id as int),
                None => self.none_ready(),
            },
    {
        let n = self.num_app;
        let cur = self.current_task;
        let mut i: usize = 0;
        while i < n
            invariant
                self.wf(),
                n == self.num_app,
                cur == self.current_task,
                0 <= i <= n,
                forall|j: int| 1 <= j <= i ==> !#[trigger] self.is_ready(slot_after(cur as int, j, n as int)),
            decreases n - i,
        {
            let k = i + 1;
            let id = if k < n - cur {
                cur + k
            } else {
                k - (n - cur)
            };
            assert(id == slot_after(cur as int, k as int, n as int)) by {
                if k < n - cur {
                    vstd::arithmetic::div_mod::lemma_small_mod((cur + k) as nat, n as nat);
                } else {
                    vstd::arithmetic::div_mod::lemma_small_mod((cur + k - n) as nat, n as nat);
                    vstd::arithmetic::div_mod::lemma_mod_sub_multiples_vanish((cur + k) as int, n as int);
                }
            }
            if self.tasks[id].task_status == TaskStatus::Ready {
                assert(self.is_next_ready(id as int));
                return Some(id);
            }
            i = k;
        }
        assert forall|t: int| 0 <= t < n implies !#[trigger] self.is_ready(t) by {
            let k = if t > cur { t - cur } else { t + n - cur };
            assert(1 <= k <= n);
            if t > cur {
                vstd::arithmetic::div_mod::lemma_small_mod(t as nat, n as nat);
            } else {
                vstd::arithmetic::div_mod::lemma_small_mod(t as nat, n as nat);
                vstd::arithmetic::div_mod::lemma_mod_add_multiples_vanish(t, n as int);
            }
            assert(slot_after(cur as int, k, n as int) == t);
            assert(!self.is_ready(slot_after(cur as int, k, n as int)));
        }
        None
    }

    /// Switches to the next ready task: marks it running and makes it
    /// current. When no task is ready, nothing changes and every
    /// application has completed.
    pub fn run_next_task(&mut self) -> (r: Schedule)
        requires
            old(self).wf(),
        ensures
            final(self).wf(),
            match r {
                Schedule::Switch { current, next } => {
                    &&& current == old(self).current_task
                    &&& next < old(self).num_app
                    &&& old(self).is_next_ready(next as int)
                    &&& final(self).current_task == next
                    &&& final(self).tasks[next as int].task_status == TaskStatus::Running
                    &&& final(self).same_but_status_of(*old(self), next as int)
                },
                Schedule::AllCompleted => {
                    &&& old(self).none_ready()
                    &&& *final(self) == *old(self)
                },
            },
    {
        match self.find_next_task() {
            Some(next) => {
                let current = self.current_task;
                self.tasks[next].task_status = TaskStatus::Running;
                self.current_task = next;
                Schedule::Switch { current, next }
            },
            None => Schedule::AllCompleted,
        }
    }

    /// The page-table token of the current task.
    pub fn get_current_token(&self) -> (r: usize)
        requires
            self.wf(),
            self.num_app > 0,
        ensures
            r == self.cur().token,
    {
        self.tasks[self.current_task].get_user_token()
    }

    /// Maps a framed area into the current task's address space.
    pub fn insert_framed_area(&mut self, start_va: VirtAddr, end_va: VirtAddr, permission: u8)
        requires
            old(self).wf(),
            old(self).num_app > 0,
            page_floor(start_va.0 as nat) <= page_ceil(end_va.0 as nat) <= VPN_LIMIT,
            range_none_mapped(
                old(self).cur().memory_set@,
                page_floor(start_va.0 as nat),
                page_ceil(end_va.0 as nat),
            ),
        ensures
            final(self).wf(),
            final(self).same_but_current(*old(self)),
            final(self).cur().same_but_memory(old(self).cur()),
            area_inserted(
            old(self).cur().memory_set,
            final(self).cur().memory_set,
            page_floor(start_va.0 as nat),
            page_ceil(end_va.0 as nat),
            permission | PTE_V,
        ),
    {
        let current_task = self.current_task;
        self.tasks[current_task].insert_framed_area(start_va, end_va, permission);
    }

    /// Unmaps a framed area from the current task's address space if the
    /// task mapped all of it itself; reports whether it did.
    pub fn unmap_framed_area(&mut self, start_va: VirtAddr, end_va: VirtAddr) -> (r: bool)
        requires
            old(self).wf(),
            old(self).num_app > 0,
            page_floor(start_va.0 as nat) <= page_ceil(end_va.0 as nat),
        ensures
            final(self).wf(),
            final(self).same_but_current(*old(self)),
            final(self).cur().same_but_memory(old(self).cur()),
            area_removed(
            old(self).cur().memory_set,
            final(self).cur().memory_set,
            page_floor(start_va.0 as nat),
            page_ceil(end_va.0 as nat),
            r,
        ),
    {
        let current_task = self.current_task;
        self.tasks[current_task].unmap_framed_area(start_va, end_va)
    }

    /// Moves the current task's program break by `size`; see
    /// `TaskControlBlock::change_program_brk`.
    pub fn change_current_program_brk(&mut self, size: i32) -> (r: Option<u64>)
        requires
            old(self).wf(),
            old(self).num_app > 0,
            old(self).cur().brk_change_is_sound(size),
        ensures
            final(self).wf(),
            final(self).same_but_current(*old(self)),
            brk_changed(old(self).cur(), final(self).cur(), size, r),
    {
        let cur = self.current_task;
        self.tasks[cur].change_program_brk(size)
    }

    /// Charges the current task `time` of user time.
    pub fn add_current_user_time(&mut self, time: usize)
        requires
            old(self).wf(),
            old(self).num_app > 0,
            old(self).cur().user_time + time <= usize::MAX,
        ensures
            final(self).wf(),
            final(self).same_but_current(*old(self)),
            final(self).cur().user_time == old(self).cur().user_time + time,
            final(self).cur().kernel_time == old(self).cur().kernel_time,
            final(self).cur().task_status == old(self).cur().task_status,
            final(self).cur().same_but_status_and_times(old(self).cur()),
    {
        let current = self.current_task;
        self.tasks[current].user_time += time;
    }

    /// Charges the current task `time` of kernel time.
    pub fn add_current_kernel_time(&mut self, time: usize)
        requires
            old(self).wf(),
            old(self).num_app > 0,
            old(self).cur().kernel_time + time <= usize::MAX,
        ensures
            final(self).wf(),
            final(self).same_but_current(*old(self)),
            final(self).cur().kernel_time == old(self).cur().kernel_time + time,
            final(self).cur().user_time == old(self).cur().user_time,
            final(self).cur().task_status == old(self).cur().task_status,
            final(self).cur().same_but_status_and_times(old(self).cur()),
    {
        let current = self.current_task;
        self.tasks[current].kernel_time += time;
    }

    /// Counts one more call of system call `syscall_id` for the current task.
    pub fn add_up_syscall(&mut self, syscall_id: usize)
        requires
            old(self).wf(),
            old(self).num_app > 0,
            old(self).cur().syscall_count(syscall_id) < usize::MAX,
        ensures
            final(self).wf(),
            final(self).same_but_current(*old(self)),
            syscall_counted(old(self).cur(), final(self).cur(), syscall_id),
    {
        let current_task = self.current_task;
        let count = match self.tasks[current_task].calls.get(&syscall_id) {
            Some(c) => *c + 1,
            None => 1,
        };
        self.tasks[current_task].calls.insert(syscall_id, count);
        assert(final(self).cur().calls@ =~= old(self).cur().calls@.insert(syscall_id, count));
    }

    /// How many times the current task made system call `syscall_id`, or
    /// -1 when `syscall_id` is not below `MAX_SYSCALL_NUM`.
    pub fn get_syscall_times(&self, syscall_id: usize) -> (r: isize)
        requires
            self.wf(),
            self.num_app > 0,
        ensures
            r == syscall_times(self.cur(), syscall_id),
    {
        let current = self.current_task;
        if syscall_id >= MAX_SYSCALL_NUM {
            -1
        } else {
            match self.tasks[current].calls.get(&syscall_id) {
                Some(c) => *c as isize,
                None => 0,
            }
        }
    }
}

/// What `get_syscall_times` reports for task `t` and system call `id`.
pub open spec fn syscall_times(t: TaskControlBlock, id: usize) -> isize {
    if id >= MAX_SYSCALL_NUM {
        -1isize
    } else {
        t.syscall_count(id) as isize
    }
}

/// `after` is `before` with one more call of `id` counted.
pub open spec fn syscall_counted(before: TaskControlBlock, after: TaskControlBlock, id: usize) -> bool {
    &&& after.calls@ == before.calls@.insert(id, (before.syscall_count(id) + 1) as usize)
    &&& after.same_but_calls(before)
}


/// `id` is the task that runs after the current one yields: the first ready
/// task after it in round-robin order, or the current task itself when no
/// other task is ready.
pub open spec fn is_next_after_yield(tm: TaskManager, id: int) -> bool {
    exists|k: int|
        1 <= k <= tm.num_app && id == slot_after(tm.current_task as int, k, tm.num_app as int) && (k
            == tm.num_app || tm.is_ready(id)) && forall|j: int|
            1 <= j < k ==> !#[trigger] tm.is_ready(
                slot_after(tm.current_task as int, j, tm.num_app as int),
            )
}

/// `id` is the task that runs after the current one exits: the first ready
/// task after it in round-robin order, the current task excluded.
pub open spec fn is_next_after_exit(tm: TaskManager, id: int) -> bool {
    exists|k: int|
        1 <= k < tm.num_app && id == slot_after(tm.current_task as int, k, tm.num_app as int)
            && tm.is_ready(id) && forall|j: int|
            1 <= j < k ==> !#[trigger] tm.is_ready(
                slot_after(tm.current_task as int, j, tm.num_app as int),
            )
}

/// No task other than the current one is ready.
pub open spec fn no_other_ready(tm: TaskManager) -> bool {
    forall|i: int| 0 <= i < tm.num_app && i != tm.current_task ==> !#[trigger] tm.is_ready(i)
}

/// Stepping `k` places forward from `cur` returns to `cur` only after a
/// full round.
proof fn lemma_slot_after_not_self(cur: int, k: int, n: int)
    requires
        0 <= cur < n,
        1 <= k < n,
    ensures
        slot_after(cur, k, n) != cur,
        0 <= slot_after(cur, k, n) < n,
{
    if cur + k < n {
        vstd::arithmetic::div_mod::lemma_small_mod((cur + k) as nat, n as nat);
    } else {
        vstd::arithmetic::div_mod::lemma_small_mod((cur + k - n) as nat, n as nat);
        vstd::arithmetic::div_mod::lemma_mod_sub_multiples_vanish(cur + k, n);
    }
}

/// A full round from `cur` returns to `cur`.
proof fn lemma_slot_after_full_round(cur: int, n: int)
    requires
        0 <= cur < n,
    ensures
        slot_after(cur, n, n) == cur,
{
    vstd::arithmetic::div_mod::lemma_small_mod(cur as nat, n as nat);
    vstd::arithmetic::div_mod::lemma_mod_add_multiples_vanish(cur, n);
}

/// `k1` has the same tasks as `k0`, the same current task, and every task
/// keeps its status and its system-call counts.
pub open spec fn tasks_kept(k0: Kernel, k1: Kernel) -> bool {
    &&& k1.task_manager.num_app == k0.task_manager.num_app
    &&& k1.task_manager.tasks.len() == k0.task_manager.tasks.len()
    &&& k1.task_manager.current_task == k0.task_manager.current_task
    &&& forall|j: int|
        0 <= j < k0.task_manager.tasks.len() ==> {
            &&& (#[trigger] k1.task_manager.tasks[j]).task_status == k0.task_manager.tasks[j].task_status
            &&& k1.task_manager.tasks[j].calls@ == k0.task_manager.tasks[j].calls@
        }
}

/// The state the kernel keeps across calls: the tasks, the switch-time
/// accounting, and the clock reading (in milliseconds) at which the current
/// task's time was last charged.
pub struct Kernel {
    /// The tasks.
    pub task_manager: TaskManager,
    /// Time spent switching between tasks.
    pub switch_time: SwitchTime,
    /// Clock reading, in milliseconds, at which time was last charged.
    pub tmp_time: usize,
}

impl Kernel {
    /// Well-formedness of the kernel state.
    pub open spec fn wf(&self) -> bool {
        self.task_manager.wf()
    }

    /// A kernel over `task_manager` with both clocks at zero.
    pub fn new(task_manager: TaskManager) -> (r: Self)
        requires
            task_manager.wf(),
        ensures
            r.wf(),
            r.task_manager == task_manager,
            r.switch_time.inner.time == 0,
            r.switch_time.inner.stop_watch == 0,
            r.tmp_time == 0,
    {
        Kernel { task_manager, switch_time: SwitchTime::new(), tmp_time: 0 }
    }
}

/// Takes the clock reading `now_ms` and returns the time elapsed since the
/// previous one.
pub fn refresh_and_return(kernel: &mut Kernel, now_ms: usize) -> (r: usize)
    requires
        old(kernel).tmp_time <= now_ms,
    ensures
        tasks_kept(*old(kernel), *final(kernel)),
        r == now_ms - old(kernel).tmp_time,
        final(kernel).tmp_time == now_ms,
        final(kernel).task_manager == old(kernel).task_manager,
        final(kernel).switch_time == old(kernel).switch_time,
{
    let time_before = kernel.tmp_time;
    kernel.tmp_time = now_ms;
    kernel.tmp_time - time_before
}

/// Starts the first task: marks it running and starts both clocks, the
/// task clock at `now_ms` and the switch stopwatch at `now_us`. The caller
/// then switches to task 0.
pub fn run_first_task(kernel: &mut Kernel, now_ms: usize, now_us: usize)
    requires
        old(kernel).wf(),
        old(kernel).task_manager.num_app > 0,
        old(kernel).tmp_time <= now_ms,
        old(kernel).switch_time.inner.stop_watch <= now_us,
    ensures
        final(kernel).wf(),
        final(kernel).task_manager.current_task == old(kernel).task_manager.current_task,
        final(kernel).task_manager.tasks[0].task_status == TaskStatus::Running,
        final(kernel).task_manager.same_but_status_of(old(kernel).task_manager, 0),
        old(kernel).task_manager.current_task == 0 && old(kernel).task_manager.running_only_current()
            ==> final(kernel).task_manager.running_only_current(),
        final(kernel).tmp_time == now_ms,
        final(kernel).switch_time.inner.stop_watch == now_us,
        final(kernel).switch_time.inner.time == old(kernel).switch_time.inner.time,
{
    kernel.task_manager.run_first_task();
    assert(kernel.task_manager.tasks.len() == old(kernel).task_manager.tasks.len());
    refresh_and_return(kernel, now_ms);
    kernel.switch_time.switch_refresh_and_return(now_us);
}

/// `k1` and `r` are what suspending the current task of `k0` at clock
/// reading `now_ms` and scheduling the next one give.
pub open spec fn yielded(k0: Kernel, k1: Kernel, now_ms: usize, r: Schedule) -> bool {
    &&& k1.tmp_time == now_ms
    &&& k1.switch_time == k0.switch_time
    &&& {
            let tm0 = k0.task_manager;
            let tm1 = k1.task_manager;
            let cur = tm0.current_task as int;
            match r {
                Schedule::Switch { current, next } => {
                    &&& current == cur
                    &&& next < tm0.num_app
                    &&& is_next_after_yield(tm0, next as int)
                    &&& tm1.current_task == next
                    &&& tm1.num_app == tm0.num_app
                    &&& tm1.tasks.len() == tm0.tasks.len()
                    &&& tm1.tasks[next as int].task_status == TaskStatus::Running
                    &&& next != cur ==> tm1.tasks[cur].task_status == TaskStatus::Ready
                    &&& tm1.tasks[cur].kernel_time == tm0.tasks[cur].kernel_time + (now_ms
                        - k0.tmp_time)
                    &&& tm1.tasks[cur].user_time == tm0.tasks[cur].user_time
                    &&& tm1.tasks[cur].same_but_status_and_times(tm0.tasks[cur])
                    &&& next != cur ==> tm1.tasks[next as int].same_but_status(tm0.tasks[next as int])
                    &&& forall|j: int|
                        0 <= j < tm1.tasks.len() && j != cur && j != next ==> #[trigger] tm1.tasks[j]
                            == tm0.tasks[j]
                    &&& tm0.running_only_current() ==> tm1.running_only_current()
                },
                Schedule::AllCompleted => false,
            }
        }
}

/// Suspends the current task, charging it the kernel time since the last
/// clock reading, and picks the next task to run. Some task is always
/// picked: the current one itself when no other task is ready.
pub fn suspend_current_and_run_next(kernel: &mut Kernel, now_ms: usize) -> (r: Schedule)
    requires
        old(kernel).wf(),
        old(kernel).task_manager.num_app > 0,
        old(kernel).tmp_time <= now_ms,
        old(kernel).task_manager.cur().kernel_time + (now_ms - old(kernel).tmp_time) <= usize::MAX,
    ensures
        kernel_step(*old(kernel), *final(kernel), None),
        final(kernel).wf(),
        yielded(*old(kernel), *final(kernel), now_ms, r),
{
    let gap = refresh_and_return(kernel, now_ms);
    let ghost tm0 = kernel.task_manager;
    kernel.task_manager.mark_current_suspended(gap);
    let ghost mid = kernel.task_manager;
    let r = kernel.task_manager.run_next_task();
    proof {
        let n = tm0.num_app as int;
        let cur = tm0.current_task as int;
        assert forall|i: int| 0 <= i < n implies #[trigger] mid.is_ready(i) == (i == cur || tm0.is_ready(i)) by {
            if i != cur {
                assert(mid.tasks[i] == tm0.tasks[i]);
            }
        }
        lemma_slot_after_full_round(cur, n);
        match r {
            Schedule::Switch { current, next } => {
                let k = choose|k: int|
                    1 <= k <= mid.num_app && next == slot_after(cur, k, n) && mid.is_ready(next as int)
                        && forall|j: int|
                        1 <= j < k ==> !#[trigger] mid.is_ready(slot_after(cur, j, n));
                assert forall|j: int| 1 <= j < k implies !#[trigger] tm0.is_ready(slot_after(cur, j, n)) by {
                    lemma_slot_after_not_self(cur, j, n);
                    assert(!mid.is_ready(slot_after(cur, j, n)));
                }
                if k < n {
                    lemma_slot_after_not_self(cur, k, n);
                }
                assert(is_next_after_yield(tm0, next as int));
                let tm1 = kernel.task_manager;
                if tm0.running_only_current() {
                    assert forall|i: int| 0 <= i < tm1.tasks.len() && i != tm1.current_task implies (
                    #[trigger] tm1.tasks[i]).task_status != TaskStatus::Running by {
                        if i != cur {
                            assert(tm1.tasks[i] == tm0.tasks[i]);
                        }
                    }
                }
            },
            Schedule::AllCompleted => {
                assert(mid.is_ready(cur));
            },
        }
    }
    assert(yielded(*old(kernel), *kernel, now_ms, r));
    r
}

/// `k1` and `r` are what marking the current task of `k0` exited at clock
/// reading `now_ms` and scheduling the next one give.
pub open spec fn exited(k0: Kernel, k1: Kernel, now_ms: usize, r: Schedule) -> bool {
    &&& k1.tmp_time == now_ms
    &&& k1.switch_time == k0.switch_time
    &&& {
            let tm0 = k0.task_manager;
            let tm1 = k1.task_manager;
            let cur = tm0.current_task as int;
            &&& tm1.num_app == tm0.num_app
            &&& tm1.tasks.len() == tm0.tasks.len()
            &&& tm1.tasks[cur].task_status == TaskStatus::Exited
            &&& tm1.tasks[cur].kernel_time == tm0.tasks[cur].kernel_time + (now_ms
                - k0.tmp_time)
            &&& tm1.tasks[cur].user_time == tm0.tasks[cur].user_time
            &&& tm1.tasks[cur].same_but_status_and_times(tm0.tasks[cur])
            &&& tm0.running_only_current() ==> tm1.running_only_current()
            &&& match r {
                Schedule::Switch { current, next } => {
                    &&& current == cur
                    &&& next < tm0.num_app
                    &&& next != cur
                    &&& is_next_after_exit(tm0, next as int)
                    &&& tm1.current_task == next
                    &&& tm1.tasks[next as int].task_status == TaskStatus::Running
                    &&& tm1.tasks[next as int].same_but_status(tm0.tasks[next as int])
                    &&& forall|j: int|
                        0 <= j < tm1.tasks.len() && j != cur && j != next ==> #[trigger] tm1.tasks[j]
                            == tm0.tasks[j]
                },
                Schedule::AllCompleted => {
                    &&& no_other_ready(tm0)
                    &&& tm1.current_task == cur
                    &&& forall|j: int|
                        0 <= j < tm1.tasks.len() && j != cur ==> #[trigger] tm1.tasks[j] == tm0.tasks[j]
                },
            }
        }
}

/// Marks the current task exited, charging it the kernel time since the
/// last clock reading, and picks the next task to run: the first other
/// task that is ready, or none, when every application has completed.
pub fn exit_current_and_run_next(kernel: &mut Kernel, now_ms: usize) -> (r: Schedule)
    requires
        old(kernel).wf(),
        old(kernel).task_manager.num_app > 0,
        old(kernel).tmp_time <= now_ms,
        old(kernel).task_manager.cur().kernel_time + (now_ms - old(kernel).tmp_time) <= usize::MAX,
    ensures
        kernel_step(*old(kernel), *final(kernel), None),
        final(kernel).wf(),
        exited(*old(kernel), *final(kernel), now_ms, r),
{
    let gap = refresh_and_return(kernel, now_ms);
    let ghost tm0 = kernel.task_manager;
    kernel.task_manager.mark_current_exited(gap);
    let ghost mid = kernel.task_manager;
    let r = kernel.task_manager.run_next_task();
    proof {
        let n = tm0.num_app as int;
        let cur = tm0.current_task as int;
        assert forall|i: int| 0 <= i < n implies #[trigger] mid.is_ready(i) == (i != cur && tm0.is_ready(i)) by {
            if i != cur {
                assert(mid.tasks[i] == tm0.tasks[i]);
            }
        }
        lemma_slot_after_full_round(cur, n);
        let tm1 = kernel.task_manager;
        match r {
            Schedule::Switch { current, next } => {
                let k = choose|k: int|
                    1 <= k <= mid.num_app && next == slot_after(cur, k, n) && mid.is_ready(next as int)
                        && forall|j: int|
                        1 <= j < k ==> !#[trigger] mid.is_ready(slot_after(cur, j, n));
                assert forall|j: int| 1 <= j < k implies !#[trigger] tm0.is_ready(slot_after(cur, j, n)) by {
                    lemma_slot_after_not_self(cur, j, n);
                    assert(!mid.is_ready(slot_after(cur, j, n)));
                }
                assert(k < n);
                lemma_slot_after_not_self(cur, k, n);
                assert(is_next_after_exit(tm0, next as int));
                if tm0.running_only_current() {
                    assert forall|i: int| 0 <= i < tm1.tasks.len() && i != tm1.current_task implies (
                    #[trigger] tm1.tasks[i]).task_status != TaskStatus::Running by {
                        if i != cur {
                            assert(tm1.tasks[i] == tm0.tasks[i]);
                        }
                    }
                }
            },
            Schedule::AllCompleted => {
                assert forall|i: int| 0 <= i < n && i != cur implies !#[trigger] tm0.is_ready(i) by {
                    assert(!mid.is_ready(i));
                }
                if tm0.running_only_current() {
                    assert forall|i: int| 0 <= i < tm1.tasks.len() && i != tm1.current_task implies (
                    #[trigger] tm1.tasks[i]).task_status != TaskStatus::Running by {
                        assert(tm1.tasks[i] == tm0.tasks[i]);
                    }
                }
            },
        }
    }
    assert(exited(*old(kernel), *kernel, now_ms, r));
    r
}

/// The page-table token of the current task.
pub fn current_user_token(kernel: &Kernel) -> (r: usize)
    requires
        kernel.wf(),
        kernel.task_manager.num_app > 0,
    ensures
        r == kernel.task_manager.cur().token,
{
    kernel.task_manager.get_current_token()
}

/// Moves the current task's program break by `size`; see
/// `TaskControlBlock::change_program_brk`.
pub fn change_program_brk(kernel: &mut Kernel, size: i32) -> (r: Option<u64>)
    requires
        old(kernel).wf(),
        old(kernel).task_manager.num_app > 0,
        old(kernel).task_manager.cur().brk_change_is_sound(size),
    ensures
        kernel_step(*old(kernel), *final(kernel), None),
        tasks_kept(*old(kernel), *final(kernel)),
        final(kernel).wf(),
        final(kernel).task_manager.same_but_current(old(kernel).task_manager),
        brk_changed(old(kernel).task_manager.cur(), final(kernel).task_manager.cur(), size, r),
        final(kernel).switch_time == old(kernel).switch_time,
        final(kernel).tmp_time == old(kernel).tmp_time,
{
    kernel.task_manager.change_current_program_brk(size)
}

/// Charges the current task the time since the last clock reading as user
/// time.
pub fn add_current_user_time(kernel: &mut Kernel, now_ms: usize)
    requires
        old(kernel).wf(),
        old(kernel).task_manager.num_app > 0,
        old(kernel).tmp_time <= now_ms,
        old(kernel).task_manager.cur().user_time + (now_ms - old(kernel).tmp_time) <= usize::MAX,
    ensures
        kernel_step(*old(kernel), *final(kernel), None),
        tasks_kept(*old(kernel), *final(kernel)),
        final(kernel).wf(),
        final(kernel).tmp_time == now_ms,
        final(kernel).switch_time == old(kernel).switch_time,
        final(kernel).task_manager.same_but_current(old(kernel).task_manager),
        final(kernel).task_manager.cur().user_time == old(kernel).task_manager.cur().user_time + (
        now_ms - old(kernel).tmp_time),
        final(kernel).task_manager.cur().kernel_time == old(kernel).task_manager.cur().kernel_time,
        final(kernel).task_manager.cur().task_status == old(kernel).task_manager.cur().task_status,
        final(kernel).task_manager.cur().same_but_status_and_times(old(kernel).task_manager.cur()),
{
    let gap = refresh_and_return(kernel, now_ms);
    kernel.task_manager.add_current_user_time(gap);
}

/// Charges the current task the time since the last clock reading as
/// kernel time.
pub fn add_current_kernel_time(kernel: &mut Kernel, now_ms: usize)
    requires
        old(kernel).wf(),
        old(kernel).task_manager.num_app > 0,
        old(kernel).tmp_time <= now_ms,
        old(kernel).task_manager.cur().kernel_time + (now_ms - old(kernel).tmp_time) <= usize::MAX,
    ensures
        kernel_step(*old(kernel), *final(kernel), None),
        tasks_kept(*old(kernel), *final(kernel)),
        final(kernel).wf(),
        final(kernel).tmp_time == now_ms,
        final(kernel).switch_time == old(kernel).switch_time,
        final(kernel).task_manager.same_but_current(old(kernel).task_manager),
        final(kernel).task_manager.cur().kernel_time == old(kernel).task_manager.cur().kernel_time + (
        now_ms - old(kernel).tmp_time),
        final(kernel).task_manager.cur().user_time == old(kernel).task_manager.cur().user_time,
        final(kernel).task_manager.cur().task_status == old(kernel).task_manager.cur().task_status,
        final(kernel).task_manager.cur().same_but_status_and_times(old(kernel).task_manager.cur()),
{
    let gap = refresh_and_return(kernel, now_ms);
    kernel.task_manager.add_current_kernel_time(gap);
}

/// Counts one more call of system call `syscall_id` for the current task.
pub fn add_up_syscall(kernel: &mut Kernel, syscall_id: usize)
    requires
        old(kernel).wf(),
        old(kernel).task_manager.num_app > 0,
        old(kernel).task_manager.cur().syscall_count(syscall_id) < usize::MAX,
    ensures
        kernel_step(*old(kernel), *final(kernel), Some(syscall_id)),
        final(kernel).wf(),
        final(kernel).task_manager.same_but_current(old(kernel).task_manager),
        syscall_counted(old(kernel).task_manager.cur(), final(kernel).task_manager.cur(), syscall_id),
        final(kernel).switch_time == old(kernel).switch_time,
        final(kernel).tmp_time == old(kernel).tmp_time,
{
    kernel.task_manager.add_up_syscall(syscall_id);
}

/// How many times the current task made system call `syscall_id`, or -1
/// when `syscall_id` is not below `MAX_SYSCALL_NUM`.
pub fn get_syscall_times(kernel: &Kernel, syscall_id: usize) -> (r: isize)
    requires
        kernel.wf(),
        kernel.task_manager.num_app > 0,
    ensures
        r == syscall_times(kernel.task_manager.cur(), syscall_id),
{
    kernel.task_manager.get_syscall_times(syscall_id)
}

/// Maps a framed area into the current task's address space.
pub fn insert_framed_area(kernel: &mut Kernel, start_va: VirtAddr, end_va: VirtAddr, permission: u8)
    requires
        old(kernel).wf(),
        old(kernel).task_manager.num_app > 0,
        page_floor(start_va.0 as nat) <= page_ceil(end_va.0 as nat) <= VPN_LIMIT,
        range_none_mapped(
            old(kernel).task_manager.cur().memory_set@,
            page_floor(start_va.0 as nat),
            page_ceil(end_va.0 as nat),
        ),
    ensures
        kernel_step(*old(kernel), *final(kernel), None),
        tasks_kept(*old(kernel), *final(kernel)),
        final(kernel).wf(),
        final(kernel).task_manager.same_but_current(old(kernel).task_manager),
        final(kernel).task_manager.cur().same_but_memory(old(kernel).task_manager.cur()),
        area_inserted(
            old(kernel).task_manager.cur().memory_set,
            final(kernel).task_manager.cur().memory_set,
            page_floor(start_va.0 as nat),
            page_ceil(end_va.0 as nat),
            permission | PTE_V,
        ),
        final(kernel).switch_time == old(kernel).switch_time,
        final(kernel).tmp_time == old(kernel).tmp_time,
{
    kernel.task_manager.insert_framed_area(start_va, end_va, permission);
}

/// Unmaps a framed area from the current task's address space if the task
/// mapped all of it itself; reports whether it did.
pub fn unmap_framed_area(kernel: &mut Kernel, start_va: VirtAddr, end_va: VirtAddr) -> (r: bool)
    requires
        old(kernel).wf(),
        old(kernel).task_manager.num_app > 0,
        page_floor(start_va.0 as nat) <= page_ceil(end_va.0 as nat),
    ensures
        kernel_step(*old(kernel), *final(kernel), None),
        tasks_kept(*old(kernel), *final(kernel)),
        final(kernel).wf(),
        final(kernel).task_manager.same_but_current(old(kernel).task_manager),
        final(kernel).task_manager.cur().same_but_memory(old(kernel).task_manager.cur()),
        area_removed(
            old(kernel).task_manager.cur().memory_set,
            final(kernel).task_manager.cur().memory_set,
            page_floor(start_va.0 as nat),
            page_ceil(end_va.0 as nat),
            r,
        ),
        final(kernel).switch_time == old(kernel).switch_time,
        final(kernel).tmp_time == old(kernel).tmp_time,
{
    kernel.task_manager.unmap_framed_area(start_va, end_va)
}

/// After one more call of `id` is counted, `get_syscall_times(id)` reports
/// one more than before (for a counted system call), and every other system
/// call reports what it did before.
pub proof fn lemma_syscall_times_after_count(
    before: TaskControlBlock,
    after: TaskControlBlock,
    id: usize,
    other: usize,
)
    requires
        syscall_counted(before, after, id),
        before.syscall_count(id) < isize::MAX,
    ensures
        id < MAX_SYSCALL_NUM ==> syscall_times(after, id) == syscall_times(before, id) + 1,
        id >= MAX_SYSCALL_NUM ==> syscall_times(after, id) == -1,
        other != id ==> syscall_times(after, other) == syscall_times(before, other),
{
}

/// A task that has exited stays exited across a yield or an exit of the
/// current task, and is never the one picked to run.
pub proof fn lemma_exited_task_stays_exited(k0: Kernel, k1: Kernel, now_ms: usize, r: Schedule, i: int)
    requires
        k0.wf(),
        k0.task_manager.num_app > 0,
        0 <= i < k0.task_manager.num_app,
        k0.task_manager.tasks[i].task_status == TaskStatus::Exited,
        i != k0.task_manager.current_task,
        yielded(k0, k1, now_ms, r) || exited(k0, k1, now_ms, r),
    ensures
        k1.task_manager.tasks[i].task_status == TaskStatus::Exited,
        r matches Schedule::Switch { next, .. } ==> next != i,
{
    let tm0 = k0.task_manager;
    let cur = tm0.current_task as int;
    if let Schedule::Switch { current, next } = r {
        if next as int == i {
            if yielded(k0, k1, now_ms, r) {
                let k = choose|k: int|
                    1 <= k <= tm0.num_app && next == slot_after(cur, k, tm0.num_app as int) && (k
                        == tm0.num_app || tm0.is_ready(next as int)) && forall|j: int|
                        1 <= j < k ==> !#[trigger] tm0.is_ready(
                            slot_after(cur, j, tm0.num_app as int),
                        );
                if k == tm0.num_app {
                    lemma_slot_after_full_round(cur, tm0.num_app as int);
                }
            }
        }
    }
}

/// One operation of the kernel on a running system, labelled `op`:
/// `Some(id)` for counting a call of system call `id`, `None` for any other
/// operation (a yield, an exit, or one that keeps every task's status and
/// counts, as every other function of this module and every system call
/// but `exit` and `yield` ensures).
pub open spec fn kernel_step(k0: Kernel, k1: Kernel, op: Option<usize>) -> bool {
    &&& k0.wf()
    &&& k1.wf()
    &&& k0.task_manager.num_app > 0
    &&& match op {
        Some(id) => {
            &&& k0.task_manager.cur().syscall_count(id) < usize::MAX
            &&& k1.task_manager.same_but_current(k0.task_manager)
            &&& syscall_counted(k0.task_manager.cur(), k1.task_manager.cur(), id)
        },
        None => {
            ||| tasks_kept(k0, k1)
            ||| exists|now_ms: usize, r: Schedule| #[trigger] yielded(k0, k1, now_ms, r)
            ||| exists|now_ms: usize, r: Schedule| #[trigger] exited(k0, k1, now_ms, r)
        },
    }
}

/// `ks` is a run of the kernel: each state follows from the one before by
/// the operation `ops` names.
pub open spec fn is_run(ks: Seq<Kernel>, ops: Seq<Option<usize>>) -> bool {
    &&& ks.len() == ops.len() + 1
    &&& forall|j: int| 0 <= j < ops.len() ==> #[trigger] kernel_step(ks[j], ks[j + 1], ops[j])
}

/// How many of the first `n` operations of a run counted a call of `id`
/// while task `i` was current.
pub open spec fn calls_counted(ks: Seq<Kernel>, ops: Seq<Option<usize>>, i: int, id: usize, n: nat) -> nat
    decreases n,
{
    if n == 0 {
        0
    } else {
        calls_counted(ks, ops, i, id, (n - 1) as nat) + (if ops[n - 1] == Some(id)
            && ks[n - 1].task_manager.current_task == i {
            1nat
        } else {
            0nat
        })
    }
}

/// One step keeps the task list, keeps an exited task that is not current
/// exited, and never makes it current.
proof fn lemma_step_keeps_exited(k0: Kernel, k1: Kernel, op: Option<usize>, i: int)
    requires
        kernel_step(k0, k1, op),
        0 <= i < k0.task_manager.num_app,
        k0.task_manager.tasks[i].task_status == TaskStatus::Exited,
        i != k0.task_manager.current_task,
    ensures
        k1.task_manager.num_app == k0.task_manager.num_app,
        k1.task_manager.tasks[i].task_status == TaskStatus::Exited,
        i != k1.task_manager.current_task,
{
    match op {
        Some(id) => {
            assert(k1.task_manager.tasks[i] == k0.task_manager.tasks[i]);
        },
        None => {
            if tasks_kept(k0, k1) {
                assert(k1.task_manager.tasks[i].task_status == k0.task_manager.tasks[i].task_status);
            } else if exists|now_ms: usize, r: Schedule| #[trigger] yielded(k0, k1, now_ms, r) {
                let (now_ms, r) = choose|now_ms: usize, r: Schedule| #[trigger] yielded(k0, k1, now_ms, r);
                lemma_exited_task_stays_exited(k0, k1, now_ms, r, i);
            } else {
                let (now_ms, r) = choose|now_ms: usize, r: Schedule| #[trigger] exited(k0, k1, now_ms, r);
                lemma_exited_task_stays_exited(k0, k1, now_ms, r, i);
            }
        },
    }
}

/// Over a whole run, a task that has exited (and is no longer the current
/// one, as after `sys_exit` switched away from it) stays exited and never
/// becomes the current task again.
pub proof fn lemma_exited_task_never_runs_again(ks: Seq<Kernel>, ops: Seq<Option<usize>>, i: int)
    requires
        is_run(ks, ops),
        0 <= i < ks[0].task_manager.num_app,
        ks[0].task_manager.tasks[i].task_status == TaskStatus::Exited,
        i != ks[0].task_manager.current_task,
    ensures
        forall|j: int|
            0 <= j < ks.len() ==> {
                &&& (#[trigger] ks[j]).task_manager.num_app == ks[0].task_manager.num_app
                &&& ks[j].task_manager.tasks[i].task_status == TaskStatus::Exited
                &&& i != ks[j].task_manager.current_task
            },
    decreases ops.len(),
{
    if ops.len() > 0 {
        let n = ops.len() - 1;
        let ks0 = ks.subrange(0, n + 1);
        let ops0 = ops.subrange(0, n);
        assert forall|j: int| 0 <= j < ops0.len() implies #[trigger] kernel_step(ks0[j], ks0[j + 1], ops0[j]) by {
            assert(kernel_step(ks[j], ks[j + 1], ops[j]));
        }
        lemma_exited_task_never_runs_again(ks0, ops0, i);
        assert(ks0[n] == ks[n]);
        assert(kernel_step(ks[n], ks[n + 1], ops[n]));
        lemma_step_keeps_exited(ks[n], ks[n + 1], ops[n], i);
        assert forall|j: int| 0 <= j < ks.len() implies {
            &&& (#[trigger] ks[j]).task_manager.num_app == ks[0].task_manager.num_app
            &&& ks[j].task_manager.tasks[i].task_status == TaskStatus::Exited
            &&& i != ks[j].task_manager.current_task
        } by {
            if j <= n {
                assert(ks0[j] == ks[j]);
            }
        }
    }
}

/// One step keeps "no task but the current one runs".
proof fn lemma_step_keeps_single_running(k0: Kernel, k1: Kernel, op: Option<usize>)
    requires
        kernel_step(k0, k1, op),
        k0.task_manager.running_only_current(),
    ensures
        k1.task_manager.running_only_current(),
{
    let tm0 = k0.task_manager;
    let tm1 = k1.task_manager;
    match op {
        Some(id) => {
            assert forall|i: int| 0 <= i < tm1.tasks.len() && i != tm1.current_task implies (
            #[trigger] tm1.tasks[i]).task_status != TaskStatus::Running by {
                assert(tm1.tasks[i] == tm0.tasks[i]);
            }
        },
        None => {
            if tasks_kept(k0, k1) {
                assert forall|i: int| 0 <= i < tm1.tasks.len() && i != tm1.current_task implies (
                #[trigger] tm1.tasks[i]).task_status != TaskStatus::Running by {
                    assert(tm1.tasks[i].task_status == tm0.tasks[i].task_status);
                }
            } else if exists|now_ms: usize, r: Schedule| #[trigger] yielded(k0, k1, now_ms, r) {
                let (now_ms, r) = choose|now_ms: usize, r: Schedule| #[trigger] yielded(k0, k1, now_ms, r);
            } else {
                let (now_ms, r) = choose|now_ms: usize, r: Schedule| #[trigger] exited(k0, k1, now_ms, r);
            }
        },
    }
}

/// Over a whole run that starts with no task but the current one running,
/// every state has no task but the current one running.
pub proof fn lemma_single_running_over_run(ks: Seq<Kernel>, ops: Seq<Option<usize>>)
    requires
        is_run(ks, ops),
        ks[0].task_manager.running_only_current(),
    ensures
        forall|j: int| 0 <= j < ks.len() ==> (#[trigger] ks[j]).task_manager.running_only_current(),
    decreases ops.len(),
{
    if ops.len() > 0 {
        let n = ops.len() - 1;
        let ks0 = ks.subrange(0, n + 1);
        let ops0 = ops.subrange(0, n);
        assert forall|j: int| 0 <= j < ops0.len() implies #[trigger] kernel_step(ks0[j], ks0[j + 1], ops0[j]) by {
            assert(kernel_step(ks[j], ks[j + 1], ops[j]));
        }
        lemma_single_running_over_run(ks0, ops0);
        assert(ks0[n] == ks[n]);
        assert(kernel_step(ks[n], ks[n + 1], ops[n]));
        lemma_step_keeps_single_running(ks[n], ks[n + 1], ops[n]);
        assert forall|j: int| 0 <= j < ks.len() implies (#[trigger] ks[j]).task_manager.running_only_current() by {
            if j <= n {
                assert(ks0[j] == ks[j]);
            }
        }
    }
}

/// One step changes the count of `id` of task `i` by one exactly when it
/// counts a call of `id` while `i` is current.
proof fn lemma_step_counts(k0: Kernel, k1: Kernel, op: Option<usize>, i: int, id: usize)
    requires
        kernel_step(k0, k1, op),
        0 <= i < k0.task_manager.num_app,
    ensures
        k1.task_manager.num_app == k0.task_manager.num_app,
        k1.task_manager.tasks[i].syscall_count(id) == k0.task_manager.tasks[i].syscall_count(id) + (
        if op == Some(id) && k0.task_manager.current_task == i {
            1nat
        } else {
            0nat
        }),
{
    let tm0 = k0.task_manager;
    let tm1 = k1.task_manager;
    match op {
        Some(x) => {
            if i != tm0.current_task {
                assert(tm1.tasks[i] == tm0.tasks[i]);
            } else if x != id {
                assert(tm1.tasks[i].calls@.contains_key(id) == tm0.tasks[i].calls@.contains_key(id));
            }
        },
        None => {
            if tasks_kept(k0, k1) {
                assert(tm1.tasks[i].calls@ == tm0.tasks[i].calls@);
            } else if exists|now_ms: usize, r: Schedule| #[trigger] yielded(k0, k1, now_ms, r) {
                let (now_ms, r) = choose|now_ms: usize, r: Schedule| #[trigger] yielded(k0, k1, now_ms, r);
                if let Schedule::Switch { current, next } = r {
                    if i != current && i != next {
                        assert(tm1.tasks[i] == tm0.tasks[i]);
                    }
                }
            } else {
                let (now_ms, r) = choose|now_ms: usize, r: Schedule| #[trigger] exited(k0, k1, now_ms, r);
                if i != tm0.current_task {
                    match r {
                        Schedule::Switch { current, next } => {
                            if i != next {
                                assert(tm1.tasks[i] == tm0.tasks[i]);
                            }
                        },
                        Schedule::AllCompleted => {
                            assert(tm1.tasks[i] == tm0.tasks[i]);
                        },
                    }
                }
            }
        },
    }
}

/// Over a whole run, the count that `get_syscall_times` reports for system
/// call `id` and task `i` grows by exactly the number of calls of `id`
/// counted while `i` was current; other calls and other tasks leave it
/// alone.
pub proof fn lemma_syscall_times_over_run(ks: Seq<Kernel>, ops: Seq<Option<usize>>, i: int, id: usize)
    requires
        is_run(ks, ops),
        0 <= i < ks[0].task_manager.num_app,
    ensures
        ks.last().task_manager.tasks[i].syscall_count(id) == ks[0].task_manager.tasks[i].syscall_count(id)
            + calls_counted(ks, ops, i, id, ops.len()),
    decreases ops.len(),
{
    if ops.len() > 0 {
        let n = ops.len() - 1;
        let ks0 = ks.subrange(0, n + 1);
        let ops0 = ops.subrange(0, n);
        assert forall|j: int| 0 <= j < ops0.len() implies #[trigger] kernel_step(ks0[j], ks0[j + 1], ops0[j]) by {
            assert(kernel_step(ks[j], ks[j + 1], ops[j]));
        }
        lemma_syscall_times_over_run(ks0, ops0, i, id);
        lemma_calls_counted_prefix(ks, ops, ks0, ops0, i, id, n as nat);
        lemma_num_app_over_run(ks0, ops0);
        assert(ks0[n] == ks[n]);
        assert(kernel_step(ks[n], ks[n + 1], ops[n]));
        lemma_step_counts(ks[n], ks[n + 1], ops[n], i, id);
    }
}

/// The number of tasks stays the same over a run.
proof fn lemma_num_app_over_run(ks: Seq<Kernel>, ops: Seq<Option<usize>>)
    requires
        is_run(ks, ops),
    ensures
        forall|j: int| 0 <= j < ks.len() ==> (#[trigger] ks[j]).task_manager.num_app == ks[0].task_manager.num_app,
    decreases ops.len(),
{
    if ops.len() > 0 {
        let n = ops.len() - 1;
        let ks0 = ks.subrange(0, n + 1);
        let ops0 = ops.subrange(0, n);
        assert forall|j: int| 0 <= j < ops0.len() implies #[trigger] kernel_step(ks0[j], ks0[j + 1], ops0[j]) by {
            assert(kernel_step(ks[j], ks[j + 1], ops[j]));
        }
        lemma_num_app_over_run(ks0, ops0);
        assert(ks0[n] == ks[n]);
        assert(kernel_step(ks[n], ks[n + 1], ops[n]));
        lemma_step_counts(ks[n], ks[n + 1], ops[n], 0, 0);
        assert forall|j: int| 0 <= j < ks.len() implies (#[trigger] ks[j]).task_manager.num_app == ks[0].task_manager.num_app by {
            if j <= n {
                assert(ks0[j] == ks[j]);
            }
        }
    }
}

/// Counting over a prefix of a run is counting over the run's first steps.
proof fn lemma_calls_counted_prefix(
    ks: Seq<Kernel>,
    ops: Seq<Option<usize>>,
    ks0: Seq<Kernel>,
    ops0: Seq<Option<usize>>,
    i: int,
    id: usize,
    n: nat,
)
    requires
        n <= ops0.len(),
        ops0.len() <= ops.len(),
        ks0.len() <= ks.len(),
        ops0.len() + 1 == ks0.len(),
        forall|j: int| 0 <= j < ops0.len() ==> ops0[j] == ops[j],
        forall|j: int| 0 <= j < ks0.len() ==> ks0[j] == ks[j],
    ensures
        calls_counted(ks0, ops0, i, id, n) == calls_counted(ks, ops, i, id, n),
    decreases n,
{
    if n > 0 {
        lemma_calls_counted_prefix(ks, ops, ks0, ops0, i, id, (n - 1) as nat);
    }
}

} // verus!
