//! Process-management syscalls: the computation behind each call, on plain
//! values. The trap dispatcher owns the raw pointers of the user ABI; it
//! translates them, reads the clock, and hands this module the resulting
//! values. A negative return is the universal failure convention.

use vstd::prelude::*;
use crate::kernel::{
    change_program_brk, exit_current_and_run_next, get_current_task_syscall_stat, spec_mmap_ok,
    spec_munmap_ok, suspend_current_and_run_next, mmap_memory_area_for_current,
    munmap_memory_area_for_current, Kernel,
};
use crate::task::TaskStatus;
use crate::BRK_CEILING;

verus! {

/// A moment in time, split the way the user ABI wants it.
#[derive(Clone, Copy, PartialEq, Eq, Structural, Debug)]
pub struct TimeVal {
    /// Whole seconds.
    pub sec: usize,
    /// Microseconds below one second.
    pub usec: usize,
}

/// What the task-information syscall reports about the current task.
pub struct TaskInfo {
    /// Lifecycle status of the task.
    pub status: TaskStatus,
    /// How often the task has entered each syscall.
    pub syscall_times: Vec<u32>,
    /// Total running time of the task, in milliseconds.
    pub time: usize,
}

/// Exits the current task with `exit_code`; the task never resumes, and
/// control stays with the idle loop. Init exiting is fatal and excluded by
/// contract.
pub fn sys_exit(kernel: &mut Kernel, exit_code: i32)
    requires
        old(kernel).wf(),
        old(kernel).current is Some,
        old(kernel).tasks@[old(kernel).cur()].pid != 0,
    ensures
        final(kernel).wf(),
        final(kernel).current is None,
        final(kernel).tasks@[old(kernel).cur()].status == TaskStatus::Zombie,
        final(kernel).tasks@[old(kernel).cur()].exit_code == exit_code,
        final(kernel).tasks@[old(kernel).cur()].children@.len() == 0,
        final(kernel).tasks@[old(kernel).cur()].memory_set.areas@.len() == 0,
        final(kernel).tasks@[0].children@ == old(kernel).tasks@[0].children@ + old(kernel).tasks@[old(kernel).cur()].children@,
        forall|k: int|
            0 <= k < old(kernel).tasks@[old(kernel).cur()].children@.len() ==> final(kernel).tasks@[(#[trigger] old(kernel).tasks@[old(kernel).cur()].children@[k]) as int].parent
                == Some(0usize),
        forall|i: int|
            0 <= i < old(kernel).tasks@.len() && i != 0 && i != old(kernel).cur() && !old(kernel).tasks@[old(kernel).cur()].children@.contains(i as usize) ==> final(kernel).tasks@[i]
                == (#[trigger] old(kernel).tasks@[i]),
        final(kernel).manager == old(kernel).manager,
        final(kernel).tasks@.len() == old(kernel).tasks@.len(),
{
    exit_current_and_run_next(kernel, exit_code);
}

/// Gives up the hart: the current task becomes Ready and is re-enqueued.
/// Returns 0.
pub fn sys_yield(kernel: &mut Kernel) -> (r: isize)
    requires
        old(kernel).wf(),
        old(kernel).current is Some,
    ensures
        final(kernel).wf(),
        r == 0,
        final(kernel).current is None,
        final(kernel).tasks@.len() == old(kernel).tasks@.len(),
        crate::task::tcb_eq_mod_status(
            final(kernel).tasks@[old(kernel).cur()],
            old(kernel).tasks@[old(kernel).cur()],
        ),
        final(kernel).tasks@[old(kernel).cur()].status == TaskStatus::Ready,
        forall|i: int|
            0 <= i < old(kernel).tasks@.len() && i != old(kernel).cur() ==> final(kernel).tasks@[i]
                == (#[trigger] old(kernel).tasks@[i]),
        final(kernel).manager.ready_queue@ == old(kernel).manager.ready_queue@.push(
            old(kernel).current->0,
        ),
{
    suspend_current_and_run_next(kernel);
    0
}

/// Splits the clock's microsecond count into the second/microsecond pair
/// the user ABI wants; the dispatcher writes it through the translated user
/// pointer.
pub fn sys_get_time(us: usize) -> (tv: TimeVal)
    ensures
        tv.sec == us as int / 1_000_000,
        tv.usec == us as int % 1_000_000,
        tv.usec < 1_000_000,
{
    TimeVal { sec: us / 1_000_000, usec: us % 1_000_000 }
}

/// Reports the current task's status, its per-syscall counters and the
/// given running time; the dispatcher writes the record through the
/// translated user pointer.
pub fn sys_task_info(kernel: &Kernel, time_ms: usize) -> (r: Option<TaskInfo>)
    requires
        kernel.wf(),
        kernel.current is Some,
    ensures
        r is Some,
        (r->0).status == kernel.tasks@[kernel.cur()].status,
        (r->0).syscall_times@ == kernel.tasks@[kernel.cur()].syscall_stats@,
        (r->0).time == time_ms,
{
    let stat = get_current_task_syscall_stat(kernel);
    match stat {
        Some((status, syscall_times)) => Some(
            TaskInfo { status, syscall_times, time: time_ms },
        ),
        None => None,
    }
}

/// Maps a fresh area over the page-rounded range for the current task.
/// Returns 0 exactly when the request is accepted, -1 otherwise, with no
/// state change on failure.
pub fn sys_mmap(kernel: &mut Kernel, start: usize, len: usize, prot: usize) -> (r: isize)
    requires
        old(kernel).wf(),
        old(kernel).current is Some,
    ensures
        final(kernel).wf(),
        r == 0 || r == -1,
        r == 0 <==> spec_mmap_ok(*old(kernel), start, len, prot),
        r == -1 ==> *final(kernel) == *old(kernel),
        r == 0 && len == 0 ==> *final(kernel) == *old(kernel),
        r == 0 && len > 0 ==> {
            &&& final(kernel).tasks@.len() == old(kernel).tasks@.len()
            &&& crate::task::tcb_eq_mod_mm(
                final(kernel).tasks@[old(kernel).cur()],
                old(kernel).tasks@[old(kernel).cur()],
            )
            &&& final(kernel).tasks@[old(kernel).cur()].memory_set.areas@ == old(kernel).tasks@[old(kernel).cur()].memory_set.areas@.push(
                crate::mem::MapArea {
                    start: start,
                    end: crate::kernel::spec_range_end(start, len) as usize,
                    perm: crate::kernel::perm_of_prot(prot),
                },
            )
            &&& forall|i: int|
                0 <= i < old(kernel).tasks@.len() && i != old(kernel).cur() ==> final(kernel).tasks@[i] == (#[trigger] old(kernel).tasks@[i])
            &&& final(kernel).manager == old(kernel).manager
            &&& final(kernel).current == old(kernel).current
        },
{
    let ok = mmap_memory_area_for_current(kernel, start, len, prot);
    if ok {
        0
    } else {
        -1
    }
}

/// Unmaps exactly the page-rounded range from the current task. Returns 0
/// exactly when the range was exactly tiled by mapped areas, -1 otherwise,
/// with no state change on failure.
pub fn sys_munmap(kernel: &mut Kernel, start: usize, len: usize) -> (r: isize)
    requires
        old(kernel).wf(),
        old(kernel).current is Some,
    ensures
        final(kernel).wf(),
        r == 0 || r == -1,
        r == 0 <==> spec_munmap_ok(*old(kernel), start, len),
        r == -1 ==> crate::kernel::kernel_state_eq(*final(kernel), *old(kernel)),
        r == 0 && len == 0 ==> *final(kernel) == *old(kernel),
        r == 0 && len > 0 ==> {
            &&& final(kernel).tasks@.len() == old(kernel).tasks@.len()
            &&& crate::task::tcb_eq_mod_mm(
                final(kernel).tasks@[old(kernel).cur()],
                old(kernel).tasks@[old(kernel).cur()],
            )
            &&& final(kernel).tasks@[old(kernel).cur()].memory_set.areas@
                == crate::mem::remove_contained(
                old(kernel).tasks@[old(kernel).cur()].memory_set.areas@,
                start,
                crate::kernel::spec_range_end(start, len) as usize,
            )
            &&& !final(kernel).tasks@[old(kernel).cur()].memory_set.spec_conflict(
                start,
                crate::kernel::spec_range_end(start, len) as usize,
            )
            &&& forall|i: int|
                0 <= i < old(kernel).tasks@.len() && i != old(kernel).cur() ==> final(kernel).tasks@[i] == (#[trigger] old(kernel).tasks@[i])
            &&& final(kernel).manager == old(kernel).manager
            &&& final(kernel).current == old(kernel).current
        },
{
    let ok = munmap_memory_area_for_current(kernel, start, len);
    if ok {
        0
    } else {
        -1
    }
}

/// Adjusts the current task's heap boundary by `size` bytes. Returns the
/// previous boundary on success and -1 on failure, with no state change on
/// failure.
pub fn sys_sbrk(kernel: &mut Kernel, size: i32) -> (r: isize)
    requires
        old(kernel).wf(),
        old(kernel).current is Some,
    ensures
        final(kernel).wf(),
        r >= 0 <==> old(kernel).tasks@[old(kernel).cur()].heap_bottom <= old(kernel).tasks@[old(kernel).cur()].program_brk + size as int <= BRK_CEILING,
        r >= 0 ==> {
            &&& r == old(kernel).tasks@[old(kernel).cur()].program_brk
            &&& final(kernel).tasks@.len() == old(kernel).tasks@.len()
            &&& crate::task::tcb_eq_mod_brk(
                final(kernel).tasks@[old(kernel).cur()],
                old(kernel).tasks@[old(kernel).cur()],
            )
            &&& final(kernel).tasks@[old(kernel).cur()].program_brk == old(kernel).tasks@[old(kernel).cur()].program_brk + size as int
            &&& forall|i: int|
                0 <= i < old(kernel).tasks@.len() && i != old(kernel).cur() ==> final(kernel).tasks@[i] == (#[trigger] old(kernel).tasks@[i])
            &&& final(kernel).manager == old(kernel).manager
            &&& final(kernel).current == old(kernel).current
        },
        r < 0 ==> r == -1 && *final(kernel) == *old(kernel),
{
    let old_brk = change_program_brk(kernel, size);
    match old_brk {
        Some(b) => {
            proof {
                assert(b <= BRK_CEILING);
            }
            b as isize
        },
        None => -1,
    }
}

} // verus!
