//! The task control block: per-task state and lifecycle. Tasks live in a
//! kernel-owned slab and refer to each other by slab index; the parent link
//! is a back-reference (absent only for the init task) and a task's children
//! list owns its children in insertion order.

use vstd::prelude::*;
use crate::context::TaskContext;
use crate::mem::MemorySet;
use crate::{BRK_CEILING, MAX_SYSCALL_NUM};

verus! {

/// Lifecycle status of a task.
#[derive(Clone, Copy, PartialEq, Eq, Structural, Debug)]
pub enum TaskStatus {
    /// Runnable and waiting in the ready queue.
    Ready,
    /// Assigned to the hart and executing.
    Running,
    /// Exited; retained so the parent can observe the exit code.
    Zombie,
}

/// Per-task state: identity, saved contexts, address space, process links,
/// accounting and scheduling weight.
pub struct TaskControlBlock {
    /// Unique external identifier of the task.
    pub pid: usize,
    /// Kernel-stack slot owned by the task.
    pub kernel_stack: usize,
    /// First address of the fixed kernel page holding the task's saved
    /// user-mode trap context.
    pub trap_cx_base: usize,
    /// Saved kernel-mode registers for the cooperative switch.
    pub task_cx: TaskContext,
    /// Lifecycle status.
    pub status: TaskStatus,
    /// The task's address space.
    pub memory_set: MemorySet,
    /// Slab index of the parent; absent only for the init task.
    pub parent: Option<usize>,
    /// Slab indices of the children, in insertion order.
    pub children: Vec<usize>,
    /// Exit code recorded when the task exits.
    pub exit_code: i32,
    /// Per-syscall counters, indexed by syscall id.
    pub syscall_stats: Vec<u32>,
    /// Accumulated stride; the smallest stride is dispatched next.
    pub stride: u64,
    /// Stride increment per dispatch, derived from the task's priority.
    pub pass: u64,
    /// Current heap boundary of the task.
    pub program_brk: usize,
    /// Fixed floor of the heap; `program_brk` never moves below it.
    pub heap_bottom: usize,
}

impl TaskControlBlock {
    /// Well-formedness of one task record.
    pub open spec fn wf(self) -> bool {
        &&& self.memory_set.wf()
        &&& self.syscall_stats@.len() == MAX_SYSCALL_NUM
        &&& self.heap_bottom <= self.program_brk <= BRK_CEILING
        &&& self.pass >= 1
    }
}

/// The fields of a task that no lifecycle operation ever rewrites after the
/// task is built.
pub open spec fn tcb_eq_core(a: TaskControlBlock, b: TaskControlBlock) -> bool {
    &&& a.pid == b.pid
    &&& a.kernel_stack == b.kernel_stack
    &&& a.trap_cx_base == b.trap_cx_base
    &&& a.task_cx == b.task_cx
    &&& a.pass == b.pass
    &&& a.heap_bottom == b.heap_bottom
}

/// Two task records that agree everywhere except possibly the status.
pub open spec fn tcb_eq_mod_status(a: TaskControlBlock, b: TaskControlBlock) -> bool {
    &&& tcb_eq_core(a, b)
    &&& a.memory_set == b.memory_set
    &&& a.parent == b.parent
    &&& a.children == b.children
    &&& a.exit_code == b.exit_code
    &&& a.syscall_stats == b.syscall_stats
    &&& a.stride == b.stride
    &&& a.program_brk == b.program_brk
}

/// Two task records that agree everywhere except possibly status and stride.
pub open spec fn tcb_eq_mod_sched(a: TaskControlBlock, b: TaskControlBlock) -> bool {
    &&& tcb_eq_core(a, b)
    &&& a.memory_set == b.memory_set
    &&& a.parent == b.parent
    &&& a.children == b.children
    &&& a.exit_code == b.exit_code
    &&& a.syscall_stats == b.syscall_stats
    &&& a.program_brk == b.program_brk
}

/// Two task records that agree everywhere except possibly the children list.
pub open spec fn tcb_eq_mod_children(a: TaskControlBlock, b: TaskControlBlock) -> bool {
    &&& tcb_eq_core(a, b)
    &&& a.memory_set == b.memory_set
    &&& a.parent == b.parent
    &&& a.status == b.status
    &&& a.exit_code == b.exit_code
    &&& a.syscall_stats == b.syscall_stats
    &&& a.stride == b.stride
    &&& a.program_brk == b.program_brk
}

/// Two task records that agree everywhere except possibly the parent link.
pub open spec fn tcb_eq_mod_parent(a: TaskControlBlock, b: TaskControlBlock) -> bool {
    &&& tcb_eq_core(a, b)
    &&& a.memory_set == b.memory_set
    &&& a.status == b.status
    &&& a.children == b.children
    &&& a.exit_code == b.exit_code
    &&& a.syscall_stats == b.syscall_stats
    &&& a.stride == b.stride
    &&& a.program_brk == b.program_brk
}

/// Two task records that agree everywhere except possibly the syscall
/// counters.
pub open spec fn tcb_eq_mod_stats(a: TaskControlBlock, b: TaskControlBlock) -> bool {
    &&& tcb_eq_core(a, b)
    &&& a.memory_set == b.memory_set
    &&& a.parent == b.parent
    &&& a.status == b.status
    &&& a.children == b.children
    &&& a.exit_code == b.exit_code
    &&& a.stride == b.stride
    &&& a.program_brk == b.program_brk
}

/// Two task records that agree everywhere except possibly the mapped areas.
pub open spec fn tcb_eq_mod_mm(a: TaskControlBlock, b: TaskControlBlock) -> bool {
    &&& tcb_eq_core(a, b)
    &&& a.parent == b.parent
    &&& a.status == b.status
    &&& a.children == b.children
    &&& a.exit_code == b.exit_code
    &&& a.syscall_stats == b.syscall_stats
    &&& a.stride == b.stride
    &&& a.program_brk == b.program_brk
}

/// Two task records that agree everywhere except possibly the heap boundary.
pub open spec fn tcb_eq_mod_brk(a: TaskControlBlock, b: TaskControlBlock) -> bool {
    &&& a.pid == b.pid
    &&& a.kernel_stack == b.kernel_stack
    &&& a.trap_cx_base == b.trap_cx_base
    &&& a.task_cx == b.task_cx
    &&& a.pass == b.pass
    &&& a.heap_bottom == b.heap_bottom
    &&& a.memory_set == b.memory_set
    &&& a.parent == b.parent
    &&& a.status == b.status
    &&& a.children == b.children
    &&& a.exit_code == b.exit_code
    &&& a.syscall_stats == b.syscall_stats
    &&& a.stride == b.stride
}

/// Two task records that agree everywhere except possibly status, exit code,
/// children and mapped areas: the fields the exit path rewrites.
pub open spec fn tcb_eq_mod_exit(a: TaskControlBlock, b: TaskControlBlock) -> bool {
    &&& tcb_eq_core(a, b)
    &&& a.parent == b.parent
    &&& a.syscall_stats == b.syscall_stats
    &&& a.stride == b.stride
    &&& a.program_brk == b.program_brk
}

} // verus!
