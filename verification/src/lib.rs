//! Process and task management core of a small cooperative teaching kernel:
//! identifier allocators, task control blocks, the ready queue with FIFO and
//! stride dispatch, the single-hart processor state, and the syscall-facing
//! mmap/munmap/brk lifecycle.

use vstd::prelude::*;

pub mod context;
pub mod id;
pub mod kernel;
pub mod manager;
pub mod mem;
pub mod syscall;
pub mod task;

verus! {

/// Size in bytes of one page of virtual memory.
pub const PAGE_SIZE: usize = 4096;

/// Number of distinct syscall ids tracked by the per-task counters.
pub const MAX_SYSCALL_NUM: usize = 500;

/// Largest heap boundary a task may reach; keeps `brk` representable as a
/// non-negative `isize` at the syscall boundary.
pub const BRK_CEILING: usize = 0x7fff_ffff;

} // verus!
