//! Saved kernel-mode execution state for the cooperative switch: the return
//! address, the stack pointer and the twelve callee-saved registers. It holds
//! no user-mode state; that lives in the trap-context page.

use vstd::prelude::*;

verus! {

/// Saved kernel-mode registers of a suspended task.
#[derive(Clone, Copy, PartialEq, Eq, Debug)]
pub struct TaskContext {
    /// Return address: where execution resumes on switch-in.
    pub ra: usize,
    /// Kernel stack pointer.
    pub sp: usize,
    /// Callee-saved registers.
    pub s: [usize; 12],
}

impl TaskContext {
    /// A context with every register zeroed; used as a throwaway save slot.
    pub fn zero_init() -> (r: Self)
        ensures
            r.ra == 0,
            r.sp == 0,
            forall|i: int| 0 <= i < 12 ==> r.s[i] == 0,
    {
        TaskContext { ra: 0, sp: 0, s: [0; 12] }
    }

    /// A context that resumes at `entry` on the kernel stack whose top is
    /// `kstack_top`; used when a freshly built task is first switched in.
    pub fn goto_entry(entry: usize, kstack_top: usize) -> (r: Self)
        ensures
            r.ra == entry,
            r.sp == kstack_top,
            forall|i: int| 0 <= i < 12 ==> r.s[i] == 0,
    {
        TaskContext { ra: entry, sp: kstack_top, s: [0; 12] }
    }
}

} // verus!
