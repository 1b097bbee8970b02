//! The kernel-wide task state: the slab of task control blocks, the ready
//! queue, the single hart's current-task slot and idle context, and the two
//! id allocators. A bare-metal build would keep these as guarded global
//! singletons; here they are one explicitly constructed service handle,
//! created once at kernel start and threaded through the syscall boundary.

use vstd::prelude::*;
use crate::context::TaskContext;
use crate::id::{kernel_stack_position, RecycleAllocator, KERNEL_STACK_SIZE, KERNEL_STACK_TOP_LIMIT};
use crate::manager::TaskManager;
use crate::mem::{MapArea, MemorySet, PERM_R, PERM_U, PERM_W, PERM_X};
use crate::task::{tcb_eq_mod_status, TaskControlBlock, TaskStatus};
use crate::{MAX_SYSCALL_NUM, PAGE_SIZE};

verus! {

/// Stride increment used for tasks created without an explicit weight.
pub const DEFAULT_PASS: u64 = 8;

/// Largest number of tasks the kernel-stack layout can hold.
pub const MAX_TASKS: usize = 349525;

/// The single-hart kernel state: every manager the task core needs, as one
/// explicitly constructed handle.
pub struct Kernel {
    /// Slab of all task control blocks; a task is named by its slab index.
    /// The init task is index 0 and is never destroyed.
    pub tasks: Vec<TaskControlBlock>,
    /// The scheduler's ready queue.
    pub manager: TaskManager,
    /// Slab index of the task assigned to the hart, if any.
    pub current: Option<usize>,
    /// Saved context of the idle control flow that drives the dispatch loop.
    pub idle_cx: TaskContext,
    /// Allocator of process identifiers.
    pub pid_allocator: RecycleAllocator,
    /// Allocator of kernel-stack slots.
    pub kstack_allocator: RecycleAllocator,
}

impl Kernel {
    /// The slab index held in `current`; meaningful only when a task is
    /// assigned.
    pub open spec fn cur(self) -> int {
        (self.current->0) as int
    }

    /// The kernel-wide invariant: a valid process tree rooted at init, unique
    /// identifiers, a sound ready queue, and at most one running task.
    pub open spec fn wf(self) -> bool {
        &&& 1 <= self.tasks@.len() <= MAX_TASKS
        // init is the root: pid 0, no parent
        &&& self.tasks@[0].pid == 0
        &&& self.tasks@[0].parent is None
        // every other task has a parent that was created before it (no cycles)
        &&& forall|i: int|
            1 <= i < self.tasks@.len() ==> (#[trigger] self.tasks@[i].parent) is Some
                && 0 <= ((self.tasks@[i].parent->0) as int) < i
        // every task record is well-formed
        &&& forall|i: int| 0 <= i < self.tasks@.len() ==> (#[trigger] self.tasks@[i]).wf()
        // children lists hold valid tasks whose parent link points back
        &&& forall|i: int, k: int| #![trigger self.tasks@[i].children@[k]]
            0 <= i < self.tasks@.len() && 0 <= k < self.tasks@[i].children@.len() ==> 1 <= (
            self.tasks@[i].children@[k] as int) < self.tasks@.len()
                && self.tasks@[self.tasks@[i].children@[k] as int].parent == Some(i as usize)
        // no child is listed twice
        &&& forall|i: int, k1: int, k2: int|
            #![trigger self.tasks@[i].children@[k1], self.tasks@[i].children@[k2]]
            0 <= i < self.tasks@.len() && 0 <= k1 < k2 < self.tasks@[i].children@.len()
                ==> self.tasks@[i].children@[k1] != self.tasks@[i].children@[k2]
        // identifier allocators are sound and cover the live ids
        &&& self.pid_allocator.wf()
        &&& self.kstack_allocator.wf()
        &&& self.pid_allocator.current <= self.tasks@.len()
        &&& self.kstack_allocator.current <= self.tasks@.len()
        &&& forall|i: int|
            0 <= i < self.tasks@.len() ==> self.pid_allocator.spec_allocated(
                (#[trigger] self.tasks@[i]).pid,
            )
        &&& forall|i: int, j: int| #![trigger self.tasks@[i].pid, self.tasks@[j].pid]
            0 <= i < j < self.tasks@.len() ==> self.tasks@[i].pid != self.tasks@[j].pid
        &&& forall|i: int|
            0 <= i < self.tasks@.len() ==> self.kstack_allocator.spec_allocated(
                (#[trigger] self.tasks@[i]).kernel_stack,
            )
        &&& forall|i: int, j: int| #![trigger self.tasks@[i].kernel_stack, self.tasks@[j].kernel_stack]
            0 <= i < j < self.tasks@.len() ==> self.tasks@[i].kernel_stack
                != self.tasks@[j].kernel_stack
        // the assigned task, if any, is valid and marked Running
        &&& self.current is Some ==> 0 <= self.cur() < self.tasks@.len()
            && self.tasks@[self.cur()].status == TaskStatus::Running
        // at most one task is Running at any instant (single hart)
        &&& forall|i: int, j: int| #![trigger self.tasks@[i].status, self.tasks@[j].status]
            0 <= i < self.tasks@.len() && 0 <= j < self.tasks@.len() && self.tasks@[i].status
                == TaskStatus::Running && self.tasks@[j].status == TaskStatus::Running ==> i == j
        // queued tasks are valid, Ready, and never enqueued twice
        &&& forall|k: int|
            0 <= k < self.manager.ready_queue@.len() ==> 0 <= ((
            #[trigger] self.manager.ready_queue@[k]) as int) < self.tasks@.len()
                && self.tasks@[self.manager.ready_queue@[k] as int].status == TaskStatus::Ready
        &&& forall|k1: int, k2: int|
            #![trigger self.manager.ready_queue@[k1], self.manager.ready_queue@[k2]]
            0 <= k1 < k2 < self.manager.ready_queue@.len() ==> self.manager.ready_queue@[k1]
                != self.manager.ready_queue@[k2]
    }

    /// A kernel holding only the freshly built init task (pid 0), with
    /// nothing queued and nothing assigned to the hart.
    pub fn new() -> (k: Kernel)
        ensures
            k.wf(),
            k.tasks@.len() == 1,
            k.tasks@[0].pid == 0,
            k.tasks@[0].status == TaskStatus::Ready,
            k.tasks@[0].children@.len() == 0,
            k.tasks@[0].stride == 0,
            k.tasks@[0].pass == DEFAULT_PASS,
            k.tasks@[0].program_brk == 0,
            k.tasks@[0].heap_bottom == 0,
            k.tasks@[0].memory_set.areas@.len() == 0,
            forall|s: int| 0 <= s < MAX_SYSCALL_NUM ==> k.tasks@[0].syscall_stats@[s] == 0,
            k.manager.ready_queue@.len() == 0,
            k.current is None,
    {
        let mut pid_allocator = RecycleAllocator::new();
        let mut kstack_allocator = RecycleAllocator::new();
        let ghost pid_pre = pid_allocator;
        let pid = pid_allocator.allocate();
        let ghost ks_pre = kstack_allocator;
        let slot = kstack_allocator.allocate();
        proof {
            if pid != 0 {
                assert(pid_pre.spec_allocated(0));
            }
            if slot != 0 {
                assert(ks_pre.spec_allocated(0));
            }
            assert(pid == 0);
            assert(slot == 0);
        }
        let (_bottom, top) = kernel_stack_position(slot);
        let init = TaskControlBlock {
            pid,
            kernel_stack: slot,
            trap_cx_base: top - PAGE_SIZE,
            task_cx: TaskContext::goto_entry(0, top),
            status: TaskStatus::Ready,
            memory_set: MemorySet::new(),
            parent: None,
            children: Vec::new(),
            exit_code: 0,
            syscall_stats: new_syscall_counters(),
            stride: 0,
            pass: DEFAULT_PASS,
            program_brk: 0,
            heap_bottom: 0,
        };
        let mut tasks: Vec<TaskControlBlock> = Vec::new();
        tasks.push(init);
        let k = Kernel {
            tasks,
            manager: TaskManager::new(),
            current: None,
            idle_cx: TaskContext::zero_init(),
            pid_allocator,
            kstack_allocator,
        };
        k
    }

    /// Builds a new task under `parent` with scheduling weight `pass`: a
    /// fresh pid and kernel-stack slot are allocated, the record is appended
    /// to the slab and to the parent's children list, and the task is
    /// enqueued Ready.
    pub fn spawn_task(&mut self, parent: usize, pass: u64) -> (idx: usize)
        requires
            old(self).wf(),
            (parent as int) < old(self).tasks@.len(),
            pass >= 1,
            old(self).tasks@.len() < MAX_TASKS,
        ensures
            final(self).wf(),
            idx as int == old(self).tasks@.len(),
            final(self).tasks@.len() == old(self).tasks@.len() + 1,
            final(self).tasks@[idx as int].parent == Some(parent),
            final(self).tasks@[idx as int].status == TaskStatus::Ready,
            final(self).tasks@[idx as int].stride == 0,
            final(self).tasks@[idx as int].pass == pass,
            final(self).tasks@[idx as int].children@.len() == 0,
            final(self).tasks@[idx as int].exit_code == 0,
            final(self).tasks@[idx as int].program_brk == 0,
            final(self).tasks@[idx as int].heap_bottom == 0,
            final(self).tasks@[idx as int].memory_set.areas@.len() == 0,
            forall|s: int|
                0 <= s < MAX_SYSCALL_NUM ==> final(self).tasks@[idx as int].syscall_stats@[s] == 0,
            // the new pid is the smallest previously-unused id, so it is
            // distinct from every existing pid
            forall|smaller: usize|
                smaller < final(self).tasks@[idx as int].pid ==> old(self).pid_allocator.spec_allocated(smaller),
            !old(self).pid_allocator.spec_allocated(final(self).tasks@[idx as int].pid),
            forall|i: int|
                0 <= i < old(self).tasks@.len() ==> final(self).tasks@[idx as int].pid != (
                #[trigger] old(self).tasks@[i]).pid,
            // the parent gains exactly this child, at the end of its list
            final(self).tasks@[parent as int].children@ == old(self).tasks@[parent as int].children@.push(idx),
            crate::task::tcb_eq_mod_children(
                final(self).tasks@[parent as int],
                old(self).tasks@[parent as int],
            ),
            // every other task is untouched
            forall|i: int|
                0 <= i < old(self).tasks@.len() && i != parent ==> final(self).tasks@[i] == (
                #[trigger] old(self).tasks@[i]),
            final(self).manager.ready_queue@ == old(self).manager.ready_queue@.push(idx),
            final(self).current == old(self).current,
    {
        let ghost pre = *self;
        let pid = self.pid_allocator.allocate();
        let slot = self.kstack_allocator.allocate();
        proof {
            // the fresh slot fits the kernel-stack layout
            assert(slot as int <= pre.kstack_allocator.current as int) by {
                if slot > pre.kstack_allocator.current {
                    assert(pre.kstack_allocator.spec_allocated(pre.kstack_allocator.current));
                }
            }
            assert((slot as int) < KERNEL_STACK_TOP_LIMIT as int / ((KERNEL_STACK_SIZE + PAGE_SIZE)
                as int));
        }
        let (_bottom, top) = kernel_stack_position(slot);
        let tcb = TaskControlBlock {
            pid,
            kernel_stack: slot,
            trap_cx_base: top - PAGE_SIZE,
            task_cx: TaskContext::goto_entry(0, top),
            status: TaskStatus::Ready,
            memory_set: MemorySet::new(),
            parent: Some(parent),
            children: Vec::new(),
            exit_code: 0,
            syscall_stats: new_syscall_counters(),
            stride: 0,
            pass,
            program_brk: 0,
            heap_bottom: 0,
        };
        let idx = self.tasks.len();
        self.tasks.push(tcb);
        let parent_tcb = &mut self.tasks[parent];
        parent_tcb.children.push(idx);
        self.manager.add(idx);
        proof {
            let post = *self;
            let n = pre.tasks@.len();
            assert(post.tasks@[parent as int].children@ == pre.tasks@[parent as int].children@.push(
                idx,
            ));
            assert(forall|i: int|
                0 <= i < n && i != parent ==> post.tasks@[i] == (#[trigger] pre.tasks@[i]));
            assert(post.tasks@[idx as int].pid == pid);
            // freshness of the new identifiers against every older task
            assert forall|i: int| 0 <= i < n implies post.tasks@[idx as int].pid != (
                #[trigger] pre.tasks@[i]).pid by {
                assert(pre.pid_allocator.spec_allocated(pre.tasks@[i].pid));
            }
            assert forall|i: int| 0 <= i < n implies post.tasks@[idx as int].kernel_stack != (
                #[trigger] pre.tasks@[i]).kernel_stack by {
                assert(pre.kstack_allocator.spec_allocated(pre.tasks@[i].kernel_stack));
            }
            // the kernel invariant, clause by clause
            assert forall|i: int| 0 <= i < post.tasks@.len() implies (
            #[trigger] post.tasks@[i]).wf() by {
                if i < n && i != parent {
                    assert(post.tasks@[i] == pre.tasks@[i]);
                }
            }
            assert forall|i: int, k: int|
                #![trigger post.tasks@[i].children@[k]]
                0 <= i < post.tasks@.len() && 0 <= k < post.tasks@[i].children@.len() implies 1 <= (
            post.tasks@[i].children@[k] as int) < post.tasks@.len()
                && post.tasks@[post.tasks@[i].children@[k] as int].parent == Some(i as usize) by {
                if i == parent && k == pre.tasks@[parent as int].children@.len() {
                    assert(post.tasks@[i].children@[k] == idx);
                } else if i < n {
                    assert(pre.tasks@[i].children@[k] == post.tasks@[i].children@[k]);
                    let c = pre.tasks@[i].children@[k] as int;
                    assert(1 <= c < n);
                    assert(pre.tasks@[c].parent == Some(i as usize));
                    assert(c != parent ==> post.tasks@[c] == pre.tasks@[c]);
                }
            }
            assert forall|i: int|
                0 <= i < post.tasks@.len() implies post.pid_allocator.spec_allocated(
                (#[trigger] post.tasks@[i]).pid,
            ) by {
                if i < n {
                    assert(pre.pid_allocator.spec_allocated(pre.tasks@[i].pid));
                    assert(pre.tasks@[i].pid == post.tasks@[i].pid);
                }
            }
            assert forall|i: int|
                0 <= i < post.tasks@.len() implies post.kstack_allocator.spec_allocated(
                (#[trigger] post.tasks@[i]).kernel_stack,
            ) by {
                if i < n {
                    assert(pre.kstack_allocator.spec_allocated(pre.tasks@[i].kernel_stack));
                    assert(pre.tasks@[i].kernel_stack == post.tasks@[i].kernel_stack);
                }
            }
            assert forall|i: int, j: int|
                #![trigger post.tasks@[i].pid, post.tasks@[j].pid]
                0 <= i < j < post.tasks@.len() implies post.tasks@[i].pid != post.tasks@[j].pid by {
                if j < n {
                    assert(pre.tasks@[i].pid == post.tasks@[i].pid && pre.tasks@[j].pid
                        == post.tasks@[j].pid);
                } else {
                    assert(pre.pid_allocator.spec_allocated(pre.tasks@[i].pid));
                    assert(pre.tasks@[i].pid == post.tasks@[i].pid);
                }
            }
            assert forall|i: int, j: int|
                #![trigger post.tasks@[i].kernel_stack, post.tasks@[j].kernel_stack]
                0 <= i < j < post.tasks@.len() implies post.tasks@[i].kernel_stack
                != post.tasks@[j].kernel_stack by {
                if j < n {
                    assert(pre.tasks@[i].kernel_stack == post.tasks@[i].kernel_stack
                        && pre.tasks@[j].kernel_stack == post.tasks@[j].kernel_stack);
                } else {
                    assert(pre.kstack_allocator.spec_allocated(pre.tasks@[i].kernel_stack));
                    assert(pre.tasks@[i].kernel_stack == post.tasks@[i].kernel_stack);
                }
            }
            assert forall|k: int|
                0 <= k < post.manager.ready_queue@.len() implies 0 <= ((
            #[trigger] post.manager.ready_queue@[k]) as int) < post.tasks@.len()
                && post.tasks@[post.manager.ready_queue@[k] as int].status == TaskStatus::Ready by {
                if k < pre.manager.ready_queue@.len() {
                    let t = pre.manager.ready_queue@[k] as int;
                    assert(post.manager.ready_queue@[k] == pre.manager.ready_queue@[k]);
                    assert(pre.tasks@[t].status == TaskStatus::Ready);
                    assert(t != parent ==> post.tasks@[t] == pre.tasks@[t]);
                } else {
                    assert(post.manager.ready_queue@[k] == idx);
                }
            }
            assert(post.wf());
        }
        idx
    }

    /// Reaps one exited child of the current task: the earliest-listed child
    /// with pid `child_pid` that is a Zombie is removed from the children
    /// list and its exit code returned, so the retained record is released
    /// by its last owner. Fails with no state change when no such child
    /// exists.
    pub fn wait_child(&mut self, child_pid: usize) -> (r: Option<i32>)
        requires
            old(self).wf(),
            old(self).current is Some,
        ensures
            final(self).wf(),
            r is Some <==> exists|k: int|
                0 <= k < old(self).tasks@[old(self).cur()].children@.len() && old(self).tasks@[(
                #[trigger] old(self).tasks@[old(self).cur()].children@[k]) as int].pid == child_pid
                    && old(self).tasks@[old(self).tasks@[old(self).cur()].children@[k] as int].status
                    == TaskStatus::Zombie,
            r is None ==> *final(self) == *old(self),
            r is Some ==> exists|k: int|
                {
                    &&& 0 <= k < old(self).tasks@[old(self).cur()].children@.len()
                    &&& old(self).tasks@[(#[trigger] old(self).tasks@[old(self).cur()].children@[k]) as int].pid == child_pid
                    &&& old(self).tasks@[old(self).tasks@[old(self).cur()].children@[k] as int].status
                        == TaskStatus::Zombie
                    &&& r == Some(
                        old(self).tasks@[old(self).tasks@[old(self).cur()].children@[k] as int].exit_code,
                    )
                    &&& final(self).tasks@[old(self).cur()].children@ == old(self).tasks@[old(self).cur()].children@.remove(k)
                    &&& crate::task::tcb_eq_mod_children(
                        final(self).tasks@[old(self).cur()],
                        old(self).tasks@[old(self).cur()],
                    )
                    &&& forall|i: int|
                        0 <= i < old(self).tasks@.len() && i != old(self).cur() ==> final(self).tasks@[i] == (#[trigger] old(self).tasks@[i])
                    &&& final(self).manager == old(self).manager
                    &&& final(self).current == old(self).current
                },
    {
        let t = self.current.unwrap();
        let n = self.tasks[t].children.len();
        let mut k: usize = 0;
        let mut found: Option<usize> = None;
        while k < n
            invariant
                old(self).wf(),
                self == old(self),
                old(self).current is Some,
                t == old(self).current->0,
                (t as int) < self.tasks@.len(),
                n == self.tasks@[t as int].children@.len(),
                k <= n,
                found is None ==> forall|j: int|
                    0 <= j < k ==> !(self.tasks@[(#[trigger] self.tasks@[t as int].children@[j])
                        as int].pid == child_pid && self.tasks@[self.tasks@[t as int].children@[j]
                        as int].status == TaskStatus::Zombie),
                found is Some ==> 0 <= ((found->0) as int) < n && self.tasks@[self.tasks@[t as int].children@[(
                    found->0) as int] as int].pid == child_pid
                    && self.tasks@[self.tasks@[t as int].children@[(found->0) as int] as int].status
                    == TaskStatus::Zombie,
            decreases n - k,
        {
            let c = self.tasks[t].children[k];
            proof {
                assert(1 <= (self.tasks@[t as int].children@[k as int] as int)
                    < self.tasks@.len());
            }
            if found.is_none() && self.tasks[c].pid == child_pid && self.tasks[c].status
                == TaskStatus::Zombie {
                found = Some(k);
            }
            k = k + 1;
        }
        match found {
            None => None,
            Some(pos) => {
                let c = self.tasks[t].children[pos];
                let code = self.tasks[c].exit_code;
                let tb = &mut self.tasks[t];
                tb.children.remove(pos);
                proof {
                    let pre = *old(self);
                    let post = *self;
                    let ti = t as int;
                    let kids = pre.tasks@[ti].children@;
                    assert(post.tasks@[ti].children@ == kids.remove(pos as int));
                    assert forall|i: int, k: int|
                        #![trigger post.tasks@[i].children@[k]]
                        0 <= i < post.tasks@.len() && 0 <= k < post.tasks@[i].children@.len()
                            implies 1 <= (post.tasks@[i].children@[k] as int) < post.tasks@.len()
                        && post.tasks@[post.tasks@[i].children@[k] as int].parent == Some(
                        i as usize,
                    ) by {
                        if i == ti {
                            let e = post.tasks@[ti].children@[k];
                            if k < pos {
                                assert(e == kids[k]);
                            } else {
                                assert(e == kids[k + 1]);
                            }
                        } else {
                            assert(post.tasks@[i].children == pre.tasks@[i].children);
                            let c2 = pre.tasks@[i].children@[k] as int;
                            assert(pre.tasks@[c2].parent == Some(i as usize));
                            assert(post.tasks@[c2].parent == pre.tasks@[c2].parent);
                        }
                    }
                    assert forall|i: int, k1: int, k2: int|
                        #![trigger post.tasks@[i].children@[k1], post.tasks@[i].children@[k2]]
                        0 <= i < post.tasks@.len() && 0 <= k1 < k2 < post.tasks@[i].children@.len()
                            implies post.tasks@[i].children@[k1] != post.tasks@[i].children@[k2] by {
                        if i == ti {
                            let a: int = if k1 < pos {
                                k1
                            } else {
                                k1 + 1
                            };
                            let b: int = if k2 < pos {
                                k2
                            } else {
                                k2 + 1
                            };
                            assert(post.tasks@[ti].children@[k1] == kids[a]);
                            assert(post.tasks@[ti].children@[k2] == kids[b]);
                        } else {
                            assert(post.tasks@[i].children == pre.tasks@[i].children);
                        }
                    }
                    assert forall|k: int|
                        0 <= k < post.manager.ready_queue@.len() implies 0 <= ((
                    #[trigger] post.manager.ready_queue@[k]) as int) < post.tasks@.len()
                        && post.tasks@[post.manager.ready_queue@[k] as int].status
                        == TaskStatus::Ready by {
                        let q = pre.manager.ready_queue@[k] as int;
                        assert(pre.tasks@[q].status == TaskStatus::Ready);
                        assert(post.tasks@[q].status == pre.tasks@[q].status);
                    }
                    assert forall|i: int| 0 <= i < post.tasks@.len() implies (
                    #[trigger] post.tasks@[i]).wf() by {
                        if i != ti {
                            assert(post.tasks@[i] == pre.tasks@[i]);
                        }
                    }
                    assert(post.wf());
                }
                Some(code)
            },
        }
    }

    /// Returns the currently assigned task without detaching it; inspection
    /// only.
    pub fn current_task(&self) -> (r: Option<usize>)
        ensures
            r == self.current,
    {
        self.current
    }

    /// Detaches and returns the currently assigned task, leaving none
    /// assigned, so no two callers can observe it as current at once.
    pub fn take_current_task(&mut self) -> (r: Option<usize>)
        requires
            old(self).wf(),
        ensures
            final(self).wf(),
            r == old(self).current,
            final(self).current is None,
            final(self).tasks == old(self).tasks,
            final(self).manager == old(self).manager,
            final(self).pid_allocator == old(self).pid_allocator,
            final(self).kstack_allocator == old(self).kstack_allocator,
            final(self).idle_cx == old(self).idle_cx,
    {
        let r = self.current;
        self.current = None;
        r
    }

    /// One round of the idle loop: fetch a ready task under `policy`, mark
    /// it Running, assign it to the hart, and — under stride dispatch —
    /// charge its pass to its stride. Returns the dispatched task, or
    /// nothing when the ready queue is empty (with no task running either,
    /// that is the fatal ready-queue-exhaustion condition, left to the
    /// caller of the loop). The actual switch into the task's saved context
    /// is the platform boundary outside this model.
    pub fn run_next_task(&mut self, policy: SchedulePolicy) -> (r: Option<usize>)
        requires
            old(self).wf(),
            old(self).current is None,
            forall|i: int|
                0 <= i < old(self).tasks@.len() ==> (#[trigger] old(self).tasks@[i]).status
                    != TaskStatus::Running,
        ensures
            final(self).wf(),
            r is None <==> old(self).manager.ready_queue@.len() == 0,
            r is None ==> *final(self) == *old(self),
            r is Some ==> {
                &&& 0 <= ((r->0) as int) < old(self).tasks@.len()
                &&& final(self).current == r
                &&& final(self).tasks@.len() == old(self).tasks@.len()
                &&& old(self).tasks@[(r->0) as int].status == TaskStatus::Ready
                &&& final(self).tasks@[(r->0) as int].status == TaskStatus::Running
                &&& crate::task::tcb_eq_mod_sched(
                    final(self).tasks@[(r->0) as int],
                    old(self).tasks@[(r->0) as int],
                )
                &&& forall|i: int|
                    0 <= i < old(self).tasks@.len() && i != ((r->0) as int) ==> final(self).tasks@[i] == (#[trigger] old(self).tasks@[i])
                // a dispatched task's stride never decreases
                &&& final(self).tasks@[(r->0) as int].stride >= old(self).tasks@[(r->0) as int].stride
                &&& (policy is Fifo ==> final(self).tasks@[(r->0) as int].stride == old(self).tasks@[(r->0) as int].stride)
                &&& (policy is Stride ==> final(self).tasks@[(r->0) as int].stride
                    == spec_stride_after(
                    old(self).tasks@[(r->0) as int].stride,
                    old(self).tasks@[(r->0) as int].pass,
                ))
                // FIFO takes the earliest-enqueued task
                &&& (policy is Fifo ==> r == Some(old(self).manager.ready_queue@[0]) && final(self).manager.ready_queue@ == old(self).manager.ready_queue@.drop_first())
                // stride dispatch takes the task with the smallest stride,
                // earliest queue position on ties
                &&& (policy is Stride ==> exists|pos: int|
                    #![trigger old(self).manager.ready_queue@.remove(pos)]
                    {
                        &&& 0 <= pos < old(self).manager.ready_queue@.len()
                        &&& r == Some(old(self).manager.ready_queue@[pos])
                        &&& final(self).manager.ready_queue@ == old(self).manager.ready_queue@.remove(pos)
                        &&& forall|k: int|
                            0 <= k < old(self).manager.ready_queue@.len() ==> old(self).tasks@[old(self).manager.ready_queue@[pos] as int].stride <= old(self).tasks@[(
                            #[trigger] old(self).manager.ready_queue@[k]) as int].stride
                        &&& forall|k: int|
                            0 <= k < pos ==> old(self).tasks@[(#[trigger] old(self).manager.ready_queue@[k]) as int].stride > old(self).tasks@[old(self).manager.ready_queue@[pos] as int].stride
                    })
            },
    {
        let fetched = match policy {
            SchedulePolicy::Fifo => self.manager.fetch(),
            SchedulePolicy::Stride => self.manager.fetch_with_min_stride(&self.tasks),
        };
        match fetched {
            None => None,
            Some(t) => {
                proof {
                    if policy is Stride {
                        let q = old(self).manager.ready_queue@;
                        let pos = choose|pos: int|
                            #![trigger q.remove(pos)]
                            {
                                &&& 0 <= pos < q.len()
                                &&& Some(t) == Some(q[pos])
                                &&& self.manager.ready_queue@ == q.remove(pos)
                                &&& forall|k: int|
                                    0 <= k < q.len() ==> old(self).tasks@[q[pos] as int].stride
                                        <= old(self).tasks@[(#[trigger] q[k]) as int].stride
                                &&& forall|k: int|
                                    0 <= k < pos ==> old(self).tasks@[(#[trigger] q[k]) as int].stride
                                        > old(self).tasks@[q[pos] as int].stride
                            };
                        assert(t == q[pos]);
                        assert((t as int) < old(self).tasks@.len());
                        assert(old(self).tasks@[t as int].status == TaskStatus::Ready);
                        assert forall|k: int|
                            0 <= k < self.manager.ready_queue@.len() implies (
                        #[trigger] self.manager.ready_queue@[k]) != t by {
                            if k < pos {
                                assert(self.manager.ready_queue@[k] == q[k]);
                            } else {
                                assert(self.manager.ready_queue@[k] == q[k + 1]);
                            }
                        }
                    } else {
                        let q = old(self).manager.ready_queue@;
                        assert(t == q[0]);
                        assert(old(self).tasks@[t as int].status == TaskStatus::Ready);
                        assert forall|k: int|
                            0 <= k < self.manager.ready_queue@.len() implies (
                        #[trigger] self.manager.ready_queue@[k]) != t by {
                            assert(self.manager.ready_queue@[k] == q[k + 1]);
                        }
                    }
                }
                let tb = &mut self.tasks[t];
                tb.status = TaskStatus::Running;
                match policy {
                    SchedulePolicy::Fifo => {},
                    SchedulePolicy::Stride => {
                        if tb.stride <= u64::MAX - tb.pass {
                            tb.stride = tb.stride + tb.pass;
                        } else {
                            tb.stride = u64::MAX;
                        }
                    },
                }
                self.current = Some(t);
                proof {
                    let pre = *old(self);
                    let post = *self;
                    let ti = t as int;
                    assert forall|i: int| 0 <= i < post.tasks@.len() implies (
                    #[trigger] post.tasks@[i]).wf() by {
                        if i != ti {
                            assert(post.tasks@[i] == pre.tasks@[i]);
                        }
                    }
                    assert forall|i: int, k: int|
                        #![trigger post.tasks@[i].children@[k]]
                        0 <= i < post.tasks@.len() && 0 <= k < post.tasks@[i].children@.len()
                            implies 1 <= (post.tasks@[i].children@[k] as int) < post.tasks@.len()
                        && post.tasks@[post.tasks@[i].children@[k] as int].parent == Some(
                        i as usize,
                    ) by {
                        assert(post.tasks@[i].children == pre.tasks@[i].children);
                        let c = pre.tasks@[i].children@[k] as int;
                        assert(pre.tasks@[c].parent == Some(i as usize));
                        assert(post.tasks@[c].parent == pre.tasks@[c].parent);
                    }
                    assert forall|k: int|
                        0 <= k < post.manager.ready_queue@.len() implies 0 <= ((
                    #[trigger] post.manager.ready_queue@[k]) as int) < post.tasks@.len()
                        && post.tasks@[post.manager.ready_queue@[k] as int].status
                        == TaskStatus::Ready by {
                        let q = pre.manager.ready_queue@;
                        if policy is Fifo {
                            assert(post.manager.ready_queue@[k] == q[k + 1]);
                            assert(pre.tasks@[q[k + 1] as int].status == TaskStatus::Ready);
                        } else {
                            assert(exists|j: int|
                                0 <= j < q.len() && #[trigger] q[j]
                                    == post.manager.ready_queue@[k]) by {
                                let pos = choose|pos: int|
                                    #![trigger q.remove(pos)]
                                    0 <= pos < q.len() && post.manager.ready_queue@ == q.remove(
                                        pos,
                                    );
                                if k < pos {
                                    assert(q[k] == post.manager.ready_queue@[k]);
                                } else {
                                    assert(q[k + 1] == post.manager.ready_queue@[k]);
                                }
                            }
                            let j = choose|j: int|
                                0 <= j < q.len() && #[trigger] q[j] == post.manager.ready_queue@[k];
                            assert(pre.tasks@[q[j] as int].status == TaskStatus::Ready);
                        }
                    }
                    assert(post.wf());
                }
                Some(t)
            },
        }
    }
}

/// Which dispatch policy the idle loop runs with.
#[derive(Clone, Copy, PartialEq, Eq, Structural, Debug)]
pub enum SchedulePolicy {
    /// Dispatch the earliest-enqueued ready task.
    Fifo,
    /// Dispatch the ready task with the smallest stride.
    Stride,
}

/// The stride a task carries after one dispatch: its pass is added,
/// saturating at the top of the counter, so a stride never decreases.
pub open spec fn spec_stride_after(stride: u64, pass: u64) -> u64 {
    if stride + pass > u64::MAX {
        u64::MAX
    } else {
        (stride + pass) as u64
    }
}

/// Whether `a` is a page-aligned address.
pub open spec fn page_aligned(a: usize) -> bool {
    a as int % PAGE_SIZE as int == 0
}

/// Whether `prot` carries at least one of the read/write/execute bits and
/// nothing outside them.
pub open spec fn prot_valid(prot: usize) -> bool {
    prot & !0x7usize == 0 && prot & 0x7 != 0
}

/// The smallest page boundary at or above `x`.
pub open spec fn round_up_to_page(x: int) -> int {
    if x % (PAGE_SIZE as int) == 0 {
        x
    } else {
        (x / (PAGE_SIZE as int) + 1) * (PAGE_SIZE as int)
    }
}

/// First address past the page-rounded range a map or unmap request names.
pub open spec fn spec_range_end(start: usize, len: usize) -> int {
    round_up_to_page(start as int + len as int)
}

/// The permission bits of an area made for a mapping request: the user bit
/// plus whichever of read, write and execute `prot` asks for.
pub open spec fn perm_of_prot(prot: usize) -> u8 {
    PERM_U | (if prot & 0x1 == 0x1 {
        PERM_R
    } else {
        0
    }) | (if prot & 0x2 == 0x2 {
        PERM_W
    } else {
        0
    }) | (if prot & 0x4 == 0x4 {
        PERM_X
    } else {
        0
    })
}

/// Whether a mapping request is accepted: `start` page-aligned, `prot`
/// valid, the rounded range representable, and — unless the rounded range is
/// empty — free of any existing mapping of the current task.
pub open spec fn spec_mmap_ok(k: Kernel, start: usize, len: usize, prot: usize) -> bool {
    &&& page_aligned(start)
    &&& prot_valid(prot)
    &&& start + len <= usize::MAX
    &&& spec_range_end(start, len) <= usize::MAX
    &&& (len == 0 || !k.tasks@[k.cur()].memory_set.spec_conflict(
        start,
        spec_range_end(start, len) as usize,
    ))
}

/// Whether an unmapping request is accepted: `start` page-aligned, the
/// rounded range representable and — unless it is empty — exactly tiled by
/// existing mappings of the current task.
pub open spec fn spec_munmap_ok(k: Kernel, start: usize, len: usize) -> bool {
    &&& page_aligned(start)
    &&& start + len <= usize::MAX
    &&& spec_range_end(start, len) <= usize::MAX
    &&& (len == 0 || k.tasks@[k.cur()].memory_set.spec_exactly_covered(
        start,
        spec_range_end(start, len) as usize,
    ))
}

/// Suspends the current Running task: it is marked Ready and re-enqueued,
/// and the hart is left idle. The reciprocal switch back into the idle
/// context is the platform boundary outside this model.
pub fn suspend_current_and_run_next(kernel: &mut Kernel)
    requires
        old(kernel).wf(),
        old(kernel).current is Some,
    ensures
        final(kernel).wf(),
        final(kernel).current is None,
        final(kernel).tasks@.len() == old(kernel).tasks@.len(),
        tcb_eq_mod_status(
            final(kernel).tasks@[old(kernel).cur()],
            old(kernel).tasks@[old(kernel).cur()],
        ),
        final(kernel).tasks@[old(kernel).cur()].status == TaskStatus::Ready,
        forall|i: int|
            0 <= i < old(kernel).tasks@.len() && i != old(kernel).cur() ==> final(kernel).tasks@[i] == (#[trigger] old(kernel).tasks@[i]),
        final(kernel).manager.ready_queue@ == old(kernel).manager.ready_queue@.push(
            old(kernel).current->0,
        ),
        forall|i: int|
            0 <= i < final(kernel).tasks@.len() ==> (#[trigger] final(kernel).tasks@[i]).status
                != TaskStatus::Running,
        final(kernel).pid_allocator == old(kernel).pid_allocator,
        final(kernel).kstack_allocator == old(kernel).kstack_allocator,
        final(kernel).idle_cx == old(kernel).idle_cx,
{
    let t = kernel.current.unwrap();
    kernel.current = None;
    let tb = &mut kernel.tasks[t];
    tb.status = TaskStatus::Ready;
    kernel.manager.add(t);
    proof {
        let pre = *old(kernel);
        let post = *kernel;
        let ti = t as int;
        assert forall|i: int|
            0 <= i < post.tasks@.len() implies (#[trigger] post.tasks@[i]).status
            != TaskStatus::Running by {
            if i != ti {
                assert(post.tasks@[i] == pre.tasks@[i]);
                assert(pre.tasks@[ti].status == TaskStatus::Running);
            }
        }
        assert forall|k: int|
            0 <= k < post.manager.ready_queue@.len() implies 0 <= ((
        #[trigger] post.manager.ready_queue@[k]) as int) < post.tasks@.len()
            && post.tasks@[post.manager.ready_queue@[k] as int].status == TaskStatus::Ready by {
            if k < pre.manager.ready_queue@.len() {
                let q = pre.manager.ready_queue@[k] as int;
                assert(pre.tasks@[q].status == TaskStatus::Ready);
                assert(q != ti);
            } else {
                assert(post.manager.ready_queue@[k] == t);
            }
        }
        assert forall|k1: int, k2: int|
            #![trigger post.manager.ready_queue@[k1], post.manager.ready_queue@[k2]]
            0 <= k1 < k2 < post.manager.ready_queue@.len() implies post.manager.ready_queue@[k1]
            != post.manager.ready_queue@[k2] by {
            if k2 == pre.manager.ready_queue@.len() {
                let q = pre.manager.ready_queue@[k1] as int;
                assert(pre.tasks@[q].status == TaskStatus::Ready);
            }
        }
        assert forall|i: int| 0 <= i < post.tasks@.len() implies (
        #[trigger] post.tasks@[i]).wf() by {
            if i != ti {
                assert(post.tasks@[i] == pre.tasks@[i]);
            }
        }
        assert forall|i: int, k: int|
            #![trigger post.tasks@[i].children@[k]]
            0 <= i < post.tasks@.len() && 0 <= k < post.tasks@[i].children@.len() implies 1 <= (
        post.tasks@[i].children@[k] as int) < post.tasks@.len()
            && post.tasks@[post.tasks@[i].children@[k] as int].parent == Some(i as usize) by {
            assert(post.tasks@[i].children == pre.tasks@[i].children);
            let c = pre.tasks@[i].children@[k] as int;
            assert(pre.tasks@[c].parent == Some(i as usize));
            assert(post.tasks@[c].parent == pre.tasks@[c].parent);
        }
        assert(post.wf());
    }
}

/// Exits the current Running task with `exit_code`: it becomes a Zombie, its
/// address space is reclaimed at once, and every child is handed to init —
/// appended to init's children list in order, each exactly once, its parent
/// link rewritten to init. Init itself exiting is a fatal kernel condition
/// and is excluded by contract. Control then belongs to the idle loop.
pub fn exit_current_and_run_next(kernel: &mut Kernel, exit_code: i32)
    requires
        old(kernel).wf(),
        old(kernel).current is Some,
        old(kernel).tasks@[old(kernel).cur()].pid != 0,
    ensures
        final(kernel).wf(),
        final(kernel).current is None,
        final(kernel).tasks@.len() == old(kernel).tasks@.len(),
        old(kernel).cur() != 0,
        crate::task::tcb_eq_mod_exit(
            final(kernel).tasks@[old(kernel).cur()],
            old(kernel).tasks@[old(kernel).cur()],
        ),
        final(kernel).tasks@[old(kernel).cur()].status == TaskStatus::Zombie,
        final(kernel).tasks@[old(kernel).cur()].exit_code == exit_code,
        final(kernel).tasks@[old(kernel).cur()].children@.len() == 0,
        final(kernel).tasks@[old(kernel).cur()].memory_set.areas@.len() == 0,
        // init adopts every child of the exiting task, in order, exactly once
        final(kernel).tasks@[0].children@ == old(kernel).tasks@[0].children@ + old(kernel).tasks@[old(kernel).cur()].children@,
        crate::task::tcb_eq_mod_children(final(kernel).tasks@[0], old(kernel).tasks@[0]),
        // each orphan now points at init and is otherwise untouched
        forall|k: int|
            0 <= k < old(kernel).tasks@[old(kernel).cur()].children@.len() ==> crate::task::tcb_eq_mod_parent(
                final(kernel).tasks@[(#[trigger] old(kernel).tasks@[old(kernel).cur()].children@[k]) as int],
                old(kernel).tasks@[old(kernel).tasks@[old(kernel).cur()].children@[k] as int],
            ) && final(kernel).tasks@[old(kernel).tasks@[old(kernel).cur()].children@[k] as int].parent
                == Some(0usize),
        // every task that is not init, the exiting task or one of its
        // children is untouched
        forall|i: int|
            0 <= i < old(kernel).tasks@.len() && i != 0 && i != old(kernel).cur() && !old(kernel).tasks@[old(kernel).cur()].children@.contains(i as usize) ==> final(kernel).tasks@[i] == (#[trigger] old(kernel).tasks@[i]),
        final(kernel).manager == old(kernel).manager,
        forall|i: int|
            0 <= i < final(kernel).tasks@.len() ==> (#[trigger] final(kernel).tasks@[i]).status
                != TaskStatus::Running,
        final(kernel).pid_allocator == old(kernel).pid_allocator,
        final(kernel).kstack_allocator == old(kernel).kstack_allocator,
{
    let t = kernel.current.unwrap();
    kernel.current = None;
    proof {
        if t as int != 0 {
        } else {
            assert(old(kernel).tasks@[0].pid == 0);
        }
        assert(t as int != 0);
    }
    let tb = &mut kernel.tasks[t];
    tb.status = TaskStatus::Zombie;
    tb.exit_code = exit_code;
    tb.memory_set.recycle_data_pages();
    let mut kids: Vec<usize> = Vec::new();
    core::mem::swap(&mut kids, &mut tb.children);
    let ghost mid = *kernel;
    let ghost pre = *old(kernel);
    let ghost ti = t as int;
    proof {
        assert(kids@ == pre.tasks@[ti].children@);
        assert forall|j: int| 0 <= j < kids@.len() implies 1 <= ((#[trigger] kids@[j]) as int)
            < pre.tasks@.len() && pre.tasks@[kids@[j] as int].parent == Some(t) by {
            assert(pre.tasks@[ti].children@[j] == kids@[j]);
        }
    }
    let nkids = kids.len();
    let mut k: usize = 0;
    while k < nkids
        invariant
            pre == *old(kernel),
            pre.wf(),
            pre.current is Some,
            ti == pre.cur(),
            0 < ti < pre.tasks@.len(),
            t as int == ti,
            pre.tasks@[ti].pid != 0,
            nkids == kids@.len(),
            k <= nkids,
            kids@ == pre.tasks@[ti].children@,
            kernel.tasks@.len() == pre.tasks@.len(),
            kernel.current is None,
            kernel.manager == pre.manager,
            kernel.pid_allocator == pre.pid_allocator,
            kernel.kstack_allocator == pre.kstack_allocator,
            kernel.idle_cx == pre.idle_cx,
            // the exiting task's record is fixed for the rest of the loop
            crate::task::tcb_eq_mod_exit(kernel.tasks@[ti], pre.tasks@[ti]),
            kernel.tasks@[ti].status == TaskStatus::Zombie,
            kernel.tasks@[ti].exit_code == exit_code,
            kernel.tasks@[ti].children@.len() == 0,
            kernel.tasks@[ti].memory_set.areas@.len() == 0,
            kernel.tasks@[ti].memory_set.wf(),
            // init has adopted the first k children
            crate::task::tcb_eq_mod_children(kernel.tasks@[0], pre.tasks@[0]),
            kernel.tasks@[0].children@ == pre.tasks@[0].children@ + kids@.take(k as int),
            // processed children point at init, unprocessed are untouched
            forall|j: int|
                0 <= j < k ==> crate::task::tcb_eq_mod_parent(
                    kernel.tasks@[(#[trigger] kids@[j]) as int],
                    pre.tasks@[kids@[j] as int],
                ) && kernel.tasks@[kids@[j] as int].parent == Some(0usize),
            forall|j: int|
                k <= j < nkids ==> kernel.tasks@[(#[trigger] kids@[j]) as int] == pre.tasks@[kids@[j] as int],
            // everything else is untouched
            forall|i: int|
                0 <= i < pre.tasks@.len() && i != 0 && i != ti && !kids@.contains(i as usize)
                    ==> kernel.tasks@[i] == (#[trigger] pre.tasks@[i]),
        decreases nkids - k,
    {
        let c = kids[k];
        proof {
            assert(1 <= ((kids@[k as int]) as int) < pre.tasks@.len() && pre.tasks@[kids@[k as int] as int].parent
                == Some(t)) by {
                assert(pre.tasks@[ti].children@[k as int] == kids@[k as int]);
            }
            assert(c as int != ti) by {
                assert(pre.tasks@[kids@[k as int] as int].parent == Some(t));
                if c as int == ti {
                    assert(((pre.tasks@[ti].parent->0) as int) < ti);
                }
            }
        }
        let cb = &mut kernel.tasks[c];
        cb.parent = Some(0);
        let ib = &mut kernel.tasks[0];
        ib.children.push(c);
        k = k + 1;
        proof {
            assert(kids@.take(k as int) =~= kids@.take(k as int - 1).push(c));
            assert(kernel.tasks@[0].children@ =~= pre.tasks@[0].children@ + kids@.take(k as int));
            assert forall|j: int|
                k <= j < nkids implies kernel.tasks@[(#[trigger] kids@[j]) as int]
                == pre.tasks@[kids@[j] as int] by {
                assert(pre.tasks@[ti].children@[j] == kids@[j]);
                if kids@[j] == c {
                    assert(false);
                }
            }
        }
    }
    proof {
        let post = *kernel;
        assert(kids@.take(nkids as int) =~= kids@);
        assert(post.tasks@[0].children@ == pre.tasks@[0].children@ + kids@);
        // no orphan was already on init's list, so each is adopted once
        assert forall|k1: int, k2: int|
            #![trigger post.tasks@[0].children@[k1], post.tasks@[0].children@[k2]]
            0 <= k1 < k2 < post.tasks@[0].children@.len() implies post.tasks@[0].children@[k1]
            != post.tasks@[0].children@[k2] by {
            let n0 = pre.tasks@[0].children@.len() as int;
            if k1 < n0 && k2 >= n0 {
                let a = pre.tasks@[0].children@[k1] as int;
                let b = kids@[k2 - n0] as int;
                assert(pre.tasks@[a].parent == Some(0usize));
                assert(pre.tasks@[ti].children@[k2 - n0] == kids@[k2 - n0]);
                assert(pre.tasks@[b].parent == Some(t));
            } else if k1 >= n0 {
                assert(pre.tasks@[ti].children@[k1 - n0] == kids@[k1 - n0]);
                assert(pre.tasks@[ti].children@[k2 - n0] == kids@[k2 - n0]);
            }
        }
        // statuses: the hart is idle and nothing is Running
        assert forall|i: int|
            0 <= i < post.tasks@.len() implies (#[trigger] post.tasks@[i]).status
            != TaskStatus::Running by {
            if i != ti {
                assert(pre.tasks@[ti].status == TaskStatus::Running);
                if i != 0 && !kids@.contains(i as usize) {
                    assert(post.tasks@[i] == pre.tasks@[i]);
                } else if i == 0 {
                } else {
                    let j = choose|j: int| 0 <= j < kids@.len() && kids@[j] == i as usize;
                    assert(post.tasks@[i].status == pre.tasks@[i].status);
                }
            }
        }
        // the kernel invariant, clause by clause
        assert forall|i: int| 0 <= i < post.tasks@.len() implies (
        #[trigger] post.tasks@[i]).wf() by {
            assert(post.tasks@[i].syscall_stats == pre.tasks@[i].syscall_stats);
            assert(post.tasks@[i].program_brk == pre.tasks@[i].program_brk);
            assert(post.tasks@[i].heap_bottom == pre.tasks@[i].heap_bottom);
            assert(post.tasks@[i].pass == pre.tasks@[i].pass);
            if i != ti {
                assert(post.tasks@[i].memory_set == pre.tasks@[i].memory_set);
            }
        }
        assert forall|i: int|
            1 <= i < post.tasks@.len() implies (#[trigger] post.tasks@[i].parent) is Some && 0 <= ((
        post.tasks@[i].parent->0) as int) < i by {
            if kids@.contains(i as usize) {
                assert(post.tasks@[i].parent == Some(0usize));
            } else if i != ti {
                assert(post.tasks@[i].parent == pre.tasks@[i].parent);
            } else {
                assert(post.tasks@[ti].parent == pre.tasks@[ti].parent);
            }
        }
        assert forall|i: int, k: int|
            #![trigger post.tasks@[i].children@[k]]
            0 <= i < post.tasks@.len() && 0 <= k < post.tasks@[i].children@.len() implies 1 <= (
        post.tasks@[i].children@[k] as int) < post.tasks@.len()
            && post.tasks@[post.tasks@[i].children@[k] as int].parent == Some(i as usize) by {
            if i == 0 {
                let n0 = pre.tasks@[0].children@.len() as int;
                if k < n0 {
                    let c = pre.tasks@[0].children@[k] as int;
                    assert(pre.tasks@[c].parent == Some(0usize));
                    if c == ti {
                        assert(post.tasks@[ti].parent == pre.tasks@[ti].parent);
                    } else if kids@.contains(c as usize) {
                        let j = choose|j: int| 0 <= j < kids@.len() && kids@[j] == c as usize;
                        assert(pre.tasks@[ti].children@[j] == kids@[j]);
                        assert(pre.tasks@[c].parent == Some(t));
                    } else {
                        assert(post.tasks@[c] == pre.tasks@[c]);
                    }
                } else {
                    let c = kids@[k - n0] as int;
                    assert(post.tasks@[0].children@[k] == kids@[k - n0]);
                    assert(post.tasks@[c].parent == Some(0usize));
                    assert(pre.tasks@[ti].children@[k - n0] == kids@[k - n0]);
                }
            } else if i == ti {
                assert(post.tasks@[ti].children@.len() == 0);
            } else {
                assert(post.tasks@[i].children == pre.tasks@[i].children);
                let c = pre.tasks@[i].children@[k] as int;
                assert(pre.tasks@[c].parent == Some(i as usize));
                if c == ti {
                    assert(post.tasks@[ti].parent == pre.tasks@[ti].parent);
                } else if kids@.contains(c as usize) {
                    let j = choose|j: int| 0 <= j < kids@.len() && kids@[j] == c as usize;
                    assert(pre.tasks@[ti].children@[j] == kids@[j]);
                    assert(pre.tasks@[c].parent == Some(t));
                } else {
                    assert(c != 0);
                    assert(post.tasks@[c] == pre.tasks@[c]);
                }
            }
        }
        assert forall|i: int, k1: int, k2: int|
            #![trigger post.tasks@[i].children@[k1], post.tasks@[i].children@[k2]]
            0 <= i < post.tasks@.len() && 0 <= k1 < k2 < post.tasks@[i].children@.len() implies
            post.tasks@[i].children@[k1] != post.tasks@[i].children@[k2] by {
            if i != 0 && i != ti {
                assert(post.tasks@[i].children == pre.tasks@[i].children);
            }
        }
        assert forall|i: int|
            0 <= i < post.tasks@.len() implies post.pid_allocator.spec_allocated(
            (#[trigger] post.tasks@[i]).pid,
        ) && post.kstack_allocator.spec_allocated(post.tasks@[i].kernel_stack) by {
            assert(post.tasks@[i].pid == pre.tasks@[i].pid);
            assert(post.tasks@[i].kernel_stack == pre.tasks@[i].kernel_stack);
        }
        assert forall|i: int, j: int|
            #![trigger post.tasks@[i].pid, post.tasks@[j].pid]
            0 <= i < j < post.tasks@.len() implies post.tasks@[i].pid != post.tasks@[j].pid by {
            assert(post.tasks@[i].pid == pre.tasks@[i].pid);
            assert(post.tasks@[j].pid == pre.tasks@[j].pid);
        }
        assert forall|i: int, j: int|
            #![trigger post.tasks@[i].kernel_stack, post.tasks@[j].kernel_stack]
            0 <= i < j < post.tasks@.len() implies post.tasks@[i].kernel_stack
            != post.tasks@[j].kernel_stack by {
            assert(post.tasks@[i].kernel_stack == pre.tasks@[i].kernel_stack);
            assert(post.tasks@[j].kernel_stack == pre.tasks@[j].kernel_stack);
        }
        assert forall|k: int|
            0 <= k < post.manager.ready_queue@.len() implies 0 <= ((
        #[trigger] post.manager.ready_queue@[k]) as int) < post.tasks@.len()
            && post.tasks@[post.manager.ready_queue@[k] as int].status == TaskStatus::Ready by {
            let q = pre.manager.ready_queue@[k] as int;
            assert(pre.tasks@[q].status == TaskStatus::Ready);
            assert(post.tasks@[q].status == pre.tasks@[q].status) by {
                assert(q != ti);
                if q != 0 && !kids@.contains(q as usize) {
                    assert(post.tasks@[q] == pre.tasks@[q]);
                } else if q != 0 {
                    let j = choose|j: int| 0 <= j < kids@.len() && kids@[j] == q as usize;
                }
            }
        }
        assert(post.wf());
    }
}

/// Rounding never moves an address down, and always onto a page boundary.
pub proof fn lemma_round_up_to_page(x: int)
    requires
        x >= 0,
    ensures
        round_up_to_page(x) >= x,
        round_up_to_page(x) % (PAGE_SIZE as int) == 0,
{
    if x % (PAGE_SIZE as int) != 0 {
        let p = PAGE_SIZE as int;
        let q = x / p;
        assert(x == p * q + x % p);
        assert(((q + 1) * p) % p == 0) by (nonlinear_arith)
            requires p > 0;
        assert((q + 1) * p == q * p + p);
        assert(q * p == p * q) by (nonlinear_arith);
    }
}

/// After a mapping request for a non-empty range succeeds, an unmapping
/// request for the very same range succeeds: the rounded range is exactly
/// tiled by the area the map created, which nothing else intersects.
pub proof fn lemma_mmap_then_munmap(
    pre: Kernel,
    post: Kernel,
    start: usize,
    len: usize,
    prot: usize,
)
    requires
        pre.wf(),
        pre.current is Some,
        len > 0,
        spec_mmap_ok(pre, start, len, prot),
        // the state a successful map leaves behind
        post.current == pre.current,
        post.tasks@.len() == pre.tasks@.len(),
        post.tasks@[pre.cur()].memory_set.areas@ == pre.tasks@[pre.cur()].memory_set.areas@.push(
            MapArea {
                start: start,
                end: spec_range_end(start, len) as usize,
                perm: perm_of_prot(prot),
            },
        ),
    ensures
        spec_munmap_ok(post, start, len),
{
    let hi = spec_range_end(start, len) as usize;
    lemma_round_up_to_page(start as int + len as int);
    assert(start < hi);
    crate::mem::lemma_mapped_range_exactly_covered(
        pre.tasks@[pre.cur()].memory_set,
        post.tasks@[pre.cur()].memory_set,
        start,
        hi,
        perm_of_prot(prot),
    );
}

/// A repeated unmap of an already-freed non-empty range fails: after the
/// first unmap succeeded nothing intersects the range any more, so it is no
/// longer exactly tiled.
pub proof fn lemma_munmap_twice_fails(pre: Kernel, post: Kernel, start: usize, len: usize)
    requires
        pre.wf(),
        pre.current is Some,
        len > 0,
        spec_munmap_ok(pre, start, len),
        // the state a successful unmap leaves behind
        post.wf(),
        post.current == pre.current,
        post.tasks@.len() == pre.tasks@.len(),
        !post.tasks@[pre.cur()].memory_set.spec_conflict(
            start,
            spec_range_end(start, len) as usize,
        ),
    ensures
        !spec_munmap_ok(post, start, len),
{
    let hi = spec_range_end(start, len) as usize;
    lemma_round_up_to_page(start as int + len as int);
    assert(start < hi);
    crate::mem::lemma_freed_range_not_covered(post.tasks@[post.cur()].memory_set, start, hi);
}

/// Two kernel states that hold the same tasks, queue, assignment and
/// allocators; used to say that a failed request changed nothing.
pub open spec fn kernel_state_eq(a: Kernel, b: Kernel) -> bool {
    &&& a.tasks@ == b.tasks@
    &&& a.manager.ready_queue@ == b.manager.ready_queue@
    &&& a.current == b.current
    &&& a.idle_cx == b.idle_cx
    &&& a.pid_allocator == b.pid_allocator
    &&& a.kstack_allocator == b.kstack_allocator
}

/// Enqueues the init task; called once at kernel start, before the idle
/// loop first dispatches.
pub fn add_initproc(kernel: &mut Kernel)
    requires
        old(kernel).wf(),
        old(kernel).tasks@[0].status == TaskStatus::Ready,
        !old(kernel).manager.ready_queue@.contains(0usize),
    ensures
        final(kernel).wf(),
        final(kernel).manager.ready_queue@ == old(kernel).manager.ready_queue@.push(0usize),
        final(kernel).tasks == old(kernel).tasks,
        final(kernel).current == old(kernel).current,
        final(kernel).pid_allocator == old(kernel).pid_allocator,
        final(kernel).kstack_allocator == old(kernel).kstack_allocator,
{
    kernel.manager.add(0);
    proof {
        let pre = *old(kernel);
        assert forall|k1: int, k2: int|
            #![trigger kernel.manager.ready_queue@[k1], kernel.manager.ready_queue@[k2]]
            0 <= k1 < k2 < kernel.manager.ready_queue@.len() implies kernel.manager.ready_queue@[k1]
            != kernel.manager.ready_queue@[k2] by {
            if k2 == pre.manager.ready_queue@.len() {
                assert(pre.manager.ready_queue@[k1] != 0usize) by {
                    if pre.manager.ready_queue@[k1] == 0usize {
                        assert(pre.manager.ready_queue@.contains(0usize));
                    }
                }
            }
        }
        assert(kernel.wf());
    }
}

/// Maps a fresh area for the current task over the page-rounded request
/// range: fails with no state change when `start_va` is misaligned, when
/// `prot` has no read/write/execute bit or bits outside them, when the range
/// is not representable, or when the rounded range overlaps an existing
/// mapping — a mapping is never silently replaced. A request whose rounded
/// range is empty maps nothing and trivially succeeds. All-or-nothing.
pub fn mmap_memory_area_for_current(
    kernel: &mut Kernel,
    start_va: usize,
    len: usize,
    prot: usize,
) -> (r: bool)
    requires
        old(kernel).wf(),
        old(kernel).current is Some,
    ensures
        final(kernel).wf(),
        r == spec_mmap_ok(*old(kernel), start_va, len, prot),
        !r ==> *final(kernel) == *old(kernel),
        r && len == 0 ==> *final(kernel) == *old(kernel),
        r && len > 0 ==> {
            &&& final(kernel).tasks@.len() == old(kernel).tasks@.len()
            &&& crate::task::tcb_eq_mod_mm(
                final(kernel).tasks@[old(kernel).cur()],
                old(kernel).tasks@[old(kernel).cur()],
            )
            &&& final(kernel).tasks@[old(kernel).cur()].memory_set.areas@ == old(kernel).tasks@[old(kernel).cur()].memory_set.areas@.push(
                MapArea {
                    start: start_va,
                    end: spec_range_end(start_va, len) as usize,
                    perm: perm_of_prot(prot),
                },
            )
            &&& forall|i: int|
                0 <= i < old(kernel).tasks@.len() && i != old(kernel).cur() ==> final(kernel).tasks@[i] == (#[trigger] old(kernel).tasks@[i])
            &&& final(kernel).manager == old(kernel).manager
            &&& final(kernel).current == old(kernel).current
            &&& final(kernel).pid_allocator == old(kernel).pid_allocator
            &&& final(kernel).kstack_allocator == old(kernel).kstack_allocator
        },
{
    if start_va % PAGE_SIZE != 0 {
        return false;
    }
    if prot & !0x7 != 0 {
        return false;
    }
    if prot & 0x7 == 0 {
        return false;
    }
    if len > usize::MAX - start_va {
        return false;
    }
    let sum = start_va + len;
    let end: usize;
    if sum % PAGE_SIZE == 0 {
        end = sum;
    } else {
        let q = sum / PAGE_SIZE;
        if q + 1 > usize::MAX / PAGE_SIZE {
            proof {
                assert((q as int + 1) * (PAGE_SIZE as int) > usize::MAX as int);
            }
            return false;
        }
        proof {
            assert((q as int + 1) * (PAGE_SIZE as int) <= (usize::MAX as int / PAGE_SIZE as int)
                * (PAGE_SIZE as int));
        }
        end = (q + 1) * PAGE_SIZE;
    }
    proof {
        assert(end as int == spec_range_end(start_va, len));
        assert(end as int % PAGE_SIZE as int == 0) by {
            if sum % PAGE_SIZE != 0 {
                let q = sum as int / PAGE_SIZE as int;
                assert(((q + 1) * (PAGE_SIZE as int)) % (PAGE_SIZE as int) == 0)
                    by (nonlinear_arith);
            }
        }
        if len > 0 {
            assert(start_va < end);
        }
    }
    if len == 0 {
        return true;
    }
    let t = kernel.current.unwrap();
    if kernel.tasks[t].memory_set.is_conflict(start_va, end) {
        return false;
    }
    let r_bit: u8 = if prot & 0x1 == 0x1 {
        PERM_R
    } else {
        0
    };
    let w_bit: u8 = if prot & 0x2 == 0x2 {
        PERM_W
    } else {
        0
    };
    let x_bit: u8 = if prot & 0x4 == 0x4 {
        PERM_X
    } else {
        0
    };
    let perm: u8 = ((PERM_U | r_bit) | w_bit) | x_bit;
    proof {
        assert(perm == perm_of_prot(prot));
    }
    let tb = &mut kernel.tasks[t];
    tb.memory_set.insert_framed_area(start_va, end, perm);
    proof {
        let pre = *old(kernel);
        let post = *kernel;
        let ti = t as int;
        assert forall|i: int| 0 <= i < post.tasks@.len() implies (
        #[trigger] post.tasks@[i]).wf() by {
            if i != ti {
                assert(post.tasks@[i] == pre.tasks@[i]);
            }
        }
        assert forall|i: int, k: int|
            #![trigger post.tasks@[i].children@[k]]
            0 <= i < post.tasks@.len() && 0 <= k < post.tasks@[i].children@.len() implies 1 <= (
        post.tasks@[i].children@[k] as int) < post.tasks@.len()
            && post.tasks@[post.tasks@[i].children@[k] as int].parent == Some(i as usize) by {
            assert(post.tasks@[i].children == pre.tasks@[i].children);
            let c = pre.tasks@[i].children@[k] as int;
            assert(pre.tasks@[c].parent == Some(i as usize));
            assert(post.tasks@[c].parent == pre.tasks@[c].parent);
        }
        assert forall|k: int|
            0 <= k < post.manager.ready_queue@.len() implies 0 <= ((
        #[trigger] post.manager.ready_queue@[k]) as int) < post.tasks@.len()
            && post.tasks@[post.manager.ready_queue@[k] as int].status == TaskStatus::Ready by {
            let q = pre.manager.ready_queue@[k] as int;
            assert(pre.tasks@[q].status == TaskStatus::Ready);
            assert(post.tasks@[q].status == pre.tasks@[q].status);
        }
        assert(post.wf());
    }
    true
}

/// Unmaps exactly the page-rounded request range from the current task:
/// fails with no state change when `start_va` is misaligned, when the range
/// is not representable, or when the rounded range is not exactly tiled by
/// previously mapped areas — in particular, unmapping an already-freed range
/// fails. A request whose rounded range is empty trivially succeeds.
pub fn munmap_memory_area_for_current(kernel: &mut Kernel, start_va: usize, len: usize) -> (r:
    bool)
    requires
        old(kernel).wf(),
        old(kernel).current is Some,
    ensures
        final(kernel).wf(),
        r == spec_munmap_ok(*old(kernel), start_va, len),
        !r ==> kernel_state_eq(*final(kernel), *old(kernel)),
        r && len == 0 ==> *final(kernel) == *old(kernel),
        r && len > 0 ==> {
            &&& final(kernel).tasks@.len() == old(kernel).tasks@.len()
            &&& crate::task::tcb_eq_mod_mm(
                final(kernel).tasks@[old(kernel).cur()],
                old(kernel).tasks@[old(kernel).cur()],
            )
            &&& final(kernel).tasks@[old(kernel).cur()].memory_set.areas@
                == crate::mem::remove_contained(
                old(kernel).tasks@[old(kernel).cur()].memory_set.areas@,
                start_va,
                spec_range_end(start_va, len) as usize,
            )
            &&& !final(kernel).tasks@[old(kernel).cur()].memory_set.spec_conflict(
                start_va,
                spec_range_end(start_va, len) as usize,
            )
            &&& forall|i: int|
                0 <= i < old(kernel).tasks@.len() && i != old(kernel).cur() ==> final(kernel).tasks@[i] == (#[trigger] old(kernel).tasks@[i])
            &&& final(kernel).manager == old(kernel).manager
            &&& final(kernel).current == old(kernel).current
            &&& final(kernel).pid_allocator == old(kernel).pid_allocator
            &&& final(kernel).kstack_allocator == old(kernel).kstack_allocator
        },
{
    if start_va % PAGE_SIZE != 0 {
        return false;
    }
    if len > usize::MAX - start_va {
        return false;
    }
    let sum = start_va + len;
    let end: usize;
    if sum % PAGE_SIZE == 0 {
        end = sum;
    } else {
        let q = sum / PAGE_SIZE;
        if q + 1 > usize::MAX / PAGE_SIZE {
            proof {
                assert((q as int + 1) * (PAGE_SIZE as int) > usize::MAX as int);
            }
            return false;
        }
        proof {
            assert((q as int + 1) * (PAGE_SIZE as int) <= (usize::MAX as int / PAGE_SIZE as int)
                * (PAGE_SIZE as int));
        }
        end = (q + 1) * PAGE_SIZE;
    }
    proof {
        assert(end as int == spec_range_end(start_va, len));
    }
    if len == 0 {
        return true;
    }
    let t = kernel.current.unwrap();
    let tb = &mut kernel.tasks[t];
    let ok = tb.memory_set.recycle_map_area(start_va, end);
    proof {
        let pre = *old(kernel);
        let post = *kernel;
        let ti = t as int;
        if !ok {
            assert(post.tasks@ =~= pre.tasks@);
            assert(kernel_state_eq(post, pre));
            assert(post.wf()) by {
                assert(post.tasks@ == pre.tasks@);
            }
        } else {
            assert forall|i: int| 0 <= i < post.tasks@.len() implies (
            #[trigger] post.tasks@[i]).wf() by {
                if i != ti {
                    assert(post.tasks@[i] == pre.tasks@[i]);
                }
            }
            assert forall|i: int, k: int|
                #![trigger post.tasks@[i].children@[k]]
                0 <= i < post.tasks@.len() && 0 <= k < post.tasks@[i].children@.len() implies 1 <= (
            post.tasks@[i].children@[k] as int) < post.tasks@.len()
                && post.tasks@[post.tasks@[i].children@[k] as int].parent == Some(i as usize) by {
                assert(post.tasks@[i].children == pre.tasks@[i].children);
                let c = pre.tasks@[i].children@[k] as int;
                assert(pre.tasks@[c].parent == Some(i as usize));
                assert(post.tasks@[c].parent == pre.tasks@[c].parent);
            }
            assert forall|k: int|
                0 <= k < post.manager.ready_queue@.len() implies 0 <= ((
            #[trigger] post.manager.ready_queue@[k]) as int) < post.tasks@.len()
                && post.tasks@[post.manager.ready_queue@[k] as int].status == TaskStatus::Ready by {
                let q = pre.manager.ready_queue@[k] as int;
                assert(pre.tasks@[q].status == TaskStatus::Ready);
                assert(post.tasks@[q].status == pre.tasks@[q].status);
            }
            assert(post.wf());
        }
    }
    ok
}

/// Adjusts the current task's heap boundary by `size` bytes (negative
/// shrinks): returns the previous boundary on success; fails with no state
/// change when the result would move below the heap floor or past the
/// representable ceiling.
pub fn change_program_brk(kernel: &mut Kernel, size: i32) -> (r: Option<usize>)
    requires
        old(kernel).wf(),
        old(kernel).current is Some,
    ensures
        final(kernel).wf(),
        r is Some <==> old(kernel).tasks@[old(kernel).cur()].heap_bottom <= old(kernel).tasks@[old(kernel).cur()].program_brk + size as int <= crate::BRK_CEILING,
        r is None ==> *final(kernel) == *old(kernel),
        r is Some ==> {
            &&& r == Some(old(kernel).tasks@[old(kernel).cur()].program_brk)
            &&& final(kernel).tasks@.len() == old(kernel).tasks@.len()
            &&& crate::task::tcb_eq_mod_brk(
                final(kernel).tasks@[old(kernel).cur()],
                old(kernel).tasks@[old(kernel).cur()],
            )
            &&& final(kernel).tasks@[old(kernel).cur()].program_brk == old(kernel).tasks@[old(kernel).cur()].program_brk + size as int
            &&& forall|i: int|
                0 <= i < old(kernel).tasks@.len() && i != old(kernel).cur() ==> final(kernel).tasks@[i] == (#[trigger] old(kernel).tasks@[i])
            &&& final(kernel).manager == old(kernel).manager
            &&& final(kernel).current == old(kernel).current
            &&& final(kernel).pid_allocator == old(kernel).pid_allocator
            &&& final(kernel).kstack_allocator == old(kernel).kstack_allocator
        },
{
    let t = kernel.current.unwrap();
    let old_brk = kernel.tasks[t].program_brk;
    let bottom = kernel.tasks[t].heap_bottom;
    let new_brk: usize;
    if size >= 0 {
        let grow = size as usize;
        if grow > crate::BRK_CEILING - old_brk {
            return None;
        }
        new_brk = old_brk + grow;
    } else {
        let magnitude = (-(size as i64)) as usize;
        if magnitude > old_brk - bottom {
            return None;
        }
        new_brk = old_brk - magnitude;
    }
    let tb = &mut kernel.tasks[t];
    tb.program_brk = new_brk;
    proof {
        let pre = *old(kernel);
        let post = *kernel;
        let ti = t as int;
        assert forall|i: int| 0 <= i < post.tasks@.len() implies (
        #[trigger] post.tasks@[i]).wf() by {
            if i != ti {
                assert(post.tasks@[i] == pre.tasks@[i]);
            }
        }
        assert forall|i: int, k: int|
            #![trigger post.tasks@[i].children@[k]]
            0 <= i < post.tasks@.len() && 0 <= k < post.tasks@[i].children@.len() implies 1 <= (
        post.tasks@[i].children@[k] as int) < post.tasks@.len()
            && post.tasks@[post.tasks@[i].children@[k] as int].parent == Some(i as usize) by {
            assert(post.tasks@[i].children == pre.tasks@[i].children);
            let c = pre.tasks@[i].children@[k] as int;
            assert(pre.tasks@[c].parent == Some(i as usize));
            assert(post.tasks@[c].parent == pre.tasks@[c].parent);
        }
        assert forall|k: int|
            0 <= k < post.manager.ready_queue@.len() implies 0 <= ((
        #[trigger] post.manager.ready_queue@[k]) as int) < post.tasks@.len()
            && post.tasks@[post.manager.ready_queue@[k] as int].status == TaskStatus::Ready by {
            let q = pre.manager.ready_queue@[k] as int;
            assert(pre.tasks@[q].status == TaskStatus::Ready);
            assert(post.tasks@[q].status == pre.tasks@[q].status);
        }
        assert(post.wf());
    }
    Some(old_brk)
}

/// Counts one syscall entry against the current task; the dispatcher calls
/// this on every syscall while the task is Running.
pub fn increment_syscall_stat(kernel: &mut Kernel, syscall_id: usize)
    requires
        old(kernel).wf(),
        old(kernel).current is Some,
        syscall_id < MAX_SYSCALL_NUM,
        old(kernel).tasks@[old(kernel).cur()].syscall_stats@[syscall_id as int] < u32::MAX,
    ensures
        final(kernel).wf(),
        final(kernel).tasks@.len() == old(kernel).tasks@.len(),
        crate::task::tcb_eq_mod_stats(
            final(kernel).tasks@[old(kernel).cur()],
            old(kernel).tasks@[old(kernel).cur()],
        ),
        final(kernel).tasks@[old(kernel).cur()].syscall_stats@ == old(kernel).tasks@[old(kernel).cur()].syscall_stats@.update(
            syscall_id as int,
            (old(kernel).tasks@[old(kernel).cur()].syscall_stats@[syscall_id as int] + 1) as u32,
        ),
        forall|i: int|
            0 <= i < old(kernel).tasks@.len() && i != old(kernel).cur() ==> final(kernel).tasks@[i] == (#[trigger] old(kernel).tasks@[i]),
        final(kernel).manager == old(kernel).manager,
        final(kernel).current == old(kernel).current,
        final(kernel).pid_allocator == old(kernel).pid_allocator,
        final(kernel).kstack_allocator == old(kernel).kstack_allocator,
{
    let t = kernel.current.unwrap();
    let tb = &mut kernel.tasks[t];
    if tb.status != TaskStatus::Running {
        // unreachable while a task is assigned: the assigned task is Running
        return;
    }
    let v = tb.syscall_stats[syscall_id];
    tb.syscall_stats.set(syscall_id, v + 1);
    proof {
        let pre = *old(kernel);
        let post = *kernel;
        let ti = t as int;
        assert forall|i: int| 0 <= i < post.tasks@.len() implies (
        #[trigger] post.tasks@[i]).wf() by {
            if i != ti {
                assert(post.tasks@[i] == pre.tasks@[i]);
            }
        }
        assert forall|i: int, k: int|
            #![trigger post.tasks@[i].children@[k]]
            0 <= i < post.tasks@.len() && 0 <= k < post.tasks@[i].children@.len() implies 1 <= (
        post.tasks@[i].children@[k] as int) < post.tasks@.len()
            && post.tasks@[post.tasks@[i].children@[k] as int].parent == Some(i as usize) by {
            assert(post.tasks@[i].children == pre.tasks@[i].children);
            let c = pre.tasks@[i].children@[k] as int;
            assert(pre.tasks@[c].parent == Some(i as usize));
            assert(post.tasks@[c].parent == pre.tasks@[c].parent);
        }
        assert forall|k: int|
            0 <= k < post.manager.ready_queue@.len() implies 0 <= ((
        #[trigger] post.manager.ready_queue@[k]) as int) < post.tasks@.len()
            && post.tasks@[post.manager.ready_queue@[k] as int].status == TaskStatus::Ready by {
            let q = pre.manager.ready_queue@[k] as int;
            assert(pre.tasks@[q].status == TaskStatus::Ready);
            assert(post.tasks@[q].status == pre.tasks@[q].status);
        }
        assert(post.wf());
    }
}

/// A read-only snapshot of the current task's status and per-syscall
/// counters.
pub fn get_current_task_syscall_stat(kernel: &Kernel) -> (r: Option<(TaskStatus, Vec<u32>)>)
    requires
        kernel.wf(),
        kernel.current is Some,
    ensures
        r is Some,
        (r->0).0 == kernel.tasks@[kernel.cur()].status,
        (r->0).1@ == kernel.tasks@[kernel.cur()].syscall_stats@,
{
    let t = kernel.current.unwrap();
    let status = kernel.tasks[t].status;
    let counters = copy_counters(&kernel.tasks[t].syscall_stats);
    Some((status, counters))
}

/// An element-for-element copy of a counter vector.
fn copy_counters(v: &Vec<u32>) -> (r: Vec<u32>)
    ensures
        r@ == v@,
{
    let mut r: Vec<u32> = Vec::new();
    let mut i: usize = 0;
    while i < v.len()
        invariant
            i <= v@.len(),
            r@ == v@.take(i as int),
        decreases v@.len() - i,
    {
        r.push(v[i]);
        proof {
            assert(r@ =~= v@.take(i as int + 1));
        }
        i = i + 1;
    }
    proof {
        assert(v@.take(v@.len() as int) =~= v@);
    }
    r
}

/// A fresh per-syscall counter vector, one zeroed slot per syscall id.
pub fn new_syscall_counters() -> (r: Vec<u32>)
    ensures
        r@.len() == MAX_SYSCALL_NUM,
        forall|s: int| 0 <= s < MAX_SYSCALL_NUM ==> r@[s] == 0,
{
    let mut v: Vec<u32> = Vec::new();
    let mut i: usize = 0;
    while i < MAX_SYSCALL_NUM
        invariant
            i <= MAX_SYSCALL_NUM,
            v@.len() == i,
            forall|s: int| 0 <= s < i ==> v@[s] == 0,
        decreases MAX_SYSCALL_NUM - i,
    {
        v.push(0);
        i = i + 1;
    }
    v
}

} // verus!
