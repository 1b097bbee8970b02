//! The ready queue of the scheduler: it holds (by slab index) the tasks that
//! are Ready and not assigned to the processor, and offers the two dispatch
//! policies — FIFO, which returns the earliest-enqueued task, and stride,
//! which returns the task with the smallest stride, ties broken by earliest
//! queue position.

use vstd::prelude::*;
use crate::kernel::Kernel;
use crate::task::{TaskControlBlock, TaskStatus};

verus! {

/// The scheduler's queue of ready tasks, in enqueue order.
pub struct TaskManager {
    /// Slab indices of the queued tasks, earliest first.
    pub ready_queue: Vec<usize>,
}

impl TaskManager {
    /// An empty ready queue.
    pub fn new() -> (r: Self)
        ensures
            r.ready_queue@.len() == 0,
    {
        TaskManager { ready_queue: Vec::new() }
    }

    /// Appends a task to the back of the queue.
    pub fn add(&mut self, task: usize)
        ensures
            final(self).ready_queue@ == old(self).ready_queue@.push(task),
    {
        self.ready_queue.push(task);
    }

    /// FIFO dispatch: removes and returns the earliest-enqueued task.
    pub fn fetch(&mut self) -> (r: Option<usize>)
        ensures
            old(self).ready_queue@.len() == 0 ==> r is None && *final(self) == *old(self),
            old(self).ready_queue@.len() > 0 ==> r == Some(old(self).ready_queue@[0])
                && final(self).ready_queue@ == old(self).ready_queue@.drop_first(),
    {
        if self.ready_queue.len() == 0 {
            None
        } else {
            let t = self.ready_queue.remove(0);
            proof {
                assert(final(self).ready_queue@ =~= old(self).ready_queue@.drop_first());
            }
            Some(t)
        }
    }

    /// Stride dispatch: removes and returns the queued task whose stride is
    /// the global minimum, breaking ties toward the earliest queue position.
    pub fn fetch_with_min_stride(&mut self, tasks: &Vec<TaskControlBlock>) -> (r: Option<usize>)
        requires
            forall|k: int|
                0 <= k < old(self).ready_queue@.len() ==> (#[trigger] old(self).ready_queue@[k]) < tasks@.len(),
        ensures
            old(self).ready_queue@.len() == 0 ==> r is None && *final(self) == *old(self),
            old(self).ready_queue@.len() > 0 ==> exists|pos: int|
                #![trigger old(self).ready_queue@.remove(pos)]
                {
                    &&& 0 <= pos < old(self).ready_queue@.len()
                    &&& r == Some(old(self).ready_queue@[pos])
                    &&& final(self).ready_queue@ == old(self).ready_queue@.remove(pos)
                    &&& forall|k: int|
                        0 <= k < old(self).ready_queue@.len()
                            ==> tasks@[old(self).ready_queue@[pos] as int].stride <= tasks@[(
                        #[trigger] old(self).ready_queue@[k]) as int].stride
                    &&& forall|k: int|
                        0 <= k < pos ==> tasks@[(#[trigger] old(self).ready_queue@[k]) as int].stride
                            > tasks@[old(self).ready_queue@[pos] as int].stride
                },
    {
        let n = self.ready_queue.len();
        if n == 0 {
            return None;
        }
        let mut best: usize = 0;
        let mut i: usize = 1;
        while i < n
            invariant
                n == self.ready_queue@.len(),
                self == old(self),
                forall|k: int|
                    0 <= k < self.ready_queue@.len() ==> (#[trigger] self.ready_queue@[k])
                        < tasks@.len(),
                1 <= i <= n,
                (best as int) < i,
                forall|k: int|
                    0 <= k < i ==> tasks@[self.ready_queue@[best as int] as int].stride
                        <= tasks@[(#[trigger] self.ready_queue@[k]) as int].stride,
                forall|k: int|
                    0 <= k < best ==> tasks@[(#[trigger] self.ready_queue@[k]) as int].stride
                        > tasks@[self.ready_queue@[best as int] as int].stride,
            decreases n - i,
        {
            if tasks[self.ready_queue[i]].stride < tasks[self.ready_queue[best]].stride {
                best = i;
            }
            i = i + 1;
        }
        let t = self.ready_queue.remove(best);
        proof {
            let q = old(self).ready_queue@;
            assert(0 <= best < q.len() && Some(t) == Some(q[best as int]) && self.ready_queue@
                == q.remove(best as int));
        }
        Some(t)
    }
}

/// The first `n` tasks FIFO dispatch returns from a queue holding `q`:
/// `fetch`'s contract takes the head and keeps the rest.
pub open spec fn fifo_drain(q: Seq<usize>, n: int) -> Seq<usize>
    decreases n,
{
    if n <= 0 || q.len() == 0 {
        Seq::empty()
    } else {
        seq![q[0]] + fifo_drain(q.drop_first(), n - 1)
    }
}

/// FIFO dispatch order equals insertion order exactly: `add` appends, so
/// after any sequence of enqueues the queue view is the insertion sequence
/// of the tasks still queued, and draining it by repeated `fetch` returns
/// precisely that sequence, in order.
pub proof fn lemma_fifo_dispatch_order(q: Seq<usize>)
    ensures
        fifo_drain(q, q.len() as int) == q,
    decreases q.len(),
{
    if q.len() > 0 {
        lemma_fifo_dispatch_order(q.drop_first());
        assert(fifo_drain(q, q.len() as int) =~= q);
    } else {
        assert(fifo_drain(q, 0) =~= q);
    }
}

/// How far task `t` can still be from being stride-dispatched: the summed
/// headroom of the queued tasks whose stride has not yet passed `t`'s.
pub open spec fn waiting_measure(q: Seq<usize>, tasks: Seq<TaskControlBlock>, t: usize) -> int
    decreases q.len(),
{
    if q.len() == 0 {
        0
    } else {
        waiting_measure(q.drop_last(), tasks, t) + if q.last() != t && tasks[q.last() as int].stride
            <= tasks[t as int].stride {
            tasks[t as int].stride - tasks[q.last() as int].stride + 1
        } else {
            0
        }
    }
}

/// The waiting measure never goes below zero.
pub proof fn lemma_waiting_measure_nonneg(q: Seq<usize>, tasks: Seq<TaskControlBlock>, t: usize)
    ensures
        waiting_measure(q, tasks, t) >= 0,
    decreases q.len(),
{
    if q.len() > 0 {
        lemma_waiting_measure_nonneg(q.drop_last(), tasks, t);
    }
}

/// The waiting measure reads only the strides of the queued tasks and of
/// `t`; any task table agreeing on those gives the same measure.
pub proof fn lemma_waiting_measure_congruence(
    q: Seq<usize>,
    tasks: Seq<TaskControlBlock>,
    tasks2: Seq<TaskControlBlock>,
    t: usize,
)
    requires
        forall|k: int|
            0 <= k < q.len() ==> 0 <= ((#[trigger] q[k]) as int) < tasks.len() && (q[k] as int)
                < tasks2.len() && tasks2[q[k] as int].stride == tasks[q[k] as int].stride,
        (t as int) < tasks.len(),
        (t as int) < tasks2.len(),
        tasks2[t as int].stride == tasks[t as int].stride,
    ensures
        waiting_measure(q, tasks2, t) == waiting_measure(q, tasks, t),
    decreases q.len(),
{
    if q.len() > 0 {
        assert(q[q.len() - 1] == q.last());
        lemma_waiting_measure_congruence(q.drop_last(), tasks, tasks2, t);
    }
}

/// Removing one entry takes exactly that entry's term out of the measure.
pub proof fn lemma_waiting_measure_remove(
    q: Seq<usize>,
    tasks: Seq<TaskControlBlock>,
    t: usize,
    pos: int,
)
    requires
        0 <= pos < q.len(),
        forall|k: int| 0 <= k < q.len() ==> ((#[trigger] q[k]) as int) < tasks.len(),
        (t as int) < tasks.len(),
    ensures
        waiting_measure(q.remove(pos), tasks, t) == waiting_measure(q, tasks, t) - (if q[pos] != t
            && tasks[q[pos] as int].stride <= tasks[t as int].stride {
            tasks[t as int].stride - tasks[q[pos] as int].stride + 1
        } else {
            0
        }),
    decreases q.len(),
{
    if pos == q.len() - 1 {
        assert(q.remove(pos) =~= q.drop_last());
    } else {
        assert(q.remove(pos).drop_last() =~= q.drop_last().remove(pos));
        assert(q.remove(pos).last() == q.last());
        assert(q.drop_last()[pos] == q[pos]);
        lemma_waiting_measure_remove(q.drop_last(), tasks, t, pos);
    }
}

/// A zero measure means every other queued task's stride already exceeds
/// `t`'s.
pub proof fn lemma_waiting_measure_zero(q: Seq<usize>, tasks: Seq<TaskControlBlock>, t: usize)
    requires
        waiting_measure(q, tasks, t) == 0,
        forall|k: int| 0 <= k < q.len() ==> ((#[trigger] q[k]) as int) < tasks.len(),
        (t as int) < tasks.len(),
    ensures
        forall|k: int|
            0 <= k < q.len() && (#[trigger] q[k]) != t ==> tasks[q[k] as int].stride
                > tasks[t as int].stride,
    decreases q.len(),
{
    if q.len() > 0 {
        lemma_waiting_measure_nonneg(q.drop_last(), tasks, t);
        lemma_waiting_measure_zero(q.drop_last(), tasks, t);
        assert forall|k: int|
            0 <= k < q.len() && (#[trigger] q[k]) != t implies tasks[q[k] as int].stride
            > tasks[t as int].stride by {
            if k < q.len() - 1 {
                assert(q.drop_last()[k] == q[k]);
            } else {
                assert(q[k] == q.last());
            }
        }
    }
}

/// While every other queued task's stride exceeds `t`'s, stride dispatch
/// returns `t` itself: the minimum is unique.
pub proof fn lemma_unique_min_is_dispatched(
    q: Seq<usize>,
    tasks: Seq<TaskControlBlock>,
    t: usize,
    pos: int,
)
    requires
        0 <= pos < q.len(),
        forall|k: int| 0 <= k < q.len() ==> ((#[trigger] q[k]) as int) < tasks.len(),
        (t as int) < tasks.len(),
        q.contains(t),
        // the dispatch choice: minimal stride over the whole queue
        forall|k: int|
            0 <= k < q.len() ==> tasks[q[pos] as int].stride <= tasks[(
            #[trigger] q[k]) as int].stride,
        // every other queued task has already passed t's stride
        forall|k: int|
            0 <= k < q.len() && (#[trigger] q[k]) != t ==> tasks[q[k] as int].stride
                > tasks[t as int].stride,
    ensures
        q[pos] == t,
{
    let w = choose|w: int| 0 <= w < q.len() && q[w] == t;
    assert(tasks[q[pos] as int].stride <= tasks[q[w] as int].stride);
    if q[pos] != t {
        assert(tasks[q[pos] as int].stride > tasks[t as int].stride);
    }
}

/// One stride-dispatch round that passes `t` over strictly shrinks the
/// waiting measure: the dispatched task `q[pos]` is re-enqueued with its
/// pass — at least one — charged to its stride. Together with
/// `lemma_waiting_measure_nonneg`, `lemma_waiting_measure_zero` and
/// `lemma_unique_min_is_dispatched`, this bounds how many rounds can pass
/// `t` over before it is dispatched: no task with a finite positive pass is
/// starved indefinitely.
pub proof fn lemma_stride_round_shrinks_measure(
    q: Seq<usize>,
    tasks: Seq<TaskControlBlock>,
    tasks2: Seq<TaskControlBlock>,
    t: usize,
    pos: int,
)
    requires
        0 <= pos < q.len(),
        forall|k: int| 0 <= k < q.len() ==> ((#[trigger] q[k]) as int) < tasks.len(),
        (t as int) < tasks.len(),
        q.contains(t),
        q[pos] != t,
        // the dispatch choice: minimal stride over the whole queue
        forall|k: int|
            0 <= k < q.len() ==> tasks[q[pos] as int].stride <= tasks[(
            #[trigger] q[k]) as int].stride,
        // t itself has stride headroom and the dispatched task a real pass
        tasks[t as int].stride < u64::MAX,
        tasks[q[pos] as int].pass >= 1,
        // afterwards: the dispatched task's stride was charged, all other
        // strides unchanged
        tasks2.len() == tasks.len(),
        tasks2[q[pos] as int].stride == crate::kernel::spec_stride_after(
            tasks[q[pos] as int].stride,
            tasks[q[pos] as int].pass,
        ),
        forall|i: int|
            0 <= i < tasks.len() && i != (q[pos] as int) ==> tasks2[i].stride == (
            #[trigger] tasks[i]).stride,
        // a task is never enqueued twice
        forall|k1: int, k2: int|
            #![trigger q[k1], q[k2]]
            0 <= k1 < k2 < q.len() ==> q[k1] != q[k2],
    ensures
        waiting_measure(q.remove(pos).push(q[pos]), tasks2, t) < waiting_measure(q, tasks, t),
{
    let u = q[pos];
    let w = choose|w: int| 0 <= w < q.len() && q[w] == t;
    assert(tasks[u as int].stride <= tasks[t as int].stride);
    lemma_waiting_measure_remove(q, tasks, t, pos);
    assert forall|k: int|
        0 <= k < q.remove(pos).len() implies ((#[trigger] q.remove(pos)[k]) as int) < tasks.len()
        && q.remove(pos)[k] != u by {
        if k < pos {
            assert(q.remove(pos)[k] == q[k]);
        } else {
            assert(q.remove(pos)[k] == q[k + 1]);
        }
    }
    lemma_waiting_measure_congruence(q.remove(pos), tasks, tasks2, t);
    let qq = q.remove(pos).push(u);
    assert(qq.drop_last() =~= q.remove(pos));
    assert(qq.last() == u);
    let old_term = tasks[t as int].stride - tasks[u as int].stride + 1;
    assert(old_term >= 1);
    let new_term: int = if u != t && tasks2[u as int].stride <= tasks2[t as int].stride {
        tasks2[t as int].stride - tasks2[u as int].stride + 1
    } else {
        0
    };
    assert(waiting_measure(qq, tasks2, t) == waiting_measure(q, tasks, t) - old_term + new_term);
    assert(new_term < old_term) by {
        assert(tasks2[t as int].stride == tasks[t as int].stride);
        if tasks[u as int].stride + tasks[u as int].pass > u64::MAX {
            assert(tasks2[u as int].stride == u64::MAX);
            assert(tasks2[u as int].stride > tasks2[t as int].stride);
        } else {
            assert(tasks2[u as int].stride >= tasks[u as int].stride + 1);
        }
    }
}

/// Enqueues a Ready task — freshly created, or one that yielded or was
/// preempted. A task is never enqueued twice concurrently.
pub fn add_task(kernel: &mut Kernel, task: usize)
    requires
        old(kernel).wf(),
        (task as int) < old(kernel).tasks@.len(),
        old(kernel).tasks@[task as int].status == TaskStatus::Ready,
        !old(kernel).manager.ready_queue@.contains(task),
    ensures
        final(kernel).wf(),
        final(kernel).manager.ready_queue@ == old(kernel).manager.ready_queue@.push(task),
        final(kernel).tasks == old(kernel).tasks,
        final(kernel).current == old(kernel).current,
        final(kernel).pid_allocator == old(kernel).pid_allocator,
        final(kernel).kstack_allocator == old(kernel).kstack_allocator,
{
    kernel.manager.add(task);
    proof {
        let pre = *old(kernel);
        assert forall|k1: int, k2: int|
            #![trigger kernel.manager.ready_queue@[k1], kernel.manager.ready_queue@[k2]]
            0 <= k1 < k2 < kernel.manager.ready_queue@.len() implies kernel.manager.ready_queue@[k1]
            != kernel.manager.ready_queue@[k2] by {
            if k2 == pre.manager.ready_queue@.len() {
                assert(pre.manager.ready_queue@[k1] != task) by {
                    if pre.manager.ready_queue@[k1] == task {
                        assert(pre.manager.ready_queue@.contains(task));
                    }
                }
            }
        }
        assert(kernel.wf());
    }
}

/// Removes and returns the earliest-enqueued ready task, if any.
pub fn fetch_task(kernel: &mut Kernel) -> (r: Option<usize>)
    requires
        old(kernel).wf(),
    ensures
        final(kernel).wf(),
        old(kernel).manager.ready_queue@.len() == 0 ==> r is None && *final(kernel) == *old(kernel),
        old(kernel).manager.ready_queue@.len() > 0 ==> r == Some(
            old(kernel).manager.ready_queue@[0],
        ) && final(kernel).manager.ready_queue@ == old(kernel).manager.ready_queue@.drop_first(),
        final(kernel).tasks == old(kernel).tasks,
        final(kernel).current == old(kernel).current,
        final(kernel).pid_allocator == old(kernel).pid_allocator,
        final(kernel).kstack_allocator == old(kernel).kstack_allocator,
{
    let r = kernel.manager.fetch();
    proof {
        let pre = *old(kernel);
        if pre.manager.ready_queue@.len() > 0 {
            assert forall|k: int|
                0 <= k < kernel.manager.ready_queue@.len() implies 0 <= ((
            #[trigger] kernel.manager.ready_queue@[k]) as int) < kernel.tasks@.len()
                && kernel.tasks@[kernel.manager.ready_queue@[k] as int].status
                == TaskStatus::Ready by {
                assert(kernel.manager.ready_queue@[k] == pre.manager.ready_queue@[k + 1]);
            }
            assert forall|k1: int, k2: int|
                #![trigger kernel.manager.ready_queue@[k1], kernel.manager.ready_queue@[k2]]
                0 <= k1 < k2 < kernel.manager.ready_queue@.len() implies
                kernel.manager.ready_queue@[k1] != kernel.manager.ready_queue@[k2] by {
                assert(kernel.manager.ready_queue@[k1] == pre.manager.ready_queue@[k1 + 1]);
                assert(kernel.manager.ready_queue@[k2] == pre.manager.ready_queue@[k2 + 1]);
            }
        }
        assert(kernel.wf());
    }
    r
}

/// Removes and returns the ready task with the smallest stride, ties broken
/// by earliest queue position, if any.
pub fn fetch_task_with_min_stride(kernel: &mut Kernel) -> (r: Option<usize>)
    requires
        old(kernel).wf(),
    ensures
        final(kernel).wf(),
        old(kernel).manager.ready_queue@.len() == 0 ==> r is None && *final(kernel) == *old(kernel),
        old(kernel).manager.ready_queue@.len() > 0 ==> exists|pos: int|
            #![trigger old(kernel).manager.ready_queue@.remove(pos)]
            {
                &&& 0 <= pos < old(kernel).manager.ready_queue@.len()
                &&& r == Some(old(kernel).manager.ready_queue@[pos])
                &&& final(kernel).manager.ready_queue@ == old(kernel).manager.ready_queue@.remove(
                    pos,
                )
                &&& forall|k: int|
                    0 <= k < old(kernel).manager.ready_queue@.len() ==> old(kernel).tasks@[old(kernel).manager.ready_queue@[pos] as int].stride <= old(kernel).tasks@[(
                    #[trigger] old(kernel).manager.ready_queue@[k]) as int].stride
                &&& forall|k: int|
                    0 <= k < pos ==> old(kernel).tasks@[(#[trigger] old(kernel).manager.ready_queue@[k]) as int].stride > old(kernel).tasks@[old(kernel).manager.ready_queue@[pos] as int].stride
            },
        final(kernel).tasks == old(kernel).tasks,
        final(kernel).current == old(kernel).current,
        final(kernel).pid_allocator == old(kernel).pid_allocator,
        final(kernel).kstack_allocator == old(kernel).kstack_allocator,
{
    let r = kernel.manager.fetch_with_min_stride(&kernel.tasks);
    proof {
        let pre = *old(kernel);
        if pre.manager.ready_queue@.len() > 0 {
            let q = pre.manager.ready_queue@;
            let pos = choose|pos: int|
                #![trigger q.remove(pos)]
                0 <= pos < q.len() && kernel.manager.ready_queue@ == q.remove(pos);
            assert forall|k: int|
                0 <= k < kernel.manager.ready_queue@.len() implies 0 <= ((
            #[trigger] kernel.manager.ready_queue@[k]) as int) < kernel.tasks@.len()
                && kernel.tasks@[kernel.manager.ready_queue@[k] as int].status
                == TaskStatus::Ready by {
                if k < pos {
                    assert(kernel.manager.ready_queue@[k] == q[k]);
                } else {
                    assert(kernel.manager.ready_queue@[k] == q[k + 1]);
                }
            }
            assert forall|k1: int, k2: int|
                #![trigger kernel.manager.ready_queue@[k1], kernel.manager.ready_queue@[k2]]
                0 <= k1 < k2 < kernel.manager.ready_queue@.len() implies
                kernel.manager.ready_queue@[k1] != kernel.manager.ready_queue@[k2] by {
                let a: int = if k1 < pos {
                    k1
                } else {
                    k1 + 1
                };
                let b: int = if k2 < pos {
                    k2
                } else {
                    k2 + 1
                };
                assert(kernel.manager.ready_queue@[k1] == q[a]);
                assert(kernel.manager.ready_queue@[k2] == q[b]);
            }
        }
        assert(kernel.wf());
    }
    r
}

} // verus!
