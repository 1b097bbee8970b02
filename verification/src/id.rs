//! Identifier allocators for pids and kernel-stack slots: a monotonic counter
//! with a recycle free-list. `allocate` hands out the smallest currently-unused
//! id, preferring recycled ids over fresh ones; `deallocate` of an id that is not
//! currently allocated is a programming error and is excluded by contract.

use vstd::prelude::*;
use crate::PAGE_SIZE;

verus! {

/// Size in bytes of one kernel stack.
pub const KERNEL_STACK_SIZE: usize = 8192;

/// Top of the highest kernel stack: the page below the trampoline page at the
/// very top of the address space.
pub const KERNEL_STACK_TOP_LIMIT: usize = 0xffff_f000;

/// An id allocator with a recycle free-list and a monotonic fallback counter.
pub struct RecycleAllocator {
    /// Next id the monotonic counter would hand out.
    pub current: usize,
    /// Ids returned by `deallocate` and not yet reused.
    pub recycled: Vec<usize>,
}

impl RecycleAllocator {
    /// An id is allocated when it was handed out by the counter and has not
    /// been returned to the free-list.
    pub open spec fn spec_allocated(self, id: usize) -> bool {
        id < self.current && !self.recycled@.contains(id)
    }

    /// Every free-listed id came from the counter, and none is listed twice.
    pub open spec fn wf(self) -> bool {
        &&& forall|i: int| 0 <= i < self.recycled@.len() ==> (#[trigger] self.recycled@[i]) < self.current
        &&& forall|i: int, j: int|
            0 <= i < j < self.recycled@.len() ==> self.recycled@[i] != self.recycled@[j]
    }

    /// Creates an allocator with no id handed out yet.
    pub fn new() -> (r: Self)
        ensures
            r.wf(),
            r.current == 0,
            r.recycled@.len() == 0,
            forall|id: usize| !r.spec_allocated(id),
    {
        RecycleAllocator { current: 0, recycled: Vec::new() }
    }

    /// Returns the smallest currently-unused id: the least recycled id when
    /// the free-list is non-empty, the counter value otherwise.
    pub fn allocate(&mut self) -> (id: usize)
        requires
            old(self).wf(),
            old(self).current < usize::MAX,
        ensures
            final(self).wf(),
            !old(self).spec_allocated(id),
            final(self).spec_allocated(id),
            forall|other: usize|
                other != id ==> final(self).spec_allocated(other) == old(self).spec_allocated(other),
            forall|smaller: usize| smaller < id ==> old(self).spec_allocated(smaller),
            old(self).current <= final(self).current <= old(self).current + 1,
    {
        if self.recycled.len() == 0 {
            let id = self.current;
            self.current = self.current + 1;
            proof {
                assert(!old(self).recycled@.contains(id));
                assert forall|smaller: usize| smaller < id implies old(self).spec_allocated(smaller) by {
                    assert(!old(self).recycled@.contains(smaller));
                }
                assert forall|other: usize|
                    other != id implies self.spec_allocated(other) == old(self).spec_allocated(
                    other,
                ) by {}
            }
            id
        } else {
            let mut best: usize = 0;
            let mut i: usize = 1;
            while i < self.recycled.len()
                invariant
                    1 <= i <= self.recycled@.len(),
                    best < i,
                    forall|j: int|
                        0 <= j < i ==> self.recycled@[best as int] <= #[trigger] self.recycled@[j],
                    self == old(self),
                decreases self.recycled@.len() - i,
            {
                if self.recycled[i] < self.recycled[best] {
                    best = i;
                }
                i = i + 1;
            }
            let id = self.recycled.remove(best);
            proof {
                let pre = old(self).recycled@;
                assert(pre.contains(id));
                // the removed id stays out of the remaining free-list
                assert forall|k: int| 0 <= k < self.recycled@.len() implies self.recycled@[k]
                    != id by {
                    if k < best {
                        assert(self.recycled@[k] == pre[k]);
                    } else {
                        assert(self.recycled@[k] == pre[k + 1]);
                    }
                }
                assert(!self.recycled@.contains(id));
                // allocation status of any other id is unchanged
                assert forall|other: usize|
                    other != id implies self.spec_allocated(other) == old(self).spec_allocated(
                    other,
                ) by {
                    if pre.contains(other) {
                        let w = choose|w: int| 0 <= w < pre.len() && pre[w] == other;
                        if w < best {
                            assert(self.recycled@[w] == other);
                        } else {
                            assert(w > best);
                            assert(self.recycled@[w - 1] == other);
                        }
                        assert(self.recycled@.contains(other));
                    } else {
                        assert forall|k: int|
                            0 <= k < self.recycled@.len() implies self.recycled@[k] != other by {
                            if k < best {
                                assert(self.recycled@[k] == pre[k]);
                            } else {
                                assert(self.recycled@[k] == pre[k + 1]);
                            }
                        }
                        assert(!self.recycled@.contains(other));
                    }
                }
                // minimality: everything below the least free-listed id is allocated
                assert forall|smaller: usize| smaller < id implies old(self).spec_allocated(
                    smaller,
                ) by {
                    assert(pre[best as int] == id);
                    if pre.contains(smaller) {
                        let w = choose|w: int| 0 <= w < pre.len() && pre[w] == smaller;
                        assert(pre[best as int] <= pre[w]);
                        assert(false);
                    }
                }
            }
            id
        }
    }

    /// Returns `id` to the free-list. Freeing an id that was never allocated,
    /// or is already free, is a programming error and is ruled out here.
    pub fn deallocate(&mut self, id: usize)
        requires
            old(self).wf(),
            old(self).spec_allocated(id),
        ensures
            final(self).wf(),
            !final(self).spec_allocated(id),
            forall|other: usize|
                other != id ==> final(self).spec_allocated(other) == old(self).spec_allocated(other),
            final(self).current == old(self).current,
    {
        self.recycled.push(id);
        proof {
            assert(self.recycled@[self.recycled@.len() - 1] == id);
            assert(self.recycled@.contains(id));
            assert forall|other: usize|
                other != id implies self.spec_allocated(other) == old(self).spec_allocated(
                other,
            ) by {
                let pre = old(self).recycled@;
                if pre.contains(other) {
                    let w = choose|w: int| 0 <= w < pre.len() && pre[w] == other;
                    assert(self.recycled@[w] == other);
                    assert(self.recycled@.contains(other));
                } else {
                    assert forall|k: int|
                        0 <= k < self.recycled@.len() implies self.recycled@[k] != other by {
                        if k < self.recycled@.len() - 1 {
                            assert(self.recycled@[k] == pre[k]);
                        }
                    }
                    assert(!self.recycled@.contains(other));
                }
            }
        }
    }
}

/// The memory range of a kernel stack is a pure function of its slot index:
/// stacks are laid out downward from the top limit, each followed by one
/// guard page.
pub fn kernel_stack_position(slot: usize) -> (r: (usize, usize))
    requires
        (slot as int) < KERNEL_STACK_TOP_LIMIT as int / ((KERNEL_STACK_SIZE + PAGE_SIZE) as int),
    ensures
        r.1 == KERNEL_STACK_TOP_LIMIT - slot * (KERNEL_STACK_SIZE + PAGE_SIZE),
        r.0 == r.1 - KERNEL_STACK_SIZE,
        r.0 < r.1,
{
    proof {
        assert((KERNEL_STACK_SIZE + PAGE_SIZE) as int == 12288);
        assert(KERNEL_STACK_TOP_LIMIT as int / 12288 == 349525);
        assert(slot as int * 12288 <= 349524 * 12288);
    }
    let top = KERNEL_STACK_TOP_LIMIT - slot * (KERNEL_STACK_SIZE + PAGE_SIZE);
    let bottom = top - KERNEL_STACK_SIZE;
    (bottom, top)
}

} // verus!
