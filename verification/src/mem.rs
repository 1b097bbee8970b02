//! Model of a task's address space as the set of its mapped virtual-memory
//! areas. The page-table and frame-allocation machinery behind each area is an
//! external collaborator; what the task core decides — conflict checks, area
//! insertion, exact-range reclamation, exit-time teardown — is modelled and
//! verified here on page-aligned address ranges.

use vstd::prelude::*;
use crate::PAGE_SIZE;

verus! {

/// Readable mapping permission bit.
pub const PERM_R: u8 = 1;

/// Writable mapping permission bit.
pub const PERM_W: u8 = 2;

/// Executable mapping permission bit.
pub const PERM_X: u8 = 4;

/// User-accessible mapping permission bit; set on every syscall-made area.
pub const PERM_U: u8 = 16;

/// One mapped area: a half-open, page-aligned, non-empty range of virtual
/// addresses with its permission bits.
#[derive(Clone, Copy, PartialEq, Eq, Structural, Debug)]
pub struct MapArea {
    /// First address of the area; page-aligned.
    pub start: usize,
    /// First address past the area; page-aligned.
    pub end: usize,
    /// Permission bits of the area.
    pub perm: u8,
}

/// A well-formed area is page-aligned and non-empty.
pub open spec fn area_wf(a: MapArea) -> bool {
    &&& a.start as int % PAGE_SIZE as int == 0
    &&& a.end as int % PAGE_SIZE as int == 0
    &&& a.start < a.end
}

/// Whether area `a` intersects the half-open range `[lo, hi)`.
pub open spec fn area_overlaps(a: MapArea, lo: usize, hi: usize) -> bool {
    a.start < hi && lo < a.end
}

/// Whether area `a` lies entirely inside the half-open range `[lo, hi)`.
pub open spec fn area_contained(a: MapArea, lo: usize, hi: usize) -> bool {
    lo <= a.start && a.end <= hi
}

/// Total length of the areas of `s` that lie entirely inside `[lo, hi)`.
pub open spec fn covered_len(s: Seq<MapArea>, lo: usize, hi: usize) -> int
    decreases s.len(),
{
    if s.len() == 0 {
        0
    } else {
        covered_len(s.drop_last(), lo, hi) + if area_contained(s.last(), lo, hi) {
            s.last().end - s.last().start
        } else {
            0
        }
    }
}

/// The areas of `s` that do not lie entirely inside `[lo, hi)`, in order.
pub open spec fn remove_contained(s: Seq<MapArea>, lo: usize, hi: usize) -> Seq<MapArea>
    decreases s.len(),
{
    if s.len() == 0 {
        Seq::empty()
    } else {
        remove_contained(s.drop_last(), lo, hi) + if area_contained(s.last(), lo, hi) {
            Seq::empty()
        } else {
            seq![s.last()]
        }
    }
}

/// Every area kept by `remove_contained` is an area of `s` that is not
/// contained in `[lo, hi)`.
pub proof fn lemma_remove_contained_membership(s: Seq<MapArea>, lo: usize, hi: usize)
    ensures
        forall|k: int| #![trigger remove_contained(s, lo, hi)[k]]
            0 <= k < remove_contained(s, lo, hi).len() ==> exists|j: int|
                0 <= j < s.len() && #[trigger] s[j] == remove_contained(s, lo, hi)[k]
                    && !area_contained(s[j], lo, hi),
    decreases s.len(),
{
    if s.len() > 0 {
        lemma_remove_contained_membership(s.drop_last(), lo, hi);
        let r = remove_contained(s, lo, hi);
        let rd = remove_contained(s.drop_last(), lo, hi);
        assert forall|k: int| #![trigger r[k]] 0 <= k < r.len() implies exists|j: int|
            0 <= j < s.len() && #[trigger] s[j] == r[k] && !area_contained(s[j], lo, hi) by {
            if k < rd.len() {
                let j = choose|j: int|
                    0 <= j < s.drop_last().len() && s.drop_last()[j] == rd[k] && !area_contained(
                        s.drop_last()[j],
                        lo,
                        hi,
                    );
                assert(s[j] == r[k] && !area_contained(s[j], lo, hi));
            } else {
                assert(r[k] == s.last());
                assert(s[s.len() - 1] == r[k] && !area_contained(s[s.len() - 1], lo, hi));
            }
        }
    }
}

/// If the areas of `s` are pairwise distinct values, so are those kept by
/// `remove_contained`.
pub proof fn lemma_remove_contained_distinct(s: Seq<MapArea>, lo: usize, hi: usize)
    requires
        forall|i: int, j: int| 0 <= i < j < s.len() ==> s[i] != s[j],
    ensures
        forall|p: int, q: int| #![trigger remove_contained(s, lo, hi)[p], remove_contained(s, lo, hi)[q]]
            0 <= p < q < remove_contained(s, lo, hi).len() ==> remove_contained(s, lo, hi)[p]
                != remove_contained(s, lo, hi)[q],
    decreases s.len(),
{
    if s.len() > 0 {
        let sd = s.drop_last();
        lemma_remove_contained_distinct(sd, lo, hi);
        lemma_remove_contained_membership(sd, lo, hi);
        let r = remove_contained(s, lo, hi);
        let rd = remove_contained(sd, lo, hi);
        assert forall|p: int, q: int| #![trigger r[p], r[q]] 0 <= p < q < r.len() implies r[p]
            != r[q] by {
            if q < rd.len() {
                assert(rd[p] != rd[q]);
            } else {
                // r[q] is s.last(); r[p] came from the front of s
                let j = choose|j: int|
                    0 <= j < sd.len() && sd[j] == rd[p] && !area_contained(sd[j], lo, hi);
                assert(s[j] == r[p]);
                assert(s[j] != s[s.len() - 1]);
            }
        }
    }
}

/// A set of areas none of which intersects `[lo, hi)` covers none of it.
pub proof fn lemma_no_overlap_covered_len_zero(s: Seq<MapArea>, lo: usize, hi: usize)
    requires
        forall|i: int| 0 <= i < s.len() ==> area_wf(#[trigger] s[i]),
        forall|i: int| 0 <= i < s.len() ==> !area_overlaps(#[trigger] s[i], lo, hi),
    ensures
        covered_len(s, lo, hi) == 0,
    decreases s.len(),
{
    if s.len() > 0 {
        lemma_no_overlap_covered_len_zero(s.drop_last(), lo, hi);
        assert(!area_overlaps(s[s.len() - 1], lo, hi));
        assert(!area_contained(s.last(), lo, hi)) by {
            if area_contained(s.last(), lo, hi) {
                assert(area_wf(s[s.len() - 1]));
            }
        }
    }
}

/// A freshly inserted area over a previously free non-empty range tiles that
/// range exactly: unmapping the exact range of a successful map succeeds.
pub proof fn lemma_mapped_range_exactly_covered(
    pre: MemorySet,
    post: MemorySet,
    lo: usize,
    hi: usize,
    perm: u8,
)
    requires
        pre.wf(),
        lo < hi,
        !pre.spec_conflict(lo, hi),
        post.areas@ == pre.areas@.push(MapArea { start: lo, end: hi, perm: perm }),
    ensures
        post.spec_exactly_covered(lo, hi),
{
    let area = MapArea { start: lo, end: hi, perm: perm };
    assert forall|i: int|
        0 <= i < post.areas@.len() && area_overlaps(#[trigger] post.areas@[i], lo, hi) implies
        area_contained(post.areas@[i], lo, hi) by {
        if i < pre.areas@.len() {
            assert(post.areas@[i] == pre.areas@[i]);
        } else {
            assert(post.areas@[i] == area);
        }
    }
    assert(post.areas@.drop_last() =~= pre.areas@);
    assert(post.areas@.last() == area);
    lemma_no_overlap_covered_len_zero(pre.areas@, lo, hi);
    assert(covered_len(post.areas@, lo, hi) == hi - lo);
}

/// A range no mapped area intersects any longer — as after a successful
/// reclaim — is not exactly covered: a repeated unmap of it fails.
pub proof fn lemma_freed_range_not_covered(ms: MemorySet, lo: usize, hi: usize)
    requires
        ms.wf(),
        lo < hi,
        !ms.spec_conflict(lo, hi),
    ensures
        !ms.spec_exactly_covered(lo, hi),
{
    lemma_no_overlap_covered_len_zero(ms.areas@, lo, hi);
}

/// The address space of one task, modelled as its mapped areas.
pub struct MemorySet {
    /// The mapped areas, in order of insertion.
    pub areas: Vec<MapArea>,
}

impl MemorySet {
    /// Every area is well-formed and no two areas intersect.
    pub open spec fn wf(self) -> bool {
        &&& forall|i: int| 0 <= i < self.areas@.len() ==> area_wf(#[trigger] self.areas@[i])
        &&& forall|i: int, j: int| #![trigger self.areas@[i], self.areas@[j]]
            0 <= i < self.areas@.len() && 0 <= j < self.areas@.len() && i != j ==> !area_overlaps(
                self.areas@[i],
                self.areas@[j].start,
                self.areas@[j].end,
            )
    }

    /// Whether any mapped area intersects `[lo, hi)`.
    pub open spec fn spec_conflict(self, lo: usize, hi: usize) -> bool {
        exists|i: int| 0 <= i < self.areas@.len() && area_overlaps(#[trigger] self.areas@[i], lo, hi)
    }

    /// Whether `[lo, hi)` is exactly tiled by mapped areas: no area straddles
    /// its boundary, and the contained areas fill its whole length.
    pub open spec fn spec_exactly_covered(self, lo: usize, hi: usize) -> bool {
        &&& forall|i: int|
            0 <= i < self.areas@.len() && area_overlaps(#[trigger] self.areas@[i], lo, hi)
                ==> area_contained(self.areas@[i], lo, hi)
        &&& covered_len(self.areas@, lo, hi) == hi - lo
    }

    /// An address space with nothing mapped.
    pub fn new() -> (r: Self)
        ensures
            r.wf(),
            r.areas@.len() == 0,
    {
        MemorySet { areas: Vec::new() }
    }

    /// Whether any mapped area intersects `[lo, hi)`.
    pub fn is_conflict(&self, lo: usize, hi: usize) -> (r: bool)
        ensures
            r == self.spec_conflict(lo, hi),
    {
        let n = self.areas.len();
        let mut i: usize = 0;
        while i < n
            invariant
                i <= n,
                n == self.areas@.len(),
                forall|j: int| 0 <= j < i ==> !area_overlaps(#[trigger] self.areas@[j], lo, hi),
            decreases n - i,
        {
            if self.areas[i].start < hi && lo < self.areas[i].end {
                return true;
            }
            i = i + 1;
        }
        false
    }

    /// Materializes a new backed area over `[lo, hi)`. The page-table
    /// collaborator's backing allocation is not modelled; the caller has
    /// already checked that the range is free.
    pub fn insert_framed_area(&mut self, lo: usize, hi: usize, perm: u8)
        requires
            old(self).wf(),
            lo as int % PAGE_SIZE as int == 0,
            hi as int % PAGE_SIZE as int == 0,
            lo < hi,
            !old(self).spec_conflict(lo, hi),
        ensures
            final(self).wf(),
            final(self).areas@ == old(self).areas@.push(
                MapArea { start: lo, end: hi, perm: perm },
            ),
    {
        let area = MapArea { start: lo, end: hi, perm: perm };
        self.areas.push(area);
    }

    /// Reclaims exactly the range `[lo, hi)`: succeeds, removing the contained
    /// areas, when the range is exactly tiled by mapped areas; fails with no
    /// state change otherwise.
    pub fn recycle_map_area(&mut self, lo: usize, hi: usize) -> (r: bool)
        requires
            old(self).wf(),
            lo <= hi,
        ensures
            final(self).wf(),
            r == old(self).spec_exactly_covered(lo, hi),
            r ==> final(self).areas@ == remove_contained(old(self).areas@, lo, hi),
            r ==> !final(self).spec_conflict(lo, hi),
            !r ==> *final(self) == *old(self),
    {
        let n = self.areas.len();
        let mut total: u128 = 0;
        let mut i: usize = 0;
        while i < n
            invariant
                i <= n,
                n == self.areas@.len(),
                self == old(self),
                old(self).wf(),
                total == covered_len(self.areas@.take(i as int), lo, hi),
                total <= (i as u128) * (u64::MAX as u128),
                forall|j: int|
                    0 <= j < i && area_overlaps(#[trigger] self.areas@[j], lo, hi)
                        ==> area_contained(self.areas@[j], lo, hi),
            decreases n - i,
        {
            let a = self.areas[i];
            if a.start < hi && lo < a.end {
                if !(lo <= a.start && a.end <= hi) {
                    proof {
                        assert(area_overlaps(self.areas@[i as int], lo, hi));
                        assert(!area_contained(self.areas@[i as int], lo, hi));
                    }
                    return false;
                }
            }
            proof {
                assert(self.areas@.take(i + 1).drop_last() =~= self.areas@.take(i as int));
                assert(self.areas@.take(i + 1).last() == self.areas@[i as int]);
            }
            if lo <= a.start && a.end <= hi {
                total = total + (a.end - a.start) as u128;
            }
            i = i + 1;
        }
        proof {
            assert(self.areas@.take(n as int) =~= self.areas@);
        }
        if total != (hi - lo) as u128 {
            return false;
        }
        // the range is exactly tiled: drop every contained area
        let mut kept: Vec<MapArea> = Vec::new();
        let mut i: usize = 0;
        while i < n
            invariant
                i <= n,
                n == self.areas@.len(),
                self == old(self),
                old(self).wf(),
                kept@ == remove_contained(self.areas@.take(i as int), lo, hi),
            decreases n - i,
        {
            let a = self.areas[i];
            proof {
                assert(self.areas@.take(i + 1).drop_last() =~= self.areas@.take(i as int));
                assert(self.areas@.take(i + 1).last() == self.areas@[i as int]);
            }
            if !(lo <= a.start && a.end <= hi) {
                kept.push(a);
            }
            i = i + 1;
        }
        proof {
            assert(self.areas@.take(n as int) =~= self.areas@);
        }
        self.areas = kept;
        proof {
            let pre = old(self).areas@;
            let post = self.areas@;
            lemma_remove_contained_membership(pre, lo, hi);
            assert forall|i: int, j: int| 0 <= i < pre.len() && 0 <= j < pre.len() && i != j
                implies pre[i] != pre[j] by {
                if pre[i] == pre[j] {
                    assert(!area_overlaps(pre[i], pre[j].start, pre[j].end));
                    assert(area_wf(pre[i]));
                }
            }
            lemma_remove_contained_distinct(pre, lo, hi);
            // well-formedness of what is kept
            assert forall|k: int| 0 <= k < post.len() implies area_wf(#[trigger] post[k]) by {
                let j = choose|j: int|
                    0 <= j < pre.len() && pre[j] == post[k] && !area_contained(pre[j], lo, hi);
            }
            assert forall|p: int, q: int| #![trigger post[p], post[q]]
                0 <= p < post.len() && 0 <= q < post.len() && p != q implies !area_overlaps(
                post[p],
                post[q].start,
                post[q].end,
            ) by {
                let jp = choose|j: int|
                    0 <= j < pre.len() && pre[j] == post[p] && !area_contained(pre[j], lo, hi);
                let jq = choose|j: int|
                    0 <= j < pre.len() && pre[j] == post[q] && !area_contained(pre[j], lo, hi);
                if p < q {
                    assert(post[p] != post[q]);
                } else {
                    assert(post[q] != post[p]);
                }
                assert(jp != jq);
            }
            // nothing kept still intersects the reclaimed range
            assert forall|k: int| 0 <= k < post.len() implies !area_overlaps(
                #[trigger] post[k],
                lo,
                hi,
            ) by {
                let j = choose|j: int|
                    0 <= j < pre.len() && pre[j] == post[k] && !area_contained(pre[j], lo, hi);
            }
        }
        true
    }

    /// Exit-time reclamation: every mapped area is torn down at once.
    pub fn recycle_data_pages(&mut self)
        ensures
            final(self).wf(),
            final(self).areas@.len() == 0,
    {
        self.areas.clear();
    }
}

} // verus!
