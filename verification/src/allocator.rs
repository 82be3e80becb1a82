//! The free-list allocator's bookkeeping.
//!
//! A classic free-list allocator threads area headers through the managed
//! memory itself; here an area is its start address, kept per size
//! class, so the logic is ordinary arithmetic on addresses.  An area in
//! class `i` spans `MIN_BASE_SIZE << i` bytes; adjacent same-class areas are
//! merged into the next class.  The allocator never holds more free bytes
//! than the ranges donated to it.

use vstd::prelude::*;

verus! {

/// Number of size classes.
pub const LIST_LEN: usize = 5;

/// Bytes spanned by an area of the smallest class.
pub const MIN_BASE_SIZE: usize = 8;

/// Bytes spanned by an area of the largest class.
pub const MAX_BASE_SIZE: usize = 128;

/// Bytes spanned by an area of class `k`.
pub open spec fn class_size(k: int) -> nat
    decreases k,
{
    if k <= 0 {
        MIN_BASE_SIZE as nat
    } else {
        2 * class_size(k - 1)
    }
}

/// Ascending order of a free list's addresses.
pub open spec fn sorted(l: Seq<usize>) -> bool {
    forall|i: int, j: int| 0 <= i < j < l.len() ==> l[i] <= l[j]
}

/// Free bytes held by the classes below `upto`.
pub open spec fn bytes_upto(ls: Seq<Seq<usize>>, upto: int) -> nat
    decreases upto,
{
    if upto <= 0 {
        0
    } else {
        bytes_upto(ls, upto - 1) + ls[upto - 1].len() * class_size(upto - 1)
    }
}

pub struct Allocator {
    free_lists: Vec<Vec<usize>>,
}

impl Allocator {
    /// The free lists' addresses, one sequence per size class.
    pub closed spec fn lists(self) -> Seq<Seq<usize>> {
        self.free_lists@.map_values(|v: Vec<usize>| v@)
    }

    /// Total free bytes held.
    pub open spec fn total_bytes(self) -> nat {
        bytes_upto(self.lists(), LIST_LEN as int)
    }

    pub closed spec fn well_formed(self) -> bool {
        &&& self.free_lists@.len() == LIST_LEN
        &&& (forall|k: int| 0 <= k < LIST_LEN ==> sorted(#[trigger] self.lists()[k]))
    }

    /// An allocator holding no memory yet.
    pub fn new() -> (r: Allocator)
        ensures
            r.well_formed(),
            r.total_bytes() == 0,
    {
        let mut free_lists: Vec<Vec<usize>> = Vec::new();
        let mut i: usize = 0;
        while i < LIST_LEN
            invariant
                i <= LIST_LEN,
                free_lists@.len() == i,
                forall|k: int| 0 <= k < i ==> (#[trigger] free_lists@[k])@.len() == 0,
            decreases LIST_LEN - i,
        {
            free_lists.push(Vec::new());
            i = i + 1;
        }
        let r = Allocator { free_lists };
        proof {
            Self::lemma_bytes_zero(r.lists(), LIST_LEN as int);
        }
        r
    }

    /// The five class sizes, spelled out.
    proof fn lemma_class_sizes()
        ensures
            class_size(0) == 8,
            class_size(1) == 16,
            class_size(2) == 32,
            class_size(3) == 64,
            class_size(4) == 128,
    {
        assert(class_size(0) == 8);
        assert(class_size(1) == 16);
        assert(class_size(2) == 32);
        assert(class_size(3) == 64);
        assert(class_size(4) == 128);
    }

    proof fn lemma_bytes_zero(ls: Seq<Seq<usize>>, upto: int)
        requires
            forall|k: int| 0 <= k < upto ==> (#[trigger] ls[k]).len() == 0,
        ensures
            bytes_upto(ls, upto) == 0,
        decreases upto,
    {
        if upto > 0 {
            Self::lemma_bytes_zero(ls, upto - 1);
        }
    }

    /// Changing one class's list while keeping every other class fixed
    /// changes the total by that class's share.
    proof fn lemma_bytes_change(ls0: Seq<Seq<usize>>, ls1: Seq<Seq<usize>>, k: int, upto: int)
        requires
            ls0.len() == ls1.len(),
            0 <= k < ls0.len(),
            forall|j: int| 0 <= j < ls0.len() && j != k ==> #[trigger] ls1[j] == ls0[j],
            upto <= ls0.len(),
        ensures
            k < upto ==> bytes_upto(ls1, upto) + ls0[k].len() * class_size(k) == bytes_upto(
                ls0,
                upto,
            ) + ls1[k].len() * class_size(k),
            k >= upto ==> bytes_upto(ls1, upto) == bytes_upto(ls0, upto),
        decreases upto,
    {
        if upto > 0 {
            Self::lemma_bytes_change(ls0, ls1, k, upto - 1);
        }
    }

    /// Donates the bytes between `heap_start` and `heap_end`.
    pub fn init(&mut self, heap_start: usize, heap_end: usize)
        requires
            old(self).well_formed(),
            heap_start <= heap_end,
            heap_end <= usize::MAX - MAX_BASE_SIZE,
        ensures
            final(self).well_formed(),
            old(self).total_bytes() <= final(self).total_bytes(),
            final(self).total_bytes() <= old(self).total_bytes() + (heap_end - heap_start),
    {
        self.add_area(heap_start, heap_end);
    }

    /// Inserts one area of class `idx` in address order, then merges
    /// adjacent areas upward.  The total grows by exactly that area's size.
    #[verifier::loop_isolation(false)]
    fn push_area_to_list(&mut self, idx: usize, addr: usize)
        requires
            old(self).well_formed(),
            idx < LIST_LEN,
        ensures
            final(self).well_formed(),
            final(self).total_bytes() == old(self).total_bytes() + class_size(idx as int),
        decreases LIST_LEN - idx,
    {
        let list = &self.free_lists[idx];
        let mut pos: usize = 0;
        while pos < list.len() && list[pos] <= addr
            invariant
                pos <= list@.len(),
                list == &self.free_lists[idx as int],
                forall|j: int| 0 <= j < pos ==> #[trigger] list@[j] <= addr,
            decreases list@.len() - pos,
        {
            pos = pos + 1;
        }
        proof {
            assert(sorted(self.lists()[idx as int]));
            assert(self.lists()[idx as int] == self.free_lists@[idx as int]@);
        }
        let ghost ls0 = self.lists();
        self.free_lists[idx].insert(pos, addr);
        proof {
            let ls1 = self.lists();
            assert forall|j: int| 0 <= j < ls0.len() && j != idx implies #[trigger] ls1[j]
                == ls0[j] by {}
            assert(sorted(ls1[idx as int])) by {
                let l0 = ls0[idx as int];
                let l1 = ls1[idx as int];
                assert(l1 == l0.insert(pos as int, addr));
                assert forall|i: int, j: int| 0 <= i < j < l1.len() implies l1[i] <= l1[j] by {
                    if j < pos {
                        assert(l1[i] == l0[i] && l1[j] == l0[j]);
                    } else if i > pos {
                        assert(l1[i] == l0[i - 1] && l1[j] == l0[j - 1]);
                    } else if i < pos && j == pos {
                        assert(l1[i] == l0[i] && l0[i] <= addr);
                    } else if i == pos && j > pos {
                        assert(l1[j] == l0[j - 1] && l0[j - 1] > addr);
                    } else if i < pos && j > pos {
                        assert(l1[i] == l0[i] && l1[j] == l0[j - 1]);
                        assert(l0[i] <= addr && addr < l0[j - 1]);
                    }
                }
            }
            assert(self.well_formed());
            Self::lemma_bytes_change(ls0, ls1, idx as int, LIST_LEN as int);
            assert(ls1[idx as int].len() == ls0[idx as int].len() + 1);
            assert((ls0[idx as int].len() + 1) * class_size(idx as int) == ls0[idx as int].len()
                * class_size(idx as int) + class_size(idx as int)) by (nonlinear_arith);
        }
        if idx < LIST_LEN - 1 {
            self.optimize_area(idx);
        }
    }

    /// Merges one pair of adjacent same-class areas, if any, into the class
    /// above; the free bytes are unchanged.
    #[verifier::loop_isolation(false)]
    fn optimize_area(&mut self, idx: usize)
        requires
            old(self).well_formed(),
            idx < LIST_LEN - 1,
        ensures
            final(self).well_formed(),
            final(self).total_bytes() == old(self).total_bytes(),
        decreases LIST_LEN - idx, 0int,
    {
        proof {
            assert((8usize << 0) == 8 && (8usize << 1) == 16 && (8usize << 2) == 32 && (8usize
                << 3) == 64 && (8usize << 4) == 128) by (bit_vector);
            Self::lemma_class_sizes();
        }
        let size = MIN_BASE_SIZE << idx;
        proof {
            assert(size == class_size(idx as int));
        }
        let mut tar: usize = 0;
        loop
            invariant
                self.well_formed(),
                idx < LIST_LEN - 1,
                *self == *old(self),
                size == class_size(idx as int),
                size >= 1,
                tar <= self.free_lists@[idx as int]@.len(),
            decreases self.free_lists@[idx as int]@.len() - tar,
        {
            let list = &self.free_lists[idx];
            if list.len() < 2 || tar >= list.len() - 1 {
                return ;
            }
            let a = list[tar];
            let b = list[tar + 1];
            if a <= usize::MAX - size && a + size == b {
                let ghost ls0 = self.lists();
                let merged = self.free_lists[idx].remove(tar);
                let _ = self.free_lists[idx].remove(tar);
                proof {
                    let ls1 = self.lists();
                    assert forall|j: int|
                        0 <= j < ls0.len() && j != idx implies #[trigger] ls1[j] == ls0[j] by {}
                    assert(sorted(ls1[idx as int])) by {
                        let l0 = ls0[idx as int];
                        let l1 = ls1[idx as int];
                        assert forall|i: int, j: int|
                            0 <= i < j < l1.len() implies l1[i] <= l1[j] by {
                            let i0 = if i < tar {
                                i
                            } else {
                                i + 2
                            };
                            let j0 = if j < tar {
                                j
                            } else {
                                j + 2
                            };
                            assert(l1[i] == l0[i0] && l1[j] == l0[j0]);
                        }
                    }
                    assert(self.well_formed());
                    Self::lemma_bytes_change(ls0, ls1, idx as int, LIST_LEN as int);
                    assert(ls1[idx as int].len() == ls0[idx as int].len() - 2);
                    assert(ls0[idx as int].len() * class_size(idx as int) == (ls0[idx as int].len()
                        - 2) * class_size(idx as int) + 2 * class_size(idx as int))
                        by (nonlinear_arith)
                        requires
                            ls0[idx as int].len() >= 2,
                    ;
                }
                self.push_area_to_list(idx + 1, merged);
                return ;
            }
            tar = tar + 1;
        }
    }

    /// Donates the bytes between `heap_start` and `heap_end`: aligns the
    /// start, carves the range into areas of growing then shrinking classes,
    /// and files each one.  The allocator gains at most the donated bytes.
    #[verifier::loop_isolation(false)]
    pub fn add_area(&mut self, heap_start: usize, heap_end: usize)
        requires
            old(self).well_formed(),
            heap_start <= heap_end,
            heap_end <= usize::MAX - MAX_BASE_SIZE,
        ensures
            final(self).well_formed(),
            old(self).total_bytes() <= final(self).total_bytes(),
            final(self).total_bytes() <= old(self).total_bytes() + (heap_end - heap_start),
    {
        proof {
            assert((8usize << 0) == 8 && (8usize << 1) == 16 && (8usize << 2) == 32 && (8usize
                << 3) == 64 && (8usize << 4) == 128) by (bit_vector);
            Self::lemma_class_sizes();
            let x = (heap_start + MIN_BASE_SIZE - 1) as int;
            assert(x / (MIN_BASE_SIZE as int) * (MIN_BASE_SIZE as int) <= x && x / (
            MIN_BASE_SIZE as int) * (MIN_BASE_SIZE as int) > x - (MIN_BASE_SIZE as int))
                by (nonlinear_arith)
                requires
                    x >= 0,
            ;
        }
        let heap_start = (heap_start + MIN_BASE_SIZE - 1) / MIN_BASE_SIZE * MIN_BASE_SIZE;
        if heap_start >= heap_end {
            return ;
        }
        let mut current = heap_start;
        let mut idx: usize = 0;
        // Align upward to the largest class.
        while current + (MIN_BASE_SIZE << idx) <= heap_end && idx < LIST_LEN - 1
            invariant
                self.well_formed(),
                idx < LIST_LEN,
                current <= heap_end,
                heap_end <= usize::MAX - MAX_BASE_SIZE,
                heap_start <= current,
                self.total_bytes() + heap_start == old(self).total_bytes() + current,
            decreases LIST_LEN - idx,
        {
            let base_size = MIN_BASE_SIZE << idx;
            let next_base_size = base_size * 2;
            proof {
                assert(base_size == class_size(idx as int));
            }
            if current % next_base_size > 0 {
                self.push_area_to_list(idx, current);
                current = current + base_size;
            }
            idx = idx + 1;
        }
        // File maximal areas.
        while current + MAX_BASE_SIZE <= heap_end && idx < LIST_LEN
            invariant
                self.well_formed(),
                idx <= LIST_LEN,
                current <= heap_end,
                heap_end <= usize::MAX - MAX_BASE_SIZE,
                heap_start <= current,
                self.total_bytes() + heap_start == old(self).total_bytes() + current,
            decreases heap_end - current,
        {
            proof {
                assert(MAX_BASE_SIZE == class_size(LIST_LEN - 1));
            }
            self.push_area_to_list(LIST_LEN - 1, current);
            current = current + MAX_BASE_SIZE;
        }
        // File what remains, largest class first.
        idx = LIST_LEN;
        while current < heap_end && idx > 0
            invariant
                self.well_formed(),
                idx <= LIST_LEN,
                current <= heap_end,
                heap_end <= usize::MAX - MAX_BASE_SIZE,
                heap_start <= current,
                self.total_bytes() + heap_start == old(self).total_bytes() + current,
            decreases idx,
        {
            idx = idx - 1;
            let base_size = MIN_BASE_SIZE << idx;
            proof {
                assert(base_size == class_size(idx as int));
            }
            if ((heap_end - current) & base_size) > 0 {
                proof {
                    let rem = (heap_end - current) as usize;
                    assert(rem & base_size <= rem) by (bit_vector);
                    assert(base_size <= rem) by (bit_vector)
                        requires
                            rem & base_size > 0,
                            base_size == 8usize || base_size == 16usize || base_size == 32usize
                                || base_size == 64usize || base_size == 128usize,
                    ;
                }
                self.push_area_to_list(idx, current);
                current = current + base_size;
            }
        }
    }

    /// Number of free areas currently filed under class `idx`.
    pub fn area_count(&self, idx: usize) -> (r: usize)
        requires
            self.well_formed(),
            idx < LIST_LEN,
        ensures
            r == self.lists()[idx as int].len(),
    {
        self.free_lists[idx].len()
    }

    /// Returns the bytes of one allocation to the pool.
    pub fn dealloc(&mut self, addr: usize, size: usize)
        requires
            old(self).well_formed(),
            addr + size <= usize::MAX - MAX_BASE_SIZE - MIN_BASE_SIZE,
        ensures
            final(self).well_formed(),
            old(self).total_bytes() <= final(self).total_bytes(),
            final(self).total_bytes() <= old(self).total_bytes() + size + MIN_BASE_SIZE,
    {
        proof {
            let x = (size + MIN_BASE_SIZE - 1) as int;
            assert(x / (MIN_BASE_SIZE as int) * (MIN_BASE_SIZE as int) <= x) by (nonlinear_arith)
                requires
                    x >= 0,
            ;
        }
        let heap_end = addr + (size + MIN_BASE_SIZE - 1) / MIN_BASE_SIZE * MIN_BASE_SIZE;
        self.add_area(addr, heap_end);
    }
}

} // verus!
