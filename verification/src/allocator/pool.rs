//! Pools of free blocks, one for each block size, in front of the fallback
//! heap.

use vstd::prelude::*;
use core::mem::MaybeUninit;
use linked_list_allocator::Heap;
use crate::memory::addr::lemma_align_bounds;
use crate::allocator::fallback::{
    alignment_fits,
    first_fit,
    fits,
    heap_allocate,
    heap_bottom,
    heap_bottom_address,
    heap_empty,
    heap_hole_list,
    heap_holes,
    heap_init,
    heap_top,
    heap_top_address,
    layout_ok,
    one_hole,
    power_of_two,
    served_first_fit,
    taken,
    whole_words,
    word,
    MIN_BLOCK,
    MIN_HEAP_SIZE,
};

verus! {

/// The number of block sizes.
pub const CLASSES: usize = 10;

/// The largest block size.
pub const MAX_BLOCK_SIZE: usize = 4096;

/// The block size of class `i`: 8, 16, 32 and so on up to 4096.
pub open spec fn block_size(i: int) -> int {
    if i == 0 {
        8
    } else if i == 1 {
        16
    } else if i == 2 {
        32
    } else if i == 3 {
        64
    } else if i == 4 {
        128
    } else if i == 5 {
        256
    } else if i == 6 {
        512
    } else if i == 7 {
        1024
    } else if i == 8 {
        2048
    } else {
        4096
    }
}

/// The size that a block must have to serve a request: the larger of the
/// requested size and alignment.
pub open spec fn required_size(size: usize, align: usize) -> int {
    if size >= align {
        size as int
    } else {
        align as int
    }
}

/// The class that serves a request: the one with the smallest block size
/// that is at least the required size, or none where the request is larger
/// than every block.
pub open spec fn class_of(size: usize, align: usize) -> Option<int> {
    let need = required_size(size, align);
    if need <= 8 {
        Some(0)
    } else if need <= 16 {
        Some(1)
    } else if need <= 32 {
        Some(2)
    } else if need <= 64 {
        Some(3)
    } else if need <= 128 {
        Some(4)
    } else if need <= 256 {
        Some(5)
    } else if need <= 512 {
        Some(6)
    } else if need <= 1024 {
        Some(7)
    } else if need <= 2048 {
        Some(8)
    } else if need <= 4096 {
        Some(9)
    } else {
        None
    }
}

/// What the view of a pool allocator holds: for each class the stack of its
/// free blocks, the block freed last on top, the free bytes of the fallback
/// heap, its list of holes, and the bounds of the heap's memory.
pub struct PoolView {
    pub buckets: Seq<Seq<usize>>,
    pub holes: Set<int>,
    pub hole_list: Seq<(int, int)>,
    pub bottom: int,
    pub top: int,
}

impl PoolView {
    /// Whether the byte at the address lies in block `k` of class `i`.
    pub open spec fn in_block(self, i: int, k: int, a: int) -> bool {
        self.buckets[i][k] <= a < self.buckets[i][k] + block_size(i)
    }

    /// Whether `k` is a block of class `i`.
    pub open spec fn has_block(self, i: int, k: int) -> bool {
        0 <= i < CLASSES && 0 <= k < self.buckets[i].len()
    }

    /// Whether the byte at the address lies in a block of one of the pools.
    pub open spec fn pooled(self, a: int) -> bool {
        exists|i: int, k: int| self.has_block(i, k) && #[trigger] self.in_block(i, k, a)
    }

    /// Whether the byte at the address is free: it lies in a pooled block or
    /// in a hole of the fallback heap.
    pub open spec fn free(self, a: int) -> bool {
        self.pooled(a) || self.holes.contains(a)
    }

    /// No pool holds a block.
    pub open spec fn unused(self) -> bool {
        self.buckets == Seq::new(CLASSES as nat, |i: int| Seq::<usize>::empty())
    }

    /// Every pooled block is aligned to its size and lies in the heap's
    /// memory, no two pooled blocks overlap, and none overlaps a hole of the
    /// fallback heap.
    pub open spec fn consistent(self) -> bool {
        &&& self.buckets.len() == CLASSES
        &&& forall|i: int, k: int|
            self.has_block(i, k) ==> (#[trigger] self.buckets[i][k]) as int % block_size(i) == 0
        &&& forall|i: int, k: int|
            self.has_block(i, k) ==> self.bottom <= (#[trigger] self.buckets[i][k])
                && self.buckets[i][k] + block_size(i) <= self.top
        &&& forall|i: int, k: int, j: int, l: int, a: int|
            self.has_block(i, k) && self.has_block(j, l) && #[trigger] self.in_block(i, k, a)
                && #[trigger] self.in_block(j, l, a) ==> i == j && k == l
        &&& forall|i: int, k: int, a: int|
            self.has_block(i, k) && #[trigger] self.in_block(i, k, a) ==> !self.holes.contains(a)
    }

    /// The pools after a block was put on top of the stack of class `i`.
    pub open spec fn push(self, i: int, block: usize) -> PoolView {
        PoolView {
            buckets: self.buckets.update(i, self.buckets[i].push(block)),
            holes: self.holes,
            hole_list: self.hole_list,
            bottom: self.bottom,
            top: self.top,
        }
    }

    /// The pools after the top block of class `i` was taken.
    pub open spec fn pop(self, i: int) -> PoolView {
        PoolView {
            buckets: self.buckets.update(i, self.buckets[i].drop_last()),
            holes: self.holes,
            hole_list: self.hole_list,
            bottom: self.bottom,
            top: self.top,
        }
    }
}

/// What a request gets from the fallback heap. A request whose size and
/// alignment make a layout, with an alignment that the heap can round its
/// addresses up to, is served first fit: from the first hole of the heap
/// that fits, if one does. Any other request gets nothing. A block that
/// comes back is aligned as asked, lies in the heap's memory and is cut out
/// of the free bytes of the heap; where none comes back the heap is as it
/// was. The pools and the bounds of the heap stay as they are.
pub open spec fn carved(
    before: PoolView,
    after: PoolView,
    block: Option<usize>,
    size: usize,
    align: usize,
) -> bool {
    &&& after.buckets == before.buckets
    &&& after.bottom == before.bottom
    &&& after.top == before.top
    &&& if layout_ok(size, align) && alignment_fits(before.top, align) {
        served_first_fit(before.hole_list, after.hole_list, block, size, align)
    } else {
        block.is_none() && after.hole_list == before.hole_list
    }
    &&& match block {
        Some(address) => {
            &&& align > 0
            &&& address as int % align as int == 0
            &&& before.bottom <= address
            &&& address + size <= before.top
            &&& forall|a: int|
                address <= a < address + size ==> before.holes.contains(a) && !after.holes.contains(
                    a,
                )
            &&& after.holes.subset_of(before.holes)
        },
        None => after.holes == before.holes,
    }
}

/// What a caller is granted: the block lies in the heap's memory, its bytes
/// were free and are free no longer, no other byte became free, and the
/// block is aligned as asked. Where no block is returned, the free bytes
/// are as they were.
pub open spec fn granted(
    before: PoolView,
    after: PoolView,
    block: Option<usize>,
    size: usize,
    align: usize,
) -> bool {
    match block {
        Some(address) => {
            &&& before.bottom <= address
            &&& address + size <= before.top
            &&& forall|a: int|
                address <= a < address + size ==> before.free(a) && !after.free(a)
            &&& forall|a: int| after.free(a) ==> before.free(a)
            &&& address as int % align as int == 0
        },
        None => forall|a: int| after.free(a) <==> before.free(a),
    }
}

/// Taking the top block of a pool keeps the pools consistent; the bytes of
/// the block were free and are free no longer, and no byte became free.
pub proof fn lemma_pop(view: PoolView, i: int)
    requires
        view.consistent(),
        0 <= i < CLASSES,
        view.buckets[i].len() > 0,
    ensures
        view.pop(i).consistent(),
        view.buckets[i].last() as int % block_size(i) == 0,
        view.bottom <= view.buckets[i].last(),
        view.buckets[i].last() + block_size(i) <= view.top,
        forall|a: int|
            view.buckets[i].last() <= a < view.buckets[i].last() + block_size(i) ==> view.free(a)
                && !view.pop(i).free(a),
        forall|a: int| view.pop(i).free(a) ==> view.free(a),
{
    let after = view.pop(i);
    let top = view.buckets[i].len() - 1;
    assert(view.has_block(i, top));
    assert forall|j: int, l: int| after.has_block(j, l) implies view.has_block(j, l)
        && after.buckets[j][l] == view.buckets[j][l] && !(j == i && l == top) by {}
    assert forall|j: int, l: int, a: int|
        after.has_block(j, l) && #[trigger] after.in_block(j, l, a) implies view.in_block(j, l, a) by {
        assert(after.buckets[j][l] == view.buckets[j][l]);
    }
    assert forall|j: int, l: int| after.has_block(j, l) implies (#[trigger] after.buckets[j][l])
        as int % block_size(j) == 0 by {
        assert(view.has_block(j, l));
        assert(after.buckets[j][l] == view.buckets[j][l]);
    }
    assert forall|j: int, l: int| after.has_block(j, l) implies after.bottom <= (
    #[trigger] after.buckets[j][l]) && after.buckets[j][l] + block_size(j) <= after.top by {
        assert(view.has_block(j, l));
        assert(after.buckets[j][l] == view.buckets[j][l]);
    }
    assert forall|j: int, l: int, m: int, n: int, a: int|
        after.has_block(j, l) && after.has_block(m, n) && #[trigger] after.in_block(j, l, a)
            && #[trigger] after.in_block(m, n, a) implies j == m && l == n by {
        assert(view.in_block(j, l, a));
        assert(view.in_block(m, n, a));
    }
    assert forall|j: int, l: int, a: int|
        after.has_block(j, l) && #[trigger] after.in_block(j, l, a) implies !after.holes.contains(
        a,
    ) by {
        assert(view.in_block(j, l, a));
    }
    assert forall|a: int|
        view.buckets[i].last() <= a < view.buckets[i].last() + block_size(i) implies view.free(a)
        && !after.free(a) by {
        assert(view.in_block(i, top, a));
        if after.pooled(a) {
            let (j, l) = choose|j: int, l: int| after.has_block(j, l) && after.in_block(j, l, a);
            assert(view.in_block(j, l, a));
        }
    }
    assert forall|a: int| after.free(a) implies view.free(a) by {
        if after.pooled(a) {
            let (j, l) = choose|j: int, l: int| after.has_block(j, l) && after.in_block(j, l, a);
            assert(view.has_block(j, l) && view.in_block(j, l, a));
        }
    }
}

/// Cutting a block out of the fallback heap keeps the pools consistent; the
/// bytes of the block were free and are free no longer, and no byte became
/// free.
pub proof fn lemma_carve(
    before: PoolView,
    after: PoolView,
    block: Option<usize>,
    size: usize,
    align: usize,
)
    requires
        before.consistent(),
        carved(before, after, block, size, align),
    ensures
        after.consistent(),
        forall|a: int| after.free(a) ==> before.free(a),
        block.is_none() ==> forall|a: int| before.free(a) ==> after.free(a),
        block matches Some(address) ==> forall|a: int|
            address <= a < address + size ==> before.free(a) && !after.free(a),
{
    assert forall|j: int, l: int| after.has_block(j, l) implies after.bottom <= (
    #[trigger] after.buckets[j][l]) && after.buckets[j][l] + block_size(j) <= after.top by {
        assert(before.has_block(j, l));
    }
    assert forall|j: int, l: int, a: int|
        after.has_block(j, l) && #[trigger] after.in_block(j, l, a) implies !after.holes.contains(
        a,
    ) by {
        assert(before.in_block(j, l, a));
    }
    assert forall|j: int, l: int, m: int, n: int, a: int|
        after.has_block(j, l) && after.has_block(m, n) && #[trigger] after.in_block(j, l, a)
            && #[trigger] after.in_block(m, n, a) implies j == m && l == n by {
        assert(before.in_block(j, l, a));
        assert(before.in_block(m, n, a));
    }
    assert forall|a: int| after.free(a) implies before.free(a) by {
        if after.pooled(a) {
            let (j, l) = choose|j: int, l: int| after.has_block(j, l) && after.in_block(j, l, a);
            assert(before.has_block(j, l) && before.in_block(j, l, a));
        }
    }
    if block.is_none() {
        assert forall|a: int| before.free(a) implies after.free(a) by {
            if before.pooled(a) {
                let (j, l) = choose|j: int, l: int|
                    before.has_block(j, l) && before.in_block(j, l, a);
                assert(after.has_block(j, l) && after.in_block(j, l, a));
            }
        }
    }
    if let Some(address) = block {
        assert forall|a: int| address <= a < address + size implies before.free(a) && !after.free(
            a,
        ) by {
            if after.pooled(a) {
                let (j, l) = choose|j: int, l: int| after.has_block(j, l) && after.in_block(j, l, a);
                assert(before.has_block(j, l) && before.in_block(j, l, a));
            }
        }
    }
}

/// Putting a block on a pool keeps the pools consistent where the block is
/// aligned to the pool's block size and none of its bytes is free. The
/// bytes of the block are free afterwards.
pub proof fn lemma_push(view: PoolView, i: int, block: usize)
    requires
        view.buckets.len() == CLASSES,
        0 <= i < CLASSES,
    ensures
        view.push(i, block).buckets[i].len() > 0,
        view.push(i, block).buckets[i].last() == block,
        view.push(i, block).pop(i) == view,
        forall|a: int| block <= a < block + block_size(i) ==> view.push(i, block).free(a),
        view.consistent() && block as int % block_size(i) == 0 && view.bottom <= block && block
            + block_size(i) <= view.top && (forall|a: int|
            block <= a < block + block_size(i) ==> !view.free(a)) ==> view.push(i, block).consistent(),
{
    let after = view.push(i, block);
    let top = view.buckets[i].len() as int;
    assert(after.buckets[i].drop_last() =~= view.buckets[i]);
    assert(after.pop(i).buckets =~= view.buckets);
    assert(after.has_block(i, top));
    assert forall|a: int| block <= a < block + block_size(i) implies after.free(a) by {
        assert(after.in_block(i, top, a));
    }
    if view.consistent() && block as int % block_size(i) == 0 && view.bottom <= block && block
        + block_size(i) <= view.top && (forall|a: int|
        block <= a < block + block_size(i) ==> !view.free(a)) {
        assert forall|j: int, l: int| after.has_block(j, l) && !(j == i && l == top)
            implies view.has_block(j, l) && after.buckets[j][l] == view.buckets[j][l] by {}
        assert forall|j: int, l: int| after.has_block(j, l) implies after.bottom <= (
        #[trigger] after.buckets[j][l]) && after.buckets[j][l] + block_size(j) <= after.top by {
            if !(j == i && l == top) {
                assert(view.has_block(j, l));
                assert(after.buckets[j][l] == view.buckets[j][l]);
            }
        }
        assert forall|j: int, l: int| after.has_block(j, l) implies (#[trigger] after.buckets[j][l])
            as int % block_size(j) == 0 by {
            if !(j == i && l == top) {
                assert(view.has_block(j, l));
                assert(after.buckets[j][l] == view.buckets[j][l]);
            }
        }
        assert forall|j: int, l: int, a: int|
            after.has_block(j, l) && !(j == i && l == top) && #[trigger] after.in_block(
                j,
                l,
                a,
            ) implies view.pooled(a) by {
            assert(view.has_block(j, l) && view.in_block(j, l, a));
        }
        assert forall|j: int, l: int, m: int, n: int, a: int|
            after.has_block(j, l) && after.has_block(m, n) && #[trigger] after.in_block(j, l, a)
                && #[trigger] after.in_block(m, n, a) implies j == m && l == n by {
            if j == i && l == top {
                if !(m == i && n == top) {
                    assert(view.pooled(a));
                    assert(!view.free(a));
                }
            } else if m == i && n == top {
                assert(view.pooled(a));
                assert(!view.free(a));
            } else {
                assert(view.in_block(j, l, a));
                assert(view.in_block(m, n, a));
            }
        }
        assert forall|j: int, l: int, a: int|
            after.has_block(j, l) && #[trigger] after.in_block(j, l, a) implies !after.holes.contains(
            a,
        ) by {
            if j == i && l == top {
                assert(!view.free(a));
            } else {
                assert(view.in_block(j, l, a));
            }
        }
    }
}

/// A block that is given back to a pool is the next that the pool serves,
/// and serving it leaves the pools as they were before it was given back:
/// the pools hand their blocks out last in, first out.
pub proof fn lemma_reuse(view: PoolView, block: usize, size: usize, align: usize)
    requires
        view.buckets.len() == CLASSES,
        class_of(size, align).is_some(),
    ensures
        ({
            let i = class_of(size, align).unwrap();
            let freed = view.push(i, block);
            &&& freed.buckets[i].len() > 0
            &&& freed.buckets[i].last() == block
            &&& freed.pop(i) == view
        }),
{
    lemma_class_of(size, align);
    lemma_push(view, class_of(size, align).unwrap(), block);
}

/// The pools with the stack of class `i` replaced.
pub open spec fn with_stack(view: PoolView, i: int, stack: Seq<usize>) -> PoolView {
    PoolView {
        buckets: view.buckets.update(i, stack),
        holes: view.holes,
        hole_list: view.hole_list,
        bottom: view.bottom,
        top: view.top,
    }
}

/// The pools after the blocks were given back to class `i`, one after the
/// other.
pub open spec fn push_all(view: PoolView, i: int, blocks: Seq<usize>) -> PoolView
    decreases blocks.len(),
{
    if blocks.len() == 0 {
        view
    } else {
        push_all(view, i, blocks.drop_last()).push(i, blocks.last())
    }
}

/// The pools after `n` blocks were served from class `i`.
pub open spec fn pop_n(view: PoolView, i: int, n: nat) -> PoolView
    decreases n,
{
    if n == 0 {
        view
    } else {
        pop_n(view, i, (n - 1) as nat).pop(i)
    }
}

/// The blocks that the next `n` requests of class `i` are served with, in
/// the order in which they are served.
pub open spec fn served(view: PoolView, i: int, n: nat) -> Seq<usize> {
    Seq::new(n, |k: int| pop_n(view, i, k as nat).buckets[i].last())
}

/// Giving blocks back puts them on the stack of their class in their
/// order.
pub proof fn lemma_push_all(view: PoolView, i: int, blocks: Seq<usize>)
    requires
        view.buckets.len() == CLASSES,
        0 <= i < CLASSES,
    ensures
        push_all(view, i, blocks) == with_stack(view, i, view.buckets[i] + blocks),
    decreases blocks.len(),
{
    if blocks.len() == 0 {
        assert(view.buckets[i] + blocks =~= view.buckets[i]);
        assert(view.buckets.update(i, view.buckets[i]) =~= view.buckets);
    } else {
        lemma_push_all(view, i, blocks.drop_last());
        let before = with_stack(view, i, view.buckets[i] + blocks.drop_last());
        assert((view.buckets[i] + blocks.drop_last()).push(blocks.last()) =~= view.buckets[i]
            + blocks);
        assert(before.push(i, blocks.last()).buckets =~= with_stack(
            view,
            i,
            view.buckets[i] + blocks,
        ).buckets);
    }
}

/// Serving `k` blocks takes the `k` blocks that were given back last.
pub proof fn lemma_pop_n(view: PoolView, i: int, blocks: Seq<usize>, k: nat)
    requires
        view.buckets.len() == CLASSES,
        0 <= i < CLASSES,
        k <= blocks.len(),
    ensures
        pop_n(with_stack(view, i, view.buckets[i] + blocks), i, k) == with_stack(
            view,
            i,
            view.buckets[i] + blocks.take(blocks.len() - k),
        ),
    decreases k,
{
    let full = with_stack(view, i, view.buckets[i] + blocks);
    if k == 0 {
        assert(blocks.take(blocks.len() as int) =~= blocks);
    } else {
        lemma_pop_n(view, i, blocks, (k - 1) as nat);
        let kept = blocks.take(blocks.len() - (k - 1));
        let before = with_stack(view, i, view.buckets[i] + kept);
        assert((view.buckets[i] + kept).drop_last() =~= view.buckets[i] + blocks.take(
            blocks.len() - k,
        ));
        assert(before.pop(i).buckets =~= with_stack(
            view,
            i,
            view.buckets[i] + blocks.take(blocks.len() - k),
        ).buckets);
    }
}

/// Blocks that are given back to a pool are served again, all of them and
/// each once: the requests that follow are served with the same blocks in
/// the reverse order, so that the blocks served are the blocks given back
/// as multisets, and the pools are then as they were before.
pub proof fn lemma_reuse_run(view: PoolView, i: int, blocks: Seq<usize>)
    requires
        view.buckets.len() == CLASSES,
        0 <= i < CLASSES,
    ensures
        ({
            let freed = push_all(view, i, blocks);
            &&& forall|k: int|
                0 <= k < blocks.len() ==> (#[trigger] pop_n(freed, i, k as nat)).buckets[i].len() > 0
            &&& served(freed, i, blocks.len()) == blocks.reverse()
            &&& served(freed, i, blocks.len()).to_multiset() == blocks.to_multiset()
            &&& pop_n(freed, i, blocks.len()) == view
        }),
{
    let freed = push_all(view, i, blocks);
    let n = blocks.len();
    lemma_push_all(view, i, blocks);
    assert forall|k: int| 0 <= k < n implies (#[trigger] pop_n(freed, i, k as nat)).buckets[i].len()
        > 0 && pop_n(freed, i, k as nat).buckets[i].last() == blocks[n - 1 - k] by {
        lemma_pop_n(view, i, blocks, k as nat);
    }
    assert(served(freed, i, n) =~= blocks.reverse());
    blocks.lemma_reverse_to_multiset();
    lemma_pop_n(view, i, blocks, n);
    assert(view.buckets[i] + blocks.take(0) =~= view.buckets[i]);
    assert(view.buckets.update(i, view.buckets[i]) =~= view.buckets);
}

/// The size that the heap takes for a request is the size asked for or a
/// little more: a whole number of words, at least two, and less than a
/// word above the larger of the size and two words.
pub proof fn lemma_taken(size: usize)
    ensures
        size <= taken(size),
        2 * word() <= taken(size),
        taken(size) % word() == 0,
        taken(size) < size + word() || taken(size) == 2 * word(),
{
    assert(word() == 4 || word() == 8);
    let least = if size < 2 * word() {
        2 * word()
    } else {
        size as int
    };
    lemma_align_bounds(least, word());
}

/// When enough of the heap remains, a request is served: a hole with room
/// for the size taken, the alignment and the holes that are left around
/// the block fits the request.
pub proof fn lemma_room_fits(hole: (int, int), size: usize, align: usize)
    requires
        0 <= hole.0,
        power_of_two(align),
        taken(size) <= isize::MAX - (align - 1),
        hole.1 >= taken(size) + align + 4 * word(),
    ensures
        fits(hole, size, align),
{
    assert(word() == 4 || word() == 8);
    lemma_align_bounds(hole.0 + 2 * word(), align as int);
}

/// Where a hole of the list fits a request, first fit finds the first that
/// does.
pub proof fn lemma_first_fit(list: Seq<(int, int)>, size: usize, align: usize, from: int, k: int)
    requires
        0 <= from <= k < list.len(),
        fits(list[k], size, align),
    ensures
        from <= first_fit(list, size, align, from) <= k,
        fits(list[first_fit(list, size, align, from)], size, align),
        forall|j: int|
            from <= j < first_fit(list, size, align, from) ==> !fits(#[trigger] list[j], size, align),
    decreases k - from,
{
    if !fits(list[from], size, align) {
        lemma_first_fit(list, size, align, from + 1, k);
    }
}

/// Where no hole of the list fits a request, first fit finds none.
pub proof fn lemma_no_fit(list: Seq<(int, int)>, size: usize, align: usize, from: int)
    requires
        0 <= from,
        forall|j: int| from <= j < list.len() ==> !fits(#[trigger] list[j], size, align),
    ensures
        first_fit(list, size, align, from) == list.len(),
    decreases list.len() - from,
{
    if from < list.len() {
        lemma_no_fit(list, size, align, from + 1);
    }
}

/// What is left to do after a block was given back.
#[derive(Clone, Copy, Debug, PartialEq, Eq, Structural)]
pub enum Release {
    /// The block lies in a pool; nothing is left to do.
    Pooled,
    /// The block belongs to no pool: the fallback heap must take it back.
    Fallback,
    /// Size and alignment make no layout: nothing was done.
    Invalid,
}

/// The class of a request is the one with the smallest block size that is
/// at least the required size; requests that no block can hold have none.
pub proof fn lemma_class_of(size: usize, align: usize)
    ensures
        class_of(size, align).is_some() <==> required_size(size, align) <= MAX_BLOCK_SIZE,
        class_of(size, align) matches Some(i) ==> {
            &&& 0 <= i < CLASSES
            &&& block_size(i) >= required_size(size, align)
            &&& size <= block_size(i)
            &&& align <= block_size(i)
            &&& i > 0 ==> block_size(i - 1) < required_size(size, align)
        },
        forall|i: int|
            0 <= i < CLASSES && block_size(i) >= required_size(size, align) && (i > 0
                ==> #[trigger] block_size(i - 1) < required_size(size, align)) ==> class_of(
                size,
                align,
            ) == Some(i),
{
}

proof fn lemma_small_powers(a: usize)
    by (bit_vector)
    requires
        a != 0 && a & ((a - 1) as usize) == 0,
        a <= 4096,
    ensures
        a == 1 || a == 2 || a == 4 || a == 8 || a == 16 || a == 32 || a == 64 || a == 128 || a
            == 256 || a == 512 || a == 1024 || a == 2048 || a == 4096,
{
}

/// A multiple of twice a number is a multiple of the number.
proof fn lemma_half(address: int, m: int)
    requires
        0 < m,
        address % (2 * m) == 0,
    ensures
        address % m == 0,
{
    vstd::arithmetic::div_mod::lemma_fundamental_div_mod(address, 2 * m);
    let k = address / (2 * m);
    assert(address == (2 * k) * m) by (nonlinear_arith)
        requires
            address == (2 * m) * k,
    ;
    vstd::arithmetic::div_mod::lemma_mod_multiples_basic(2 * k, m);
}

/// An address that is aligned to a block size is aligned to every power of
/// two up to that size.
pub proof fn lemma_block_alignment(address: usize, i: int, align: usize)
    requires
        0 <= i < CLASSES,
        address as int % block_size(i) == 0,
        power_of_two(align),
        align <= block_size(i),
    ensures
        address as int % align as int == 0,
{
    lemma_small_powers(align);
    let x = address as int;
    if x % 4096 == 0 {
        lemma_half(x, 2048);
    }
    if x % 2048 == 0 {
        lemma_half(x, 1024);
    }
    if x % 1024 == 0 {
        lemma_half(x, 512);
    }
    if x % 512 == 0 {
        lemma_half(x, 256);
    }
    if x % 256 == 0 {
        lemma_half(x, 128);
    }
    if x % 128 == 0 {
        lemma_half(x, 64);
    }
    if x % 64 == 0 {
        lemma_half(x, 32);
    }
    if x % 32 == 0 {
        lemma_half(x, 16);
    }
    if x % 16 == 0 {
        lemma_half(x, 8);
    }
    if x % 8 == 0 {
        lemma_half(x, 4);
    }
    if x % 4 == 0 {
        lemma_half(x, 2);
    }
    if x % 2 == 0 {
        lemma_half(x, 1);
    }
}

/// The heap allocator: a stack of free blocks for each block size, and the
/// fallback heap that serves requests when a stack is empty or no block is
/// large enough.
pub struct PoolAllocator {
    buckets: [Vec<usize>; 10],
    fallback_allocator: Heap,
}

impl View for PoolAllocator {
    type V = PoolView;

    closed spec fn view(&self) -> PoolView {
        PoolView {
            buckets: Seq::new(CLASSES as nat, |i: int| self.buckets@[i]@),
            holes: heap_holes(self.fallback_allocator),
            hole_list: heap_hole_list(self.fallback_allocator),
            bottom: heap_bottom(self.fallback_allocator),
            top: heap_top(self.fallback_allocator),
        }
    }
}

impl PoolAllocator {
    /// The lowest address of the fallback heap's memory, zero before the
    /// allocator has memory.
    pub open spec fn bottom(&self) -> int {
        self@.bottom
    }

    /// The address just past the fallback heap's memory.
    pub open spec fn top(&self) -> int {
        self@.top
    }

    /// The fallback heap.
    pub closed spec fn fallback(&self) -> Heap {
        self.fallback_allocator
    }

    /// An allocator without memory: every pool is empty, and so is the
    /// fallback heap.
    pub fn new() -> (pool: PoolAllocator)
        ensures
            pool@.unused(),
            pool@.holes == Set::<int>::empty(),
            pool@.hole_list == Seq::<(int, int)>::empty(),
            pool@.consistent(),
            pool.bottom() == 0,
            pool.top() == 0,
    {
        let pool = PoolAllocator {
            buckets: [
                Vec::new(),
                Vec::new(),
                Vec::new(),
                Vec::new(),
                Vec::new(),
                Vec::new(),
                Vec::new(),
                Vec::new(),
                Vec::new(),
                Vec::new(),
            ],
            fallback_allocator: heap_empty(),
        };
        proof {
            assert(pool@.buckets =~= Seq::new(CLASSES as nat, |i: int| Seq::<usize>::empty()));
        }
        pool
    }

    /// Gives the allocator its memory, once: the fallback heap takes the
    /// slice. Its memory then starts at the first whole word of the slice
    /// and ends with the slice, and all of it is free but for the bytes
    /// past the last whole word. Returns `false`, and changes nothing,
    /// where the allocator has memory already or the slice is shorter than
    /// three words.
    pub fn init(&mut self, mem: &'static mut [MaybeUninit<u8>]) -> (done: bool)
        ensures
            done <==> old(self).bottom() == 0 && old(mem)@.len() >= MIN_HEAP_SIZE,
            final(self)@.buckets == old(self)@.buckets,
            done ==> {
                &&& final(self).bottom() != 0
                &&& final(self).bottom() % word() == 0
                &&& final(self).bottom() <= final(self).top()
                &&& old(mem)@.len() - word() < final(self).top() - final(self).bottom() <= old(
                    mem,
                )@.len()
                &&& final(self)@.holes == whole_words(final(self).bottom(), final(self).top())
                &&& final(self)@.hole_list == one_hole(final(self).bottom(), final(self).top())
            },
            done && old(self)@.unused() ==> final(self)@.consistent(),
            !done ==> final(self)@ == old(self)@,
    {
        if heap_bottom_address(&self.fallback_allocator) == 0 && mem.len() >= MIN_HEAP_SIZE {
            heap_init(&mut self.fallback_allocator, mem);
            proof {
                assert(self@.buckets =~= old(self)@.buckets);
            }
            true
        } else {
            false
        }
    }

    /// The lowest address of the fallback heap's memory.
    pub fn heap_bottom(&self) -> (address: usize)
        ensures
            address == self.bottom(),
    {
        heap_bottom_address(&self.fallback_allocator)
    }

    /// The address just past the fallback heap's memory.
    pub fn heap_top(&self) -> (address: usize)
        ensures
            address == self.top(),
    {
        heap_top_address(&self.fallback_allocator)
    }

    /// The number of free blocks in the pool of class `index`.
    pub fn pooled_blocks(&self, index: usize) -> (n: usize)
        requires
            index < CLASSES,
        ensures
            n == self@.buckets[index as int].len(),
    {
        self.buckets[index].len()
    }

    /// The block size of a class.
    pub fn block_size(index: usize) -> (size: usize)
        requires
            index < CLASSES,
        ensures
            size == block_size(index as int),
    {
        if index == 0 {
            8
        } else if index == 1 {
            16
        } else if index == 2 {
            32
        } else if index == 3 {
            64
        } else if index == 4 {
            128
        } else if index == 5 {
            256
        } else if index == 6 {
            512
        } else if index == 7 {
            1024
        } else if index == 8 {
            2048
        } else {
            4096
        }
    }

    /// The class that serves a request, if a block is large enough.
    pub fn list_index(size: usize, align: usize) -> (index: Option<usize>)
        ensures
            index.is_some() <==> class_of(size, align).is_some(),
            index matches Some(i) ==> class_of(size, align) == Some(i as int) && i < CLASSES,
    {
        let required_block_size: usize = if size >= align {
            size
        } else {
            align
        };
        let mut index: usize = 0;
        while index < CLASSES
            invariant
                index <= CLASSES,
                required_block_size == required_size(size, align),
                index > 0 ==> block_size(index - 1) < required_block_size,
            decreases CLASSES - index,
        {
            if PoolAllocator::block_size(index) >= required_block_size {
                proof {
                    lemma_class_of(size, align);
                }
                return Some(index);
            }
            index += 1;
        }
        proof {
            lemma_class_of(size, align);
        }
        None
    }

    /// Whether a size and an alignment make a layout.
    pub fn is_layout(size: usize, align: usize) -> (ok: bool)
        ensures
            ok == layout_ok(size, align),
    {
        align != 0 && align & (align - 1) == 0 && align - 1 <= isize::MAX as usize && size
            <= isize::MAX as usize - (align - 1)
    }

    /// Serves a request. A request that a class can serve takes the block
    /// freed last from the pool of that class, or, where the pool is
    /// empty, a block of the class's size and alignment from the fallback
    /// heap. A request that no class can serve goes to the fallback heap as
    /// it is. Returns `None` where size and alignment make no layout, where
    /// the fallback heap is asked and cannot round its addresses up to the
    /// alignment, or where it has no room.
    pub fn allocate(&mut self, size: usize, align: usize) -> (block: Option<usize>)
        ensures
            !layout_ok(size, align) ==> block.is_none() && final(self)@ == old(self)@,
            layout_ok(size, align) ==> match class_of(size, align) {
                Some(i) => if old(self)@.buckets[i].len() > 0 {
                    block == Some(old(self)@.buckets[i].last()) && final(self)@ == old(self)@.pop(i)
                } else {
                    carved(
                        old(self)@,
                        final(self)@,
                        block,
                        block_size(i) as usize,
                        block_size(i) as usize,
                    )
                },
                None => carved(old(self)@, final(self)@, block, size, align),
            },
            final(self).bottom() == old(self).bottom(),
            final(self).top() == old(self).top(),
            old(self)@.consistent() ==> final(self)@.consistent() && granted(
                old(self)@,
                final(self)@,
                block,
                size,
                align,
            ),
    {
        if !PoolAllocator::is_layout(size, align) {
            return None;
        }
        proof {
            lemma_class_of(size, align);
        }
        match PoolAllocator::list_index(size, align) {
            Some(index) => {
                match self.buckets[index].pop() {
                    Some(block) => {
                        proof {
                            assert(self@.buckets =~= old(self)@.pop(index as int).buckets);
                            if old(self)@.consistent() {
                                lemma_pop(old(self)@, index as int);
                                lemma_block_alignment(block, index as int, align);
                            }
                        }
                        Some(block)
                    },
                    None => {
                        proof {
                            assert(self@.buckets =~= old(self)@.buckets);
                        }
                        let block_size: usize = PoolAllocator::block_size(index);
                        let block = self.fallback_alloc(block_size, block_size);
                        proof {
                            if old(self)@.consistent() {
                                lemma_carve(old(self)@, self@, block, block_size, block_size);
                                if let Some(address) = block {
                                    lemma_block_alignment(address, index as int, align);
                                }
                            }
                        }
                        block
                    },
                }
            },
            None => {
                let block = self.fallback_alloc(size, align);
                proof {
                    if old(self)@.consistent() {
                        lemma_carve(old(self)@, self@, block, size, align);
                    }
                }
                block
            },
        }
    }

    /// Takes a block back. A block of a request that a class can serve is
    /// put on top of the pool of that class. A block of any other request
    /// belongs to the fallback heap: the pools stay as they are, and the
    /// caller hands the block to the heap.
    pub fn deallocate(&mut self, ptr: usize, size: usize, align: usize) -> (release: Release)
        ensures
            !layout_ok(size, align) ==> release == Release::Invalid && final(self)@ == old(self)@,
            layout_ok(size, align) ==> match class_of(size, align) {
                Some(i) => release == Release::Pooled && final(self)@ == old(self)@.push(i, ptr),
                None => release == Release::Fallback && final(self)@ == old(self)@,
            },
            final(self).fallback() == old(self).fallback(),
            old(self)@.consistent() && layout_ok(size, align) && (class_of(size, align) matches Some(
                i,
            ) ==> ptr as int % block_size(i) == 0 && old(self).bottom() <= ptr && ptr + block_size(i)
                <= old(self).top() && forall|a: int|
                ptr <= a < ptr + block_size(i) ==> !old(self)@.free(a)) ==> final(self)@.consistent(),
    {
        if !PoolAllocator::is_layout(size, align) {
            return Release::Invalid;
        }
        match PoolAllocator::list_index(size, align) {
            Some(index) => {
                self.buckets[index].push(ptr);
                proof {
                    assert(self@.buckets =~= old(self)@.push(index as int, ptr).buckets);
                    lemma_push(old(self)@, index as int, ptr);
                }
                Release::Pooled
            },
            None => Release::Fallback,
        }
    }

    /// Asks the fallback heap for a block. A request whose size and
    /// alignment make no layout, or whose alignment the heap cannot round
    /// its addresses up to, is refused, and the heap is not asked. Any
    /// other request is served first fit: a block comes back exactly when
    /// a hole of the heap fits the request, and it is cut from the first
    /// hole that does.
    pub fn fallback_alloc(&mut self, size: usize, align: usize) -> (block: Option<usize>)
        ensures
            block.is_some() <==> layout_ok(size, align) && alignment_fits(old(self).top(), align)
                && first_fit(old(self)@.hole_list, size, align, 0) < old(self)@.hole_list.len(),
            carved(old(self)@, final(self)@, block, size, align),
    {
        if !PoolAllocator::is_layout(size, align) {
            return None;
        }
        let top: usize = heap_top_address(&self.fallback_allocator);
        if top > usize::MAX - MIN_BLOCK || align - 1 > usize::MAX - MIN_BLOCK - top {
            return None;
        }
        let block = heap_allocate(&mut self.fallback_allocator, size, align);
        proof {
            assert(self@.buckets =~= old(self)@.buckets);
        }
        block
    }

    /// The fallback heap, for the caller that has to hand a block back to
    /// it.
    pub fn fallback_allocator(&mut self) -> (heap: &mut Heap)
        ensures
            *heap == old(self).fallback(),
            final(self).fallback() == *final(heap),
            final(self)@.buckets == old(self)@.buckets,
    {
        &mut self.fallback_allocator
    }
}

} // verus!
