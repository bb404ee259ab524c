//! What holds of every run of the frame allocator, stated over the chunks
//! as the allocator's view shows them.

use vstd::prelude::*;
use crate::memory::addr::FRAME_SIZE;
use crate::memory::bitmap::{all_set, is_first_clear};
use crate::memory::phys::{
    allocate,
    allocated,
    first_free,
    free_frames,
    is_first_free,
    lemma_free_frames_mark,
    lemma_free_frames_zero,
    lemma_owner,
    mark,
    next_address,
    ordered,
    owner,
    release,
    reserved_below,
    saturated,
    tracks,
    ChunkView,
};

verus! {

/// The chunks after `n` allocations.
pub open spec fn after(view: Seq<ChunkView>, n: nat) -> Seq<ChunkView>
    decreases n,
{
    if n == 0 {
        view
    } else {
        allocate(after(view, (n - 1) as nat))
    }
}

/// The address that allocation number `n` returns, counting from zero, if
/// a frame is free then.
pub open spec fn nth_address(view: Seq<ChunkView>, n: nat) -> Option<int> {
    next_address(after(view, n))
}

/// Two lists of chunks track the same frames.
pub open spec fn same_frames(a: Seq<ChunkView>, b: Seq<ChunkView>) -> bool {
    &&& a.len() == b.len()
    &&& forall|c: int|
        0 <= c < a.len() ==> (#[trigger] a[c]).base == b[c].base && a[c].flags.len()
            == b[c].flags.len()
}

/// Flags that are not all set have a lowest clear one.
pub proof fn lemma_some_first_clear(flags: Seq<bool>)
    requires
        !all_set(flags),
    ensures
        exists|i: int| is_first_clear(flags, i),
    decreases flags.len(),
{
    let before = flags.drop_last();
    if all_set(before) {
        let last = flags.len() - 1;
        assert forall|j: int| 0 <= j < last implies flags[j] by {
            assert(before[j]);
        }
        assert(is_first_clear(flags, last));
    } else {
        lemma_some_first_clear(before);
        let i = choose|i: int| is_first_clear(before, i);
        assert forall|j: int| 0 <= j < i implies flags[j] by {
            assert(before[j]);
        }
        assert(is_first_clear(flags, i));
    }
}

/// What `first_free` finds: the first free frame, or nothing where every
/// chunk is full.
pub proof fn lemma_first_free(view: Seq<ChunkView>)
    ensures
        match first_free(view) {
            Some((c, i)) => is_first_free(view, c, i),
            None => saturated(view),
        },
    decreases view.len(),
{
    if first_free(view).is_none() && !saturated(view) {
        let before = view.drop_last();
        if saturated(before) {
            let c = view.len() - 1;
            assert forall|k: int| 0 <= k < c implies all_set(#[trigger] view[k].flags) by {
                assert(all_set(before[k].flags));
            }
            lemma_some_first_clear(view[c].flags);
            let i = choose|i: int| is_first_clear(view[c].flags, i);
            assert(is_first_free(view, c, i));
        } else {
            lemma_first_free(before);
            if exists|c: int, i: int| is_first_free(before, c, i) {
                let (c, i) = choose|c: int, i: int| is_first_free(before, c, i);
                assert forall|k: int| 0 <= k < c implies all_set(#[trigger] view[k].flags) by {
                    assert(all_set(before[k].flags));
                }
                assert(view[c] == before[c]);
                assert(is_first_free(view, c, i));
            }
        }
    }
}

/// Writing a flag of a tracked frame keeps the chunks ordered and the
/// frames tracked.
pub proof fn lemma_mark_keeps_frames(view: Seq<ChunkView>, c: int, i: int, value: bool)
    requires
        0 <= c < view.len(),
        0 <= i < view[c].flags.len(),
    ensures
        same_frames(view, mark(view, c, i, value)),
        ordered(view) ==> ordered(mark(view, c, i, value)),
{
    let marked = mark(view, c, i, value);
    if ordered(view) {
        assert forall|k: int| 0 <= k < marked.len() implies (#[trigger] marked[k]).valid() by {
            assert(view[k].valid());
        }
        assert forall|k: int, d: int| 0 <= k < d < marked.len() implies (#[trigger] marked[k]).end()
            <= (#[trigger] marked[d]).base by {
            assert(view[k].end() <= view[d].base);
        }
    }
}

/// Chunks that track the same frames track the same addresses, each in the
/// same chunk.
pub proof fn lemma_same_frames(a: Seq<ChunkView>, b: Seq<ChunkView>, address: int)
    requires
        same_frames(a, b),
        ordered(a),
        ordered(b),
        tracks(a, address),
    ensures
        tracks(b, address),
        owner(b, address) == owner(a, address),
{
    let c = owner(a, address);
    assert(a[c].holds(address));
    assert(b[c].holds(address));
    lemma_owner(b, c, address);
}

/// Frame `i` of chunk `c`, among ordered chunks, lies at an aligned address
/// that only this frame has.
pub proof fn lemma_frame_address(view: Seq<ChunkView>, c: int, i: int)
    requires
        ordered(view),
        0 <= c < view.len(),
        0 <= i < view[c].flags.len(),
    ensures
        view[c].frame(i) % FRAME_SIZE as int == 0,
        view[c].holds(view[c].frame(i)),
        tracks(view, view[c].frame(i)),
        owner(view, view[c].frame(i)) == c,
        (view[c].frame(i) - view[c].base) / FRAME_SIZE as int == i,
{
    assert(view[c].valid());
    let address = view[c].frame(i);
    assert(i * FRAME_SIZE + FRAME_SIZE <= view[c].flags.len() * FRAME_SIZE) by (nonlinear_arith)
        requires
            i + 1 <= view[c].flags.len(),
    ;
    assert(0 <= i * FRAME_SIZE) by (nonlinear_arith)
        requires
            0 <= i,
    ;
    lemma_owner(view, c, address);
    vstd::arithmetic::div_mod::lemma_mod_multiples_vanish(i, view[c].base as int, FRAME_SIZE as int);
    assert(address == FRAME_SIZE * i + view[c].base) by (nonlinear_arith)
        requires
            address == view[c].base + i * FRAME_SIZE,
    ;
    vstd::arithmetic::div_mod::lemma_div_multiples_vanish(i, FRAME_SIZE as int);
    assert((address - view[c].base) == i * FRAME_SIZE);
}

/// An allocation returns an aligned frame that a chunk tracks, that was
/// free before and is allocated afterwards; the chunks stay ordered and
/// track the same frames.
pub proof fn lemma_allocation(view: Seq<ChunkView>)
    requires
        ordered(view),
        next_address(view).is_some(),
    ensures
        ({
            let a = next_address(view).unwrap();
            &&& a % FRAME_SIZE as int == 0
            &&& tracks(view, a)
            &&& !allocated(view, a)
            &&& allocated(allocate(view), a)
            &&& ordered(allocate(view))
            &&& same_frames(view, allocate(view))
            &&& free_frames(allocate(view)) == free_frames(view) - 1
            &&& release(allocate(view), a) == view
        }),
{
    lemma_first_free(view);
    let (c, i) = first_free(view).unwrap();
    let a = view[c].frame(i);
    let taken = allocate(view);
    lemma_frame_address(view, c, i);
    lemma_mark_keeps_frames(view, c, i, true);
    lemma_free_frames_mark(view, c, i, true);
    lemma_frame_address(taken, c, i);
    assert(taken[c].flags.update(i, false) =~= view[c].flags);
    assert(mark(taken, c, i, false) =~= view);
}

/// Giving back the frame that was just allocated restores the allocator,
/// so that the next allocation returns the same address again.
pub proof fn lemma_allocate_release_allocate(view: Seq<ChunkView>)
    requires
        ordered(view),
        next_address(view).is_some(),
    ensures
        release(allocate(view), next_address(view).unwrap()) == view,
        next_address(release(allocate(view), next_address(view).unwrap())) == next_address(view),
{
    lemma_allocation(view);
}

/// Allocations keep the chunks ordered and the frames tracked.
pub proof fn lemma_after(view: Seq<ChunkView>, n: nat)
    requires
        ordered(view),
    ensures
        ordered(after(view, n)),
        same_frames(view, after(view, n)),
    decreases n,
{
    if n > 0 {
        lemma_after(view, (n - 1) as nat);
        let before = after(view, (n - 1) as nat);
        if next_address(before).is_some() {
            lemma_allocation(before);
        }
    }
}

/// A frame that is allocated stays allocated through any number of
/// allocations.
pub proof fn lemma_stays_allocated(view: Seq<ChunkView>, address: int, n: nat)
    requires
        ordered(view),
        tracks(view, address),
        allocated(view, address),
    ensures
        tracks(after(view, n), address),
        allocated(after(view, n), address),
    decreases n,
{
    if n > 0 {
        lemma_stays_allocated(view, address, (n - 1) as nat);
        lemma_after(view, (n - 1) as nat);
        let before = after(view, (n - 1) as nat);
        lemma_first_free(before);
        if first_free(before).is_some() {
            let (c, i) = first_free(before).unwrap();
            lemma_mark_keeps_frames(before, c, i, true);
            lemma_same_frames(before, allocate(before), address);
        }
    }
}

/// `after` can be split: `m + n` allocations are `n` allocations after `m`.
pub proof fn lemma_after_split(view: Seq<ChunkView>, m: nat, n: nat)
    ensures
        after(view, m + n) == after(after(view, m), n),
    decreases n,
{
    if n > 0 {
        lemma_after_split(view, m, (n - 1) as nat);
        assert(m + n - 1 == m + (n - 1));
    }
}

/// All frames that a run of allocations returns are distinct.
pub proof fn lemma_allocations_distinct(view: Seq<ChunkView>, j: nat, k: nat)
    requires
        ordered(view),
        j < k,
        nth_address(view, j).is_some(),
        nth_address(view, k).is_some(),
    ensures
        nth_address(view, j) != nth_address(view, k),
{
    let a = nth_address(view, j).unwrap();
    let at_j = after(view, j);
    lemma_after(view, j);
    lemma_allocation(at_j);
    let taken = allocate(at_j);
    assert(taken == after(view, j + 1));
    lemma_after_split(view, j + 1, (k - j - 1) as nat);
    assert(j + 1 + (k - j - 1) == k);
    lemma_stays_allocated(taken, a, (k - j - 1) as nat);
    let at_k = after(view, k);
    lemma_after(view, k);
    lemma_allocation(at_k);
}

/// Every frame that a run of allocations returns is aligned and lies in
/// one of the chunks.
pub proof fn lemma_allocations_tracked(view: Seq<ChunkView>, k: nat)
    requires
        ordered(view),
        nth_address(view, k).is_some(),
    ensures
        nth_address(view, k).unwrap() % FRAME_SIZE as int == 0,
        tracks(view, nth_address(view, k).unwrap()),
{
    lemma_after(view, k);
    lemma_allocation(after(view, k));
    lemma_same_frames(after(view, k), view, nth_address(view, k).unwrap());
}

/// Where every frame below a limit is allocated, no allocation returns a
/// frame below the limit, and the frames below it stay allocated.
pub proof fn lemma_reserved_allocation(view: Seq<ChunkView>, limit: int)
    requires
        reserved_below(view, limit),
    ensures
        next_address(view) matches Some(a) ==> a >= limit,
        reserved_below(allocate(view), limit),
{
    lemma_first_free(view);
    if first_free(view).is_some() {
        let (c, i) = first_free(view).unwrap();
        if view[c].frame(i) < limit {
            assert(view[c].flags[i]);
        }
        let taken = allocate(view);
        assert forall|d: int, j: int|
            0 <= d < taken.len() && 0 <= j < taken[d].flags.len() && taken[d].frame(j)
                < limit implies #[trigger] taken[d].flags[j] by {
            assert(view[d].flags[j]);
        }
    }
}

/// Giving back a frame at or above the limit keeps every frame below the
/// limit allocated.
pub proof fn lemma_reserved_release(view: Seq<ChunkView>, limit: int, address: int)
    requires
        ordered(view),
        reserved_below(view, limit),
        tracks(view, address),
        address % FRAME_SIZE as int == 0,
        address >= limit,
    ensures
        reserved_below(release(view, address), limit),
{
    let c = owner(view, address);
    let i = (address - view[c].base) / FRAME_SIZE as int;
    assert(view[c].holds(address));
    assert(view[c].valid());
    let freed = release(view, address);
    assert((address - view[c].base) % FRAME_SIZE as int == 0) by {
        vstd::arithmetic::div_mod::lemma_sub_mod_noop(address, view[c].base as int, FRAME_SIZE as int);
    }
    assert(view[c].frame(i) == address) by {
        vstd::arithmetic::div_mod::lemma_fundamental_div_mod(
            address - view[c].base,
            FRAME_SIZE as int,
        );
    }
    assert forall|d: int, j: int|
        0 <= d < freed.len() && 0 <= j < freed[d].flags.len() && freed[d].frame(j)
            < limit implies #[trigger] freed[d].flags[j] by {
        assert(view[d].flags[j]);
    }
}

/// After the frames below a limit were reserved, no run of allocations
/// returns a frame below the limit.
pub proof fn lemma_reserved_never_returned(view: Seq<ChunkView>, limit: int, n: nat)
    requires
        reserved_below(view, limit),
    ensures
        reserved_below(after(view, n), limit),
        nth_address(view, n) matches Some(a) ==> a >= limit,
    decreases n,
{
    if n > 0 {
        lemma_reserved_never_returned(view, limit, (n - 1) as nat);
        lemma_reserved_allocation(after(view, (n - 1) as nat), limit);
    }
    lemma_reserved_allocation(after(view, n), limit);
}

/// Each allocation that succeeds leaves one free frame fewer; one that
/// fails leaves the allocator as it was.
pub proof fn lemma_free_after(view: Seq<ChunkView>, n: nat)
    requires
        n <= free_frames(view),
    ensures
        free_frames(after(view, n)) == free_frames(view) - n,
        forall|k: nat| k < n ==> (#[trigger] nth_address(view, k)).is_some(),
    decreases n,
{
    if n > 0 {
        lemma_free_after(view, (n - 1) as nat);
        let before = after(view, (n - 1) as nat);
        lemma_free_frames_zero(before);
        lemma_first_free(before);
        if first_free(before).is_none() {
            assert(saturated(before));
        } else {
            let (c, i) = first_free(before).unwrap();
            lemma_free_frames_mark(before, c, i, true);
        }
        assert forall|k: nat| k < n implies (#[trigger] nth_address(view, k)).is_some() by {
            if k == n - 1 {
                assert(nth_address(view, k) == next_address(before));
            }
        }
    }
}

/// Saturation: with `n` free frames, the first `n` allocations succeed and
/// the one after them returns nothing.
pub proof fn lemma_saturation(view: Seq<ChunkView>)
    ensures
        forall|k: nat| k < free_frames(view) ==> (#[trigger] nth_address(view, k)).is_some(),
        nth_address(view, free_frames(view)).is_none(),
{
    let n = free_frames(view);
    lemma_free_after(view, n);
    let last = after(view, n);
    lemma_free_frames_zero(last);
    crate::memory::phys::lemma_saturated(last);
}

} // verus!
