//! The linked-list heap that serves what the pools cannot: the heap of the
//! `linked_list_allocator` crate, with what this library relies on.

use vstd::prelude::*;
use core::alloc::Layout;
use core::mem::MaybeUninit;
use linked_list_allocator::Heap;
use crate::memory::addr::align_up_spec;

verus! {

/// `linked_list_allocator::Heap`: its inside is not seen here.
#[verifier::external_type_specification]
#[verifier::external_body]
pub struct ExHeap(linked_list_allocator::Heap);

/// The addresses of the bytes that lie in the holes of the heap, which are
/// the bytes that it can still hand out.
pub uninterp spec fn heap_holes(heap: Heap) -> Set<int>;

/// The holes of the heap in the order of its list, which is the order of
/// their addresses: for each hole its address and its size.
pub uninterp spec fn heap_hole_list(heap: Heap) -> Seq<(int, int)>;

/// The lowest address of the heap's memory; zero for a heap without memory.
pub uninterp spec fn heap_bottom(heap: Heap) -> int;

/// The address just past the heap's memory; zero for a heap without memory.
pub uninterp spec fn heap_top(heap: Heap) -> int;

/// The smallest slice that `Heap::init_from_slice` takes at any alignment:
/// three words.
pub const MIN_HEAP_SIZE: usize = 24;

/// `Heap::empty`: a heap without memory. Its list of holes is empty, and its
/// bottom and top are null.
#[verifier::external_body]
pub(crate) fn heap_empty() -> (heap: Heap)
    ensures
        heap_holes(heap) == Set::<int>::empty(),
        heap_hole_list(heap) == Seq::<(int, int)>::empty(),
        heap_bottom(heap) == 0,
        heap_top(heap) == 0,
{
    Heap::empty()
}

/// Whether a number is a power of two, told by its bits.
pub open spec fn power_of_two(a: usize) -> bool {
    a != 0 && a & ((a - 1) as usize) == 0
}

/// Whether a size and an alignment make a layout: the alignment is a power
/// of two, and the size rounded up to it does not exceed `isize::MAX`.
pub open spec fn layout_ok(size: usize, align: usize) -> bool {
    power_of_two(align) && size <= isize::MAX - (align - 1)
}

/// The size that the heap takes for a request: the size asked for, raised
/// to the least size of a hole, which is two words, and rounded up to a
/// word.
pub open spec fn taken(size: usize) -> int {
    let least = if size < 2 * word() {
        2 * word()
    } else {
        size as int
    };
    align_up_spec(least, word())
}

/// Where the heap places a block in a hole: at the start of the hole if
/// that is aligned, else two words further, rounded up to the alignment, so
/// that a hole is left before the block.
pub open spec fn placed(hole: (int, int), align: usize) -> int {
    if hole.0 % align as int == 0 {
        hole.0
    } else {
        align_up_spec(hole.0 + 2 * word(), align as int)
    }
}

/// Whether the heap serves a request from a hole: the size taken makes a
/// layout with the alignment and is no more than the hole, the block ends
/// within the hole, and what is left behind the block is nothing or enough
/// for a hole.
pub open spec fn fits(hole: (int, int), size: usize, align: usize) -> bool {
    let end = placed(hole, align) + taken(size);
    let rest = hole.0 + hole.1 - end;
    &&& power_of_two(align)
    &&& taken(size) <= isize::MAX - (align - 1)
    &&& taken(size) <= hole.1
    &&& rest == 0 || rest >= 2 * word()
}

/// The place in the list, from `from` on, of the first hole that serves a
/// request, or the length of the list where no hole does.
pub open spec fn first_fit(list: Seq<(int, int)>, size: usize, align: usize, from: int) -> int
    decreases list.len() - from,
{
    if from < 0 || from >= list.len() {
        list.len() as int
    } else if fits(list[from], size, align) {
        from
    } else {
        first_fit(list, size, align, from + 1)
    }
}

/// The list of holes after a request was served from hole `k`: in place of
/// the hole stand what is left of it before the block, if the block does
/// not start the hole, and what is left behind the block, if anything.
pub open spec fn cut(list: Seq<(int, int)>, k: int, size: usize, align: usize) -> Seq<(int, int)> {
    let hole = list[k];
    let start = placed(hole, align);
    let end = start + taken(size);
    let front = if start == hole.0 {
        Seq::<(int, int)>::empty()
    } else {
        seq![(hole.0, start - hole.0)]
    };
    let back = if end == hole.0 + hole.1 {
        Seq::<(int, int)>::empty()
    } else {
        seq![(end, hole.0 + hole.1 - end)]
    };
    list.take(k) + front + back + list.skip(k + 1)
}

/// The number of bytes in a word of the machine, to which the heap aligns
/// its holes.
pub open spec fn word() -> int {
    usize::BITS as int / 8
}

/// The least size of a hole and of a block of the heap: two words on a
/// machine of 64 bits, which no machine exceeds.
pub const MIN_BLOCK: usize = 16;

/// Whether the heap can round the addresses of its holes up to the
/// alignment without leaving the address space: the heap skips the least
/// size of a hole and then rounds up, from addresses up to its top.
pub open spec fn alignment_fits(top: int, align: usize) -> bool {
    top + MIN_BLOCK + (align - 1) <= usize::MAX
}

/// `Heap::init_from_slice`, on a heap that was not initialised and a slice
/// of at least three words (the function panics otherwise): the heap takes
/// the slice as its memory. The bottom is the start of the slice rounded
/// up to a word and is not null; the top is the end of the slice, so that
/// the heap is shorter than the slice by less than a word. All of it is
/// one hole, but for the bytes past the last whole word.
#[verifier::external_body]
pub(crate) fn heap_init(heap: &mut Heap, mem: &'static mut [MaybeUninit<u8>])
    requires
        heap_bottom(*old(heap)) == 0,
        old(mem)@.len() >= MIN_HEAP_SIZE,
    ensures
        heap_bottom(*final(heap)) != 0,
        heap_bottom(*final(heap)) % word() == 0,
        heap_bottom(*final(heap)) <= heap_top(*final(heap)),
        old(mem)@.len() - word() < heap_top(*final(heap)) - heap_bottom(*final(heap)) <= old(
            mem,
        )@.len(),
        heap_holes(*final(heap)) == whole_words(
            heap_bottom(*final(heap)),
            heap_top(*final(heap)),
        ),
        heap_hole_list(*final(heap)) == one_hole(
            heap_bottom(*final(heap)),
            heap_top(*final(heap)),
        ),
{
    heap.init_from_slice(mem)
}

/// The list of holes of a heap that is all free: one hole from `bottom` up
/// to the last whole word before `top`.
pub open spec fn one_hole(bottom: int, top: int) -> Seq<(int, int)> {
    seq![(bottom, top - bottom - (top - bottom) % word())]
}

/// The bytes from `bottom` up to `top`, without those past the last whole
/// word.
pub open spec fn whole_words(bottom: int, top: int) -> Set<int> {
    Set::new(|a: int| bottom <= a < top - (top - bottom) % word())
}

/// `Heap::bottom` as a number.
#[verifier::external_body]
pub(crate) fn heap_bottom_address(heap: &Heap) -> (address: usize)
    ensures
        address == heap_bottom(*heap),
{
    heap.bottom() as usize
}

/// `Heap::top` as a number.
#[verifier::external_body]
pub(crate) fn heap_top_address(heap: &Heap) -> (address: usize)
    ensures
        address == heap_top(*heap),
{
    heap.top() as usize
}

/// `Heap::allocate_first_fit` with the layout of `size` and `align`, for an
/// alignment that the heap can round its addresses up to (past that the
/// heap's arithmetic wraps); where the two make no layout the heap is not
/// asked. The heap walks its list of holes and serves the request from the
/// first hole that fits: a block comes back exactly when one does, it
/// stands where the heap places it in that hole, and the hole gives way to
/// what is left of it before and behind the block. A block that the heap
/// returns is aligned as asked, lies inside the heap's memory, and is cut
/// out of a hole: its bytes were free and are free no longer, and no other
/// byte becomes free. Where it returns none, the holes are as they were.
/// The heap's memory stays where it is.
#[verifier::external_body]
pub(crate) fn heap_allocate(heap: &mut Heap, size: usize, align: usize) -> (block: Option<usize>)
    requires
        alignment_fits(heap_top(*old(heap)), align),
    ensures
        heap_bottom(*final(heap)) == heap_bottom(*old(heap)),
        heap_top(*final(heap)) == heap_top(*old(heap)),
        served_first_fit(heap_hole_list(*old(heap)), heap_hole_list(*final(heap)), block, size, align),
        match block {
            Some(address) => {
                &&& align > 0
                &&& address % align == 0
                &&& heap_bottom(*old(heap)) <= address
                &&& address + size <= heap_top(*old(heap))
                &&& forall|a: int|
                    address <= a < address + size ==> heap_holes(*old(heap)).contains(a)
                        && !heap_holes(*final(heap)).contains(a)
                &&& heap_holes(*final(heap)).subset_of(heap_holes(*old(heap)))
            },
            None => heap_holes(*final(heap)) == heap_holes(*old(heap)),
        },
{
    match Layout::from_size_align(size, align) {
        Ok(layout) => match heap.allocate_first_fit(layout) {
            Ok(block) => Some(block.as_ptr() as usize),
            Err(_) => None,
        },
        Err(_) => None,
    }
}

/// What first fit gives: a block exactly when a hole of the list fits, at
/// its place in the first such hole, with that hole cut; else nothing, and
/// the list as it was.
pub open spec fn served_first_fit(
    before: Seq<(int, int)>,
    after: Seq<(int, int)>,
    block: Option<usize>,
    size: usize,
    align: usize,
) -> bool {
    let k = first_fit(before, size, align, 0);
    match block {
        Some(address) => {
            &&& k < before.len()
            &&& address == placed(before[k], align)
            &&& after == cut(before, k, size, align)
        },
        None => k == before.len() && after == before,
    }
}

} // verus!
