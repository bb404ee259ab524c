//! Physical and virtual memory: the frame allocator and the plans by which
//! the address space is brought up.

use vstd::prelude::*;
use crate::memory::addr::{
    align_up_spec,
    lemma_align_bounds,
    PageSize,
    HUGE_FRAME_SIZE,
    LOWER_HALF_END,
    PHYSICAL_LIMIT,
};
use crate::memory::area::{
    lemma_total_available_nonnegative,
    total_available,
    total_memory_aligned,
    MemoryRegion,
};
use crate::memory::range::{get_frame_range, get_page_range, page_bounds, PageRange};
use crate::memory::virt::{
    entry_flags,
    flags_for,
    identity_map_range,
    map_range,
    IdentityPlan,
    RangePlan,
};
use crate::meta::{
    heap_begin,
    heap_size,
    kernel_end,
    kernel_offset,
    physical_memory_offset,
    reserved_region_size,
    KernelImage,
    HEAP_BEGIN,
    HEAP_SIZE,
    PHYSICAL_MEMORY_OFFSET,
    RESERVED_REGION_SIZE,
};

pub mod addr;
pub mod area;
pub mod bitmap;
pub mod frame_laws;
pub mod phys;
pub mod range;
pub mod virt;

verus! {

/// The plan that maps the metadata region of the frame allocator: `size`
/// bytes of physical memory behind the kernel image, at the higher-half
/// mirror of the end of the image, in huge pages.
pub fn map_metadata(image: &KernelImage, size: u64) -> (plan: Option<RangePlan>)
    ensures
        plan.is_some() <==> image@.end + size < PHYSICAL_LIMIT && page_bounds(
            (image@.end + image@.offset) as u64,
            size,
            PageSize::Size2MiB,
        ).is_some(),
        plan matches Some(p) ==> {
            &&& p.flags() == entry_flags(PageSize::Size2MiB)
            &&& p.frames().extent() == PageSize::Size2MiB
            &&& p.pages().extent() == PageSize::Size2MiB
            &&& p.frames().first() == image@.end - image@.end % HUGE_FRAME_SIZE
            &&& p.frames().limit() == (image@.end + size) - (image@.end + size) % (
            HUGE_FRAME_SIZE as int)
            &&& p.pages().first() == page_bounds(
                (image@.end + image@.offset) as u64,
                size,
                PageSize::Size2MiB,
            ).unwrap().0
            &&& p.pages().limit() == page_bounds(
                (image@.end + image@.offset) as u64,
                size,
                PageSize::Size2MiB,
            ).unwrap().1
        },
{
    let physical: u64 = kernel_end(image);
    let mirror: u64 = physical + kernel_offset(image);
    map_range(flags_for(PageSize::Size2MiB), physical, mirror, size, PageSize::Size2MiB)
}

/// The plan that maps all physical memory at the physical-memory offset:
/// as many bytes as the available regions of the memory map hold, rounded
/// up to a huge page, from physical address zero on, in huge pages. `None`
/// where that much memory does not fit behind the offset.
pub fn map_physical_memory(regions: &Vec<MemoryRegion>) -> (plan: Option<RangePlan>)
    ensures
        plan.is_some() <==> align_up_spec(total_available(regions@), HUGE_FRAME_SIZE as int)
            < LOWER_HALF_END,
        plan matches Some(p) ==> {
            &&& p.flags() == entry_flags(PageSize::Size2MiB)
            &&& p.frames().extent() == PageSize::Size2MiB
            &&& p.pages().extent() == PageSize::Size2MiB
            &&& p.frames().first() == 0
            &&& p.frames().limit() == align_up_spec(total_available(regions@), HUGE_FRAME_SIZE as int)
            &&& p.pages().first() == PHYSICAL_MEMORY_OFFSET
            &&& p.pages().limit() == PHYSICAL_MEMORY_OFFSET + align_up_spec(
                total_available(regions@),
                HUGE_FRAME_SIZE as int,
            )
            &&& p.count() == align_up_spec(total_available(regions@), HUGE_FRAME_SIZE as int)
                / HUGE_FRAME_SIZE as int
        },
{
    proof {
        lemma_total_available_nonnegative(regions@);
        lemma_align_bounds(total_available(regions@), HUGE_FRAME_SIZE as int);
    }
    let total: u64 = match total_memory_aligned(regions, PageSize::Size2MiB) {
        Some(total) => total,
        None => {
            return None;
        },
    };
    if total >= LOWER_HALF_END {
        return None;
    }
    proof {
        assert(PHYSICAL_MEMORY_OFFSET as int % HUGE_FRAME_SIZE as int == 0);
        assert((PHYSICAL_MEMORY_OFFSET + total) % HUGE_FRAME_SIZE as int == 0) by {
            vstd::arithmetic::div_mod::lemma_add_mod_noop(
                PHYSICAL_MEMORY_OFFSET as int,
                total as int,
                HUGE_FRAME_SIZE as int,
            );
        }
    }
    map_range(
        flags_for(PageSize::Size2MiB),
        0,
        physical_memory_offset(),
        total,
        PageSize::Size2MiB,
    )
}

/// The linear mapping shows every physical address below its end at the
/// address plus the physical-memory offset: the address lies in the frame
/// of exactly one mapping of the plan, and that mapping's page shows it as
/// far from the start of the page as it lies from the start of the frame.
pub proof fn lemma_linear_mapping(total: int, paddr: int)
    requires
        0 <= paddr < total,
        total % HUGE_FRAME_SIZE as int == 0,
        total < LOWER_HALF_END,
    ensures
        ({
            let i = paddr / HUGE_FRAME_SIZE as int;
            let frame = i * HUGE_FRAME_SIZE;
            let page = PHYSICAL_MEMORY_OFFSET + i * HUGE_FRAME_SIZE;
            &&& 0 <= i < total / HUGE_FRAME_SIZE as int
            &&& frame <= paddr < frame + HUGE_FRAME_SIZE
            &&& page + (paddr - frame) == paddr + PHYSICAL_MEMORY_OFFSET
            &&& page + (paddr - frame) <= u64::MAX
        }),
{
    let bytes = HUGE_FRAME_SIZE as int;
    vstd::arithmetic::div_mod::lemma_fundamental_div_mod(paddr, bytes);
    vstd::arithmetic::div_mod::lemma_fundamental_div_mod(total, bytes);
    vstd::arithmetic::div_mod::lemma_mod_bound(paddr, bytes);
    let i = paddr / bytes;
    let n = total / bytes;
    assert(i * bytes == bytes * i) by (nonlinear_arith);
    assert(i < n) by {
        if i >= n {
            assert(bytes * i >= bytes * n) by (nonlinear_arith)
                requires
                    i >= n,
                    bytes > 0,
            ;
        }
    }
}

/// The pages of the metadata region of the frame allocator, which may be
/// unmapped once all physical memory is mapped at the physical-memory
/// offset.
pub fn unmap_metadata(image: &KernelImage, size: u64) -> (pages: Option<PageRange>)
    ensures
        pages.is_some() <==> page_bounds(
            (image@.end + image@.offset) as u64,
            size,
            PageSize::Size2MiB,
        ).is_some(),
        pages matches Some(r) ==> {
            &&& r.extent() == PageSize::Size2MiB
            &&& r.first() == page_bounds(
                (image@.end + image@.offset) as u64,
                size,
                PageSize::Size2MiB,
            ).unwrap().0
            &&& r.limit() == page_bounds(
                (image@.end + image@.offset) as u64,
                size,
                PageSize::Size2MiB,
            ).unwrap().1
        },
{
    let mirror: u64 = kernel_end(image) + kernel_offset(image);
    get_page_range(mirror, size, PageSize::Size2MiB)
}

/// The plan that maps the reserved low region at its own addresses, in
/// small pages, so that legacy devices and firmware tables stay reachable.
pub fn map_reserved_region() -> (plan: IdentityPlan)
    ensures
        plan.flags() == entry_flags(PageSize::Size4KiB),
        plan.frames().extent() == PageSize::Size4KiB,
        plan.frames().first() == 0,
        plan.frames().limit() == RESERVED_REGION_SIZE,
        plan.frames().count() == 256,
{
    let frames = get_frame_range(0, reserved_region_size(), PageSize::Size4KiB);
    proof {
        assert(0x10_0000int % 4096 == 0);
        assert(0x10_0000int / 4096 == 256);
        assert(0int % 4096 == 0);
    }
    identity_map_range(flags_for(PageSize::Size4KiB), frames.unwrap()).unwrap()
}

/// The pages of the kernel heap, each to be backed by a fresh frame.
pub fn allocate_heap() -> (pages: PageRange)
    ensures
        pages.extent() == PageSize::Size4KiB,
        pages.first() == HEAP_BEGIN,
        pages.limit() == HEAP_BEGIN + HEAP_SIZE,
        pages.count() == 1024,
{
    let pages = get_page_range(heap_begin(), heap_size(), PageSize::Size4KiB);
    proof {
        assert(0xFFFF_C000_0000_0000int % 4096 == 0);
        assert(0xFFFF_C000_0040_0000int % 4096 == 0);
        assert(0x40_0000int / 4096 == 1024);
    }
    pages.unwrap()
}

} // verus!
