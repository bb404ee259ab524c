//! The memory map that the boot loader hands over, and the parts of it that
//! frames can be taken from.

use vstd::prelude::*;
use crate::memory::addr::{align_down_spec, align_up_spec, lemma_align_bounds, round_down, round_up, PageSize};

verus! {

/// What a region of the memory map may be used for.
#[derive(Clone, Copy, Debug, PartialEq, Eq, Structural)]
pub enum RegionKind {
    /// Free memory.
    Available,
    /// Memory that must not be touched.
    Reserved,
    /// Memory that holds ACPI tables and is free once they were read.
    AcpiAvailable,
    /// Memory that must be kept over hibernation.
    ReservedHibernate,
    /// Memory that is broken.
    Defective,
}

/// One region `[start, end)` of the memory map.
#[derive(Clone, Copy, Debug, PartialEq, Eq, Structural)]
pub struct MemoryRegion {
    pub start: u64,
    pub end: u64,
    pub kind: RegionKind,
}

/// A stretch `[start, end)` of whole frames inside an available region.
#[derive(Clone, Copy, Debug, PartialEq, Eq, Structural)]
pub struct Area {
    pub start: u64,
    pub end: u64,
}

/// The number of bytes in a region; a region that ends before it starts has
/// none.
pub open spec fn region_length(region: MemoryRegion) -> int {
    if region.start <= region.end {
        region.end - region.start
    } else {
        0
    }
}

/// The whole frames of a region: its start rounded up and its end rounded
/// down to the page size, where the region is available and at least one
/// frame is left.
pub open spec fn usable_area(region: MemoryRegion, size: PageSize) -> Option<Area> {
    let start = align_up_spec(region.start as int, size.bytes() as int);
    let end = align_down_spec(region.end as int, size.bytes() as int);
    if region.kind == RegionKind::Available && end - start >= size.bytes() {
        Some(Area { start: start as u64, end: end as u64 })
    } else {
        None
    }
}

/// The usable areas of a memory map, in the order of their regions.
pub open spec fn usable_areas(regions: Seq<MemoryRegion>, size: PageSize) -> Seq<Area>
    decreases regions.len(),
{
    if regions.len() == 0 {
        Seq::empty()
    } else {
        let before = usable_areas(regions.drop_last(), size);
        match usable_area(regions.last(), size) {
            Some(area) => before.push(area),
            None => before,
        }
    }
}

/// The number of bytes in the available regions of a memory map.
pub open spec fn total_available(regions: Seq<MemoryRegion>) -> int
    decreases regions.len(),
{
    if regions.len() == 0 {
        0
    } else {
        total_available(regions.drop_last()) + if regions.last().kind == RegionKind::Available {
            region_length(regions.last())
        } else {
            0
        }
    }
}

/// A usable area is made of whole frames, holds at least one, and lies
/// inside its region.
pub proof fn lemma_usable_area(region: MemoryRegion, size: PageSize)
    requires
        usable_area(region, size).is_some(),
    ensures
        ({
            let area = usable_area(region, size).unwrap();
            &&& area.start % size.bytes() == 0
            &&& area.end % size.bytes() == 0
            &&& area.start + size.bytes() <= area.end
            &&& region.start <= area.start
            &&& area.end <= region.end
            &&& area.start == align_up_spec(region.start as int, size.bytes() as int)
            &&& area.end == align_down_spec(region.end as int, size.bytes() as int)
        }),
{
    lemma_align_bounds(region.start as int, size.bytes() as int);
    lemma_align_bounds(region.end as int, size.bytes() as int);
}

/// Each usable area comes from a region of the map, and the areas are no
/// more than the regions.
pub proof fn lemma_usable_areas(regions: Seq<MemoryRegion>, size: PageSize)
    ensures
        usable_areas(regions, size).len() <= regions.len(),
        forall|k: int|
            0 <= k < usable_areas(regions, size).len() ==> exists|r: int|
                0 <= r < regions.len() && usable_area(regions[r], size) == Some(
                    #[trigger] usable_areas(regions, size)[k],
                ),
    decreases regions.len(),
{
    if regions.len() > 0 {
        let before = regions.drop_last();
        lemma_usable_areas(before, size);
        let areas = usable_areas(regions, size);
        assert forall|k: int| 0 <= k < areas.len() implies exists|r: int|
            0 <= r < regions.len() && usable_area(regions[r], size) == Some(#[trigger] areas[k]) by {
            if k < usable_areas(before, size).len() {
                let r = choose|r: int|
                    0 <= r < before.len() && usable_area(before[r], size) == Some(
                        usable_areas(before, size)[k],
                    );
                assert(regions[r] == before[r]);
            } else {
                assert(usable_area(regions[regions.len() - 1], size) == Some(areas[k]));
            }
        }
    }
}

/// The whole frames of one region, if it is available and holds any.
pub fn usable(region: &MemoryRegion, size: PageSize) -> (area: Option<Area>)
    ensures
        area == usable_area(*region, size),
{
    let available = match region.kind {
        RegionKind::Available => true,
        _ => false,
    };
    if !available {
        return None;
    }
    let end: u64 = round_down(region.end, size);
    proof {
        lemma_align_bounds(region.start as int, size.bytes() as int);
    }
    match round_up(region.start, size) {
        Some(start) => {
            if start <= end && end - start >= size.bytes() {
                Some(Area { start, end })
            } else {
                None
            }
        },
        None => None,
    }
}

/// The usable areas of the memory map: the available regions, each with its
/// start rounded up and its end rounded down to the page size, without
/// those that hold no whole frame.
pub fn get_usable_areas(regions: &Vec<MemoryRegion>, size: PageSize) -> (areas: Vec<Area>)
    ensures
        areas@ == usable_areas(regions@, size),
{
    let mut areas: Vec<Area> = Vec::new();
    let mut i: usize = 0;
    while i < regions.len()
        invariant
            i <= regions.len(),
            areas@ == usable_areas(regions@.take(i as int), size),
        decreases regions.len() - i,
    {
        proof {
            assert(regions@.take(i + 1).drop_last() =~= regions@.take(i as int));
        }
        if let Some(area) = usable(&regions[i], size) {
            areas.push(area);
        }
        i += 1;
    }
    proof {
        assert(regions@.take(i as int) =~= regions@);
    }
    areas
}

/// The number of bytes in the available regions, or `None` where the sum
/// does not fit in 64 bits.
pub fn total_memory(regions: &Vec<MemoryRegion>) -> (total: Option<u64>)
    ensures
        total.is_some() <==> total_available(regions@) <= u64::MAX,
        total matches Some(t) ==> t == total_available(regions@),
{
    let mut total: u64 = 0;
    let mut i: usize = 0;
    while i < regions.len()
        invariant
            i <= regions.len(),
            total == total_available(regions@.take(i as int)),
        decreases regions.len() - i,
    {
        proof {
            assert(regions@.take(i + 1).drop_last() =~= regions@.take(i as int));
        }
        let region = &regions[i];
        let available = match region.kind {
            RegionKind::Available => true,
            _ => false,
        };
        if available && region.start <= region.end {
            match total.checked_add(region.end - region.start) {
                Some(sum) => {
                    total = sum;
                },
                None => {
                    proof {
                        lemma_total_available_grows(regions@, i + 1);
                    }
                    return None;
                },
            }
        }
        i += 1;
    }
    proof {
        assert(regions@.take(i as int) =~= regions@);
    }
    Some(total)
}

/// The bytes of a part of the map are no more than those of the whole map.
pub proof fn lemma_total_available_grows(regions: Seq<MemoryRegion>, n: int)
    requires
        0 <= n <= regions.len(),
    ensures
        0 <= total_available(regions.take(n)) <= total_available(regions),
    decreases regions.len() - n,
{
    lemma_total_available_nonnegative(regions.take(n));
    if n < regions.len() {
        assert(regions.take(n + 1).drop_last() =~= regions.take(n));
        lemma_total_available_grows(regions, n + 1);
    } else {
        assert(regions.take(n) =~= regions);
    }
}

/// A memory map holds no negative number of bytes.
pub proof fn lemma_total_available_nonnegative(regions: Seq<MemoryRegion>)
    ensures
        0 <= total_available(regions),
    decreases regions.len(),
{
    if regions.len() > 0 {
        lemma_total_available_nonnegative(regions.drop_last());
    }
}

/// The number of bytes in the available regions, rounded up to the page
/// size, or `None` where that does not fit in 64 bits.
pub fn total_memory_aligned(regions: &Vec<MemoryRegion>, size: PageSize) -> (total: Option<u64>)
    ensures
        total.is_some() <==> align_up_spec(total_available(regions@), size.bytes() as int)
            <= u64::MAX,
        total matches Some(t) ==> t == align_up_spec(total_available(regions@), size.bytes() as int),
{
    proof {
        lemma_total_available_nonnegative(regions@);
        lemma_align_bounds(total_available(regions@), size.bytes() as int);
    }
    match total_memory(regions) {
        Some(total) => round_up(total, size),
        None => None,
    }
}

} // verus!
