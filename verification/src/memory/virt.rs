//! Plans of page-table mappings: which page is to be mapped to which frame.
//! The page tables themselves are written by the caller, mapping by mapping.

use vstd::prelude::*;
use crate::memory::addr::{
    align_down_spec,
    Page,
    PageSize,
    PhysFrame,
    LOWER_HALF_END,
    PHYSICAL_LIMIT,
};
use crate::memory::phys::{allocate, next_address, saturated, BitmapAllocator};
use crate::memory::range::{
    get_frame_range,
    get_page_range,
    lemma_step,
    page_bounds,
    FrameRange,
    PageRange,
};

verus! {

/// Page-table flag: the entry is valid.
pub const PRESENT: u64 = 1;

/// Page-table flag: the page may be written.
pub const WRITABLE: u64 = 1 << 1;

/// Page-table flag: the entry maps a huge page.
pub const HUGE_PAGE: u64 = 1 << 7;

/// One mapping: a page, the frame that it is to show, and the flags of the
/// entry.
#[derive(Clone, Copy, Debug, PartialEq, Eq, Structural)]
pub struct Mapping {
    pub page: Page,
    pub frame: PhysFrame,
    pub flags: u64,
}

/// Why a page could not be mapped.
#[derive(Clone, Copy, Debug, PartialEq, Eq, Structural)]
pub enum MappingError {
    /// A page table was missing and no frame could be had for it.
    FrameAllocationFailed,
    /// A table on the way maps a huge page where the page lies.
    ParentEntryHugePage,
    /// The page is mapped already.
    PageAlreadyMapped,
}

/// Why a page could not be unmapped.
#[derive(Clone, Copy, Debug, PartialEq, Eq, Structural)]
pub enum UnmapError {
    /// A table on the way maps a huge page where the page lies.
    ParentEntryHugePage,
    /// The page is not mapped.
    PageNotMapped,
    /// The entry of the page holds no valid frame address.
    InvalidFrameAddress,
}

/// The flags of the entries that the bring-up writes: present and
/// writable, and huge for huge pages.
pub open spec fn entry_flags(size: PageSize) -> u64 {
    match size {
        PageSize::Size4KiB => 3,
        PageSize::Size2MiB => 0x83,
    }
}

/// The flags of the entries that the bring-up writes.
pub fn flags_for(size: PageSize) -> (flags: u64)
    ensures
        flags == entry_flags(size),
{
    assert(1u64 | (1u64 << 1) == 3) by (bit_vector);
    assert(1u64 | (1u64 << 1) | (1u64 << 7) == 0x83) by (bit_vector);
    match size {
        PageSize::Size4KiB => PRESENT | WRITABLE,
        PageSize::Size2MiB => PRESENT | WRITABLE | HUGE_PAGE,
    }
}

/// The smaller of two numbers.
pub open spec fn least(a: nat, b: nat) -> nat {
    if a <= b {
        a
    } else {
        b
    }
}

/// A range of frames and a range of pages of one size, to be mapped pair
/// by pair: the first page to the first frame, and so on until one of the
/// two ranges ends.
#[derive(Clone, Copy, Debug, PartialEq, Eq, Structural)]
pub struct RangePlan {
    frames: FrameRange,
    pages: PageRange,
    flags: u64,
}

impl RangePlan {
    #[verifier::type_invariant]
    closed spec fn inv(self) -> bool {
        self.frames.extent() == self.pages.extent()
    }

    /// The frames of the plan.
    pub closed spec fn frames(self) -> FrameRange {
        self.frames
    }

    /// The pages of the plan.
    pub closed spec fn pages(self) -> PageRange {
        self.pages
    }

    /// The flags of each entry.
    pub closed spec fn flags(self) -> u64 {
        self.flags
    }

    /// The number of mappings in the plan.
    pub open spec fn count(self) -> nat {
        least(self.frames().count(), self.pages().count())
    }

    /// The number of mappings in the plan.
    pub fn len(&self) -> (n: u64)
        ensures
            n == self.count(),
    {
        let frames: u64 = self.frames.len();
        let pages: u64 = self.pages.len();
        if frames <= pages {
            frames
        } else {
            pages
        }
    }

    /// Mapping number `i` of the plan, or `None` where the plan has no more
    /// than `i` mappings.
    pub fn get(&self, i: u64) -> (mapping: Option<Mapping>)
        ensures
            mapping.is_some() <==> i < self.count(),
            mapping matches Some(m) ==> {
                &&& m.page.base() == self.pages().first() + i * self.pages().extent().bytes()
                &&& m.frame.base() == self.frames().first() + i * self.frames().extent().bytes()
                &&& m.page.extent() == self.pages().extent()
                &&& m.frame.extent() == self.pages().extent()
                &&& m.flags == self.flags()
            },
    {
        proof {
            use_type_invariant(self);
        }
        if i >= self.len() {
            return None;
        }
        match (self.pages.get(i), self.frames.get(i)) {
            (Some(page), Some(frame)) => Some(Mapping { page, frame, flags: self.flags }),
            _ => None,
        }
    }

    /// What is to be done after `done` mappings of the plan were tried, the
    /// last of them with the given outcome: once a mapping has failed the
    /// plan is given up with its error; else mapping number `done` is next,
    /// or nothing where the plan has no more mappings. A plan starts with
    /// no mapping done and `Ok`.
    pub fn next(&self, done: u64, outcome: Result<(), MappingError>) -> (step: Result<
        Option<Mapping>,
        MappingError,
    >)
        ensures
            outcome matches Err(error) ==> step == Err::<Option<Mapping>, MappingError>(error),
            outcome.is_ok() ==> step.is_ok(),
            outcome.is_ok() ==> (step matches Ok(mapping) && {
                &&& mapping.is_some() <==> done < self.count()
                &&& mapping matches Some(m) ==> {
                    &&& m.page.base() == self.pages().first() + done * self.pages().extent().bytes()
                    &&& m.frame.base() == self.frames().first() + done
                        * self.frames().extent().bytes()
                    &&& m.page.extent() == self.pages().extent()
                    &&& m.frame.extent() == self.pages().extent()
                    &&& m.flags == self.flags()
                }
            }),
    {
        match outcome {
            Ok(()) => Ok(self.get(done)),
            Err(error) => Err(error),
        }
    }
}

/// The plan that maps `size` bytes of physical memory from
/// `physical_offset` on at the virtual address `virtual_offset`, in pages
/// of `page_size`. `None` where the frames or the pages make no range.
pub fn map_range(
    flags: u64,
    physical_offset: u64,
    virtual_offset: u64,
    size: u64,
    page_size: PageSize,
) -> (plan: Option<RangePlan>)
    ensures
        plan.is_some() <==> physical_offset + size < PHYSICAL_LIMIT && page_bounds(
            virtual_offset,
            size,
            page_size,
        ).is_some(),
        plan matches Some(p) ==> {
            &&& p.flags() == flags
            &&& p.frames().extent() == page_size
            &&& p.pages().extent() == page_size
            &&& p.frames().first() == align_down_spec(
                physical_offset as int,
                page_size.bytes() as int,
            )
            &&& p.frames().limit() == align_down_spec(physical_offset + size, page_size.bytes() as int)
            &&& p.pages().first() == page_bounds(virtual_offset, size, page_size).unwrap().0
            &&& p.pages().limit() == page_bounds(virtual_offset, size, page_size).unwrap().1
        },
{
    let frames = match get_frame_range(physical_offset, size, page_size) {
        Some(frames) => frames,
        None => {
            return None;
        },
    };
    let pages = match get_page_range(virtual_offset, size, page_size) {
        Some(pages) => pages,
        None => {
            return None;
        },
    };
    Some(RangePlan { frames, pages, flags })
}

/// A range of frames in the lower half of the address space, each to be
/// mapped at the virtual address that equals its physical address.
#[derive(Clone, Copy, Debug, PartialEq, Eq, Structural)]
pub struct IdentityPlan {
    frames: FrameRange,
    flags: u64,
}

impl IdentityPlan {
    #[verifier::type_invariant]
    closed spec fn inv(self) -> bool {
        self.frames.count() == 0 || self.frames.limit() <= LOWER_HALF_END
    }

    /// The frames of the plan.
    pub closed spec fn frames(self) -> FrameRange {
        self.frames
    }

    /// The flags of each entry.
    pub closed spec fn flags(self) -> u64 {
        self.flags
    }

    /// The number of mappings in the plan.
    pub fn len(&self) -> (n: u64)
        ensures
            n == self.frames().count(),
    {
        self.frames.len()
    }

    /// Mapping number `i` of the plan: frame `i`, at the page of the same
    /// address. `None` where the plan has no more than `i` mappings.
    pub fn get(&self, i: u64) -> (mapping: Option<Mapping>)
        ensures
            mapping.is_some() <==> i < self.frames().count(),
            mapping matches Some(m) ==> {
                &&& m.frame.base() == self.frames().first() + i * self.frames().extent().bytes()
                &&& m.frame.extent() == self.frames().extent()
                &&& m.page.base() == m.frame.base()
                &&& m.page.extent() == self.frames().extent()
                &&& m.flags == self.flags()
            },
    {
        proof {
            use_type_invariant(self);
        }
        let frame = match self.frames.get(i) {
            Some(frame) => frame,
            None => {
                return None;
            },
        };
        let first: u64 = self.frames.start_address();
        let limit: u64 = self.frames.end_address();
        proof {
            lemma_step(first as int, limit as int, self.frames.extent().bytes() as int, i as int);
        }
        match Page::from_start_address(frame.start_address(), frame.size()) {
            Some(page) => Some(Mapping { page, frame, flags: self.flags }),
            None => None,
        }
    }

    /// What is to be done after `done` mappings of the plan were tried, the
    /// last of them with the given outcome: once a mapping has failed the
    /// plan is given up with its error; else mapping number `done` is next,
    /// or nothing where the plan has no more mappings.
    pub fn next(&self, done: u64, outcome: Result<(), MappingError>) -> (step: Result<
        Option<Mapping>,
        MappingError,
    >)
        ensures
            outcome matches Err(error) ==> step == Err::<Option<Mapping>, MappingError>(error),
            outcome.is_ok() ==> step.is_ok(),
            outcome.is_ok() ==> (step matches Ok(mapping) && {
                &&& mapping.is_some() <==> done < self.frames().count()
                &&& mapping matches Some(m) ==> {
                    &&& m.frame.base() == self.frames().first() + done
                        * self.frames().extent().bytes()
                    &&& m.frame.extent() == self.frames().extent()
                    &&& m.page.base() == m.frame.base()
                    &&& m.page.extent() == self.frames().extent()
                    &&& m.flags == self.flags()
                }
            }),
    {
        match outcome {
            Ok(()) => Ok(self.get(done)),
            Err(error) => Err(error),
        }
    }
}

/// The plan that maps each frame of the range at its own address, or `None`
/// where frames of the range lie past the lower half of the address space,
/// which has no addresses to map them at.
pub fn identity_map_range(flags: u64, frame_range: FrameRange) -> (plan: Option<IdentityPlan>)
    ensures
        plan.is_some() <==> frame_range.count() == 0 || frame_range.limit() <= LOWER_HALF_END,
        plan matches Some(p) ==> p.frames() == frame_range && p.flags() == flags,
{
    if frame_range.len() == 0 || frame_range.end_address() <= LOWER_HALF_END {
        Some(IdentityPlan { frames: frame_range, flags })
    } else {
        None
    }
}

/// The next step of backing a range of pages with frames of the allocator,
/// after `done` pages were tried, the last of them with the given outcome.
/// Once a mapping has failed the range is given up with its error, and no
/// frame is taken. Else the first free frame is taken for page `done` of
/// the range, and the page is to be mapped to it; past the end of the
/// range nothing is taken and nothing is left to map. Where the allocator
/// has no frame left, the step fails as a mapping that finds no frame for a
/// page table does.
pub fn allocate_range(
    pmm: &mut BitmapAllocator,
    flags: u64,
    page_range: &PageRange,
    done: u64,
    outcome: Result<(), MappingError>,
) -> (step: Result<Option<Mapping>, MappingError>)
    requires
        old(pmm).wf(),
    ensures
        final(pmm).wf(),
        final(pmm).placement() == old(pmm).placement(),
        final(pmm).spare() == old(pmm).spare(),
        outcome matches Err(error) ==> step == Err::<Option<Mapping>, MappingError>(error),
        outcome.is_err() || done >= page_range.count() ==> final(pmm)@ == old(pmm)@,
        outcome.is_ok() && done >= page_range.count() ==> step == Ok::<
            Option<Mapping>,
            MappingError,
        >(None),
        outcome.is_ok() && done < page_range.count() ==> {
            &&& final(pmm)@ == allocate(old(pmm)@)
            &&& saturated(old(pmm)@) <==> step == Err::<Option<Mapping>, MappingError>(
                MappingError::FrameAllocationFailed,
            )
            &&& !saturated(old(pmm)@) ==> (step matches Ok(Some(m)) && {
                &&& m.page.base() == page_range.first() + done * page_range.extent().bytes()
                &&& m.page.extent() == page_range.extent()
                &&& next_address(old(pmm)@) == Some(m.frame.base() as int)
                &&& m.frame.extent() == PageSize::Size4KiB
                &&& m.flags == flags
            })
        },
{
    if let Err(error) = outcome {
        return Err(error);
    }
    let page = match page_range.get(done) {
        Some(page) => page,
        None => {
            return Ok(None);
        },
    };
    match pmm.allocate_frame() {
        Some(frame) => Ok(Some(Mapping { page, frame, flags })),
        None => Err(MappingError::FrameAllocationFailed),
    }
}

/// The next step of unmapping a range of pages, after `done` pages were
/// tried, the last of them with the given outcome: once a page could not
/// be unmapped the range is given up with its error; else page `done` of
/// the range is next, or nothing where the range has no more pages.
pub fn unmap_range(page_range: &PageRange, done: u64, outcome: Result<(), UnmapError>) -> (step:
    Result<Option<Page>, UnmapError>)
    ensures
        outcome matches Err(error) ==> step == Err::<Option<Page>, UnmapError>(error),
        outcome.is_ok() ==> (step matches Ok(page) && {
            &&& page.is_some() <==> done < page_range.count()
            &&& page matches Some(p) ==> p.base() == page_range.first() + done
                * page_range.extent().bytes() && p.extent() == page_range.extent()
        }),
{
    match outcome {
        Ok(()) => Ok(page_range.get(done)),
        Err(error) => Err(error),
    }
}

} // verus!
