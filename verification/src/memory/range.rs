//! Ranges of frames and of pages, walked by index.

use vstd::prelude::*;
use crate::memory::addr::{
    align_down_spec,
    canonical_form,
    lemma_align_bounds,
    Page,
    PageSize,
    PhysFrame,
    LOWER_HALF_END,
    PHYSICAL_LIMIT,
    UPPER_HALF_BEGIN,
};

verus! {

/// The number of steps of `bytes` from `first` before `limit` is reached.
pub open spec fn steps(first: u64, limit: u64, bytes: u64) -> nat {
    if first < limit {
        ((limit - first) / bytes as int) as nat
    } else {
        0
    }
}

/// An aligned address stays aligned after whole steps, and fewer steps than
/// lie between two aligned addresses do not reach the second.
pub proof fn lemma_step(first: int, limit: int, bytes: int, i: int)
    requires
        0 <= first <= limit,
        0 < bytes,
        first % bytes == 0,
        limit % bytes == 0,
        0 <= i < (limit - first) / bytes,
    ensures
        (first + i * bytes) % bytes == 0,
        first <= first + i * bytes,
        first + i * bytes + bytes <= limit,
{
    vstd::arithmetic::div_mod::lemma_mod_multiples_vanish(i, first, bytes);
    assert(first + i * bytes == bytes * i + first) by (nonlinear_arith);
    vstd::arithmetic::div_mod::lemma_fundamental_div_mod(limit - first, bytes);
    let q = (limit - first) / bytes;
    vstd::arithmetic::div_mod::lemma_sub_mod_noop(limit, first, bytes);
    vstd::arithmetic::div_mod::lemma_small_mod(0, bytes as nat);
    assert((limit - first) % bytes == 0);
    assert(limit - first == bytes * q);
    assert(i + 1 <= q ==> bytes * (i + 1) <= bytes * q) by (nonlinear_arith)
        requires
            0 < bytes,
    ;
    assert(bytes * (i + 1) == i * bytes + bytes) by (nonlinear_arith);
    assert(0 <= i * bytes) by (nonlinear_arith)
        requires
            0 <= i,
            0 < bytes,
    ;
}

/// The frames from a first frame up to, and without, a last one.
#[derive(Clone, Copy, Debug, PartialEq, Eq, Structural)]
pub struct FrameRange {
    start: PhysFrame,
    end: PhysFrame,
}

impl FrameRange {
    #[verifier::type_invariant]
    closed spec fn inv(self) -> bool {
        self.start.extent() == self.end.extent()
    }

    /// The address of the first frame.
    pub closed spec fn first(self) -> u64 {
        self.start.base()
    }

    /// The address at which the range ends.
    pub closed spec fn limit(self) -> u64 {
        self.end.base()
    }

    /// The page size of the frames.
    pub closed spec fn extent(self) -> PageSize {
        self.start.extent()
    }

    /// The number of frames in the range.
    pub open spec fn count(self) -> nat {
        steps(self.first(), self.limit(), self.extent().bytes())
    }

    /// The frames from `start` up to, and without, `end`, or `None` where
    /// the two are of different sizes.
    pub fn new(start: PhysFrame, end: PhysFrame) -> (range: Option<FrameRange>)
        ensures
            range.is_some() <==> start.extent() == end.extent(),
            range matches Some(r) ==> r.first() == start.base() && r.limit() == end.base()
                && r.extent() == start.extent(),
    {
        let same = match (start.size(), end.size()) {
            (PageSize::Size4KiB, PageSize::Size4KiB) => true,
            (PageSize::Size2MiB, PageSize::Size2MiB) => true,
            _ => false,
        };
        if same {
            Some(FrameRange { start, end })
        } else {
            None
        }
    }

    /// The address of the first frame, which is aligned to the page size.
    pub fn start_address(&self) -> (address: u64)
        ensures
            address == self.first(),
            address % self.extent().bytes() == 0,
    {
        self.start.start_address()
    }

    /// The address at which the range ends, which is aligned to the page
    /// size.
    pub fn end_address(&self) -> (address: u64)
        ensures
            address == self.limit(),
            address % self.extent().bytes() == 0,
    {
        proof {
            use_type_invariant(self);
        }
        self.end.start_address()
    }

    /// The number of frames in the range.
    pub fn len(&self) -> (n: u64)
        ensures
            n == self.count(),
    {
        proof {
            use_type_invariant(self);
        }
        let first: u64 = self.start.start_address();
        let limit: u64 = self.end.start_address();
        if first < limit {
            (limit - first) / self.start.size().bytes()
        } else {
            0
        }
    }

    /// The frame at place `i` of the range, or `None` where the range has
    /// no more than `i` frames.
    pub fn get(&self, i: u64) -> (frame: Option<PhysFrame>)
        ensures
            frame.is_some() <==> i < self.count(),
            frame matches Some(f) ==> f.base() == self.first() + i * self.extent().bytes()
                && f.extent() == self.extent(),
    {
        proof {
            use_type_invariant(self);
        }
        if i < self.len() {
            let first: u64 = self.start.start_address();
            let limit: u64 = self.end.start_address();
            let bytes: u64 = self.start.size().bytes();
            proof {
                lemma_step(first as int, limit as int, bytes as int, i as int);
            }
            PhysFrame::from_start_address(first + i * bytes, self.start.size())
        } else {
            None
        }
    }
}

/// Whether the addresses from `first` up to `limit` cross the hole between
/// the two canonical halves of the address space.
pub open spec fn crosses_hole(first: u64, limit: u64) -> bool {
    first < LOWER_HALF_END && limit >= UPPER_HALF_BEGIN
}

/// The pages from a first page up to, and without, a last one. The pages of
/// a range lie in one canonical half of the address space.
#[derive(Clone, Copy, Debug, PartialEq, Eq, Structural)]
pub struct PageRange {
    start: Page,
    end: Page,
}

impl PageRange {
    #[verifier::type_invariant]
    closed spec fn inv(self) -> bool {
        self.start.extent() == self.end.extent() && !crosses_hole(self.start.base(), self.end.base())
    }

    /// The address of the first page.
    pub closed spec fn first(self) -> u64 {
        self.start.base()
    }

    /// The address at which the range ends.
    pub closed spec fn limit(self) -> u64 {
        self.end.base()
    }

    /// The page size of the pages.
    pub closed spec fn extent(self) -> PageSize {
        self.start.extent()
    }

    /// The number of pages in the range.
    pub open spec fn count(self) -> nat {
        steps(self.first(), self.limit(), self.extent().bytes())
    }

    /// The pages from `start` up to, and without, `end`, or `None` where the
    /// two are of different sizes or the hole between the canonical halves
    /// lies between them.
    pub fn new(start: Page, end: Page) -> (range: Option<PageRange>)
        ensures
            range.is_some() <==> start.extent() == end.extent() && !crosses_hole(
                start.base(),
                end.base(),
            ),
            range matches Some(r) ==> r.first() == start.base() && r.limit() == end.base()
                && r.extent() == start.extent(),
    {
        let same = match (start.size(), end.size()) {
            (PageSize::Size4KiB, PageSize::Size4KiB) => true,
            (PageSize::Size2MiB, PageSize::Size2MiB) => true,
            _ => false,
        };
        if same && !(start.start_address() < LOWER_HALF_END && end.start_address()
            >= UPPER_HALF_BEGIN) {
            Some(PageRange { start, end })
        } else {
            None
        }
    }

    /// The number of pages in the range.
    pub fn len(&self) -> (n: u64)
        ensures
            n == self.count(),
    {
        proof {
            use_type_invariant(self);
        }
        let first: u64 = self.start.start_address();
        let limit: u64 = self.end.start_address();
        if first < limit {
            (limit - first) / self.start.size().bytes()
        } else {
            0
        }
    }

    /// The page at place `i` of the range, or `None` where the range has no
    /// more than `i` pages.
    pub fn get(&self, i: u64) -> (page: Option<Page>)
        ensures
            page.is_some() <==> i < self.count(),
            page matches Some(p) ==> p.base() == self.first() + i * self.extent().bytes()
                && p.extent() == self.extent(),
    {
        proof {
            use_type_invariant(self);
        }
        if i < self.len() {
            let first: u64 = self.start.start_address();
            let limit: u64 = self.end.start_address();
            let bytes: u64 = self.start.size().bytes();
            proof {
                lemma_step(first as int, limit as int, bytes as int, i as int);
            }
            Page::from_start_address(first + i * bytes, self.start.size())
        } else {
            None
        }
    }
}

/// The frames of `[begin, begin + size)`: from the frame that holds `begin`
/// up to, and without, the frame that holds `begin + size`. `None` where
/// either end is no physical address.
pub fn get_frame_range(begin: u64, size: u64, page_size: PageSize) -> (range: Option<FrameRange>)
    ensures
        range.is_some() <==> begin + size < PHYSICAL_LIMIT,
        range matches Some(r) ==> {
            &&& r.first() == align_down_spec(begin as int, page_size.bytes() as int)
            &&& r.limit() == align_down_spec(begin + size, page_size.bytes() as int)
            &&& r.extent() == page_size
        },
{
    let end: u64 = match begin.checked_add(size) {
        Some(end) => end,
        None => {
            return None;
        },
    };
    let first = match PhysFrame::containing_address(begin, page_size) {
        Some(frame) => frame,
        None => {
            return None;
        },
    };
    let last = match PhysFrame::containing_address(end, page_size) {
        Some(frame) => frame,
        None => {
            return None;
        },
    };
    FrameRange::new(first, last)
}

/// Where a range of pages over `[begin, begin + size)` starts and ends:
/// both ends are brought into canonical form, then rounded down to the page
/// size. `None` where an end has no canonical form, the sum leaves 64 bits,
/// or the hole between the canonical halves lies between the ends.
pub open spec fn page_bounds(begin: u64, size: u64, page_size: PageSize) -> Option<(u64, u64)> {
    match canonical_form(begin) {
        Some(first) => if first + size <= u64::MAX {
            match canonical_form((first + size) as u64) {
                Some(last) => {
                    let bounds = (
                        align_down_spec(first as int, page_size.bytes() as int) as u64,
                        align_down_spec(last as int, page_size.bytes() as int) as u64,
                    );
                    if crosses_hole(bounds.0, bounds.1) {
                        None
                    } else {
                        Some(bounds)
                    }
                },
                None => None,
            }
        } else {
            None
        },
        None => None,
    }
}

/// The pages of `[begin, begin + size)`: from the page that holds `begin` up
/// to, and without, the page that holds `begin + size`.
pub fn get_page_range(begin: u64, size: u64, page_size: PageSize) -> (range: Option<PageRange>)
    ensures
        range.is_some() <==> page_bounds(begin, size, page_size).is_some(),
        range matches Some(r) ==> {
            &&& r.first() == page_bounds(begin, size, page_size).unwrap().0
            &&& r.limit() == page_bounds(begin, size, page_size).unwrap().1
            &&& r.extent() == page_size
        },
{
    let first = match Page::containing_address(begin, page_size) {
        Some(page) => page,
        None => {
            return None;
        },
    };
    let begin: u64 = match Page::canonical(begin) {
        Some(address) => address,
        None => {
            return None;
        },
    };
    let end: u64 = match begin.checked_add(size) {
        Some(end) => end,
        None => {
            return None;
        },
    };
    let last = match Page::containing_address(end, page_size) {
        Some(page) => page,
        None => {
            return None;
        },
    };
    proof {
        lemma_align_bounds(begin as int, page_size.bytes() as int);
        lemma_align_bounds(canonical_form(end).unwrap() as int, page_size.bytes() as int);
    }
    PageRange::new(first, last)
}

} // verus!
