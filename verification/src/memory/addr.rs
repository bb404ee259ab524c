//! Addresses, page sizes, frames and pages, and ranges of them.

use vstd::prelude::*;
use vstd::arithmetic::power2::is_pow2;
use crate::meta::PHYSICAL_MEMORY_OFFSET;

verus! {

/// Size of a small frame or page in bytes.
pub const FRAME_SIZE: u64 = 4096;

/// Size of a huge frame or page in bytes.
pub const HUGE_FRAME_SIZE: u64 = 0x20_0000;

/// First address that is no physical address: physical addresses have 52 bits.
pub const PHYSICAL_LIMIT: u64 = 0x10_0000_0000_0000;

/// First address past the lower canonical half of the virtual address space.
pub const LOWER_HALF_END: u64 = 0x8000_0000_0000;

/// First address of the upper canonical half of the virtual address space.
pub const UPPER_HALF_BEGIN: u64 = 0xFFFF_8000_0000_0000;

/// The greatest multiple of `align` that is at most `addr`.
pub open spec fn align_down_spec(addr: int, align: int) -> int {
    addr - addr % align
}

/// The least multiple of `align` that is at least `addr`.
pub open spec fn align_up_spec(addr: int, align: int) -> int {
    if addr % align == 0 {
        addr
    } else {
        addr - addr % align + align
    }
}

/// What `x86_64::VirtAddr::try_new` makes of a number: a canonical address
/// as it is, an address whose bit 47 is set and whose higher bits are clear
/// with those bits set, nothing else.
pub open spec fn canonical_form(addr: u64) -> Option<u64> {
    if addr < LOWER_HALF_END || addr >= UPPER_HALF_BEGIN {
        Some(addr)
    } else if addr < 0x1_0000_0000_0000 {
        Some((addr + 0xFFFF_0000_0000_0000) as u64)
    } else {
        None
    }
}

/// Whether the number is a canonical virtual address.
pub open spec fn is_canonical(addr: u64) -> bool {
    addr < LOWER_HALF_END || addr >= UPPER_HALF_BEGIN
}

/// `x86_64::align_down`, for an alignment that is a power of two (the
/// function panics on any other): the address with the bits below the
/// alignment cleared, which is the greatest multiple of the alignment that
/// is at most the address.
#[verifier::external_body]
pub(crate) fn align_down_to(addr: u64, align: u64) -> (aligned: u64)
    requires
        is_pow2(align as int),
    ensures
        aligned == align_down_spec(addr as int, align as int),
{
    x86_64::align_down(addr, align)
}

/// `x86_64::align_up`, for an alignment that is a power of two and an
/// address whose rounding fits in 64 bits (the function panics otherwise):
/// the least multiple of the alignment that is at least the address.
#[verifier::external_body]
pub(crate) fn align_up_to(addr: u64, align: u64) -> (aligned: u64)
    requires
        is_pow2(align as int),
        align_up_spec(addr as int, align as int) <= u64::MAX,
    ensures
        aligned == align_up_spec(addr as int, align as int),
{
    x86_64::align_up(addr, align)
}

/// `x86_64::VirtAddr::try_new` followed by `as_u64`: the canonical form of
/// the number, or `None` where bits 48 to 63 hold anything but zeros or a
/// sign extension.
#[verifier::external_body]
fn virt_addr(addr: u64) -> (canonical: Option<u64>)
    ensures
        canonical == canonical_form(addr),
{
    match x86_64::VirtAddr::try_new(addr) {
        Ok(address) => Some(address.as_u64()),
        Err(_) => None,
    }
}

/// `x86_64::PhysAddr::try_new` followed by `as_u64`: the number itself
/// where none of its bits 52 to 63 is set, else `None`.
#[verifier::external_body]
fn phys_addr(addr: u64) -> (physical: Option<u64>)
    ensures
        physical == if addr < PHYSICAL_LIMIT {
            Some(addr)
        } else {
            None::<u64>
        },
{
    match x86_64::PhysAddr::try_new(addr) {
        Ok(address) => Some(address.as_u64()),
        Err(_) => None,
    }
}

/// The page sizes that the mappings use.
#[derive(Clone, Copy, Debug, PartialEq, Eq, Structural)]
pub enum PageSize {
    /// 4 KiB, mapped at the lowest level of the page tables.
    Size4KiB,
    /// 2 MiB, mapped one level higher.
    Size2MiB,
}

impl PageSize {
    /// The size in bytes.
    pub open spec fn spec_bytes(self) -> u64 {
        match self {
            PageSize::Size4KiB => FRAME_SIZE,
            PageSize::Size2MiB => HUGE_FRAME_SIZE,
        }
    }

    /// The size in bytes.
    #[verifier::when_used_as_spec(spec_bytes)]
    pub fn bytes(self) -> (bytes: u64)
        ensures
            bytes == self.spec_bytes(),
            is_pow2(bytes as int),
    {
        proof {
            lemma_page_sizes();
        }
        match self {
            PageSize::Size4KiB => FRAME_SIZE,
            PageSize::Size2MiB => HUGE_FRAME_SIZE,
        }
    }
}

/// Both page sizes are powers of two.
pub proof fn lemma_page_sizes()
    ensures
        is_pow2(FRAME_SIZE as int),
        is_pow2(HUGE_FRAME_SIZE as int),
{
    reveal_with_fuel(is_pow2, 23);
}

/// Rounding down gives a multiple of the alignment within one alignment
/// below the address; rounding up gives one within one alignment above.
pub proof fn lemma_align_bounds(addr: int, align: int)
    requires
        0 <= addr,
        0 < align,
    ensures
        align_down_spec(addr, align) % align == 0,
        addr - align < align_down_spec(addr, align) <= addr,
        align_up_spec(addr, align) % align == 0,
        addr <= align_up_spec(addr, align) < addr + align,
        align_down_spec(addr, align) <= align_up_spec(addr, align),
{
    vstd::arithmetic::div_mod::lemma_fundamental_div_mod(addr, align);
    vstd::arithmetic::div_mod::lemma_mod_bound(addr, align);
    let q = addr / align;
    assert(addr - addr % align == align * q);
    vstd::arithmetic::div_mod::lemma_mod_multiples_basic(q, align);
    vstd::arithmetic::div_mod::lemma_mod_multiples_basic(q + 1, align);
    assert(align * q + align == (q + 1) * align) by (nonlinear_arith);
    assert(align * q == q * align) by (nonlinear_arith);
}

/// Rounds an address down to a multiple of the page size.
pub fn round_down(addr: u64, size: PageSize) -> (aligned: u64)
    ensures
        aligned == align_down_spec(addr as int, size.bytes() as int),
        aligned % size.bytes() == 0,
        aligned <= addr < aligned + size.bytes(),
{
    proof {
        lemma_align_bounds(addr as int, size.bytes() as int);
    }
    align_down_to(addr, size.bytes())
}

/// Rounds an address up to a multiple of the page size, or gives `None`
/// where the multiple does not fit in 64 bits.
pub fn round_up(addr: u64, size: PageSize) -> (aligned: Option<u64>)
    ensures
        aligned.is_some() <==> align_up_spec(addr as int, size.bytes() as int) <= u64::MAX,
        aligned matches Some(a) ==> a == align_up_spec(addr as int, size.bytes() as int) && a
            % size.bytes() == 0 && addr <= a < addr + size.bytes(),
{
    let bytes: u64 = size.bytes();
    proof {
        lemma_align_bounds(addr as int, bytes as int);
        lemma_align_bounds((u64::MAX - (bytes - 1)) as int, bytes as int);
        assert((u64::MAX - (bytes - 1)) as int % bytes as int == 0) by {
            lemma_page_sizes();
            assert(0xFFFF_FFFF_FFFF_F000int % 4096 == 0);
            assert(0xFFFF_FFFF_FFE0_0000int % 0x20_0000 == 0);
        }
    }
    if addr <= u64::MAX - (bytes - 1) {
        proof {
            if addr as int % bytes as int != 0 {
                assert(align_up_spec(addr as int, bytes as int) < addr + bytes);
            }
        }
        Some(align_up_to(addr, bytes))
    } else {
        None
    }
}

/// A physical frame: an aligned region of physical memory of one page size,
/// known by its first address.
#[derive(Clone, Copy, Debug, PartialEq, Eq, Structural)]
pub struct PhysFrame {
    start: u64,
    size: PageSize,
}

impl PhysFrame {
    #[verifier::type_invariant]
    closed spec fn inv(self) -> bool {
        self.start % self.size.bytes() == 0 && self.start < PHYSICAL_LIMIT
    }

    /// The first address of the frame.
    pub closed spec fn base(self) -> u64 {
        self.start
    }

    /// The page size of the frame.
    pub closed spec fn extent(self) -> PageSize {
        self.size
    }

    /// The frame in which the address lies, or `None` where the number is no
    /// physical address.
    pub fn containing_address(address: u64, size: PageSize) -> (frame: Option<PhysFrame>)
        ensures
            frame.is_some() <==> address < PHYSICAL_LIMIT,
            frame matches Some(f) ==> f.base() == align_down_spec(address as int, size.bytes() as int)
                && f.extent() == size,
    {
        match phys_addr(address) {
            Some(address) => {
                let start: u64 = round_down(address, size);
                Some(PhysFrame { start, size })
            },
            None => None,
        }
    }

    /// The frame that starts at the address, or `None` where the address is
    /// not aligned to the page size or is no physical address.
    pub fn from_start_address(address: u64, size: PageSize) -> (frame: Option<PhysFrame>)
        ensures
            frame.is_some() <==> address < PHYSICAL_LIMIT && address % size.bytes() == 0,
            frame matches Some(f) ==> f.base() == address && f.extent() == size,
    {
        match phys_addr(address) {
            Some(address) => {
                if address % size.bytes() == 0 {
                    Some(PhysFrame { start: address, size })
                } else {
                    None
                }
            },
            None => None,
        }
    }

    /// The first address of the frame: a physical address aligned to the
    /// frame's size.
    pub fn start_address(&self) -> (address: u64)
        ensures
            address == self.base(),
            address % self.extent().bytes() == 0,
            address < PHYSICAL_LIMIT,
    {
        proof {
            use_type_invariant(self);
        }
        self.start
    }

    /// The page size of the frame.
    pub fn size(&self) -> (size: PageSize)
        ensures
            size == self.extent(),
    {
        self.size
    }
}

/// A virtual page: an aligned region of virtual memory of one page size,
/// known by its first address.
#[derive(Clone, Copy, Debug, PartialEq, Eq, Structural)]
pub struct Page {
    start: u64,
    size: PageSize,
}

impl Page {
    #[verifier::type_invariant]
    closed spec fn inv(self) -> bool {
        self.start % self.size.bytes() == 0 && is_canonical(self.start)
    }

    /// The first address of the page.
    pub closed spec fn base(self) -> u64 {
        self.start
    }

    /// The page size of the page.
    pub closed spec fn extent(self) -> PageSize {
        self.size
    }

    /// The page in which the canonical form of the address lies, or `None`
    /// where the number has no canonical form.
    pub fn containing_address(address: u64, size: PageSize) -> (page: Option<Page>)
        ensures
            page.is_some() <==> canonical_form(address).is_some(),
            page matches Some(p) ==> p.base() == align_down_spec(
                canonical_form(address).unwrap() as int,
                size.bytes() as int,
            ) && p.extent() == size,
    {
        match virt_addr(address) {
            Some(address) => {
                let start: u64 = round_down(address, size);
                proof {
                    assert(UPPER_HALF_BEGIN as int % FRAME_SIZE as int == 0);
                    assert(UPPER_HALF_BEGIN as int % HUGE_FRAME_SIZE as int == 0);
                    if address >= UPPER_HALF_BEGIN {
                        lemma_align_down_monotonic(
                            UPPER_HALF_BEGIN as int,
                            address as int,
                            size.bytes() as int,
                        );
                    }
                }
                Some(Page { start, size })
            },
            None => None,
        }
    }

    /// The canonical form of a number, or `None` where it has none.
    pub fn canonical(address: u64) -> (canonical: Option<u64>)
        ensures
            canonical == canonical_form(address),
    {
        virt_addr(address)
    }

    /// The page that starts at the address, or `None` where the address is
    /// not canonical or not aligned to the page size.
    pub fn from_start_address(address: u64, size: PageSize) -> (page: Option<Page>)
        ensures
            page.is_some() <==> is_canonical(address) && address % size.bytes() == 0,
            page matches Some(p) ==> p.base() == address && p.extent() == size,
    {
        match virt_addr(address) {
            Some(canonical) => {
                if canonical == address && address % size.bytes() == 0 {
                    Some(Page { start: address, size })
                } else {
                    None
                }
            },
            None => None,
        }
    }

    /// The first address of the page: a canonical address aligned to the
    /// page's size.
    pub fn start_address(&self) -> (address: u64)
        ensures
            address == self.base(),
            address % self.extent().bytes() == 0,
            is_canonical(address),
    {
        proof {
            use_type_invariant(self);
        }
        self.start
    }

    /// The page size of the page.
    pub fn size(&self) -> (size: PageSize)
        ensures
            size == self.extent(),
    {
        self.size
    }
}

/// Rounding down keeps the order of addresses.
pub proof fn lemma_align_down_monotonic(low: int, high: int, align: int)
    requires
        0 <= low <= high,
        0 < align,
    ensures
        align_down_spec(low, align) <= align_down_spec(high, align),
{
    vstd::arithmetic::div_mod::lemma_fundamental_div_mod(low, align);
    vstd::arithmetic::div_mod::lemma_fundamental_div_mod(high, align);
    vstd::arithmetic::div_mod::lemma_div_is_ordered(low, high, align);
    let a = low / align;
    let b = high / align;
    assert(a <= b ==> align * a <= align * b) by (nonlinear_arith)
        requires
            0 < align,
    ;
}

/// The virtual address at which the linear mapping of physical memory shows
/// a physical address: the address plus the physical-memory offset. Only the
/// lower 47 bits of the physical address space are shown there.
pub fn p2v(paddr: u64) -> (vaddr: Option<u64>)
    ensures
        vaddr.is_some() <==> paddr < LOWER_HALF_END,
        vaddr matches Some(v) ==> v == paddr + PHYSICAL_MEMORY_OFFSET,
{
    match phys_addr(paddr) {
        Some(physical) => match virt_addr(physical) {
            Some(low) => match low.checked_add(PHYSICAL_MEMORY_OFFSET) {
                Some(sum) => virt_addr(sum),
                None => None,
            },
            None => None,
        },
        None => None,
    }
}

} // verus!
