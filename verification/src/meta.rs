//! The fixed address-space layout and the addresses of one kernel image.

use vstd::prelude::*;

verus! {

/// Size of the identity-mapped low region that holds legacy MMIO and BIOS areas.
pub const RESERVED_REGION_SIZE: u64 = 0x10_0000;

/// Virtual address at which physical address zero is mapped.
pub const PHYSICAL_MEMORY_OFFSET: u64 = 0xFFFF_8000_0000_0000;

/// First virtual address of the kernel heap.
pub const HEAP_BEGIN: u64 = 0xFFFF_C000_0000_0000;

/// Size of the kernel heap in bytes.
pub const HEAP_SIZE: u64 = 0x40_0000;

/// What the view of a [`KernelImage`] holds: the addresses as plain numbers.
pub struct ImageLayout {
    pub begin: u64,
    pub end: u64,
    pub offset: u64,
    pub stack: u64,
    pub stack_size: u64,
}

impl ImageLayout {
    /// The image ends after it begins, its higher-half mirror and its stack
    /// end inside the address space.
    pub open spec fn consistent(self) -> bool {
        &&& self.begin <= self.end
        &&& self.end + self.offset <= u64::MAX
        &&& self.stack + self.stack_size <= u64::MAX
    }
}

/// The addresses that the linker and the boot configuration fix for a kernel
/// image: where it begins and ends in physical memory, the offset of its
/// higher-half mirror, and its boot stack.
pub struct KernelImage {
    begin: u64,
    end: u64,
    offset: u64,
    stack: u64,
    stack_size: u64,
}

impl View for KernelImage {
    type V = ImageLayout;

    closed spec fn view(&self) -> ImageLayout {
        ImageLayout {
            begin: self.begin,
            end: self.end,
            offset: self.offset,
            stack: self.stack,
            stack_size: self.stack_size,
        }
    }
}

impl KernelImage {
    #[verifier::type_invariant]
    closed spec fn inv(&self) -> bool {
        self@.consistent()
    }

    /// Records the addresses of an image, or `None` where they contradict
    /// each other.
    pub fn new(begin: u64, end: u64, offset: u64, stack: u64, stack_size: u64) -> (image: Option<
        KernelImage,
    >)
        ensures
            image.is_some() <==> (ImageLayout { begin, end, offset, stack, stack_size }).consistent(),
            image matches Some(i) ==> i@ == (ImageLayout { begin, end, offset, stack, stack_size }),
    {
        if begin <= end && end <= u64::MAX - offset && stack <= u64::MAX - stack_size {
            Some(KernelImage { begin, end, offset, stack, stack_size })
        } else {
            None
        }
    }

    /// The addresses of the image as plain numbers; they are always
    /// consistent.
    pub fn layout(&self) -> (layout: ImageLayout)
        ensures
            layout == self@,
            layout.consistent(),
    {
        proof {
            use_type_invariant(self);
        }
        ImageLayout {
            begin: self.begin,
            end: self.end,
            offset: self.offset,
            stack: self.stack,
            stack_size: self.stack_size,
        }
    }
}

/// Physical address of the first byte of the kernel image.
pub fn kernel_begin(image: &KernelImage) -> (addr: u64)
    ensures
        addr == image@.begin,
        image@.consistent(),
{
    proof {
        use_type_invariant(image);
    }
    image.begin
}

/// Physical address just past the kernel image.
pub fn kernel_end(image: &KernelImage) -> (addr: u64)
    ensures
        addr == image@.end,
        image@.consistent(),
{
    proof {
        use_type_invariant(image);
    }
    image.end
}

/// Number of bytes that the kernel image occupies.
pub fn kernel_size(image: &KernelImage) -> (size: u64)
    ensures
        size == image@.end - image@.begin,
{
    proof {
        use_type_invariant(image);
    }
    kernel_end(image) - kernel_begin(image)
}

/// Offset between the physical image and its higher-half mirror.
pub fn kernel_offset(image: &KernelImage) -> (offset: u64)
    ensures
        offset == image@.offset,
        image@.consistent(),
{
    proof {
        use_type_invariant(image);
    }
    image.offset
}

/// Lowest address of the boot stack.
pub fn stack_begin(image: &KernelImage) -> (addr: u64)
    ensures
        addr == image@.stack,
        image@.consistent(),
{
    proof {
        use_type_invariant(image);
    }
    image.stack
}

/// Address just past the boot stack.
pub fn stack_end(image: &KernelImage) -> (addr: u64)
    ensures
        addr == image@.stack + image@.stack_size,
{
    proof {
        use_type_invariant(image);
    }
    stack_begin(image) + image.stack_size
}

/// Number of bytes in the boot stack.
pub fn stack_size(image: &KernelImage) -> (size: u64)
    ensures
        size == image@.stack_size,
{
    stack_end(image) - stack_begin(image)
}

/// Size of the identity-mapped low region.
pub fn reserved_region_size() -> (size: u64)
    ensures
        size == RESERVED_REGION_SIZE,
{
    RESERVED_REGION_SIZE
}

/// Virtual address at which physical memory is mapped linearly.
pub fn physical_memory_offset() -> (offset: u64)
    ensures
        offset == PHYSICAL_MEMORY_OFFSET,
{
    PHYSICAL_MEMORY_OFFSET
}

/// First virtual address of the kernel heap.
pub fn heap_begin() -> (addr: u64)
    ensures
        addr == HEAP_BEGIN,
{
    HEAP_BEGIN
}

/// Virtual address just past the kernel heap.
pub fn heap_end() -> (addr: u64)
    ensures
        addr == HEAP_BEGIN + HEAP_SIZE,
{
    heap_begin() + heap_size()
}

/// Size of the kernel heap in bytes.
pub fn heap_size() -> (size: u64)
    ensures
        size == HEAP_SIZE,
{
    HEAP_SIZE
}

} // verus!
