use asmos::memory::addr::{PageSize, PhysFrame};
use asmos::memory::area::{MemoryRegion, RegionKind};
use asmos::memory::bitmap::Bitmap;
use asmos::memory::phys::{BitmapAllocator, MemoryChunk, CHUNK_HEADER_SIZE};
use asmos::meta::KernelImage;

const MIRROR: u64 = 0xFFFF_FFFF_8000_0000;

fn image() -> KernelImage {
    KernelImage::new(0x10_0000, 0x20_0000, MIRROR, 0x18_0000, 0x4000).unwrap()
}

fn available(start: u64, end: u64) -> MemoryRegion {
    MemoryRegion { start, end, kind: RegionKind::Available }
}

fn pc_map() -> Vec<MemoryRegion> {
    vec![
        available(0, 0x9_FC00),
        MemoryRegion { start: 0x9_FC00, end: 0x10_0000, kind: RegionKind::Reserved },
        available(0x10_0000, 0x800_0000),
    ]
}

fn small_map() -> Vec<MemoryRegion> {
    vec![available(0x1000, 0x6000)]
}

fn frame(address: u64) -> PhysFrame {
    PhysFrame::from_start_address(address, PageSize::Size4KiB).unwrap()
}

#[test]
fn bitmap_starts_with_every_frame_free() {
    let bitmap = Bitmap::new(13);
    assert_eq!(bitmap.num_frames(), 13);
    assert_eq!(bitmap.bytes(), 2);
    assert_eq!(bitmap.extra_bits(), 3);
    assert_eq!(bitmap.free(), 13);
    assert_eq!(bitmap.first_free_frame(), Some(0));
    for i in 0..13 {
        assert!(bitmap.is_zero(i));
        assert!(!bitmap.is_one(i));
        assert_eq!(bitmap.get_bit(i), 0);
    }
}

#[test]
fn bitmap_of_whole_bytes_has_no_extra_bits() {
    let bitmap = Bitmap::new(16);
    assert_eq!(bitmap.bytes(), 2);
    assert_eq!(bitmap.extra_bits(), 0);
    let empty = Bitmap::new(0);
    assert_eq!(empty.bytes(), 0);
    assert_eq!(empty.first_free_frame(), None);
}

#[test]
fn bitmap_coords_are_byte_and_bit() {
    let bitmap = Bitmap::new(40);
    assert_eq!(bitmap.coords(0), (0, 0));
    assert_eq!(bitmap.coords(7), (0, 7));
    assert_eq!(bitmap.coords(8), (1, 0));
    assert_eq!(bitmap.coords(37), (4, 5));
}

#[test]
fn bitmap_set_and_clear_touch_one_bit() {
    let mut bitmap = Bitmap::new(20);
    bitmap.set_one(9);
    for i in 0..20 {
        assert_eq!(bitmap.is_one(i), i == 9);
    }
    assert_eq!(bitmap.get_bit(9), 1);
    bitmap.set_one(9);
    assert_eq!(bitmap.free(), 19);
    bitmap.set_zero(9);
    assert_eq!(bitmap.free(), 20);
    bitmap.set_bit(3, true);
    bitmap.set_bit(4, true);
    bitmap.set_bit(3, false);
    assert!(bitmap.is_zero(3));
    assert!(bitmap.is_one(4));
    bitmap.toggle_bit(4);
    bitmap.toggle_bit(5);
    assert!(bitmap.is_zero(4));
    assert!(bitmap.is_one(5));
}

#[test]
fn bitmap_next_takes_lowest_free_frame() {
    let mut bitmap = Bitmap::new(10);
    assert_eq!(bitmap.next(), Some(0));
    assert_eq!(bitmap.next(), Some(1));
    bitmap.set_one(2);
    bitmap.set_one(3);
    assert_eq!(bitmap.next(), Some(4));
    bitmap.set_zero(1);
    assert_eq!(bitmap.first_free_frame(), Some(1));
    assert_eq!(bitmap.next(), Some(1));
    assert_eq!(bitmap.next(), Some(5));
}

#[test]
fn bitmap_never_reports_bits_past_the_last_frame() {
    let mut bitmap = Bitmap::new(10);
    for expected in 0..10 {
        assert_eq!(bitmap.next(), Some(expected));
    }
    assert_eq!(bitmap.first_free_frame(), None);
    assert_eq!(bitmap.next(), None);
    assert_eq!(bitmap.free(), 0);
}

#[test]
fn bitmap_skips_full_bytes() {
    let mut bitmap = Bitmap::new(30);
    for i in 0..17 {
        bitmap.set_one(i);
    }
    assert_eq!(bitmap.first_free_frame(), Some(17));
}

#[test]
fn chunk_records_its_frames_and_addresses() {
    let mut chunk = MemoryChunk::new(5, 0x1000, 0x9000);
    assert_eq!(chunk.num_frames(), 5);
    assert_eq!(chunk.address(), 0x1000);
    assert_eq!(chunk.bitmap_ptr(), 0x9000);
    assert_eq!(chunk.next(), 0);
    assert_eq!(chunk.size(), 5 * 4096);
    assert_eq!(chunk.bitmap().free(), 5);
    chunk.set(16, 0x40_0000, 0xA000);
    assert_eq!(chunk.num_frames(), 16);
    assert_eq!(chunk.address(), 0x40_0000);
    assert_eq!(chunk.bitmap_ptr(), 0xA000);
    assert_eq!(chunk.next(), 0);
    assert_eq!(chunk.size(), 0x1_0000);
    assert_eq!(chunk.bitmap().bytes(), 2);
}

#[test]
fn allocator_has_one_chunk_for_each_usable_area() {
    let pmm = BitmapAllocator::new(&pc_map(), &image()).unwrap();
    assert_eq!(pmm.chunk_count(), 2);
    let low = pmm.get_chunk(0).unwrap();
    assert_eq!(low.address(), 0);
    assert_eq!(low.num_frames(), 159);
    let high = pmm.get_chunk(1).unwrap();
    assert_eq!(high.address(), 0x10_0000);
    assert_eq!(high.num_frames(), 32512);
    assert!(pmm.get_chunk(2).is_none());
    assert_eq!(pmm.total_frames(), 159 + 32512);
    assert_eq!(pmm.free_frames(), 159 + 32512);
}

#[test]
fn allocator_lays_out_headers_and_bitmaps() {
    let pmm = BitmapAllocator::new(&pc_map(), &image()).unwrap();
    let base = 0x20_0000 + MIRROR;
    assert_eq!(pmm.metadata_base(), base);
    assert_eq!(pmm.metadata_size(), 0x20_0000);
    let low = pmm.get_chunk(0).unwrap();
    assert_eq!(low.bitmap_ptr(), base + CHUNK_HEADER_SIZE);
    assert_eq!(low.next(), base + CHUNK_HEADER_SIZE + 20);
    let high = pmm.get_chunk(1).unwrap();
    assert_eq!(high.bitmap_ptr(), base + 2 * CHUNK_HEADER_SIZE + 20);
    assert_eq!(high.next(), 0);
}

#[test]
fn allocator_needs_a_usable_area() {
    let reserved = vec![MemoryRegion { start: 0, end: 0x10_0000, kind: RegionKind::Reserved }];
    assert!(BitmapAllocator::new(&reserved, &image()).is_none());
    assert!(BitmapAllocator::new(&Vec::new(), &image()).is_none());
    let sliver = vec![available(0x1001, 0x2FFF)];
    assert!(BitmapAllocator::new(&sliver, &image()).is_none());
    assert!(BitmapAllocator::init(&reserved, &image()).is_none());
}

#[test]
fn allocator_rejects_areas_out_of_order() {
    let unsorted = vec![available(0x10_0000, 0x20_0000), available(0, 0x8_0000)];
    assert!(BitmapAllocator::new(&unsorted, &image()).is_none());
    let overlapping = vec![available(0, 0x8_0000), available(0x7_0000, 0x20_0000)];
    assert!(BitmapAllocator::new(&overlapping, &image()).is_none());
    let beyond = vec![available(0, 0x20_0000_0000_0000)];
    assert!(BitmapAllocator::new(&beyond, &image()).is_none());
}

#[test]
fn allocations_are_distinct_aligned_and_inside_a_usable_area() {
    let mut pmm = BitmapAllocator::new(&pc_map(), &image()).unwrap();
    let mut seen: Vec<u64> = Vec::new();
    for _ in 0..400 {
        let frame = pmm.allocate_frame().unwrap();
        let address = frame.start_address();
        assert_eq!(frame.size(), PageSize::Size4KiB);
        assert_eq!(address % 4096, 0);
        assert!(address < 0x9_F000 || (0x10_0000..0x800_0000).contains(&address));
        assert!(!seen.contains(&address));
        assert!(pmm.owns(&frame));
        assert!(pmm.is_allocated(&frame));
        seen.push(address);
    }
    assert_eq!(pmm.free_frames(), 159 + 32512 - 400);
}

#[test]
fn allocations_go_through_low_memory_first() {
    let mut pmm = BitmapAllocator::new(&pc_map(), &image()).unwrap();
    for i in 0..159u64 {
        assert_eq!(pmm.allocate_frame().unwrap().start_address(), i * 4096);
    }
    assert_eq!(pmm.allocate_frame().unwrap().start_address(), 0x10_0000);
    assert_eq!(pmm.allocate_frame().unwrap().start_address(), 0x10_1000);
}

#[test]
fn allocate_deallocate_allocate_returns_the_same_frame() {
    let mut pmm = BitmapAllocator::new(&small_map(), &image()).unwrap();
    assert_eq!(pmm.allocate_frame().unwrap().start_address(), 0x1000);
    let second = pmm.allocate_frame().unwrap();
    assert_eq!(second.start_address(), 0x2000);
    pmm.deallocate_frame(second);
    assert!(!pmm.is_allocated(&second));
    assert_eq!(pmm.free_frames(), 4);
    assert_eq!(pmm.allocate_frame().unwrap().start_address(), 0x2000);
}

#[test]
fn deallocated_frame_is_reused_before_higher_ones() {
    let mut pmm = BitmapAllocator::new(&small_map(), &image()).unwrap();
    for _ in 0..4 {
        pmm.allocate_frame().unwrap();
    }
    pmm.deallocate_frame(frame(0x2000));
    pmm.deallocate_frame(frame(0x2000));
    assert_eq!(pmm.free_frames(), 2);
    assert_eq!(pmm.allocate_frame().unwrap().start_address(), 0x2000);
    assert_eq!(pmm.allocate_frame().unwrap().start_address(), 0x5000);
}

#[test]
fn allocator_saturates_after_its_free_frames() {
    let mut pmm = BitmapAllocator::new(&small_map(), &image()).unwrap();
    let free = pmm.free_frames();
    assert_eq!(free, 5);
    for i in 0..free {
        assert_eq!(pmm.allocate_frame().unwrap().start_address(), 0x1000 + i * 4096);
    }
    assert_eq!(pmm.free_frames(), 0);
    assert!(pmm.allocate_frame().is_none());
    assert!(pmm.allocate_frame().is_none());
    assert_eq!(pmm.total_frames(), 5);
}

#[test]
fn allocator_owns_only_frames_of_its_chunks() {
    let pmm = BitmapAllocator::new(&pc_map(), &image()).unwrap();
    assert!(pmm.owns(&frame(0)));
    assert!(pmm.owns(&frame(0x9_E000)));
    assert!(!pmm.owns(&frame(0x9_F000)));
    assert!(!pmm.owns(&frame(0xF_F000)));
    assert!(pmm.owns(&frame(0x10_0000)));
    assert!(pmm.owns(&frame(0x7FF_F000)));
    assert!(!pmm.owns(&frame(0x800_0000)));
    let huge = PhysFrame::from_start_address(0x20_0000, PageSize::Size2MiB).unwrap();
    assert!(!pmm.owns(&huge));
}

#[test]
fn init_keeps_the_kernel_and_the_metadata() {
    let mut pmm = BitmapAllocator::init(&pc_map(), &image()).unwrap();
    assert_eq!(pmm.metadata_size(), 0x20_0000);
    assert_eq!(pmm.total_frames(), 159 + 32512);
    assert_eq!(pmm.free_frames(), 32512 - 768);
    assert!(pmm.is_allocated(&frame(0)));
    assert!(pmm.is_allocated(&frame(0x3F_F000)));
    assert!(!pmm.is_allocated(&frame(0x40_0000)));
    for i in 0..100u64 {
        let address = pmm.allocate_frame().unwrap().start_address();
        assert_eq!(address, 0x40_0000 + i * 4096);
        assert!(address >= 0x20_0000);
    }
}

#[test]
fn reserve_below_marks_only_frames_below_the_limit() {
    let mut pmm = BitmapAllocator::new(&small_map(), &image()).unwrap();
    pmm.reserve_below(0x3001);
    assert!(pmm.is_allocated(&frame(0x1000)));
    assert!(pmm.is_allocated(&frame(0x2000)));
    assert!(pmm.is_allocated(&frame(0x3000)));
    assert!(!pmm.is_allocated(&frame(0x4000)));
    assert_eq!(pmm.free_frames(), 2);
    pmm.reserve_below(0);
    assert_eq!(pmm.free_frames(), 2);
    assert_eq!(pmm.allocate_frame().unwrap().start_address(), 0x4000);
}

#[test]
fn boot_with_one_region_of_128_mib() {
    let map = vec![available(0x10_0000, 0x10_0000 + 128 * 0x10_0000)];
    let low = KernelImage::new(0x1000, 0x8000, MIRROR, 0x4000, 0x1000).unwrap();
    let mut pmm = BitmapAllocator::init(&map, &low).unwrap();
    assert_eq!(pmm.total_frames(), 32768);
    assert_eq!(pmm.free_frames(), 32504);
    assert!(pmm.free_frames() >= 32500);
    assert_eq!(pmm.allocate_frame().unwrap().start_address(), 0x20_8000);
}

#[test]
fn metadata_grows_in_huge_pages() {
    let map = vec![available(0, 68 * 0x4000_0000)];
    let pmm = BitmapAllocator::new(&map, &image()).unwrap();
    assert_eq!(pmm.total_frames(), 68 * 262144);
    assert_eq!(pmm.get_chunk(0).unwrap().bitmap_size(), 68 * 32768);
    assert_eq!(pmm.metadata_size(), 0x40_0000);
    let exact = vec![available(0, 0x10_0000_0000 - 0x100 * 0x8000)];
    let pmm = BitmapAllocator::new(&exact, &image()).unwrap();
    assert_eq!(pmm.get_chunk(0).unwrap().bitmap_size(), 0x20_0000 - 0x100);
    assert_eq!(pmm.metadata_size(), 0x20_0000);
}

#[test]
fn metadata_must_end_inside_the_address_space() {
    let high = KernelImage::new(0, 0x1000, u64::MAX - 0x10_1000, 0, 0).unwrap();
    assert!(BitmapAllocator::new(&small_map(), &high).is_none());
    let fits = KernelImage::new(0, 0x1000, u64::MAX - 0x20_1000, 0, 0).unwrap();
    assert!(BitmapAllocator::new(&small_map(), &fits).is_some());
}
