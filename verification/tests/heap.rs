use asmos::allocator::{align_up, init};
use asmos::allocator::pool::{PoolAllocator, Release};
use core::mem::MaybeUninit;

fn memory(size: usize) -> &'static mut [MaybeUninit<u8>] {
    Box::leak(vec![MaybeUninit::<u8>::uninit(); size].into_boxed_slice())
}

fn pool() -> PoolAllocator {
    let mut pool = PoolAllocator::new();
    assert!(pool.init(memory(0x40_0000)));
    pool
}

fn disjoint(a: usize, a_len: usize, b: usize, b_len: usize) -> bool {
    a + a_len <= b || b + b_len <= a
}

#[test]
fn pool_without_memory_serves_nothing() {
    let mut pool = PoolAllocator::new();
    assert_eq!(pool.heap_bottom(), 0);
    assert_eq!(pool.heap_top(), 0);
    assert_eq!(pool.allocate(16, 16), None);
    assert_eq!(pool.allocate(5000, 8), None);
    assert_eq!(pool.fallback_alloc(16, 16), None);
}

#[test]
fn pool_takes_its_memory_once() {
    let mut pool = PoolAllocator::new();
    assert!(!pool.init(memory(8)));
    assert_eq!(pool.heap_bottom(), 0);
    assert!(pool.init(memory(4096)));
    let bottom = pool.heap_bottom();
    let top = pool.heap_top();
    assert!(bottom != 0);
    assert!(bottom < top);
    assert_eq!(bottom % 8, 0);
    assert!(top - bottom <= 4096);
    assert!(top - bottom > 4096 - 8);
    assert!(!pool.init(memory(4096)));
    assert_eq!(pool.heap_bottom(), bottom);
    assert_eq!(pool.heap_top(), top);
}

#[test]
fn allocator_init_reports_whether_the_memory_was_taken() {
    let mut pool = PoolAllocator::new();
    assert_eq!(init(&mut pool, memory(8)), Err(()));
    assert_eq!(init(&mut pool, memory(0x1_0000)), Ok(()));
    assert_eq!(init(&mut pool, memory(0x1_0000)), Err(()));
    assert!(pool.allocate(16, 16).is_some());
}

#[test]
fn first_allocation_is_aligned_and_inside_the_heap() {
    let mut pool = pool();
    let block = pool.allocate(16, 16).unwrap();
    assert_eq!(block % 16, 0);
    assert!(pool.heap_bottom() <= block);
    assert!(block + 16 <= pool.heap_top());
}

#[test]
fn block_sizes_double_from_8_to_4096() {
    let expected = [8, 16, 32, 64, 128, 256, 512, 1024, 2048, 4096];
    for (index, size) in expected.iter().enumerate() {
        assert_eq!(PoolAllocator::block_size(index), *size);
    }
}

#[test]
fn list_index_picks_the_smallest_class_that_fits() {
    assert_eq!(PoolAllocator::list_index(0, 1), Some(0));
    assert_eq!(PoolAllocator::list_index(1, 1), Some(0));
    assert_eq!(PoolAllocator::list_index(8, 8), Some(0));
    assert_eq!(PoolAllocator::list_index(9, 1), Some(1));
    assert_eq!(PoolAllocator::list_index(16, 32), Some(2));
    assert_eq!(PoolAllocator::list_index(33, 8), Some(3));
    assert_eq!(PoolAllocator::list_index(1, 4096), Some(9));
    assert_eq!(PoolAllocator::list_index(4096, 1), Some(9));
    assert_eq!(PoolAllocator::list_index(4097, 1), None);
    assert_eq!(PoolAllocator::list_index(8, 8192), None);
}

#[test]
fn layouts_need_a_power_of_two() {
    assert!(PoolAllocator::is_layout(0, 1));
    assert!(PoolAllocator::is_layout(24, 8));
    assert!(!PoolAllocator::is_layout(24, 0));
    assert!(!PoolAllocator::is_layout(24, 3));
    assert!(!PoolAllocator::is_layout(24, 24));
    assert!(PoolAllocator::is_layout(isize::MAX as usize, 1));
    assert!(!PoolAllocator::is_layout(isize::MAX as usize, 2));
    assert!(!PoolAllocator::is_layout(usize::MAX, 1));
}

#[test]
fn requests_without_a_layout_are_refused() {
    let mut pool = pool();
    assert_eq!(pool.allocate(8, 3), None);
    assert_eq!(pool.allocate(8, 0), None);
    assert_eq!(pool.allocate(usize::MAX, 8), None);
    assert_eq!(pool.deallocate(0x1000, 8, 3), Release::Invalid);
    assert_eq!(pool.pooled_blocks(0), 0);
}

#[test]
fn small_requests_are_aligned_and_disjoint() {
    let mut pool = pool();
    let requests = [(1, 1), (8, 8), (24, 8), (100, 4), (16, 64), (2048, 2048), (4000, 32), (1, 2048)];
    let mut live: Vec<(usize, usize)> = Vec::new();
    for round in 0..3 {
        for (size, align) in requests.iter() {
            assert!(*size + *align <= 4096);
            let block = pool.allocate(*size, *align).unwrap();
            assert_eq!(block % *align, 0, "round {}", round);
            for (other, other_size) in live.iter() {
                assert!(disjoint(block, *size, *other, *other_size));
            }
            live.push((block, *size));
        }
    }
}

#[test]
fn pooled_block_is_aligned_to_its_class() {
    let mut pool = pool();
    let block = pool.allocate(100, 4).unwrap();
    assert_eq!(block % 128, 0);
    let block = pool.allocate(3, 1).unwrap();
    assert_eq!(block % 8, 0);
}

#[test]
fn freed_block_is_served_again() {
    let mut pool = pool();
    let first = pool.allocate(64, 8).unwrap();
    assert_eq!(pool.pooled_blocks(3), 0);
    assert_eq!(pool.deallocate(first, 64, 8), Release::Pooled);
    assert_eq!(pool.pooled_blocks(3), 1);
    assert_eq!(pool.allocate(64, 8), Some(first));
    assert_eq!(pool.pooled_blocks(3), 0);
}

#[test]
fn freed_blocks_come_back_last_in_first_out() {
    let mut pool = pool();
    let a = pool.allocate(32, 32).unwrap();
    let b = pool.allocate(32, 32).unwrap();
    let c = pool.allocate(32, 32).unwrap();
    pool.deallocate(a, 32, 32);
    pool.deallocate(b, 32, 32);
    pool.deallocate(c, 32, 32);
    assert_eq!(pool.allocate(20, 4), Some(c));
    assert_eq!(pool.allocate(32, 1), Some(b));
    assert_eq!(pool.allocate(17, 32), Some(a));
}

#[test]
fn pools_of_different_classes_are_apart() {
    let mut pool = pool();
    let small = pool.allocate(8, 8).unwrap();
    pool.deallocate(small, 8, 8);
    let large = pool.allocate(16, 8).unwrap();
    assert!(large != small);
    assert_eq!(pool.pooled_blocks(0), 1);
    assert_eq!(pool.allocate(8, 8), Some(small));
}

#[test]
fn fallback_serves_5000_bytes() {
    let mut pool = pool();
    let block = pool.allocate(5000, 8).unwrap();
    assert_eq!(block % 8, 0);
    assert!(pool.heap_bottom() <= block);
    assert!(block + 5000 <= pool.heap_top());
    assert_eq!(pool.deallocate(block, 5000, 8), Release::Fallback);
    for index in 0..10 {
        assert_eq!(pool.pooled_blocks(index), 0);
    }
}

#[test]
fn fallback_fails_when_the_heap_is_too_small() {
    let mut pool = PoolAllocator::new();
    assert!(pool.init(memory(4096)));
    assert_eq!(pool.allocate(5000, 8), None);
    assert!(pool.allocate(1024, 8).is_some());
}

#[test]
fn thousand_blocks_are_reused_as_a_whole() {
    let mut pool = pool();
    let mut first: Vec<usize> = Vec::new();
    for _ in 0..1000 {
        let block = pool.allocate(64, 64).unwrap();
        assert_eq!(block % 64, 0);
        first.push(block);
    }
    let mut sorted = first.clone();
    sorted.sort();
    for pair in sorted.windows(2) {
        assert!(pair[0] + 64 <= pair[1]);
    }
    for block in first.iter() {
        assert_eq!(pool.deallocate(*block, 64, 64), Release::Pooled);
    }
    assert_eq!(pool.pooled_blocks(3), 1000);
    let mut second: Vec<usize> = Vec::new();
    for _ in 0..1000 {
        second.push(pool.allocate(64, 64).unwrap());
    }
    assert_eq!(pool.pooled_blocks(3), 0);
    second.sort();
    assert_eq!(sorted, second);
}

#[test]
fn large_block_is_apart_from_pooled_blocks() {
    let mut pool = pool();
    let mut served: Vec<(usize, usize)> = Vec::new();
    for size in [8usize, 64, 512, 4096] {
        for _ in 0..4 {
            served.push((pool.allocate(size, 8).unwrap(), size));
        }
    }
    let large = pool.allocate(8192, 8).unwrap();
    assert_eq!(PoolAllocator::list_index(8192, 8), None);
    for (block, size) in served.iter() {
        assert!(disjoint(large, 8192, *block, *size));
    }
    assert_eq!(pool.deallocate(large, 8192, 8), Release::Fallback);
}

#[test]
fn fallback_heap_can_be_reached() {
    let mut pool = pool();
    let bottom = pool.heap_bottom();
    let heap = pool.fallback_allocator();
    assert_eq!(heap.bottom() as usize, bottom);
    assert_eq!(heap.used(), 0);
}

#[test]
fn fallback_refuses_requests_without_a_layout() {
    let mut pool = pool();
    assert_eq!(pool.fallback_alloc(8, 3), None);
    assert_eq!(pool.fallback_alloc(8, 0), None);
    assert_eq!(pool.fallback_alloc(usize::MAX, 8), None);
    let block = pool.fallback_alloc(24, 8).unwrap();
    assert_eq!(block % 8, 0);
    assert!(pool.heap_bottom() <= block);
    assert!(block + 24 <= pool.heap_top());
}

#[test]
fn alignments_past_the_heap_serve_nothing() {
    let mut pool = pool();
    assert_eq!(pool.fallback_alloc(8, 1 << 47), None);
    assert_eq!(pool.allocate(8, 1 << 47), None);
    assert_eq!(pool.allocate(0, 1 << 63), None);
    assert_eq!(pool.fallback_alloc(0, 1 << 63), None);
    assert_eq!(pool.allocate(16, 1 << 62), None);
    let block = pool.allocate(16, 16).unwrap();
    assert_eq!(block % 16, 0);
    assert!(pool.heap_bottom() <= block && block + 16 <= pool.heap_top());
}

#[test]
fn request_larger_than_the_heap_is_refused() {
    let mut pool = pool();
    assert_eq!(pool.allocate(0x80_0000, 8), None);
    for index in 0..10 {
        assert_eq!(pool.pooled_blocks(index), 0);
    }
    assert!(pool.allocate(0x20_0000, 8).is_some());
}

#[test]
fn pooled_blocks_lie_in_the_heap() {
    let mut pool = pool();
    let bottom = pool.heap_bottom();
    let top = pool.heap_top();
    for (index, size) in [8usize, 16, 32, 64, 128, 256, 512, 1024, 2048, 4096].iter().enumerate() {
        let block = pool.allocate(*size, 1).unwrap();
        assert!(bottom <= block && block + size <= top);
        assert_eq!(pool.deallocate(block, *size, 1), Release::Pooled);
        assert_eq!(pool.pooled_blocks(index), 1);
        let again = pool.allocate(*size, 1).unwrap();
        assert_eq!(again, block);
        assert!(bottom <= again && again + size <= top);
    }
}

fn small_pool(size: usize) -> PoolAllocator {
    let mut pool = PoolAllocator::new();
    assert!(pool.init(memory(size)));
    pool
}

#[test]
fn align_up_gives_the_next_multiple() {
    assert_eq!(align_up(0, 8), 0);
    assert_eq!(align_up(1, 8), 8);
    assert_eq!(align_up(8, 8), 8);
    assert_eq!(align_up(9, 8), 16);
    assert_eq!(align_up(0x1234, 0x1000), 0x2000);
    assert_eq!(align_up(0x1234, 1), 0x1234);
    assert_eq!(align_up(usize::MAX - 7, 8), usize::MAX - 7);
    assert_eq!(align_up(1, 1 << 63), 1 << 63);
}

#[test]
fn fresh_heap_serves_from_its_bottom() {
    let mut pool = pool();
    let bottom = pool.heap_bottom();
    assert_eq!(pool.fallback_alloc(5000, 8), Some(bottom));
    assert_eq!(pool.fallback_alloc(8192, 8), Some(bottom + 5000));
    assert_eq!(pool.fallback_alloc(24, 8), Some(bottom + 13192));
    assert_eq!(pool.fallback_alloc(1, 1), Some(bottom + 13216));
    assert_eq!(pool.fallback_alloc(17, 2), Some(bottom + 13232));
    assert_eq!(pool.fallback_alloc(0, 4), Some(bottom + 13256));
    assert_eq!(pool.fallback_alloc(3, 8), Some(bottom + 13272));
}

fn serves(room: usize, taken: usize) -> bool {
    room >= taken && (room - taken == 0 || room - taken >= 16)
}

#[test]
fn heap_leaves_a_hole_before_an_aligned_block() {
    let mut pool = pool();
    let bottom = pool.heap_bottom();
    let start = if bottom % 4096 == 0 { bottom } else { align_up(bottom + 16, 4096) };
    assert_eq!(pool.fallback_alloc(64, 4096), Some(start));
    let front = start - bottom;
    let behind = start + 64;
    let (second, left) = if serves(front, 48) { (bottom, front - 48) } else { (behind, front) };
    assert_eq!(pool.fallback_alloc(48, 8), Some(second));
    let third = if second == bottom {
        if serves(left, 48) { bottom + 48 } else { behind }
    } else {
        behind + 48
    };
    assert_eq!(pool.fallback_alloc(48, 8), Some(third));
}

#[test]
fn heap_serves_a_hole_as_a_whole_or_leaves_two_words() {
    let mut whole = small_pool(4096);
    let bottom = whole.heap_bottom();
    let room = (whole.heap_top() - bottom) / 8 * 8;
    assert_eq!(whole.fallback_alloc(room + 8, 8), None);
    assert_eq!(whole.fallback_alloc(room - 8, 8), None);
    assert_eq!(whole.fallback_alloc(room, 8), Some(bottom));
    assert_eq!(whole.fallback_alloc(1, 1), None);

    let mut rest = small_pool(4096);
    let bottom = rest.heap_bottom();
    let room = (rest.heap_top() - bottom) / 8 * 8;
    assert_eq!(rest.fallback_alloc(room - 16, 8), Some(bottom));
    assert_eq!(rest.fallback_alloc(17, 8), None);
    assert_eq!(rest.fallback_alloc(16, 8), Some(bottom + room - 16));
    assert_eq!(rest.fallback_alloc(1, 1), None);
}

#[test]
fn first_block_of_a_class_is_cut_from_the_first_hole_that_fits() {
    let mut pool = pool();
    let bottom = pool.heap_bottom();
    let start = if bottom % 16 == 0 { bottom } else { align_up(bottom + 16, 16) };
    assert_eq!(pool.allocate(16, 16), Some(start));
    let next = pool.allocate(9, 1).unwrap();
    assert_eq!(next, start + 16);
    let large = pool.allocate(8192, 8).unwrap();
    assert_eq!(large, start + 32);
}
