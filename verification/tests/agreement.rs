use asmos::memory::addr::{round_down, round_up, Page, PageSize, PhysFrame};
use asmos::memory::range::{get_frame_range, get_page_range};
use asmos::memory::virt::{flags_for, HUGE_PAGE, PRESENT, WRITABLE};
use x86_64::structures::paging::{PageTableFlags, Size2MiB, Size4KiB};
use x86_64::{PhysAddr, VirtAddr};

const ADDRESSES: [u64; 12] = [
    0,
    1,
    0xFFF,
    0x1000,
    0x1234,
    0x1F_FFFF,
    0x20_0000,
    0x2A_5000,
    0x7FFF_FFFF_FFFF,
    0xF_FFFF_FFFF_FFFF,
    0xFFFF_8000_0000_0000,
    0xFFFF_C000_0040_0123,
];

#[test]
fn rounding_agrees_with_x86_64() {
    for address in ADDRESSES {
        assert_eq!(round_down(address, PageSize::Size4KiB), x86_64::align_down(address, 4096));
        assert_eq!(round_down(address, PageSize::Size2MiB), x86_64::align_down(address, 0x20_0000));
        assert_eq!(round_up(address, PageSize::Size4KiB), Some(x86_64::align_up(address, 4096)));
        assert_eq!(round_up(address, PageSize::Size2MiB), Some(x86_64::align_up(address, 0x20_0000)));
    }
}

#[test]
fn canonical_form_agrees_with_x86_64() {
    let more = [0x8000_0000_0000, 0xFFFF_FFFF_FFFF, 0x1_0000_0000_0000, 0xFFFF_7FFF_FFFF_FFFF, u64::MAX];
    for address in ADDRESSES.iter().chain(more.iter()) {
        let expected = VirtAddr::try_new(*address).ok().map(|a| a.as_u64());
        assert_eq!(Page::canonical(*address), expected);
    }
}

#[test]
fn pages_agree_with_x86_64() {
    for address in ADDRESSES {
        let Ok(canonical) = VirtAddr::try_new(address) else {
            assert!(Page::containing_address(address, PageSize::Size4KiB).is_none());
            continue;
        };
        let small = x86_64::structures::paging::Page::<Size4KiB>::containing_address(canonical);
        let huge = x86_64::structures::paging::Page::<Size2MiB>::containing_address(canonical);
        assert_eq!(
            Page::containing_address(address, PageSize::Size4KiB).unwrap().start_address(),
            small.start_address().as_u64()
        );
        assert_eq!(
            Page::containing_address(address, PageSize::Size2MiB).unwrap().start_address(),
            huge.start_address().as_u64()
        );
    }
}

#[test]
fn frames_agree_with_x86_64() {
    for address in ADDRESSES {
        let Ok(physical) = PhysAddr::try_new(address) else {
            assert!(PhysFrame::containing_address(address, PageSize::Size4KiB).is_none());
            continue;
        };
        let small = x86_64::structures::paging::PhysFrame::<Size4KiB>::containing_address(physical);
        let huge = x86_64::structures::paging::PhysFrame::<Size2MiB>::containing_address(physical);
        assert_eq!(
            PhysFrame::containing_address(address, PageSize::Size4KiB).unwrap().start_address(),
            small.start_address().as_u64()
        );
        assert_eq!(
            PhysFrame::containing_address(address, PageSize::Size2MiB).unwrap().start_address(),
            huge.start_address().as_u64()
        );
    }
}

#[test]
fn frame_ranges_agree_with_x86_64() {
    let cases = [(0u64, 0x10_0000u64), (0x2A_5000, 0x20_0000), (0x1234, 0x100), (0x1FFF, 0x3002)];
    for (begin, size) in cases {
        let begin_address = PhysAddr::new(begin);
        let end_address = PhysAddr::new(begin + size);
        let first =
            x86_64::structures::paging::PhysFrame::<Size4KiB>::containing_address(begin_address);
        let last =
            x86_64::structures::paging::PhysFrame::<Size4KiB>::containing_address(end_address);
        let expected: Vec<u64> = x86_64::structures::paging::PhysFrame::range(first, last)
            .map(|frame| frame.start_address().as_u64())
            .collect();
        let range = get_frame_range(begin, size, PageSize::Size4KiB).unwrap();
        let found: Vec<u64> =
            (0..range.len()).map(|i| range.get(i).unwrap().start_address()).collect();
        assert_eq!(found, expected);
    }
}

#[test]
fn page_ranges_agree_with_x86_64() {
    let cases = [
        (0xFFFF_C000_0000_0000u64, 0x40_0000u64),
        (0xFFFF_FFFF_8020_0000, 0x60_0000),
        (0xFFFF_8000_0000_0123, 0x40_0000),
        (0x1000, 0x20_0000),
    ];
    for (begin, size) in cases {
        let start = VirtAddr::new(begin);
        let first = x86_64::structures::paging::Page::<Size2MiB>::containing_address(start);
        let last = x86_64::structures::paging::Page::<Size2MiB>::containing_address(start + size);
        let expected: Vec<u64> = x86_64::structures::paging::Page::range(first, last)
            .map(|page| page.start_address().as_u64())
            .collect();
        let range = get_page_range(begin, size, PageSize::Size2MiB).unwrap();
        let found: Vec<u64> =
            (0..range.len()).map(|i| range.get(i).unwrap().start_address()).collect();
        assert_eq!(found, expected);
    }
}

#[test]
fn flags_agree_with_x86_64() {
    assert_eq!(PRESENT, PageTableFlags::PRESENT.bits());
    assert_eq!(WRITABLE, PageTableFlags::WRITABLE.bits());
    assert_eq!(HUGE_PAGE, PageTableFlags::HUGE_PAGE.bits());
    assert_eq!(
        flags_for(PageSize::Size4KiB),
        (PageTableFlags::PRESENT | PageTableFlags::WRITABLE).bits()
    );
    assert_eq!(
        flags_for(PageSize::Size2MiB),
        (PageTableFlags::PRESENT | PageTableFlags::WRITABLE | PageTableFlags::HUGE_PAGE).bits()
    );
}
