use kernel::mm::arithmetics::{
    SimpleRange, StepByOne, ALIGN_DOWN, ALIGN_UP, PA2PPN, PG_ROUND_DOWN, PG_ROUND_UP, PTE2PA,
};
use kernel::mm::memory::{Frame, FrameRange, PhysAddr, VirtAddr, VirtFrame, VirtFrameRange};

#[test]
fn align_up_and_down() {
    assert_eq!(ALIGN_UP(1, 12), 4096);
    assert_eq!(ALIGN_UP(4096, 12), 4096);
    assert_eq!(ALIGN_UP(4097, 12), 8192);
    assert_eq!(ALIGN_UP(0, 12), 0);
    assert_eq!(ALIGN_UP(5, 3), 8);
    assert_eq!(ALIGN_DOWN(4095, 12), 0);
    assert_eq!(ALIGN_DOWN(4096, 12), 4096);
    assert_eq!(ALIGN_DOWN(8191, 12), 4096);
    assert_eq!(ALIGN_DOWN(13, 2), 12);
    assert_eq!(ALIGN_DOWN(7, 0), 7);
}

#[test]
fn page_rounding() {
    assert_eq!(PG_ROUND_DOWN(0x1234), 0x1000);
    assert_eq!(PG_ROUND_DOWN(0x1000), 0x1000);
    assert_eq!(PG_ROUND_UP(0x1234), 0x2000);
    assert_eq!(PG_ROUND_UP(0x1000), 0x1000);
    assert_eq!(PG_ROUND_UP(0), 0);
}

#[test]
fn entry_page_numbers() {
    assert_eq!(PA2PPN(0x8000_0000), 0x8_0000 << 10);
    assert_eq!(PA2PPN(0x8000_0fff), 0x8_0000 << 10);
    assert_eq!(PTE2PA((0x8_0000 << 10) | 0x3ff), 0x8000_0000);
    // bits above the 44 bits of the page number do not count
    assert_eq!(PTE2PA((1u64 << 54) | (5 << 10)), 5 << 12);
    assert_eq!(PTE2PA(PA2PPN(0x1234_5000)), 0x1234_5000);
}

#[test]
fn arithmetics_done_right() {
    let pa = PhysAddr::new(1);
    let pa1 = pa;
    assert_eq!(pa.align_down(), PhysAddr::new(0));
    assert_eq!(pa1.align_up(), PhysAddr::new(4096));
}

#[test]
fn address_arithmetic() {
    let va = VirtAddr::new(0x1_2345);
    assert!(!va.is_page_aligned());
    assert!(VirtAddr::new(0x1_2000).is_page_aligned());
    assert_eq!(va.align_down().as_usize(), 0x1_2000);
    assert_eq!(va.align_up().into_usize(), 0x1_3000);
    assert_eq!(va.get_number(4096), 0x12);
    assert_eq!(va.plus(0x10).as_usize(), 0x1_2355);
    assert_eq!(va.minus(VirtAddr::new(0x1_0000)), 0x2345);
    assert_eq!(va.offset(), 0x345);
    let pa = PhysAddr::new(0x8000_1234);
    assert_eq!(pa.with_offset(0xabc).as_usize(), 0x8000_1abc);
    assert_eq!(pa.with_offset(0x1abc).as_usize(), 0x8000_1abc);
    assert_eq!(pa.plus(4).minus(pa), 4);
    assert_eq!(VirtAddr::from_identical(pa).as_usize(), 0x8000_1234);
}

#[test]
fn pte_indices_are_nine_bits_each() {
    // index 2 = 1, index 1 = 2, index 0 = 3, offset 4
    let va = VirtAddr::new((1 << 30) | (2 << 21) | (3 << 12) | 4);
    assert_eq!(va.pte_index(2), 1);
    assert_eq!(va.pte_index(1), 2);
    assert_eq!(va.pte_index(0), 3);
    assert_eq!(va.offset(), 4);
    let top = VirtAddr::new((1 << 38) - 1);
    assert_eq!(top.pte_index(2), 255);
    assert_eq!(top.pte_index(1), 511);
    assert_eq!(top.pte_index(0), 511);
    assert_eq!(top.offset(), 4095);
}

#[test]
fn frames_and_their_addresses() {
    let frame = Frame::from_phys_addr(PhysAddr::new(0x8000_1234));
    assert_eq!(frame.number, 0x8_0001);
    assert_eq!(frame.get_base_phys_addr().as_usize(), 0x8000_1000);
    assert_eq!(Frame::from_ppn(7).number, 7);
    let v = VirtFrame::from_virt_addr(VirtAddr::new(0x3fff));
    assert_eq!(v.number, 3);
    assert_eq!(v.get_base_virt_addr().as_usize(), 0x3000);
    assert_eq!(VirtFrame::from_identical(frame).number, frame.number);
}

#[test]
fn ranges_walk_step_by_step() {
    let range: FrameRange = SimpleRange::new(Frame::from_ppn(3), Frame::from_ppn(6));
    assert_eq!(range.get_begin().number, 3);
    assert_eq!(range.get_end().number, 6);
    assert_eq!(range.n_pages(), 3);
    let mut it = range.iter();
    let mut seen = Vec::new();
    loop {
        match it.next() {
            Some(frame) => seen.push(frame.number),
            None => break,
        }
    }
    assert_eq!(seen, vec![3, 4, 5]);
    assert_eq!(it.next(), None);
    let virt = VirtFrameRange::from_identical(range);
    assert_eq!(virt.n_pages(), 3);
    assert_eq!(virt.into_iter().next().unwrap().number, 3);
    let empty: FrameRange = SimpleRange::new(Frame::from_ppn(3), Frame::from_ppn(3));
    assert_eq!(empty.iter().next(), None);
    let mut f = Frame::from_ppn(9);
    f.step_one();
    assert_eq!(f.number, 10);
    assert!(f.same_position(&Frame::from_ppn(10)));
}

#[test]
fn frame_guards() {
    use_guards();
}

fn use_guards() {
    let mut allocator = kernel::allocator::frame_allocator::FrameAllocator::new(0x8020_0000, 2);
    let mut guard = kernel::mm::memory::FrameGuard::allocate_zeroed(&mut allocator).unwrap();
    assert_eq!(guard.get_frame().number, 0x8_0200);
    assert_eq!(guard.inner_ref().number, 0x8_0200);
    assert_eq!(guard.inner_ref_mut().number, 0x8_0200);
    guard.release(&mut allocator);
    assert_eq!(allocator.page_allocated, vec![0, 0]);
    let taken = kernel::mm::memory::FrameGuard::from_frame(Frame::from_ppn(5)).take();
    assert_eq!(taken, Frame::from_ppn(5));
    let second = kernel::mm::memory::FrameGuard::allocate_zeroed(&mut allocator).unwrap();
    let third = kernel::mm::memory::FrameGuard::allocate_zeroed(&mut allocator).unwrap();
    assert_eq!((second.get_frame().number, third.get_frame().number), (0x8_0200, 0x8_0201));
    assert!(kernel::mm::memory::FrameGuard::allocate_zeroed(&mut allocator).is_err());
}

#[test]
fn conversions() {
    let frame: Frame = PhysAddr::new(0x8000_1fff).into();
    assert_eq!(frame.number, 0x8_0001);
    let guard: kernel::mm::memory::FrameGuard = frame.into();
    assert_eq!(guard.get_frame(), frame);
    let perms = kernel::mm::page_table::PageFlags::from_bits_retain(6);
    let flags: kernel::mm::page_table::PTEFlags = perms.into();
    assert_eq!(flags.bits(), 6);
    let back: kernel::mm::page_table::PageFlags = flags.into();
    assert_eq!(back, perms);
    let entry = kernel::mm::page_table::PageTableEntry::new(PhysAddr::new(0x8000_1000), flags);
    let named: Frame = entry.into();
    assert_eq!(named, frame);
}
