use kernel::allocator::frame_allocator::{
    allocate_one_frame, deallocate_one_frame, AllocError, FrameAllocator,
};
use kernel::mm::memory::PhysAddr;

const BASE: u64 = 0x8020_0000;

#[test]
fn new_allocator_is_all_free() {
    let allocator = FrameAllocator::new(BASE, 8);
    assert_eq!(allocator.page_allocated, vec![0usize; 8]);
    assert_eq!(allocator.base_addr, BASE);
}

#[test]
fn allocate_is_first_fit_and_marks_run_length() {
    let mut allocator = FrameAllocator::new(BASE, 8);
    let a = allocator.allocate(4096).unwrap();
    assert_eq!(a, PhysAddr::new(BASE));
    let b = allocator.allocate(3 * 4096).unwrap();
    assert_eq!(b, PhysAddr::new(BASE + 4096));
    assert_eq!(allocator.page_allocated, vec![1, 3, 3, 3, 0, 0, 0, 0]);
    // a size that is no multiple of the page size takes the next whole page
    let c = allocator.allocate(4097).unwrap();
    assert_eq!(c, PhysAddr::new(BASE + 4 * 4096));
    assert_eq!(allocator.page_allocated, vec![1, 3, 3, 3, 2, 2, 0, 0]);
}

#[test]
fn allocate_fails_without_a_long_enough_run() {
    let mut allocator = FrameAllocator::new(BASE, 4);
    allocator.allocate(4096).unwrap();
    allocator.allocate(4096).unwrap();
    allocator.deallocate(PhysAddr::new(BASE));
    // free slots: 0, 2, 3; a run of three does not exist
    assert_eq!(allocator.allocate(3 * 4096), Err(AllocError::ENoFrame));
    assert_eq!(allocator.page_allocated, vec![0, 1, 0, 0]);
    // a run of two is found behind the allocated frame
    assert_eq!(allocator.allocate(2 * 4096), Ok(PhysAddr::new(BASE + 2 * 4096)));
    assert_eq!(allocator.allocate(5 * 4096), Err(AllocError::ENoFrame));
}

#[test]
fn allocate_then_deallocate_restores_table() {
    let mut allocator = FrameAllocator::new(BASE, 16);
    allocator.allocate(2 * 4096).unwrap();
    let before = allocator.page_allocated.clone();
    for k in 1..6u64 {
        let pa = allocator.allocate(k * 4096).unwrap();
        allocator.deallocate(pa);
        assert_eq!(allocator.page_allocated, before);
    }
}

#[test]
fn four_frames_are_reused_in_order() {
    let mut allocator = FrameAllocator::new(BASE, 32);
    let first = allocator.allocate(4 * 4096).unwrap();
    let slots: Vec<usize> = allocator.page_allocated.clone();
    allocator.deallocate(first);
    assert!(allocator.page_allocated.iter().all(|s| *s == 0));
    let second = allocator.allocate(4 * 4096).unwrap();
    assert_eq!(first, second);
    assert_eq!(allocator.page_allocated, slots);
    assert_eq!(&allocator.page_allocated[0..4], &[4, 4, 4, 4]);
}

#[test]
fn one_frame_interface() {
    let mut allocator = FrameAllocator::new(BASE, 2);
    let a = allocate_one_frame(&mut allocator).unwrap();
    let b = allocate_one_frame(&mut allocator).unwrap();
    assert_eq!(a.as_usize(), BASE);
    assert_eq!(b.as_usize(), BASE + 4096);
    assert_eq!(allocate_one_frame(&mut allocator), Err(AllocError::ENoFrame));
    deallocate_one_frame(&mut allocator, a);
    assert_eq!(allocator.page_allocated, vec![0, 1]);
    assert_eq!(allocate_one_frame(&mut allocator), Ok(a));
}

#[test]
fn allocated_address_can_be_handed_back_beside_a_run_of_the_same_length() {
    let mut allocator = FrameAllocator::new(BASE, 8);
    let a = allocator.allocate(2 * 4096).unwrap();
    let b = allocator.allocate(2 * 4096).unwrap();
    assert_eq!(allocator.page_allocated, vec![2, 2, 2, 2, 0, 0, 0, 0]);
    allocator.deallocate(b);
    assert_eq!(allocator.page_allocated, vec![2, 2, 0, 0, 0, 0, 0, 0]);
    allocator.deallocate(a);
    assert!(allocator.page_allocated.iter().all(|s| *s == 0));
}
