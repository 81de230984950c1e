use kernel::allocator::frame_allocator::{AllocError, FrameAllocator};
use kernel::mm::address_space::VirtArea;
use kernel::mm::memory::{Frame, FrameGuard, PhysAddr, VirtAddr, VirtFrameGuard};
use kernel::mm::page_table::{PTEFlags, PageFlags, PageTableEntry, PageTableGuard, PageTableNode};

const BASE: u64 = 0x8020_0000;

fn flags(bits: u16) -> PTEFlags {
    PTEFlags::from_bits(bits).unwrap()
}

#[test]
fn test() {
    let pa = PhysAddr::new(12345).align_down();
    let flags = PTEFlags::from_bits_retain(PTEFlags::VALID | PTEFlags::USER);
    let entry = PageTableEntry::new(pa, flags);
    assert_eq!(entry.referencing_address(), pa);
    assert_eq!(entry.flags().bits(), flags.bits());
    assert_eq!(entry.bits, (3 << 10) | 0x11);
    assert_eq!(entry.referencing_frame().number, 3);
    assert!(entry.is_valid());
}

#[test]
fn entry_construction_is_total() {
    // an address beyond 56 bits keeps the low 44 bits of its page number
    let entry = PageTableEntry::new(PhysAddr::new(u64::MAX), flags(0x1ff));
    assert_eq!(entry.bits, ((1u64 << 54) - 1) & !0x200);
    assert_eq!(entry.referencing_address().as_usize(), ((1u64 << 44) - 1) << 12);
    assert_eq!(entry.flags().bits(), 0x1ff);
    let empty = PageTableEntry::empty();
    assert_eq!(empty.bits, 0);
    assert!(!empty.is_valid());
    assert!(empty.flags().is_empty());
    // an unaligned address names its frame
    let e = PageTableEntry::new(PhysAddr::new(0x8000_0abc), flags(PTEFlags::READABLE));
    assert_eq!(e.referencing_address().as_usize(), 0x8000_0000);
    assert!(!e.is_valid());
}

#[test]
fn flag_sets() {
    assert_eq!(PTEFlags::VALID, 1);
    assert_eq!(PTEFlags::READABLE, 2);
    assert_eq!(PTEFlags::WRITABLE, 4);
    assert_eq!(PTEFlags::EXECUTABLE, 8);
    assert_eq!(PTEFlags::USER, 16);
    assert_eq!(PTEFlags::GLOBAL, 32);
    assert_eq!(PTEFlags::ACCESSED, 64);
    assert_eq!(PTEFlags::DIRTY, 128);
    assert_eq!(PTEFlags::COW, 256);
    assert_eq!(PTEFlags::all().bits(), 0x1ff);
    assert_eq!(PTEFlags::from_bits(0x200), None);
    assert_eq!(PTEFlags::from_bits(0x1ff), Some(PTEFlags::all()));
    assert_eq!(PTEFlags::from_bits_truncate(0xffff), PTEFlags::all());
    assert_eq!(PTEFlags::from_bits_retain(0x8001).bits(), 0x8001);
    let rw = flags(PTEFlags::READABLE | PTEFlags::WRITABLE);
    assert!(rw.contains(PTEFlags::READABLE));
    assert!(rw.contains(PTEFlags::READABLE | PTEFlags::WRITABLE));
    assert!(!rw.contains(PTEFlags::EXECUTABLE));
    assert_eq!(rw.union(flags(PTEFlags::VALID)).bits(), 7);
    assert_eq!(rw.intersection(flags(PTEFlags::WRITABLE | PTEFlags::USER)).bits(), 4);
    assert_eq!(rw.difference(flags(PTEFlags::WRITABLE)).bits(), 2);
    assert!(PTEFlags::empty().is_empty());
    let perms = PageFlags::from_bits(PageFlags::READABLE | PageFlags::USER).unwrap();
    assert_eq!(perms.to_pte_flags().bits(), 18);
    assert_eq!(PageFlags::from_pte_flags(flags(7)).bits(), 7);
    assert_eq!(PageFlags::from_bits(1), None);
    assert!(perms.contains(PageFlags::USER));
    assert_eq!(perms.union(PageFlags::from_bits_retain(PageFlags::WRITABLE)).bits(), 22);
    assert_eq!(PageFlags::empty().bits(), 0);
}

#[test]
fn new_table_maps_nothing() {
    let mut allocator = FrameAllocator::new(BASE, 8);
    let table = PageTableGuard::allocate(&mut allocator).unwrap();
    assert_eq!(allocator.page_allocated[0], 1);
    assert_eq!(table.get_root_frame().number, BASE >> 12);
    assert_eq!(table.make_satp(), (8u64 << 60) | (BASE >> 12));
    assert_eq!(table.translate(VirtAddr::new(0)), None);
    assert_eq!(table.translate(VirtAddr::new(0x1000_0000)), None);
    assert!(table.find(VirtAddr::new(0x1000)).is_none());
    let mut none = FrameAllocator::new(BASE, 0);
    assert!(matches!(PageTableGuard::allocate(&mut none), Err(AllocError::ENoFrame)));
}

#[test]
fn mapped_page_translates_with_valid_flag() {
    let mut allocator = FrameAllocator::new(BASE, 8);
    let mut table = PageTableGuard::allocate(&mut allocator).unwrap();
    let va = VirtAddr::new(0x1000_0000);
    let pa = PhysAddr::new(0x1000_0000);
    table.map_one_allocate(&mut allocator, va, pa, flags(6)).unwrap();
    // two nodes were missing
    assert_eq!(allocator.page_allocated, vec![1, 1, 1, 0, 0, 0, 0, 0]);
    assert_eq!(table.translate(va), Some((pa, flags(7))));
    assert_eq!(
        table.translate(VirtAddr::new(0x1000_0abc)),
        Some((PhysAddr::new(0x1000_0abc), flags(7)))
    );
    // a neighbour in the same node has an empty entry, others have none
    assert_eq!(
        table.translate(VirtAddr::new(0x1000_1004)),
        Some((PhysAddr::new(4), PTEFlags::empty()))
    );
    assert_eq!(table.find(VirtAddr::new(0x1000_1000)), Some(PageTableEntry::empty()));
    assert_eq!(table.translate(VirtAddr::new(0x4000_0000)), None);
    // a second page under the same nodes takes no frame
    let va2 = VirtAddr::new(0x1000_1000);
    table.map_one_allocate(&mut allocator, va2, PhysAddr::new(0x8765_4000), flags(10)).unwrap();
    assert_eq!(allocator.page_allocated, vec![1, 1, 1, 0, 0, 0, 0, 0]);
    assert_eq!(table.translate(va2), Some((PhysAddr::new(0x8765_4000), flags(11))));
    // and the first mapping stays
    assert_eq!(table.translate(va), Some((pa, flags(7))));
    // a page under another node of the middle level takes one frame
    table
        .map_one_allocate(&mut allocator, VirtAddr::new(0x1020_0000), PhysAddr::new(0x5000), flags(2))
        .unwrap();
    assert_eq!(allocator.page_allocated, vec![1, 1, 1, 1, 0, 0, 0, 0]);
    assert_eq!(table.translate(VirtAddr::new(0x1020_0000)), Some((PhysAddr::new(0x5000), flags(3))));
    assert_eq!(table.translate(va), Some((pa, flags(7))));
}

#[test]
fn mapping_fails_when_nodes_cannot_be_had() {
    let mut allocator = FrameAllocator::new(BASE, 2);
    let mut table = PageTableGuard::allocate(&mut allocator).unwrap();
    let va = VirtAddr::new(0x2000);
    let r = table.map_one_allocate(&mut allocator, va, PhysAddr::new(0x3000), flags(2));
    assert_eq!(r, Err(AllocError::ENoFrame));
    assert_eq!(allocator.page_allocated, vec![1, 1]);
    assert_eq!(table.translate(va), None);
    // with one frame given back the walk is completed
    let mut larger = FrameAllocator::new(BASE, 3);
    let mut table = PageTableGuard::allocate(&mut larger).unwrap();
    assert_eq!(table.map_one_allocate(&mut larger, va, PhysAddr::new(0x3000), flags(2)), Ok(()));
    assert_eq!(table.translate(va), Some((PhysAddr::new(0x3000), flags(3))));
}

#[test]
fn map_one_needs_the_nodes() {
    let mut allocator = FrameAllocator::new(BASE, 8);
    let mut table = PageTableGuard::allocate(&mut allocator).unwrap();
    assert_eq!(table.map_one(VirtAddr::new(0x5000), PhysAddr::new(0x9000), flags(2)), None);
    table.map_one_allocate(&mut allocator, VirtAddr::new(0x4000), PhysAddr::new(0x8000), flags(2)).unwrap();
    assert_eq!(table.map_one(VirtAddr::new(0x5000), PhysAddr::new(0x9000), flags(4)), Some(()));
    assert_eq!(table.translate(VirtAddr::new(0x5008)), Some((PhysAddr::new(0x9008), flags(5))));
    assert_eq!(allocator.page_allocated, vec![1, 1, 1, 0, 0, 0, 0, 0]);
}

#[test]
fn high_bits_of_an_address_do_not_count() {
    let mut allocator = FrameAllocator::new(BASE, 8);
    let mut table = PageTableGuard::allocate(&mut allocator).unwrap();
    table.map_one_allocate(&mut allocator, VirtAddr::new(0x7000), PhysAddr::new(0xa000), flags(2)).unwrap();
    assert_eq!(
        table.translate(VirtAddr::new((1 << 39) | 0x7010)),
        Some((PhysAddr::new(0xa010), flags(3)))
    );
}

#[test]
fn identity_area_translates_to_itself() {
    let mut allocator = FrameAllocator::new(BASE, 8);
    let mut table = PageTableGuard::allocate(&mut allocator).unwrap();
    let perms = PageFlags::from_bits(PageFlags::READABLE | PageFlags::EXECUTABLE).unwrap();
    let area = VirtArea::identically_mapped(PhysAddr::new(0x8000_0800), PhysAddr::new(0x8000_2001), perms);
    assert_eq!(area.virt_frame_range.get_begin().number, 0x8_0000);
    assert_eq!(area.virt_frame_range.get_end().number, 0x8_0003);
    assert!(!table.verify_virt_area_mapping(&area));
    table.map_virt_area_allocate(&mut allocator, &area).unwrap();
    for page in 0..3u64 {
        let p = 0x8000_0000 + page * 4096;
        assert_eq!(table.translate(VirtAddr::new(p)), Some((PhysAddr::new(p), flags(11))));
    }
    assert_eq!(table.translate(VirtAddr::new(0x8000_3000)), Some((PhysAddr::new(0), PTEFlags::empty())));
    assert!(table.verify_virt_area_mapping(&area));
}

#[test]
fn area_with_backings_maps_its_frames() {
    let mut allocator = FrameAllocator::new(BASE, 8);
    let mut table = PageTableGuard::allocate(&mut allocator).unwrap();
    let perms = PageFlags::from_bits(PageFlags::READABLE | PageFlags::WRITABLE | PageFlags::USER).unwrap();
    let mut area = VirtArea::new(VirtAddr::new(0x1_0000), VirtAddr::new(0x1_2000), perms);
    let owned = FrameGuard::allocate_zeroed(&mut allocator).unwrap();
    let owned_pa = owned.get_frame().get_base_phys_addr();
    area.track_frame(VirtAddr::new(0x1_0000), VirtFrameGuard::ExclusivelyAllocated(owned));
    area.track_frame(VirtAddr::new(0x1_1000), VirtFrameGuard::PhysBorrowed(Frame::from_ppn(0x99)));
    assert_eq!(area.get_virt_frames().len(), 2);
    table.map_virt_area_allocate(&mut allocator, &area).unwrap();
    assert_eq!(table.translate(VirtAddr::new(0x1_0000)), Some((owned_pa, flags(23))));
    assert_eq!(table.translate(VirtAddr::new(0x1_1000)), Some((PhysAddr::new(0x99000), flags(23))));
    assert_eq!(table.translate(VirtAddr::new(0x1_2000)), Some((PhysAddr::new(0), PTEFlags::empty())));
    assert!(table.verify_virt_area_mapping(&area));
    // an area that wants another frame at a mapped page does not verify
    let mut other = VirtArea::new(VirtAddr::new(0x1_0000), VirtAddr::new(0x1_1000), perms);
    other.track_frame(VirtAddr::new(0x1_0000), VirtFrameGuard::PhysBorrowed(Frame::from_ppn(0x77)));
    assert!(!table.verify_virt_area_mapping(&other));
    // nor one that wants other flags
    let mut readonly = VirtArea::new(
        VirtAddr::new(0x1_1000),
        VirtAddr::new(0x1_2000),
        PageFlags::from_bits(PageFlags::READABLE).unwrap(),
    );
    readonly.track_frame(VirtAddr::new(0x1_1000), VirtFrameGuard::PhysBorrowed(Frame::from_ppn(0x99)));
    assert!(!table.verify_virt_area_mapping(&readonly));
    // nor one whose page is not mapped
    let mut unmapped = VirtArea::new(VirtAddr::new(0x1_2000), VirtAddr::new(0x1_3000), perms);
    unmapped.track_frame(VirtAddr::new(0x1_2000), VirtFrameGuard::PhysBorrowed(Frame::from_ppn(0x55)));
    assert!(!table.verify_virt_area_mapping(&unmapped));
}

#[test]
fn area_takes_as_many_frames_as_its_pages_lack_nodes() {
    // pages 510 to 513 lie under two nodes of the lowest level
    let perms = PageFlags::from_bits(PageFlags::READABLE).unwrap();
    let area = VirtArea::identically_mapped(PhysAddr::new(510 * 4096), PhysAddr::new(514 * 4096), perms);
    for frames in 0..4 {
        let mut allocator = FrameAllocator::new(BASE, frames);
        if let Ok(mut table) = PageTableGuard::allocate(&mut allocator) {
            assert_eq!(table.map_virt_area_allocate(&mut allocator, &area), Err(AllocError::ENoFrame));
        }
    }
    let mut allocator = FrameAllocator::new(BASE, 4);
    let mut table = PageTableGuard::allocate(&mut allocator).unwrap();
    assert_eq!(table.get_root_frame().number, BASE >> 12);
    assert_eq!(table.map_virt_area_allocate(&mut allocator, &area), Ok(()));
    assert_eq!(allocator.page_allocated, vec![1, 1, 1, 1]);
    // the root lies where it lay
    assert_eq!(table.get_root_frame().number, BASE >> 12);
    assert_eq!(table.n_nodes(), 4);
}

#[test]
fn lock_clears_and_unlock_sets_the_writable_flag_of_node_pages() {
    let mut allocator = FrameAllocator::new(BASE, 8);
    let mut table = PageTableGuard::allocate(&mut allocator).unwrap();
    let perms = PageFlags::from_bits(PageFlags::READABLE | PageFlags::WRITABLE).unwrap();
    // the window of the allocator, mapped identically
    let heap = VirtArea::identically_mapped(PhysAddr::new(BASE), PhysAddr::new(BASE + 8 * 4096), perms);
    table.map_virt_area_allocate(&mut allocator, &heap).unwrap();
    assert_eq!(allocator.page_allocated, vec![1, 1, 1, 0, 0, 0, 0, 0]);
    table.lock_table();
    for page in 0..8u64 {
        let p = BASE + page * 4096;
        let expected = if page < 3 { 3 } else { 7 };
        assert_eq!(table.translate(VirtAddr::new(p)), Some((PhysAddr::new(p), flags(expected))));
    }
    table.lock_table();
    assert_eq!(table.translate(VirtAddr::new(BASE)), Some((PhysAddr::new(BASE), flags(3))));
    let nodes: Vec<u64> = (0..table.n_nodes()).map(|i| table.node_frame(i).number).collect();
    table.unlock_table();
    for page in 0..8u64 {
        let p = BASE + page * 4096;
        assert_eq!(table.translate(VirtAddr::new(p)), Some((PhysAddr::new(p), flags(7))));
    }
    // the nodes lie in the frames in which they lay
    let after: Vec<u64> = (0..table.n_nodes()).map(|i| table.node_frame(i).number).collect();
    assert_eq!(nodes, after);
}

#[test]
fn node_handle_names_the_frame() {
    let node = PageTableNode::from_frame(&Frame::from_ppn(0x80200));
    assert_eq!(node.base_addr, PhysAddr::new(0x8020_0000));
}
