use kernel::allocator::frame_allocator::{AllocError, FrameAllocator};
use kernel::mm::address_space::{AddrSpace, VirtArea};
use kernel::mm::hart_init;
use kernel::mm::layout::{
    KernelSections, CLINT_BASE, MAX_VA, PAGE_SIZE, PLIC_BASE, TEXT_BASE_USER_VA,
    TRAMPOLINE_BASE_VA, TRAPFRAME_BASE_USER_VA, UART_BASE, VIRTIO_BASE,
};
use kernel::mm::memory::{PhysAddr, VirtAddr, VirtFrameGuard};
use kernel::mm::page_table::PageFlags;

const HEAP_START: u64 = 0x8002_0000;
const HEAP_PAGES: usize = 256;

fn sections() -> KernelSections {
    KernelSections {
        text_start: 0x8000_0000,
        text_end: 0x8000_8000,
        rodata_start: 0x8000_8000,
        rodata_end: 0x8000_a000,
        data_start: 0x8000_a000,
        data_end: 0x8000_b000,
        bss_start: 0x8000_b000,
        bss_end: 0x8001_0000,
        kernel_stack_start: 0x8001_0000,
        kernel_stack_end: 0x8002_0000,
        heap_start: HEAP_START,
        heap_end: HEAP_START + (HEAP_PAGES as u64) * PAGE_SIZE,
        trampoline_start: 0x8000_1000,
    }
}

fn perms(bits: u16) -> PageFlags {
    PageFlags::from_bits_retain(bits)
}

#[test]
fn layout_constants() {
    assert_eq!(MAX_VA, 1 << 38);
    assert_eq!(TRAMPOLINE_BASE_VA, (1 << 38) - 4096);
    assert_eq!(TRAPFRAME_BASE_USER_VA, (1 << 38) - 3 * 4096);
    assert_eq!(TEXT_BASE_USER_VA, 0x1_0000);
    assert_eq!(UART_BASE, 0x1000_0000);
    assert_eq!(VIRTIO_BASE, 0x1000_1000);
    assert_eq!(PLIC_BASE, 0x0c00_0000);
    assert_eq!(CLINT_BASE, 0x0200_0000);
}

#[test]
fn kernel_space_maps_the_uart() {
    let mut allocator = FrameAllocator::new(HEAP_START, HEAP_PAGES);
    let kernel = AddrSpace::make_kernel(&mut allocator, &sections()).unwrap();
    let paging = hart_init(&kernel);
    assert_eq!(paging.root_ppn, HEAP_START >> 12);
    assert_eq!(paging.sscratch, TRAPFRAME_BASE_USER_VA);
    assert_eq!(kernel.make_satp(), (8 << 60) | (HEAP_START >> 12));
    assert_eq!(kernel.get_root_frame().number, HEAP_START >> 12);
    assert_eq!(
        kernel.translate(VirtAddr::new(0x1000_0000)),
        Some((PhysAddr::new(0x1000_0000), perms(7)))
    );
}

#[test]
fn kernel_space_verifies_and_maps_sections_with_their_flags() {
    let mut allocator = FrameAllocator::new(HEAP_START, HEAP_PAGES);
    let kernel = AddrSpace::make_kernel(&mut allocator, &sections()).unwrap();
    assert!(kernel.verify());
    assert_eq!(kernel.n_areas(), 11);
    let names: Vec<&str> = (0..11).map(|i| kernel.area(i).name.as_str()).collect();
    assert_eq!(
        names,
        vec![
            "trampoline",
            "heap",
            "kernel boot stack",
            ".bss (+kernel heap)",
            ".data",
            ".rodata",
            ".text",
            "virtio",
            "uart",
            "plic",
            "clint"
        ]
    );
    let same = |a: u64, bits: u16| {
        assert_eq!(kernel.translate(VirtAddr::new(a)), Some((PhysAddr::new(a), perms(bits))), "{a:#x}");
    };
    same(0x8000_0000, 11); // .text: R|X|V
    same(0x8000_7ffc, 11);
    same(0x8000_8000, 3); // .rodata: R|V
    same(0x8000_a010, 7); // .data
    same(0x8000_b000, 7); // .bss
    same(0x8001_0000, 7); // boot stack
    same(HEAP_START, 7);
    same(HEAP_START + 255 * 4096 + 4095, 7);
    same(VIRTIO_BASE, 7);
    same(PLIC_BASE, 7);
    same(PLIC_BASE + 0x3f_ffff, 7);
    same(CLINT_BASE + 0xbff8, 7);
    // the trampoline is reached at the top of the address space only
    assert_eq!(
        kernel.translate(VirtAddr::new(TRAMPOLINE_BASE_VA + 8)),
        Some((PhysAddr::new(0x8000_1008), perms(11)))
    );
    // what lies outside the sections is not mapped
    let beyond = kernel.translate(VirtAddr::new(HEAP_START + 256 * 4096));
    assert!(beyond.is_none() || beyond.unwrap().1.bits() & 1 == 0);
    assert_eq!(kernel.translate(VirtAddr::new(0x4000_0000)), None);
}

#[test]
fn kernel_space_needs_frames() {
    let mut allocator = FrameAllocator::new(HEAP_START, 3);
    assert!(matches!(AddrSpace::make_kernel(&mut allocator, &sections()), Err(AllocError::ENoFrame)));
    assert!(allocator.page_allocated.iter().all(|s| *s == 1));
}

#[test]
fn init_space_maps_text_stack_trampoline_and_later_the_trapframe() {
    let mut allocator = FrameAllocator::new(HEAP_START, HEAP_PAGES);
    let text_pa = PhysAddr::new(0x8000_4000);
    let trampoline = PhysAddr::new(0x8000_1000);
    let mut space = AddrSpace::make_init(&mut allocator, trampoline, text_pa, 5000).unwrap();
    assert!(space.verify());
    assert_eq!(space.n_areas(), 3);
    // the first frame went to the user stack, the next to the root
    assert_eq!(space.get_root_frame().number, (HEAP_START >> 12) + 1);
    // R|X|U|V for the text
    assert_eq!(space.translate(VirtAddr::new(TEXT_BASE_USER_VA)), Some((text_pa, perms(27))));
    // every page of the text is backed, by the frames that follow the first
    assert_eq!(
        space.translate(VirtAddr::new(TEXT_BASE_USER_VA + 4096 + 8)),
        Some((PhysAddr::new(0x8000_5008), perms(27)))
    );
    // the text takes two pages; right above them lies the stack: R|W|U|V
    assert_eq!(
        space.translate(VirtAddr::new(TEXT_BASE_USER_VA + 2 * 4096)),
        Some((PhysAddr::new(HEAP_START), perms(23)))
    );
    // the page above the stack is not mapped
    let above = space.translate(VirtAddr::new(TEXT_BASE_USER_VA + 3 * 4096)).unwrap();
    assert_eq!(above.1.bits() & 1, 0);
    assert_eq!(space.area(1).virt_frame_range.get_begin().number, 18);
    assert_eq!(space.area(2).virt_frame_range.get_end().number, 18);
    assert_eq!(space.area(2).virt_frames.len(), 2);
    assert_eq!(
        space.translate(VirtAddr::new(TRAMPOLINE_BASE_VA)),
        Some((trampoline, perms(11)))
    );
    // no trapframe yet
    let none = space.translate(VirtAddr::new(TRAPFRAME_BASE_USER_VA));
    assert!(none.is_none() || none.unwrap().1.bits() & 1 == 0);
    let trapframe_pa = space.init_trapframe(&mut allocator).unwrap();
    assert!(trapframe_pa.is_page_aligned());
    assert_eq!(space.n_areas(), 4);
    assert_eq!(space.area(3).name, "trapframe");
    // R|W|V, not for user mode
    assert_eq!(
        space.translate(VirtAddr::new(TRAPFRAME_BASE_USER_VA)),
        Some((trapframe_pa, perms(7)))
    );
    assert!(space.verify());
    // what was mapped before stays
    assert_eq!(space.translate(VirtAddr::new(TEXT_BASE_USER_VA)), Some((text_pa, perms(27))));
}

#[test]
fn trampoline_is_at_the_same_address_in_every_space() {
    let mut allocator = FrameAllocator::new(HEAP_START, HEAP_PAGES);
    let kernel = AddrSpace::make_kernel(&mut allocator, &sections()).unwrap();
    let user = AddrSpace::make_init(
        &mut allocator,
        PhysAddr::new(sections().trampoline_start),
        PhysAddr::new(0x8000_5000),
        100,
    )
    .unwrap();
    assert_eq!(
        kernel.translate(VirtAddr::new(TRAMPOLINE_BASE_VA)),
        user.translate(VirtAddr::new(TRAMPOLINE_BASE_VA))
    );
    // the user space maps nothing of the kernel image identically
    assert_eq!(user.translate(VirtAddr::new(0x8000_0000)), None);
}

#[test]
fn locked_kernel_space_has_read_only_node_pages() {
    let mut allocator = FrameAllocator::new(HEAP_START, HEAP_PAGES);
    let mut kernel = AddrSpace::make_kernel(&mut allocator, &sections()).unwrap();
    let nodes: Vec<u64> = allocator
        .page_allocated
        .iter()
        .enumerate()
        .filter(|(_, s)| **s == 1)
        .map(|(i, _)| HEAP_START + (i as u64) * 4096)
        .collect();
    assert!(nodes.len() >= 3);
    kernel.lock_space();
    for node in &nodes {
        assert_eq!(
            kernel.translate(VirtAddr::new(*node)),
            Some((PhysAddr::new(*node), perms(3)))
        );
    }
    // a frame of the heap that holds no node stays writable
    let free = HEAP_START + 255 * 4096;
    assert_eq!(kernel.translate(VirtAddr::new(free)), Some((PhysAddr::new(free), perms(7))));
    kernel.unlock_space();
    for node in &nodes {
        assert_eq!(
            kernel.translate(VirtAddr::new(*node)),
            Some((PhysAddr::new(*node), perms(7)))
        );
    }
    assert!(kernel.verify());
}

#[test]
fn area_constructors() {
    let mut allocator = FrameAllocator::new(HEAP_START, 4);
    let trampoline = VirtArea::make_trampoline(PhysAddr::new(0x8000_1abc));
    assert_eq!(trampoline.virt_frame_range.get_begin().number, (TRAMPOLINE_BASE_VA >> 12));
    assert_eq!(trampoline.virt_frame_range.n_pages(), 1);
    assert_eq!(trampoline.permissions().bits(), 10);
    assert!(!trampoline.is_identically_mapped);
    assert!(matches!(
        trampoline.virt_frames.get(&TRAMPOLINE_BASE_VA),
        Some(VirtFrameGuard::PhysBorrowed(frame)) if frame.number == 0x8_0001
    ));
    assert_eq!(trampoline.virt_frames.get(&TRAMPOLINE_BASE_VA).unwrap().as_usize(), 0x8000_1000);
    assert_eq!(
        trampoline.print_info(),
        (MAX_VA, TRAMPOLINE_BASE_VA, perms(10), &"trampoline".to_string())
    );
    let (trapframe, pa) = VirtArea::make_trapframe(&mut allocator).unwrap();
    assert_eq!(pa, PhysAddr::new(HEAP_START));
    assert_eq!(trapframe.virt_frame_range.get_begin().number, TRAPFRAME_BASE_USER_VA >> 12);
    assert_eq!(trapframe.virt_frame_range.n_pages(), 1);
    assert_eq!(trapframe.permissions().bits(), 6);
    assert_eq!(trapframe.name, "trapframe");
    assert!(matches!(
        trapframe.virt_frames.get(&TRAPFRAME_BASE_USER_VA),
        Some(VirtFrameGuard::ExclusivelyAllocated(_))
    ));
    let (stack, stack_pa) =
        VirtArea::make_initial_user_stack(&mut allocator, VirtAddr::new(0x2_0000)).unwrap();
    assert_eq!(stack_pa, PhysAddr::new(HEAP_START + 4096));
    assert_eq!(stack.virt_frame_range.get_begin().number, 0x20);
    assert_eq!(stack.virt_frame_range.get_end().number, 0x21);
    assert_eq!(stack.permissions().bits(), 22);
    assert_eq!(stack.name, "user stack");
    let identity = VirtArea::identically_mapped(PhysAddr::new(0x1000), PhysAddr::new(0x3000), perms(2));
    assert!(identity.is_identically_mapped);
    assert!(identity.virt_frames.is_empty());
    assert_eq!(identity.virt_frame_range.n_pages(), 2);
    let mut allocator = FrameAllocator::new(HEAP_START, 0);
    assert!(matches!(VirtArea::make_trapframe(&mut allocator), Err(AllocError::ENoFrame)));
}

#[test]
fn sections_are_checked() {
    assert!(sections().is_valid());
    let mut overlapping = sections();
    overlapping.data_end = 0x8000_b001; // reaches into the first page of .bss
    assert!(!overlapping.is_valid());
    let mut backwards = sections();
    backwards.text_end = 0x7fff_f000;
    assert!(!backwards.is_valid());
    let mut too_high = sections();
    too_high.heap_end = 0x40_0000_0000;
    assert!(!too_high.is_valid());
    let mut on_the_uart = sections();
    on_the_uart.rodata_start = 0x1000_0800;
    on_the_uart.rodata_end = 0x1000_0900;
    assert!(!on_the_uart.is_valid());
    let mut far_trampoline = sections();
    far_trampoline.trampoline_start = 1 << 56;
    assert!(!far_trampoline.is_valid());
    // sections that end where the next begins share no page when they are aligned
    let mut empty_section = sections();
    empty_section.data_start = empty_section.data_end;
    assert!(empty_section.is_valid());
}

#[test]
fn kernel_space_gives_its_frames_back() {
    let mut allocator = FrameAllocator::new(HEAP_START, HEAP_PAGES);
    let user_frame = allocator.allocate(4096).unwrap();
    let kernel = AddrSpace::make_kernel(&mut allocator, &sections()).unwrap();
    assert!(kernel.is_owned_by(&allocator));
    assert!(kernel.can_lock());
    let nodes = kernel.get_page_table().n_nodes();
    assert_eq!(allocator.page_allocated.iter().filter(|s| **s == 1).count(), nodes + 1);
    let other = FrameAllocator::new(HEAP_START, HEAP_PAGES);
    assert!(!kernel.is_owned_by(&other));
    let areas = kernel.release(&mut allocator);
    assert_eq!(areas.len(), 11);
    assert_eq!(allocator.page_allocated.iter().filter(|s| **s != 0).count(), 1);
    assert_eq!(allocator.page_allocated[0], 1);
    allocator.deallocate(user_frame);
    assert!(allocator.page_allocated.iter().all(|s| *s == 0));
}

#[test]
fn user_space_gives_its_frames_back() {
    let mut allocator = FrameAllocator::new(HEAP_START, 16);
    let mut space =
        AddrSpace::make_init(&mut allocator, PhysAddr::new(0x8000_1000), PhysAddr::new(0x8000_4000), 10)
            .unwrap();
    space.init_trapframe(&mut allocator).unwrap();
    // a user space does not map the nodes of its page table
    assert!(!space.can_lock());
    let in_use = allocator.page_allocated.iter().filter(|s| **s == 1).count();
    assert_eq!(in_use, 7);
    let areas = space.release(&mut allocator);
    // the stack and the trapframe are still held by their areas
    assert_eq!(allocator.page_allocated.iter().filter(|s| **s == 1).count(), 2);
    for area in areas {
        area.release(&mut allocator);
    }
    assert!(allocator.page_allocated.iter().all(|s| *s == 0));
}

#[test]
fn page_table_nodes_can_be_read_out() {
    let mut allocator = FrameAllocator::new(HEAP_START, 16);
    let space =
        AddrSpace::make_init(&mut allocator, PhysAddr::new(0x8000_1000), PhysAddr::new(0x8000_4000), 10)
            .unwrap();
    let table = space.get_page_table();
    assert_eq!(table.n_nodes(), 5);
    assert_eq!(table.node_frame(0).number, space.get_root_frame().number);
    let root = table.node_entries(0);
    assert_eq!(root.len(), 512);
    // the root leads to a node for the low end and to one for the high end
    let valid: Vec<usize> = (0..512).filter(|k| root[*k].is_valid()).collect();
    assert_eq!(valid, vec![0, 255]);
    // an entry above the lowest level holds the valid flag and nothing else
    assert_eq!(root[0].flags().bits(), 1);
    // the trampoline is mapped first, so the nodes for the high end come first
    assert_eq!(root[255].referencing_frame(), table.node_frame(1));
    assert_eq!(root[0].referencing_frame(), table.node_frame(3));
    // the last entry of the last node maps the trampoline
    let last = table.node_entries(2);
    assert_eq!(last[511].referencing_address(), PhysAddr::new(0x8000_1000));
    assert_eq!(last[511].flags().bits(), 11);
}

#[test]
fn kernel_space_succeeds_exactly_when_the_frames_cover_its_nodes() {
    let mut large = FrameAllocator::new(HEAP_START, HEAP_PAGES);
    let nodes = AddrSpace::make_kernel(&mut large, &sections()).unwrap().get_page_table().n_nodes();
    let mut enough = FrameAllocator::new(HEAP_START, nodes);
    assert!(AddrSpace::make_kernel(&mut enough, &sections()).is_ok());
    assert!(enough.page_allocated.iter().all(|s| *s == 1));
    let mut short = FrameAllocator::new(HEAP_START, nodes - 1);
    assert!(AddrSpace::make_kernel(&mut short, &sections()).is_err());
}

#[test]
fn init_space_succeeds_exactly_when_the_frames_cover_it() {
    // the stack frame, the root, and two nodes each for the low and the high end
    for frames in 0..6 {
        let mut allocator = FrameAllocator::new(HEAP_START, frames);
        let r = AddrSpace::make_init(
            &mut allocator,
            PhysAddr::new(0x8000_1000),
            PhysAddr::new(0x8000_4000),
            5000,
        );
        assert!(matches!(r, Err(AllocError::ENoFrame)), "{frames} frames");
    }
    let mut allocator = FrameAllocator::new(HEAP_START, 7);
    let mut space =
        AddrSpace::make_init(&mut allocator, PhysAddr::new(0x8000_1000), PhysAddr::new(0x8000_4000), 5000)
            .unwrap();
    // the trapframe shares its nodes with the trampoline and takes one frame
    assert!(space.init_trapframe(&mut allocator).is_ok());
    assert!(allocator.page_allocated.iter().all(|s| *s == 1));
}
