use kernel::allocator::frame_allocator::{AllocError, FrameAllocator};
use kernel::allocator::identifier_allocator::IdentifierAllocator;
use kernel::common::resource_table::{FreeSlotsInner, ResourceTable};
use kernel::process::manager::{ProcessManager, INITIAL_MAX_N_PROCS};
use kernel::process::process::ProcStatus;

#[test]
fn fresh_table_hands_out_ids_in_order_and_doubles() {
    let mut table: ResourceTable<u32> = ResourceTable::new(4);
    assert_eq!(table.n_slots(), 4);
    for expected in 0..4 {
        assert!(table.is_free(expected));
        assert_eq!(table.reserve_entry(), expected);
        assert!(!table.is_free(expected));
        assert!(table.is_reserved(expected));
        assert_eq!(table.n_slots(), 4);
    }
    assert_eq!(table.reserve_entry(), 4);
    assert_eq!(table.n_slots(), 8);
    assert!(table.is_free(5) && table.is_free(6) && table.is_free(7));
    assert!(!table.is_free(8));
    assert_eq!(table.reserve_entry(), 5);
}

#[test]
fn reserve_initialise_get_remove() {
    let mut table: ResourceTable<String> = ResourceTable::new(2);
    table.set_name("Process");
    let id = table.reserve_entry();
    assert_eq!(id, 0);
    assert!(table.is_reserved(id));
    assert!(!table.is_initialised(id));
    table.initialise_entry(id, "init".to_string());
    assert!(table.is_initialised(id));
    assert_eq!(table.get(id), "init");
    table.get_mut(id).push_str("code");
    assert_eq!(table.get(id), "initcode");
    assert!(!table.is_initialised(1));
    assert_eq!(table.remove_entry(id), Some("initcode".to_string()));
    assert!(table.is_free(id));
    assert!(!table.is_reserved(id));
    assert!(!table.is_initialised(id));
    // the smallest free id is handed out again
    assert_eq!(table.reserve_entry(), 0);
    assert_eq!(table.remove_entry(0), None);
    assert_eq!(table.n_slots(), 2);
}

#[test]
fn removed_id_in_the_middle_is_reused_first() {
    let mut table: ResourceTable<u8> = ResourceTable::new(8);
    for _ in 0..5 {
        let id = table.reserve_entry();
        table.initialise_entry(id, id as u8);
    }
    table.remove_entry(3);
    table.remove_entry(1);
    assert_eq!(table.reserve_entry(), 1);
    assert_eq!(table.reserve_entry(), 3);
    assert_eq!(table.reserve_entry(), 5);
    assert_eq!(*table.get(4), 4);
}

#[test]
fn free_slots() {
    let mut free = FreeSlotsInner::new(2);
    assert_eq!(free.allocate_one(), 0);
    assert_eq!(free.allocate_one(), 1);
    assert_eq!(free.allocate_one(), 2);
    free.return_one(1);
    assert_eq!(free.allocate_one(), 1);
    assert_eq!(free.allocate_one(), 3);
    assert_eq!(free.allocate_one(), 4);
}

#[test]
fn identifier_allocator() {
    let mut ids = IdentifierAllocator::new(3);
    assert_eq!(ids.allocate(), 0);
    assert_eq!(ids.allocate(), 1);
    ids.deallocate(0);
    assert_eq!(ids.allocate(), 0);
    assert_eq!(ids.allocate(), 2);
}

#[test]
fn the_129th_process_gets_id_128_and_doubles_the_table() {
    let mut allocator = FrameAllocator::new(0x8020_0000, 200);
    let mut manager = ProcessManager::new();
    assert_eq!(INITIAL_MAX_N_PROCS, 128);
    assert_eq!(manager.n_slots(), 128);
    for expected in 0..128 {
        assert_eq!(manager.create_process(&mut allocator), Ok(expected));
        assert_eq!(manager.n_slots(), 128);
    }
    assert_eq!(manager.create_process(&mut allocator), Ok(128));
    assert_eq!(manager.n_slots(), 256);
    assert!(manager.has_process(128));
    assert_eq!(manager.get(128).get_pid(), 128);
    assert!(!manager.has_process(129));
}

#[test]
fn processes_queue_up() {
    let mut allocator = FrameAllocator::new(0x8020_0000, 3);
    let mut manager = ProcessManager::new();
    assert_eq!(manager.pop_one(), None);
    assert_eq!(manager.create_process(&mut allocator), Ok(0));
    assert_eq!(manager.create_process(&mut allocator), Ok(1));
    assert_eq!(manager.get(1).get_kernel_stack_phys_addr().as_usize(), 0x8020_1000);
    assert_eq!(manager.get(0).inner.get_status(), ProcStatus::RUNNABLE);
    // first come, first served
    assert_eq!(manager.pop_one(), Some(0));
    manager.push_one(0);
    assert_eq!(manager.pop_one(), Some(1));
    assert_eq!(manager.pop_one(), Some(0));
    assert_eq!(manager.pop_one(), None);
    assert_eq!(manager.create_process(&mut allocator), Ok(2));
    // without a frame for the kernel stack no process is made, and the id stays free
    assert_eq!(manager.create_process(&mut allocator), Err(AllocError::ENoFrame));
    assert!(!manager.has_process(3));
    assert_eq!(manager.pop_one(), Some(2));
}

#[test]
fn exit_and_reap() {
    let mut allocator = FrameAllocator::new(0x8020_0000, 4);
    let mut manager = ProcessManager::new();
    manager.create_process(&mut allocator).unwrap();
    manager.create_process(&mut allocator).unwrap();
    manager.push_one(0);
    // queue: 0, 1, 0
    manager.get_mut(0).inner.set_status(ProcStatus::RUNNING);
    manager.exit_process(0);
    assert_eq!(manager.get(0).inner.get_status(), ProcStatus::ZOMBIE);
    assert_eq!(manager.pop_one(), Some(1));
    assert_eq!(manager.pop_one(), None);
    let reaped = manager.reap_process(0).unwrap();
    assert_eq!(reaped.get_pid(), 0);
    assert!(!manager.has_process(0));
    assert!(manager.has_process(1));
    // the id is free again
    assert_eq!(manager.create_process(&mut allocator), Ok(0));
}

#[test]
fn status_transitions() {
    let runnable = ProcStatus::RUNNABLE;
    let running = ProcStatus::RUNNING;
    let zombie = ProcStatus::ZOMBIE;
    assert!(runnable.can_become(running));
    assert!(running.can_become(runnable));
    assert!(running.can_become(zombie));
    assert!(!runnable.can_become(zombie));
    assert!(!zombie.can_become(running));
    assert!(!zombie.can_become(runnable));
    assert!(!zombie.can_become(zombie));
    assert!(!running.can_become(running));
}

#[test]
fn free_process_ids() {
    let mut allocator = FrameAllocator::new(0x8020_0000, 4);
    let mut manager = ProcessManager::new();
    assert!(manager.is_free(0) && manager.is_free(127));
    assert!(!manager.is_free(128));
    manager.create_process(&mut allocator).unwrap();
    assert!(!manager.is_free(0));
    assert!(manager.is_free(1));
}
