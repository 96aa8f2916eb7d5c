use dockbase::config::{DEFAULT_DB_IO_SIZE, DOCKBASE_PAGE_SIZE};
use dockbase::disk_manager::{AllocationGuard, DiskManager, Metadata};
use dockbase::exception::ExceptionType;

#[test]
fn test_page_read_write() {
    let mut disk_manager = DiskManager::new();
    let page_id: u64 = 10;
    let mut content = [0u8; DOCKBASE_PAGE_SIZE];
    content[0..5].copy_from_slice(b"hello");

    disk_manager.write_page(page_id, &content).unwrap();
    let mut read_buffer = [0u8; DOCKBASE_PAGE_SIZE];
    disk_manager.read_page(page_id, &mut read_buffer).unwrap();

    assert_eq!(content, read_buffer);
    assert_eq!(disk_manager.get_num_writes().unwrap(), 1);
}

#[test]
fn test_log_sequence() {
    let mut dm = DiskManager::new();
    let entry1 = b"first_log_entry";
    let entry2 = b"second_entry";

    dm.write_log(entry1).unwrap();
    let offset2 = entry1.len();
    dm.write_log(entry2).unwrap();

    let mut buf1 = vec![0u8; entry1.len()];
    let mut buf2 = vec![0u8; entry2.len()];

    dm.read_log(&mut buf1, 0).unwrap();
    dm.read_log(&mut buf2, offset2).unwrap();

    assert_eq!(entry1, buf1.as_slice());
    assert_eq!(entry2, buf2.as_slice());
    assert_eq!(dm.get_num_flushes().unwrap(), 2);
}

#[test]
fn test_delete_and_reuse() {
    let mut dm = DiskManager::new();
    let data = [1u8; DOCKBASE_PAGE_SIZE];

    dm.write_page(1, &data).unwrap();
    dm.delete_page(1).unwrap();
    assert_eq!(dm.get_num_deletes().unwrap(), 1);

    dm.write_page(2, &data).unwrap();
    assert_eq!(dm.metadata.free_slots.len(), 0);
    assert_eq!(dm.metadata.page_count, 1);
}

#[test]
fn test_read_non_existent_page() {
    let dm = DiskManager::new();
    let mut buf = [0u8; DOCKBASE_PAGE_SIZE];
    assert!(dm.read_page(99, &mut buf).is_err());
}

#[test]
fn test_allocation_guard_rollback() {
    let mut metadata = Metadata::new();
    let offset = metadata.allocate_page().unwrap();

    let guard = AllocationGuard::new(offset, true);
    guard.release(&mut metadata);

    assert_eq!(metadata.free_slots.len(), 1);
    assert_eq!(metadata.free_slots[0], offset);
}

#[test]
fn test_partial_read() {
    let mut dm = DiskManager::new();
    let page_id: u64 = 1;
    let mut content = [0u8; DOCKBASE_PAGE_SIZE];
    content[0..10].copy_from_slice(b"partial123");

    dm.write_page(page_id, &content).unwrap();
    let mut read_buf = [0u8; DOCKBASE_PAGE_SIZE];
    dm.read_page(page_id, &mut read_buf).unwrap();

    assert_eq!(&read_buf[0..10], b"partial123");
    assert_eq!(&read_buf[10..], &[0u8; DOCKBASE_PAGE_SIZE - 10]);
}

#[test]
fn test_log_read_beyond_eof() {
    let mut dm = DiskManager::new();
    dm.write_log(&[7u8; 10]).unwrap();
    let mut buf = [0u8; 10];
    let res = dm.read_log(&mut buf, 1000).unwrap();
    assert!(!res);
}

#[test]
fn test_flush_log_flag() {
    let mut dm = DiskManager::new();
    let log_data = b"flush_flag_test";

    assert!(!dm.get_log_flush_state().unwrap());

    dm.write_log(log_data).unwrap();
    assert_eq!(dm.get_num_flushes().unwrap(), 1);
    assert_eq!(dm.get_log_flush_state().unwrap(), false);
}

#[test]
fn test_shutdown() {
    let dm = DiskManager::new();
    dm.shut_down().unwrap();
}

#[test]
fn test_allocate_page_expansion() {
    let mut metadata = Metadata::new();
    let initial_capacity = metadata.page_capacity;
    metadata.page_count = initial_capacity;

    let offset = metadata.allocate_page().unwrap();

    assert!(metadata.page_capacity > initial_capacity);
    assert!(offset >= initial_capacity * DOCKBASE_PAGE_SIZE);
}

#[test]
fn test_read_missing_is_invalid() {
    let dm = DiskManager::new();
    let mut buf = [0u8; DOCKBASE_PAGE_SIZE];
    let err = dm.read_page(99, &mut buf).unwrap_err();
    assert_eq!(err.get_type(), ExceptionType::Invalid);
}

#[test]
fn test_delete_then_write_reuses_offset() {
    let mut dm = DiskManager::new();
    let data = [1u8; DOCKBASE_PAGE_SIZE];

    dm.write_page(1, &data).unwrap();
    let offset1 = *dm.metadata.pages.get(&1).unwrap();
    dm.delete_page(1).unwrap();
    dm.write_page(2, &data).unwrap();
    let offset2 = *dm.metadata.pages.get(&2).unwrap();
    assert_eq!(offset1, offset2);
}

#[test]
fn test_delete_absent_page_is_noop() {
    let mut dm = DiskManager::new();
    dm.delete_page(5).unwrap();
    assert_eq!(dm.get_num_deletes().unwrap(), 0);
    assert_eq!(dm.metadata.free_slots.len(), 0);
}

#[test]
fn test_offsets_disjoint_aligned_and_bounded() {
    let mut dm = DiskManager::new();
    let data = [9u8; DOCKBASE_PAGE_SIZE];
    for pid in 0u64..8 {
        dm.write_page(pid, &data).unwrap();
    }
    dm.delete_page(2).unwrap();
    dm.delete_page(5).unwrap();
    dm.write_page(20, &data).unwrap();

    let meta = &dm.metadata;
    for (_pid, offset) in meta.pages.iter() {
        assert_eq!(offset % DOCKBASE_PAGE_SIZE, 0);
        assert!(*offset < meta.page_capacity * DOCKBASE_PAGE_SIZE);
        assert!(!meta.free_slots.contains(offset));
    }
}

#[test]
fn test_counters_monotonic() {
    let mut dm = DiskManager::new();
    let data = [3u8; DOCKBASE_PAGE_SIZE];
    let mut last_writes = dm.get_num_writes().unwrap();
    let mut last_deletes = dm.get_num_deletes().unwrap();
    let mut last_flushes = dm.get_num_flushes().unwrap();
    for step in 0..6 {
        match step % 3 {
            0 => {
                dm.write_page(step as u64, &data).unwrap();
            }
            1 => {
                dm.delete_page((step - 1) as u64).unwrap();
            }
            _ => {
                dm.write_log(b"entry").unwrap();
            }
        }
        let writes = dm.get_num_writes().unwrap();
        let deletes = dm.get_num_deletes().unwrap();
        let flushes = dm.get_num_flushes().unwrap();
        assert!(writes >= last_writes);
        assert!(deletes >= last_deletes);
        assert!(flushes >= last_flushes);
        last_writes = writes;
        last_deletes = deletes;
        last_flushes = flushes;
    }
}

#[test]
fn test_short_log_read_zero_padded() {
    let mut dm = DiskManager::new();
    dm.write_log(b"abc").unwrap();
    let mut buf = [0xffu8; 10];
    let found = dm.read_log(&mut buf, 0).unwrap();
    assert!(found);
    assert_eq!(&buf[..3], b"abc");
    assert_eq!(&buf[3..], &[0u8; 7]);
}

#[test]
fn test_empty_log_write_is_noop() {
    let mut dm = DiskManager::new();
    dm.write_log(b"").unwrap();
    assert_eq!(dm.get_num_flushes().unwrap(), 0);
}

#[test]
fn test_sequential_distinct_pages_round_trip() {
    let mut dm = DiskManager::new();
    for i in 0u64..4 {
        let mut data = [0u8; DOCKBASE_PAGE_SIZE];
        data[0] = i as u8;
        dm.write_page(i, &data).unwrap();
    }
    for i in 0u64..4 {
        let mut read_buf = [0u8; DOCKBASE_PAGE_SIZE];
        dm.read_page(i, &mut read_buf).unwrap();
        assert_eq!(read_buf[0], i as u8);
    }
}

#[test]
fn test_resolve_and_record_write() {
    let mut metadata = Metadata::new();
    let (offset, is_new) = metadata.resolve_write_offset(42).unwrap();
    assert!(is_new);
    assert_eq!(offset, 0);
    metadata.record_write(42, offset);
    assert_eq!(metadata.num_writes, 1);

    // a second write to the same page resolves to the same offset
    let (offset2, is_new2) = metadata.resolve_write_offset(42).unwrap();
    assert!(!is_new2);
    assert_eq!(offset2, offset);
}

#[test]
fn test_log_flush_transitions() {
    let mut metadata = Metadata::new();
    assert!(!metadata.flush_log);
    metadata.begin_log_flush();
    assert!(metadata.flush_log);
    metadata.finish_log_flush();
    assert!(!metadata.flush_log);
    assert_eq!(metadata.num_flushes, 1);
}

#[test]
fn test_committed_guard_does_not_roll_back() {
    let mut metadata = Metadata::new();
    let offset = metadata.allocate_page().unwrap();
    let mut guard = AllocationGuard::new(offset, true);
    metadata.record_write(3, offset);
    guard.commit();
    guard.release(&mut metadata);
    assert_eq!(metadata.free_slots.len(), 0);
}

#[test]
fn test_default_capacity() {
    let metadata = Metadata::new();
    assert_eq!(metadata.page_capacity, DEFAULT_DB_IO_SIZE);
    assert_eq!(metadata.page_count, 0);
}
