use dockbase::config::DOCKBASE_PAGE_SIZE;
use dockbase::disk_manager::DiskManager;
use dockbase::disk_scheduler::{DiskRequest, DiskScheduler, RequestType};

fn write_request(page_id: u64, data: Vec<u8>) -> DiskRequest {
    DiskRequest { request_type: RequestType::Write, page_id, data }
}

fn read_request(page_id: u64) -> DiskRequest {
    DiskRequest { request_type: RequestType::Read, page_id, data: vec![0u8; DOCKBASE_PAGE_SIZE] }
}

#[test]
fn test_basic_read_write() {
    let mut disk_scheduler = DiskScheduler::new(DiskManager::new());
    let page_id: u64 = 10;
    let mut buffer = vec![0u8; DOCKBASE_PAGE_SIZE];
    let message = b"Hello Dockbase";
    buffer[..message.len()].copy_from_slice(message);

    disk_scheduler.schedule(vec![write_request(page_id, buffer)]).unwrap();
    let completions = disk_scheduler.run_worker();
    assert!(completions[0].success);

    disk_scheduler.schedule(vec![read_request(page_id)]).unwrap();
    let completions = disk_scheduler.run_worker();
    assert!(completions[0].success);
    assert_eq!(&completions[0].data[..message.len()], message);
}

#[test]
fn test_scheduler_stress() {
    let mut disk_scheduler = DiskScheduler::new(DiskManager::new());
    let num_pages: usize = 100000;

    let mut requests = Vec::new();
    for i in 0..num_pages {
        let mut buffer = vec![0u8; DOCKBASE_PAGE_SIZE];
        let msg = format!("Data for page {}", i);
        buffer[..msg.len()].copy_from_slice(msg.as_bytes());
        requests.push(write_request(i as u64, buffer));
    }

    disk_scheduler.schedule(requests).unwrap();
    let completions = disk_scheduler.run_worker();
    assert_eq!(completions.len(), num_pages);
    for completion in &completions {
        assert!(completion.success);
    }
    drop(completions);

    let test_pages = vec![0u64, 50, 99];
    for pid in test_pages {
        disk_scheduler.schedule(vec![read_request(pid)]).unwrap();
        let completions = disk_scheduler.run_worker();
        assert!(completions[0].success);
        let expected_msg = format!("Data for page {}", pid);
        assert_eq!(&completions[0].data[..expected_msg.len()], expected_msg.as_bytes());
    }
}

#[test]
fn test_scheduler_drop_cleanup() {
    let mut disk_scheduler = DiskScheduler::new(DiskManager::new());

    let buffer = vec![0u8; DOCKBASE_PAGE_SIZE];
    disk_scheduler.schedule(vec![write_request(0, buffer)]).unwrap();
    let completions = disk_scheduler.run_worker();
    assert!(completions[0].success);

    // the shutdown sentinel ends the worker loop with nothing pending
    disk_scheduler.shut_down().unwrap();
    let after = disk_scheduler.run_worker();
    assert!(after.is_empty());
}

#[test]
fn test_completions_arrive_in_submission_order() {
    let mut disk_scheduler = DiskScheduler::new(DiskManager::new());

    let mut requests = Vec::new();
    for i in 0u64..5 {
        let mut buffer = vec![0u8; DOCKBASE_PAGE_SIZE];
        buffer[0] = i as u8;
        requests.push(write_request(i, buffer));
    }
    // a read of a page that is not mapped yet must fail, in place
    requests.insert(3, read_request(77));

    disk_scheduler.schedule(requests).unwrap();
    let completions = disk_scheduler.run_worker();
    assert_eq!(completions.len(), 6);
    for (i, completion) in completions.iter().enumerate() {
        if i == 3 {
            assert!(!completion.success);
        } else {
            assert!(completion.success);
        }
    }
}

#[test]
fn test_read_through_scheduler_returns_written_bytes() {
    let mut disk_scheduler = DiskScheduler::new(DiskManager::new());
    let mut buffer = vec![0u8; DOCKBASE_PAGE_SIZE];
    buffer[0] = 42;
    disk_scheduler.schedule(vec![write_request(7, buffer)]).unwrap();
    disk_scheduler.schedule(vec![read_request(7)]).unwrap();
    let completions = disk_scheduler.run_worker();
    assert_eq!(completions.len(), 2);
    assert!(completions[0].success);
    assert!(completions[1].success);
    assert_eq!(completions[1].data[0], 42);
    assert_eq!(disk_scheduler.disk_manager().get_num_writes().unwrap(), 1);
}

#[test]
fn test_sentinel_stops_before_later_requests() {
    let mut disk_scheduler = DiskScheduler::new(DiskManager::new());
    let buffer = vec![0u8; DOCKBASE_PAGE_SIZE];
    disk_scheduler.schedule(vec![write_request(1, buffer)]).unwrap();
    disk_scheduler.shut_down().unwrap();
    let buffer = vec![0u8; DOCKBASE_PAGE_SIZE];
    disk_scheduler.schedule(vec![write_request(2, buffer)]).unwrap();

    // the worker completes the request before the sentinel and stops
    let completions = disk_scheduler.run_worker();
    assert_eq!(completions.len(), 1);
    assert!(completions[0].success);
    // a later run picks up the request enqueued after the sentinel
    let completions = disk_scheduler.run_worker();
    assert_eq!(completions.len(), 1);
    assert!(completions[0].success);
}
