use localdrop::pending::DeviceInfo;
use localdrop::pending::FileInfo;
use localdrop::pending::PendingTable;
use localdrop::pending::TransferRequest;

#[test]
fn respond_delivers_slot_and_removes_entry() {
    let mut table: PendingTable<u32> = PendingTable::new();
    table.insert_pending("req-1".to_string(), 42);
    assert!(table.is_pending(&"req-1".to_string()));
    let slot = table.respond_to_request(&"req-1".to_string());
    assert_eq!(slot, Some(42));
    assert!(!table.is_pending(&"req-1".to_string()));
}

#[test]
fn second_respond_with_same_id_is_a_no_op() {
    let mut table: PendingTable<u32> = PendingTable::new();
    table.insert_pending("req-2".to_string(), 7);
    assert_eq!(table.respond_to_request(&"req-2".to_string()), Some(7));
    assert_eq!(table.respond_to_request(&"req-2".to_string()), None);
}

#[test]
fn respond_after_timeout_purge_is_a_no_op() {
    let mut table: PendingTable<u32> = PendingTable::new();
    let files = vec![
        FileInfo { name: "a.txt".to_string(), size: 100 },
        FileInfo { name: "b.txt".to_string(), size: 200 },
    ];
    let device = DeviceInfo { hostname: "sender".to_string(), os_type: "linux".to_string() };
    let request = TransferRequest::assemble(files, device, "10.0.0.9".to_string());
    assert_eq!(request.files_info.len(), 2);
    assert_eq!(request.receiver_info, "10.0.0.9");
    let id = table.register_transfer_request(11);
    assert!(table.is_pending(&id));
    // The decision window closes with no reply: the waiting side purges.
    assert!(table.purge(&id));
    assert!(!table.is_pending(&id));
    assert_eq!(table.respond_to_request(&id), None);
    assert!(!table.purge(&id));
}

#[test]
fn respond_with_unknown_id_is_a_no_op() {
    let mut table: PendingTable<u32> = PendingTable::new();
    table.insert_pending("known".to_string(), 1);
    assert_eq!(table.respond_to_request(&"unknown".to_string()), None);
    assert!(table.is_pending(&"known".to_string()));
}

#[test]
fn correlation_ids_are_hyphenated_uuids() {
    let mut table: PendingTable<u32> = PendingTable::new();
    let id1 = table.register_transfer_request(1);
    let id2 = table.register_transfer_request(2);
    assert_eq!(id1.chars().count(), 36);
    assert_eq!(id2.chars().count(), 36);
    assert!(table.is_pending(&id1));
    assert!(table.is_pending(&id2));
}

#[test]
fn inserting_same_id_replaces_the_slot() {
    let mut table: PendingTable<u32> = PendingTable::new();
    table.insert_pending("dup".to_string(), 1);
    table.insert_pending("dup".to_string(), 2);
    assert_eq!(table.respond_to_request(&"dup".to_string()), Some(2));
    assert_eq!(table.respond_to_request(&"dup".to_string()), None);
}
