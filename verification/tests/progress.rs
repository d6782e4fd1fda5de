use localdrop::upload::FileUploadInfo;
use localdrop::upload::UploadProgress;
use localdrop::upload::mime_or_default;
use localdrop::upload::percent_done;
use localdrop::server::MAX_UPLOAD_BYTES;
use localdrop::server::upload_oversized;

#[test]
fn percent_values_are_exact() {
    assert_eq!(percent_done(0, 1000), 0);
    assert_eq!(percent_done(5, 1000), 1);
    assert_eq!(percent_done(500, 1000), 50);
    assert_eq!(percent_done(3, 7), 43);
    assert_eq!(percent_done(1000, 1000), 100);
}

#[test]
fn percent_stays_below_hundred_until_complete() {
    assert_eq!(percent_done(996, 1000), 99);
    assert_eq!(percent_done(999, 1000), 99);
    assert_eq!(percent_done(1, 2), 50);
}

#[test]
fn percent_is_clamped_when_transport_over_delivers() {
    assert_eq!(percent_done(1001, 1000), 100);
    assert_eq!(percent_done(u64::MAX, 1), 100);
}

#[test]
fn empty_file_reports_complete() {
    assert_eq!(percent_done(0, 0), 100);
}

#[test]
fn emitted_percents_are_non_decreasing_and_end_at_hundred() {
    let mut progress = UploadProgress::new("a.bin".to_string(), "uuid-1".to_string(), 1000);
    let chunks = [100u64, 250, 250, 150, 150, 100];
    let mut last = 0u8;
    let mut events = Vec::new();
    for len in chunks {
        let ev = progress.record_chunk(len);
        assert!(ev.percent >= last);
        last = ev.percent;
        events.push(ev);
    }
    assert_eq!(events.last().unwrap().percent, 100);
    assert!(events[..events.len() - 1].iter().all(|e| e.percent < 100));
    assert_eq!(events[0].filename, "a.bin");
    assert_eq!(events[0].uuid, "uuid-1");
}

#[test]
fn upload_info_carries_its_fields() {
    let info = FileUploadInfo {
        file_path: "/tmp/a.bin".to_string(),
        file_uuid: "uuid-9".to_string(),
        name: "a.bin".to_string(),
    };
    assert_eq!(info.name, "a.bin");
    assert_eq!(info.file_uuid, "uuid-9");
    assert_eq!(info.file_path, "/tmp/a.bin");
}

#[test]
fn sniffed_mime_wins_and_fallback_is_octet_stream() {
    assert_eq!(mime_or_default(Some("image/png".to_string())), "image/png");
    assert_eq!(mime_or_default(None), "application/octet-stream");
}

#[test]
fn upload_ceiling_is_five_gibibytes() {
    assert_eq!(MAX_UPLOAD_BYTES, 5 * 1024 * 1024 * 1024);
    assert!(!upload_oversized(MAX_UPLOAD_BYTES));
    assert!(upload_oversized(MAX_UPLOAD_BYTES + 1));
    assert!(!upload_oversized(0));
}
