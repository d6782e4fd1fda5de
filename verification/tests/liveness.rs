use localdrop::heartbeat::DeviceRegistry;
use localdrop::heartbeat::LivenessEvent;
use localdrop::heartbeat::responder_reply;
use localdrop::heartbeat::is_pong_line;
use localdrop::HEARTBEAT_PORT;

#[test]
fn online_only_after_successful_round_and_only_one_event() {
    let mut reg: DeviceRegistry<u32> = DeviceRegistry::new();
    reg.add_device("10.0.0.7".to_string());
    assert!(!reg.is_device_online(&"10.0.0.7".to_string()));
    let ev = reg.record_probe(&"10.0.0.7".to_string(), true, Some(1));
    assert_eq!(ev, Some(LivenessEvent::DeviceOnline));
    assert!(reg.is_device_online(&"10.0.0.7".to_string()));
    let ev2 = reg.record_probe(&"10.0.0.7".to_string(), true, Some(2));
    assert_eq!(ev2, None);
    assert!(reg.is_device_online(&"10.0.0.7".to_string()));
}

#[test]
fn offline_edge_emits_exactly_once() {
    let mut reg: DeviceRegistry<u32> = DeviceRegistry::new();
    reg.add_device("192.168.1.9".to_string());
    let _ = reg.record_probe(&"192.168.1.9".to_string(), true, Some(5));
    let ev = reg.record_probe(&"192.168.1.9".to_string(), false, None);
    assert_eq!(ev, Some(LivenessEvent::DeviceOffline));
    let ev2 = reg.record_probe(&"192.168.1.9".to_string(), false, None);
    assert_eq!(ev2, None);
    assert!(!reg.is_device_online(&"192.168.1.9".to_string()));
}

#[test]
fn failed_connect_on_fresh_device_stays_silent() {
    let mut reg: DeviceRegistry<u32> = DeviceRegistry::new();
    reg.add_device("10.0.0.5:0".to_string());
    let ev = reg.record_probe(&"10.0.0.5:0".to_string(), false, None);
    assert_eq!(ev, None);
    assert!(!reg.is_device_online(&"10.0.0.5:0".to_string()));
}

#[test]
fn retracking_resets_to_offline_without_connection() {
    let mut reg: DeviceRegistry<u32> = DeviceRegistry::new();
    reg.add_device("10.1.1.1".to_string());
    let _ = reg.record_probe(&"10.1.1.1".to_string(), true, Some(3));
    assert!(reg.is_device_online(&"10.1.1.1".to_string()));
    reg.add_device("10.1.1.1".to_string());
    assert!(!reg.is_device_online(&"10.1.1.1".to_string()));
    assert_eq!(reg.take_connection(&"10.1.1.1".to_string()), None);
    assert_eq!(reg.device_ips().len(), 1);
}

#[test]
fn connection_is_cached_on_success_and_borrowed_for_reuse() {
    let mut reg: DeviceRegistry<u32> = DeviceRegistry::new();
    reg.add_device("10.2.2.2".to_string());
    assert_eq!(reg.take_connection(&"10.2.2.2".to_string()), None);
    let _ = reg.record_probe(&"10.2.2.2".to_string(), true, Some(42));
    assert_eq!(reg.take_connection(&"10.2.2.2".to_string()), Some(42));
    assert_eq!(reg.take_connection(&"10.2.2.2".to_string()), None);
}

#[test]
fn connection_is_dropped_on_failure() {
    let mut reg: DeviceRegistry<u32> = DeviceRegistry::new();
    reg.add_device("10.3.3.3".to_string());
    let _ = reg.record_probe(&"10.3.3.3".to_string(), true, Some(9));
    let _ = reg.record_probe(&"10.3.3.3".to_string(), false, None);
    assert_eq!(reg.take_connection(&"10.3.3.3".to_string()), None);
}

#[test]
fn untracked_address_is_skipped_mid_cycle() {
    let mut reg: DeviceRegistry<u32> = DeviceRegistry::new();
    reg.add_device("10.4.4.4".to_string());
    reg.remove_device(&"10.4.4.4".to_string());
    let ev = reg.record_probe(&"10.4.4.4".to_string(), true, Some(1));
    assert_eq!(ev, None);
    assert_eq!(reg.device_ips().len(), 0);
}

#[test]
fn responder_replies_exactly_pong_to_ping() {
    let reply = responder_reply(b"ping\n");
    assert_eq!(reply, Some(b"pong\n".to_vec()));
}

#[test]
fn responder_ignores_other_frames() {
    assert_eq!(responder_reply(b"hello\n"), None);
    assert_eq!(responder_reply(b""), None);
    assert_eq!(responder_reply(b"pong\n"), None);
    assert_eq!(responder_reply(b"pin\n"), None);
}

#[test]
fn responder_accepts_ping_prefixed_frames() {
    assert_eq!(responder_reply(b"ping extra\n"), Some(b"pong\n".to_vec()));
    assert_eq!(responder_reply(b"  ping\n"), Some(b"pong\n".to_vec()));
}

#[test]
fn probe_classifies_pong_prefixed_lines() {
    assert!(is_pong_line(b"pong\n"));
    assert!(is_pong_line(b"pong and more\n"));
    assert!(!is_pong_line(b"ping\n"));
    assert!(!is_pong_line(b"PONG\n"));
    assert!(!is_pong_line(b""));
}

#[test]
fn heartbeat_port_is_fixed() {
    assert_eq!(HEARTBEAT_PORT, 21112);
}
