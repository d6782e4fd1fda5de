use localdrop::discovery::Advertiser;
use localdrop::discovery::ListenerDirective;
use localdrop::discovery::PassiveListener;
use localdrop::discovery::ResolvedService;
use localdrop::discovery::build_txt_records;
use localdrop::discovery::discovery_service_type;
use localdrop::discovery::peers_from_resolved;
use localdrop::peers::IpAddress;
use localdrop::peers::Ipv4Octets;
use localdrop::peers::Peer;
use localdrop::peers::PeerRegistry;

fn v4(a: u8, b: u8, c: u8, d: u8) -> IpAddress {
    IpAddress::V4(Ipv4Octets { a, b, c, d })
}

fn peer(ip: IpAddress, port: u16, hostname: &str) -> Peer {
    Peer {
        name: format!("{hostname}._localdrop._tcp.local."),
        ip,
        port,
        hostname: hostname.to_string(),
        service_type: "_localdrop._tcp".to_string(),
        os: "linux".to_string(),
        id: "id-1".to_string(),
    }
}

#[test]
fn registry_never_retains_two_entries_with_same_endpoint() {
    let mut reg = PeerRegistry::new();
    assert!(reg.insert_peer(peer(v4(10, 0, 0, 1), 21212, "alpha")));
    assert!(!reg.insert_peer(peer(v4(10, 0, 0, 1), 21212, "beta")));
    assert!(reg.insert_peer(peer(v4(10, 0, 0, 1), 21213, "alpha")));
    assert!(reg.insert_peer(peer(v4(10, 0, 0, 2), 21212, "alpha")));
    assert_eq!(reg.len(), 3);
    let list = reg.into_peers();
    for i in 0..list.len() {
        for j in 0..list.len() {
            if i != j {
                assert!(!(list[i].ip == list[j].ip && list[i].port == list[j].port));
            }
        }
    }
    // The later record's metadata is the one kept.
    assert_eq!(list[0].hostname, "beta");
}

#[test]
fn peer_identity_is_ip_and_port_alone() {
    let x = peer(v4(10, 0, 0, 1), 21212, "alpha");
    let y = peer(v4(10, 0, 0, 1), 21212, "different-metadata");
    let z = peer(v4(10, 0, 0, 1), 9999, "alpha");
    assert_eq!(x, y);
    assert_ne!(x, z);
}

#[test]
fn resolved_event_yields_only_ipv4_records_with_defaults() {
    let svc = ResolvedService {
        fullname: "node._localdrop._tcp.local.".to_string(),
        service_type: "_localdrop._tcp.local.".to_string(),
        port: 21212,
        addresses: vec![v4(192, 168, 0, 4), IpAddress::V6(1), v4(192, 168, 0, 5)],
        os: None,
        hostname: Some("node".to_string()),
        id: None,
    };
    let found = peers_from_resolved(&svc);
    assert_eq!(found.len(), 2);
    assert_eq!(found[0].ip, v4(192, 168, 0, 4));
    assert_eq!(found[1].ip, v4(192, 168, 0, 5));
    assert_eq!(found[0].os, "unknown");
    assert_eq!(found[0].hostname, "node");
    assert_eq!(found[0].id, "unknown");
    assert_eq!(found[0].port, 21212);
    assert_eq!(found[0].name, "node._localdrop._tcp.local.");
}

#[test]
fn passive_listener_reports_each_endpoint_once() {
    let mut listener = PassiveListener::new();
    let first = listener.on_peers_resolved(vec![
        peer(v4(10, 0, 0, 1), 21212, "alpha"),
        peer(v4(10, 0, 0, 1), 21212, "alpha-again"),
        peer(v4(10, 0, 0, 2), 21212, "beta"),
    ]);
    assert_eq!(first.len(), 2);
    assert_eq!(first[0].hostname, "alpha");
    assert_eq!(first[1].hostname, "beta");
    let second = listener.on_peers_resolved(vec![peer(v4(10, 0, 0, 1), 21212, "alpha")]);
    assert_eq!(second.len(), 0);
}

#[test]
fn listener_fail_stops_after_five_consecutive_errors() {
    let mut listener = PassiveListener::new();
    for _ in 0..4 {
        assert_eq!(listener.on_error(), ListenerDirective::Backoff);
    }
    assert_eq!(listener.on_error(), ListenerDirective::Stop);
}

#[test]
fn successful_receive_resets_the_error_run() {
    let mut listener = PassiveListener::new();
    for _ in 0..4 {
        let _ = listener.on_error();
    }
    listener.on_other_event();
    for _ in 0..4 {
        assert_eq!(listener.on_error(), ListenerDirective::Backoff);
    }
    assert_eq!(listener.on_error(), ListenerDirective::Stop);
}

#[test]
fn advertiser_start_and_stop_are_idempotent() {
    let mut adv = Advertiser::new();
    assert!(!adv.running());
    assert!(adv.start_mdns_responder());
    assert!(adv.running());
    assert!(!adv.start_mdns_responder());
    assert!(adv.stop_mdns_responder());
    assert!(!adv.running());
    assert!(!adv.stop_mdns_responder());
    assert!(!adv.restart_mdns_responder());
    assert!(adv.running());
    assert!(adv.restart_mdns_responder());
    adv.mark_failed();
    assert!(!adv.running());
}

#[test]
fn advertised_metadata_has_the_fixed_keys() {
    let records = build_txt_records("linux", "myhost", "x86_64", "abc-123");
    assert_eq!(
        records,
        vec![
            "version=1.0".to_string(),
            "os=linux".to_string(),
            "hostname=myhost".to_string(),
            "arch=x86_64".to_string(),
            "id=abc-123".to_string(),
        ]
    );
    assert_eq!(discovery_service_type(), "_localdrop._tcp");
}
