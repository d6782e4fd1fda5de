use localdrop::DEFAULT_CONTROL_PORT;
use localdrop::fileinfo::FileInput;
use localdrop::fileinfo::FilePreview;
use localdrop::fileinfo::SysInfo;
use localdrop::fileinfo::resolve_preview_mime;
use localdrop::net::IfaceAddr;
use localdrop::net::select_primary_ipv4;
use localdrop::peers::IpAddress;
use localdrop::peers::Ipv4Octets;
use localdrop::peers::Peer;
use localdrop::server::RejectionKind;
use localdrop::server::rejection_response;
use localdrop::server::resolve_control_port;

fn v4(a: u8, b: u8, c: u8, d: u8) -> IpAddress {
    IpAddress::V4(Ipv4Octets { a, b, c, d })
}

#[test]
fn control_port_defaults_when_unset_or_unparsable() {
    assert_eq!(resolve_control_port(None), 21212);
    assert_eq!(resolve_control_port(Some("not-a-port")), 21212);
    assert_eq!(resolve_control_port(Some("")), 21212);
    assert_eq!(resolve_control_port(Some("70000")), 21212);
    assert_eq!(resolve_control_port(Some("-1")), 21212);
    assert_eq!(resolve_control_port(Some("8080 ")), 21212);
    assert_eq!(DEFAULT_CONTROL_PORT, 21212);
}

#[test]
fn control_port_honours_a_valid_setting() {
    assert_eq!(resolve_control_port(Some("8080")), 8080);
    assert_eq!(resolve_control_port(Some("+443")), 443);
    assert_eq!(resolve_control_port(Some("0")), 0);
    assert_eq!(resolve_control_port(Some("65535")), 65535);
    assert_eq!(resolve_control_port(Some("00021212")), 21212);
}

#[test]
fn rejections_map_to_their_status_lines() {
    assert_eq!(rejection_response(RejectionKind::InternalError), (500, "Internal Server Error"));
    assert_eq!(rejection_response(RejectionKind::NotFound), (404, "Not Found"));
    assert_eq!(rejection_response(RejectionKind::PayloadTooLarge), (413, "Payload too large"));
    assert_eq!(rejection_response(RejectionKind::Other), (500, "Internal Server Error"));
}

#[test]
fn primary_ipv4_skips_loopback_and_link_local() {
    let ifaces = vec![
        IfaceAddr { is_loopback: true, ip: v4(127, 0, 0, 1) },
        IfaceAddr { is_loopback: false, ip: v4(169, 254, 3, 4) },
        IfaceAddr { is_loopback: false, ip: IpAddress::V6(7) },
        IfaceAddr { is_loopback: false, ip: v4(192, 168, 1, 20) },
        IfaceAddr { is_loopback: false, ip: v4(10, 0, 0, 9) },
    ];
    let chosen = select_primary_ipv4(&ifaces);
    assert_eq!(chosen, Some(Ipv4Octets { a: 192, b: 168, c: 1, d: 20 }));
}

#[test]
fn no_suitable_interface_yields_nothing() {
    let ifaces = vec![
        IfaceAddr { is_loopback: true, ip: v4(127, 0, 0, 1) },
        IfaceAddr { is_loopback: false, ip: v4(169, 254, 0, 1) },
        IfaceAddr { is_loopback: false, ip: IpAddress::V6(1) },
    ];
    assert_eq!(select_primary_ipv4(&ifaces), None);
    assert_eq!(select_primary_ipv4(&Vec::new()), None);
}

#[test]
fn preview_mime_prefers_sniff_then_name_then_fallback() {
    assert_eq!(resolve_preview_mime(Some("image/png".to_string()), "a.txt"), "image/png");
    assert_eq!(resolve_preview_mime(None, "notes.txt"), "text/plain");
    assert_eq!(resolve_preview_mime(None, "data.json"), "application/json");
    assert_eq!(resolve_preview_mime(None, "mystery"), "application/octet-stream");
}

#[test]
fn preview_and_input_records_carry_their_fields() {
    let input = FileInput { file_path: "/tmp/x.png".to_string(), file_uuid: "u-1".to_string() };
    let preview = FilePreview {
        file_uuid: input.file_uuid.clone(),
        file_path: input.file_path.clone(),
        name: "x.png".to_string(),
        size: 512,
        mime_type: resolve_preview_mime(None, "x.png"),
        preview_base64: None,
    };
    assert_eq!(preview.mime_type, "image/png");
    assert_eq!(preview.size, 512);
    assert_eq!(preview.file_uuid, "u-1");
    assert!(preview.preview_base64.is_none());
}

#[test]
fn sys_info_and_descriptor_shape() {
    let info = SysInfo {
        os_type: Some("linux".to_string()),
        hostname: Some("myhost".to_string()),
        app_id: "abc".to_string(),
    };
    let descriptor = Peer::self_descriptor(
        info.hostname.clone().unwrap(),
        info.os_type.clone().unwrap(),
        "_localdrop._tcp".to_string(),
        21212,
        v4(192, 168, 1, 20),
        info.app_id.clone(),
    );
    assert_eq!(descriptor.name, "myhost");
    assert_eq!(descriptor.hostname, "myhost");
    assert_eq!(descriptor.os, "linux");
    assert_eq!(descriptor.port, 21212);
    assert_eq!(descriptor.id, "abc");
}
