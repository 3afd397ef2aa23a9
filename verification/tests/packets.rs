//! The crafted UDP payloads, the script data, and the benchmark summary.
use rustscan::benchmark::{Benchmark, NamedTimer};
use rustscan::scripts::{join_ports, select_scripts, ScriptFile};
use rustscan::udp_packets::{
    craft_dhcpc_packet, craft_dns_query_packet, craft_ntp_packet, craft_snmp_packet,
    craft_snmptrap_packet, cust_payload,
};

#[test]
fn cust_payload_is_blank() {
    assert!(cust_payload(53).is_empty());
    assert!(cust_payload(9_999).is_empty());
}

#[test]
fn ntp_packet_shape() {
    let packet = craft_ntp_packet();
    assert_eq!(packet.len(), 48);
    assert_eq!(packet[0], 0x1b);
    assert!(packet[1..].iter().all(|&b| b == 0));
}

#[test]
fn dns_query_packet_bytes() {
    let expected: Vec<u8> = vec![
        0x12, 0x34, 0x01, 0x00, 0x00, 0x01, 0x00, 0x00, 0x00, 0x00, 0x00, 0x00, 0x03, 0x77,
        0x77, 0x77, 0x06, 0x67, 0x6f, 0x6f, 0x67, 0x6c, 0x65, 0x03, 0x63, 0x6f, 0x6d, 0x00,
        0x00, 0x01, 0x00, 0x01,
    ];
    assert_eq!(craft_dns_query_packet(), expected);
}

#[test]
fn snmp_packet_bytes() {
    let expected: Vec<u8> = vec![
        0x30, 0x29, 0x02, 0x01, 0x00, 0x04, 0x06, 0x70, 0x75, 0x62, 0x6c, 0x69, 0x63, 0xa0,
        0x1c, 0x02, 0x04, 0x7a, 0x69, 0x67, 0x71, 0x02, 0x01, 0x00, 0x02, 0x01, 0x00, 0x30,
        0x0e, 0x30, 0x0c, 0x06, 0x08, 0x2b, 0x06, 0x01, 0x02, 0x01, 0x01, 0x01, 0x00, 0x05,
        0x00,
    ];
    assert_eq!(craft_snmp_packet(), expected);
}

#[test]
fn snmptrap_packet_bytes() {
    let expected: Vec<u16> = vec![
        0x30, 0x82, 0x04, 0x06, 0x70, 0x75, 0x62, 0x6c, 0x69, 0x63, 0xa4, 0x82, 0x06, 0x09,
        0x2b, 0x06, 0x01, 0x02, 0x01, 0x01, 0x01, 0x00,
    ];
    assert_eq!(craft_snmptrap_packet(), expected);
}

#[test]
fn dhcp_packet_shape() {
    let packet = craft_dhcpc_packet();
    assert_eq!(packet.len(), 250);
    // boot request over Ethernet
    assert_eq!(&packet[0..4], &[0x01, 0x01, 0x06, 0x00]);
    // transaction id and broadcast flag
    assert_eq!(&packet[4..8], &[0x39, 0x03, 0xF3, 0x26]);
    assert_eq!(&packet[10..12], &[0x80, 0x00]);
    // addresses, padding and name fields stay zero
    assert!(packet[12..236].iter().all(|&b| b == 0));
    // magic cookie, message type, parameter list, end option
    assert_eq!(&packet[236..240], &[0x63, 0x82, 0x53, 0x63]);
    assert_eq!(&packet[240..243], &[0x35, 0x01, 0x01]);
    assert_eq!(&packet[243..249], &[0x37, 0x04, 0x01, 0x03, 0x06, 0x2a]);
    assert_eq!(packet[249], 0xff);
}

fn script_file(tags: Option<Vec<&str>>) -> ScriptFile {
    ScriptFile {
        path: None,
        tags: tags.map(|ts| ts.into_iter().map(|t| t.to_owned()).collect()),
        developer: None,
        port: None,
        ports_separator: None,
        call_format: None,
    }
}

#[test]
fn scripts_are_selected_by_tag_coverage() {
    let parsed = vec![
        script_file(Some(vec!["core_approved", "example"])),
        script_file(Some(vec!["example"])),
        script_file(None),
        script_file(Some(vec!["example", "core_approved", "extra"])),
    ];
    let required = vec!["core_approved".to_owned(), "example".to_owned()];

    let selected = select_scripts(parsed, &required);

    assert_eq!(selected.len(), 2);
    assert_eq!(
        selected[0].tags,
        Some(vec!["core_approved".to_owned(), "example".to_owned()])
    );
    assert_eq!(
        selected[1].tags,
        Some(vec![
            "example".to_owned(),
            "core_approved".to_owned(),
            "extra".to_owned()
        ])
    );
}

#[test]
fn ports_join_for_a_script_call() {
    assert_eq!(join_ports(&vec![80, 8080], ","), "80,8080");
    assert_eq!(join_ports(&vec![1], ", "), "1");
    assert_eq!(join_ports(&Vec::new(), ","), "");
}

#[test]
fn benchmark() {
    let mut benchmarks = Benchmark::init();
    let mut test_timer = NamedTimer::start("test");
    test_timer.end();
    benchmarks.push(test_timer);
    benchmarks.push(NamedTimer::start("only_start"));
    assert!(benchmarks
        .summary()
        .contains("\nRustScan Benchmark Summary\ntest       | 0."));
    assert!(!benchmarks.summary().contains("only_start"));
}
