use gos3lih::discovery::{
    clean_name, count_ones, detect_local_network, netbios_name, netbios_status_query, network_plan,
    parse_arp_table, parse_win_mac, pick_interface, probe_targets, strip_port_suffix, subnet_hosts,
    InterfaceFacts,
};
use gos3lih::state::SharedState;

const IPCONFIG: &str = "\r\nWindows IP Configuration\r\n\r\n\r\nEthernet adapter Ethernet:\r\n\r\n   \
Connection-specific DNS Suffix  . : home\r\n   IPv4 Address. . . . . . . . . . . : 192.168.1.42\r\n   \
Subnet Mask . . . . . . . . . . . : 255.255.0.0\r\n   Default Gateway . . . . . . . . . : 192.168.1.1\r\n";

#[test]
fn local_network_from_ipconfig() {
    assert_eq!(detect_local_network(IPCONFIG), Some((0xC0A8_012A, 16)));
}

#[test]
fn public_address_is_ignored() {
    let text = "IPv4 Address. . . : 8.8.8.8\nSubnet Mask . . . : 255.255.255.0\n";
    assert_eq!(detect_local_network(text), None);
}

#[test]
fn address_without_mask_counts_as_slash_24() {
    let text = "Wireless LAN adapter Wi-Fi:\n   IPv4 Address. . . . : 10.0.0.7\n";
    assert_eq!(detect_local_network(text), Some((0x0A00_0007, 24)));
}

#[test]
fn mask_before_any_address_is_skipped() {
    let text = "Subnet Mask . . : 255.255.255.128\nIP Address. . : 172.16.5.4\nSubnet Mask . . : 255.255.255.192\n";
    assert_eq!(detect_local_network(text), Some((0xAC10_0504, 26)));
}

#[test]
fn network_plan_masks_the_address() {
    assert_eq!(network_plan(0xC0A8_012A, 24), (0xC0A8_0100, 256));
    assert_eq!(network_plan(0xC0A8_012A, 16), (0xC0A8_0000, 65_536));
    assert_eq!(network_plan(0xC0A8_012A, 32), (0xC0A8_012A, 1));
    assert_eq!(subnet_hosts(30), 4);
    assert_eq!(subnet_hosts(32), 1);
    assert_eq!(count_ones(0xFFFF_FF00), 24);
    assert_eq!(count_ones(0), 0);
}

#[test]
fn probe_targets_skip_network_address_and_stop_at_255() {
    let t = probe_targets(0xC0A8_0100, 256);
    assert_eq!(t.len(), 254);
    assert_eq!(t[0], 0xC0A8_0101);
    assert_eq!(t[253], 0xC0A8_01FE);
    assert_eq!(probe_targets(0x0A00_0000, 4), vec![0x0A00_0001, 0x0A00_0002, 0x0A00_0003]);
    assert!(probe_targets(0x0A00_0000, 1).is_empty());
}

const ARP_TABLE: &str = "\r\nInterface: 192.168.1.42 --- 0x7\r\n  Internet Address      Physical Address      Type\r\n  \
192.168.1.1           aa-bb-cc-00-11-22     dynamic   \r\n  192.168.1.42          00-00-00-00-00-01     dynamic   \r\n  \
192.168.1.50          10-20-30-40-50-60     dynamic   \r\n  192.168.1.255         ff-ff-ff-ff-ff-ff     static    \r\n  \
192.168.1.254         ff-ff-ff-ff-ff-ff     dynamic   \r\n  224.0.0.22            01-00-5e-00-00-16     static    \r\n";

#[test]
fn arp_table_adds_dynamic_entries() {
    let mut s = SharedState::new();
    let n = parse_arp_table(&mut s, ARP_TABLE, 0xC0A8_012A, 9);
    assert_eq!(n, 2);
    let mut addrs = s.device_addresses();
    addrs.sort();
    assert_eq!(addrs, vec![([0x10, 0x20, 0x30, 0x40, 0x50, 0x60], 0xC0A8_0132), ([0xaa, 0xbb, 0xcc, 0x00, 0x11, 0x22], 0xC0A8_0101)]);
}

#[test]
fn win_mac_uses_dashes() {
    assert_eq!(parse_win_mac("aa-bb-cc-00-11-22"), Some([0xaa, 0xbb, 0xcc, 0x00, 0x11, 0x22]));
    assert_eq!(parse_win_mac("aa:bb:cc:00:11:22"), None);
    assert_eq!(parse_win_mac("aa-bb-cc-00-11"), None);
}

#[test]
fn netbios_query_bytes() {
    let q = netbios_status_query();
    assert_eq!(q.len(), 50);
    assert_eq!(&q[0..2], &[0x00, 0x01]);
    assert_eq!(q[12], 0x20);
    assert_eq!(&q[13..15], &[0x43, 0x4B]);
    assert_eq!(&q[46..50], &[0x00, 0x21, 0x00, 0x01]);
}

fn status_reply(names: u8, name: &[u8; 15]) -> Vec<u8> {
    let mut buf = vec![0u8; 1024];
    buf[56] = names;
    buf[57..72].copy_from_slice(name);
    buf
}

#[test]
fn netbios_name_from_reply() {
    let buf = status_reply(1, b"DESKTOP-7Q     ");
    assert_eq!(netbios_name(&buf, 90), "DESKTOP-7Q");
    assert_eq!(netbios_name(&buf, 75), "DESKTOP-7Q");
}

#[test]
fn netbios_name_decodes_lossily() {
    let buf = status_reply(1, b"\xffPRINTER       ");
    assert_eq!(netbios_name(&buf, 90), "\u{FFFD}PRINTER");
}

#[test]
fn netbios_name_needs_a_full_entry() {
    let buf = status_reply(1, b"DESKTOP-7Q     ");
    assert_eq!(netbios_name(&buf, 74), "");
    assert_eq!(netbios_name(&buf, 57), "");
    let none = status_reply(0, b"DESKTOP-7Q     ");
    assert_eq!(netbios_name(&none, 90), "");
}

#[test]
fn names_are_trimmed() {
    assert_eq!(clean_name("  NAS \u{0}"), "NAS \u{0}");
    assert_eq!(clean_name("\tNAS  "), "NAS");
}

#[test]
fn port_suffix_is_stripped() {
    assert_eq!(strip_port_suffix("192.168.1.5:0"), "192.168.1.5");
    assert_eq!(strip_port_suffix("host:0:0"), "host");
    assert_eq!(strip_port_suffix("host:80"), "host:80");
}

#[test]
fn first_usable_interface() {
    let lo = InterfaceFacts { is_up: true, is_loopback: true, has_mac: false, has_ipv4: true };
    let down = InterfaceFacts { is_up: false, is_loopback: false, has_mac: true, has_ipv4: true };
    let v6 = InterfaceFacts { is_up: true, is_loopback: false, has_mac: true, has_ipv4: false };
    let eth = InterfaceFacts { is_up: true, is_loopback: false, has_mac: true, has_ipv4: true };
    assert_eq!(pick_interface(&vec![lo, down, v6, eth, eth]), Some(3));
    assert_eq!(pick_interface(&vec![lo, down, v6]), None);
}

use gos3lih::discovery::{detect_network_in_output, naming_step, read_arp_output, NamingStep};

#[test]
fn raw_outputs_are_decoded_then_read() {
    assert_eq!(detect_network_in_output(IPCONFIG.as_bytes()), Some((0xC0A8_012A, 16)));
    let mut bytes = b"IPv4 Address. . : 10.1.2.3 \xff\n".to_vec();
    bytes.extend_from_slice(b"Subnet Mask . . : 255.0.0.0\n");
    assert_eq!(detect_network_in_output(&bytes), None);
    let mut s = SharedState::new();
    assert_eq!(read_arp_output(&mut s, ARP_TABLE.as_bytes(), 0xC0A8_012A, 9), 2);
}

#[test]
fn naming_asks_netbios_then_dns() {
    let mac = [1, 2, 3, 4, 5, 6];
    let mut s = SharedState::new();
    s.upsert_device(mac, 0x0A00_0002, 0);
    assert_eq!(naming_step(&mut s, &mac, None, None), NamingStep::AskNetbios);
    assert_eq!(naming_step(&mut s, &mac, Some(String::new()), None), NamingStep::AskDns);
    assert_eq!(naming_step(&mut s, &mac, Some(String::new()), Some("10.0.0.2".to_string())), NamingStep::Finished);
    assert!(!s.hostname_missing(&mac));
    assert_eq!(naming_step(&mut s, &mac, None, None), NamingStep::Finished);
    assert_eq!(s.snapshot_devices()[0].hostname, "10.0.0.2");
}

#[test]
fn netbios_name_is_taken_without_dns() {
    let mac = [1, 2, 3, 4, 5, 7];
    let mut s = SharedState::new();
    s.upsert_device(mac, 0x0A00_0003, 0);
    assert_eq!(naming_step(&mut s, &mac, Some("NAS".to_string()), None), NamingStep::Finished);
    assert_eq!(s.snapshot_devices()[0].hostname, "NAS");
}
