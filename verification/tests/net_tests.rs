use gos3lih::discovery::parse_win_mac;
use gos3lih::ipc::parse_mac;
use gos3lih::net::{
    ipv4_from_octets, ipv4_octets, ipv4_to_string, is_private_ip, mac_to_string, parse_ipv4, parse_ipv4_addrs,
    parse_mac_with,
};
use gos3lih::text::chars_of;

#[test]
fn ipv4_text_is_dotted_decimal() {
    assert_eq!(ipv4_to_string(0xC0A8_0105), "192.168.1.5");
    assert_eq!(ipv4_to_string(0), "0.0.0.0");
    assert_eq!(ipv4_to_string(0xFFFF_FFFF), "255.255.255.255");
    assert_eq!(ipv4_to_string(0x0A00_0A01), "10.0.10.1");
}

#[test]
fn ipv4_octets_round_trip() {
    let ip = ipv4_from_octets(172, 16, 254, 3);
    assert_eq!(ip, 0xAC10_FE03);
    assert_eq!(ipv4_octets(ip), [172, 16, 254, 3]);
}

#[test]
fn private_ranges() {
    assert!(is_private_ip(ipv4_from_octets(10, 1, 2, 3)));
    assert!(is_private_ip(ipv4_from_octets(172, 16, 0, 1)));
    assert!(is_private_ip(ipv4_from_octets(172, 31, 255, 255)));
    assert!(!is_private_ip(ipv4_from_octets(172, 32, 0, 1)));
    assert!(!is_private_ip(ipv4_from_octets(172, 15, 0, 1)));
    assert!(is_private_ip(ipv4_from_octets(192, 168, 0, 1)));
    assert!(!is_private_ip(ipv4_from_octets(192, 169, 0, 1)));
    assert!(!is_private_ip(ipv4_from_octets(8, 8, 8, 8)));
}

#[test]
fn parse_ipv4_accepts_dotted_quads() {
    let cs = chars_of("192.168.1.10");
    assert_eq!(parse_ipv4(&cs), Some(0xC0A8_010A));
    let cs = chars_of("0.0.0.0");
    assert_eq!(parse_ipv4(&cs), Some(0));
    let cs = chars_of("255.255.255.0");
    assert_eq!(parse_ipv4(&cs), Some(0xFFFF_FF00));
}

#[test]
fn parse_ipv4_rejects_malformed() {
    for bad in ["256.1.1.1", "1.2.3", "1.2.3.4.5", "01.2.3.4", "a.b.c.d", "", "1..2.3", " 1.2.3.4"] {
        let cs = chars_of(bad);
        assert_eq!(parse_ipv4(&cs), None, "{bad}");
    }
}

#[test]
fn mac_text_is_uppercase_hex() {
    assert_eq!(mac_to_string(&[0xaa, 0xbb, 0xcc, 0x01, 0x02, 0x03]), "AA:BB:CC:01:02:03");
    assert_eq!(mac_to_string(&[0, 0, 0, 0, 0, 0]), "00:00:00:00:00:00");
}

#[test]
fn mac_text_parses_back() {
    let mac = [0x00, 0x1a, 0x2b, 0xfe, 0x80, 0x09];
    let text = mac_to_string(&mac);
    assert_eq!(parse_mac_with(&text, ':'), Some(mac));
}

#[test]
fn parse_mac_with_dash_separator() {
    assert_eq!(parse_mac_with("aa-bb-cc-dd-ee-ff", '-'), Some([0xaa, 0xbb, 0xcc, 0xdd, 0xee, 0xff]));
    assert_eq!(parse_mac_with("aa:bb:cc:dd:ee:ff", '-'), None);
}

#[test]
fn ipv4_header_addresses() {
    let mut pkt = vec![0u8; 20];
    pkt[0] = 0x45;
    pkt[12..16].copy_from_slice(&[192, 168, 1, 20]);
    pkt[16..20].copy_from_slice(&[8, 8, 4, 4]);
    assert_eq!(parse_ipv4_addrs(&pkt), Some((0xC0A8_0114, 0x0808_0404)));
}

#[test]
fn non_ipv4_headers_are_refused() {
    let mut pkt = vec![0u8; 40];
    pkt[0] = 0x60;
    assert_eq!(parse_ipv4_addrs(&pkt), None);
    let short = vec![0x45u8; 19];
    assert_eq!(parse_ipv4_addrs(&short), None);
}

#[test]
fn parsed_mac_prints_uppercase() {
    let m = parse_mac("0a:bB:cc:1d:e0:ff").unwrap();
    assert_eq!(mac_to_string(&m), "0A:BB:CC:1D:E0:FF");
}

#[test]
fn dash_and_colon_macs_agree() {
    for s in ["aa-bb-cc-dd-ee-ff", "0-1-2-3-4-5", "aa-bb", "zz-bb-cc-dd-ee-ff"] {
        assert_eq!(parse_win_mac(s), parse_mac(&s.replace('-', ":")), "{s}");
    }
}
