use gos3lih::frames::{arp_reply_sender, build_arp_request, record_arp_reply};
use gos3lih::state::SharedState;

const SRC_MAC: [u8; 6] = [0x02, 0x11, 0x22, 0x33, 0x44, 0x55];

#[test]
fn arp_request_layout() {
    let f = build_arp_request(SRC_MAC, 0xC0A8_012A, 0xC0A8_0107);
    let expected: Vec<u8> = vec![
        0xff, 0xff, 0xff, 0xff, 0xff, 0xff, 0x02, 0x11, 0x22, 0x33, 0x44, 0x55, 0x08, 0x06, // Ethernet
        0x00, 0x01, 0x08, 0x00, 6, 4, 0x00, 0x01, // Ethernet/IPv4, request
        0x02, 0x11, 0x22, 0x33, 0x44, 0x55, 192, 168, 1, 42, // sender
        0, 0, 0, 0, 0, 0, 192, 168, 1, 7, // target
    ];
    assert_eq!(f, expected);
}

fn reply_from(mac: [u8; 6], ip: [u8; 4]) -> Vec<u8> {
    let mut f = vec![0u8; 60];
    f[0..6].copy_from_slice(&SRC_MAC);
    f[6..12].copy_from_slice(&mac);
    f[12] = 0x08;
    f[13] = 0x06;
    f[14..22].copy_from_slice(&[0x00, 0x01, 0x08, 0x00, 6, 4, 0x00, 0x02]);
    f[22..28].copy_from_slice(&mac);
    f[28..32].copy_from_slice(&ip);
    f
}

#[test]
fn reply_sender_is_read() {
    let f = reply_from([0xde, 0xad, 0xbe, 0xef, 0x00, 0x01], [192, 168, 1, 9]);
    let s = arp_reply_sender(&f).expect("reply");
    assert_eq!(s.mac, [0xde, 0xad, 0xbe, 0xef, 0x00, 0x01]);
    assert_eq!(s.ip, 0xC0A8_0109);
}

#[test]
fn requests_and_other_frames_are_no_replies() {
    assert!(arp_reply_sender(&build_arp_request(SRC_MAC, 1, 2)).is_none());
    let mut f = reply_from([1, 2, 3, 4, 5, 6], [10, 0, 0, 1]);
    f[13] = 0x00; // IPv4, not ARP
    assert!(arp_reply_sender(&f).is_none());
    let short = reply_from([1, 2, 3, 4, 5, 6], [10, 0, 0, 1])[..41].to_vec();
    assert!(arp_reply_sender(&short).is_none());
}

#[test]
fn replies_add_devices() {
    let mut s = SharedState::new();
    assert!(record_arp_reply(&mut s, &reply_from([1, 2, 3, 4, 5, 6], [10, 0, 0, 1]), 3));
    assert!(!record_arp_reply(&mut s, &build_arp_request(SRC_MAC, 1, 2), 4));
    assert_eq!(s.device_addresses(), vec![([1, 2, 3, 4, 5, 6], 0x0A00_0001)]);
}
