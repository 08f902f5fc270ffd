use gos3lih::state::{DeviceInfo, DevicePolicy, SharedState};

const MAC_A: [u8; 6] = [0xaa, 0xbb, 0xcc, 0xdd, 0xee, 0x01];
const MAC_B: [u8; 6] = [0xaa, 0xbb, 0xcc, 0xdd, 0xee, 0x02];
const IP_A: u32 = 0xC0A8_0114; // 192.168.1.20
const IP_B: u32 = 0xC0A8_0115; // 192.168.1.21

#[test]
fn new_state_is_empty_and_wants_a_scan() {
    let mut s = SharedState::new();
    assert!(!s.is_shutdown());
    assert_eq!(s.subnet(), (0xC0A8_0100, 24));
    assert_eq!(s.gateway_ip(), None);
    assert!(s.snapshot_devices().is_empty());
    assert!(s.take_scan_request());
    assert!(!s.take_scan_request());
    s.request_scan();
    assert!(s.take_scan_request());
}

#[test]
fn shutdown_is_sticky() {
    let mut s = SharedState::new();
    s.request_shutdown();
    assert!(s.is_shutdown());
    s.request_shutdown();
    assert!(s.is_shutdown());
}

#[test]
fn subnet_can_be_set() {
    let mut s = SharedState::new();
    s.set_subnet(0x0A00_0000, 8);
    assert_eq!(s.subnet(), (0x0A00_0000, 8));
}

#[test]
fn device_new_is_allowed_and_unnamed() {
    let d = DeviceInfo::new(MAC_A, IP_A, 7);
    assert_eq!(d.policy, DevicePolicy::Allow);
    assert_eq!(d.hostname, "");
    assert_eq!(d.download_bytes, 0);
    assert_eq!(d.upload_bytes, 0);
    assert_eq!(d.last_seen, Some(7));
    assert_eq!(d.mac_string(), "AA:BB:CC:DD:EE:01");
}

#[test]
fn default_policy_is_allow() {
    assert_eq!(DevicePolicy::default(), DevicePolicy::Allow);
}

#[test]
fn upsert_then_policy_lookup() {
    let mut s = SharedState::new();
    assert_eq!(s.policy_for_ip(&IP_A), None);
    s.upsert_device(MAC_A, IP_A, 1);
    assert_eq!(s.policy_for_ip(&IP_A), Some(DevicePolicy::Allow));
    s.set_policy(&MAC_A, DevicePolicy::Block);
    assert_eq!(s.policy_for_ip(&IP_A), Some(DevicePolicy::Block));
    assert_eq!(s.policy_for_ip(&IP_B), None);
}

#[test]
fn upsert_keeps_policy_and_counters_of_known_device() {
    let mut s = SharedState::new();
    s.upsert_device(MAC_A, IP_A, 1);
    s.set_policy(&MAC_A, DevicePolicy::Throttle { download_bps: 1000, upload_bps: 2000 });
    s.record_download(&IP_A, 300, 2);
    s.upsert_device(MAC_A, IP_B, 3);
    let devices = s.snapshot_devices();
    assert_eq!(devices.len(), 1);
    let d = &devices[0];
    assert_eq!(d.ip, IP_B);
    assert_eq!(d.policy, DevicePolicy::Throttle { download_bps: 1000, upload_bps: 2000 });
    assert_eq!(d.download_bytes, 300);
    assert_eq!(d.last_seen, Some(3));
    assert_eq!(s.policy_for_ip(&IP_B), Some(DevicePolicy::Throttle { download_bps: 1000, upload_bps: 2000 }));
}

#[test]
fn set_policy_of_unknown_device_changes_nothing() {
    let mut s = SharedState::new();
    s.upsert_device(MAC_A, IP_A, 1);
    s.set_policy(&MAC_B, DevicePolicy::Block);
    assert_eq!(s.policy_for_ip(&IP_A), Some(DevicePolicy::Allow));
    assert_eq!(s.snapshot_devices().len(), 1);
}

#[test]
fn counters_add_up_and_saturate() {
    let mut s = SharedState::new();
    s.upsert_device(MAC_A, IP_A, 1);
    s.record_download(&IP_A, 100, 2);
    s.record_download(&IP_A, 50, 3);
    s.record_upload(&IP_A, 7, 4);
    s.record_download(&IP_B, 1_000, 5);
    let d = &s.snapshot_devices()[0];
    assert_eq!(d.download_bytes, 150);
    assert_eq!(d.upload_bytes, 7);
    assert_eq!(d.last_seen, Some(4));
    s.record_upload(&IP_A, u64::MAX, 6);
    assert_eq!(s.snapshot_devices()[0].upload_bytes, u64::MAX);
    assert_eq!(s.policy_for_ip(&IP_A), Some(DevicePolicy::Allow));
}

#[test]
fn snapshot_lists_each_device_once() {
    let mut s = SharedState::new();
    s.upsert_device(MAC_A, IP_A, 1);
    s.upsert_device(MAC_B, IP_B, 1);
    s.upsert_device(MAC_A, IP_A, 2);
    let mut macs: Vec<[u8; 6]> = s.snapshot_devices().iter().map(|d| d.mac).collect();
    macs.sort();
    assert_eq!(macs, vec![MAC_A, MAC_B]);
    let mut addrs = s.device_addresses();
    addrs.sort();
    assert_eq!(addrs, vec![(MAC_A, IP_A), (MAC_B, IP_B)]);
}

#[test]
fn hostnames_are_adopted_once_known() {
    let mut s = SharedState::new();
    assert!(s.hostname_missing(&MAC_A));
    assert!(!s.adopt_hostname(&MAC_A, "laptop".to_string()));
    s.upsert_device(MAC_A, IP_A, 1);
    assert!(s.hostname_missing(&MAC_A));
    assert!(!s.adopt_hostname(&MAC_A, String::new()));
    assert!(s.adopt_hostname(&MAC_A, "laptop".to_string()));
    assert!(!s.hostname_missing(&MAC_A));
    assert_eq!(s.snapshot_devices()[0].hostname, "laptop");
}

#[test]
fn no_operation_clears_shutdown() {
    let mut s = SharedState::new();
    s.request_shutdown();
    s.upsert_device(MAC_A, IP_A, 1);
    s.set_policy(&MAC_A, DevicePolicy::Block);
    s.record_download(&IP_A, 1, 2);
    s.request_scan();
    s.take_scan_request();
    s.set_subnet(0, 8);
    s.adopt_hostname(&MAC_A, "x".to_string());
    assert!(s.is_shutdown());
}
