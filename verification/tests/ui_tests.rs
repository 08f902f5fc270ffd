use gos3lih::ipc::{PolicyPayload, StatsDto};
use gos3lih::state::{DeviceInfo, DevicePolicy, SharedState};
use gos3lih::ui::{apply_update, check_update, get_devices, get_stats, set_policy, trigger_scan, DeviceDto};
use gos3lih::updater::{UpdateInfo, UpdateState};

const MAC_A: [u8; 6] = [0x10, 0x20, 0x30, 0x40, 0x50, 0x60];
const IP_A: u32 = 0x0A00_0005;

#[test]
fn window_dto_shows_limits_in_kbps() {
    let mut d = DeviceInfo::new(MAC_A, IP_A, 0);
    d.policy = DevicePolicy::Throttle { download_bps: 125_000, upload_bps: 62_500 };
    let dto = DeviceDto::from_device(&d);
    assert_eq!(dto.mac, "10:20:30:40:50:60");
    assert_eq!(dto.ip, "10.0.0.5");
    assert_eq!(dto.policy, "throttle");
    assert_eq!(dto.download_limit_kbps, Some(1000));
    assert_eq!(dto.upload_limit_kbps, Some(500));
}

#[test]
fn window_set_policy_round_trips_limits() {
    let mut s = SharedState::new();
    s.upsert_device(MAC_A, IP_A, 1);
    let r = set_policy(&mut s, "10:20:30:40:50:60", PolicyPayload::Throttle { download_kbps: 777, upload_kbps: 3 });
    assert_eq!(r, Ok(()));
    let v = get_devices(&s);
    assert_eq!(v.len(), 1);
    assert_eq!(v[0].download_limit_kbps, Some(777));
    assert_eq!(v[0].upload_limit_kbps, Some(3));
}

#[test]
fn window_set_policy_with_bad_mac_fails() {
    let mut s = SharedState::new();
    s.upsert_device(MAC_A, IP_A, 1);
    assert_eq!(set_policy(&mut s, "10-20-30-40-50-60", PolicyPayload::Block), Err("Invalid MAC: 10-20-30-40-50-60".to_string()));
    assert_eq!(s.policy_for_ip(&IP_A), Some(DevicePolicy::Allow));
}

#[test]
fn largest_limits_are_listed_without_overflow() {
    let mut s = SharedState::new();
    s.upsert_device(MAC_A, IP_A, 1);
    s.set_policy(&MAC_A, DevicePolicy::Throttle { download_bps: u64::MAX, upload_bps: 1 });
    let v = get_devices(&s);
    assert_eq!(v[0].download_limit_kbps, Some(147_573_952_589_676_412));
    assert_eq!(v[0].upload_limit_kbps, Some(0));
}

#[test]
fn window_scan_and_stats() {
    let mut s = SharedState::new();
    assert!(s.take_scan_request());
    assert_eq!(trigger_scan(&mut s), Ok(()));
    assert!(s.take_scan_request());
    s.upsert_device(MAC_A, IP_A, 1);
    s.record_upload(&IP_A, 99, 2);
    assert_eq!(get_stats(&s), StatsDto { total_download_bytes: 0, total_upload_bytes: 99, device_count: 1 });
}

#[test]
fn window_update_commands() {
    let mut us = UpdateState::new();
    let info = check_update(&us);
    assert!(!info.available);
    assert_eq!(info.current_version, "0.1.0");
    assert_eq!(apply_update(&us), Err("No update available".to_string()));
    us.record_check(Some(UpdateInfo {
        available: true,
        current_version: "0.1.0".to_string(),
        latest_version: "0.2.0".to_string(),
        download_url: "https://example.invalid/Gos3lih.zip".to_string(),
        release_notes: String::new(),
    }));
    assert_eq!(check_update(&us).latest_version, "0.2.0");
    assert_eq!(apply_update(&us), Ok("https://example.invalid/Gos3lih.zip".to_string()));
}
