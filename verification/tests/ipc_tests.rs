use gos3lih::ipc::error_reply_message;
use gos3lih::ipc::{
    current_stats, device_dtos, device_totals, parse_mac, payload_to_policy, process_request, DeviceDto,
    IpcRequest, IpcResponse, PolicyPayload, ResponseData, StatsDto,
};
use gos3lih::state::{DeviceInfo, DevicePolicy, SharedState};

const MAC_A: [u8; 6] = [0xaa, 0xbb, 0xcc, 0xdd, 0xee, 0xff];
const IP_A: u32 = 0xC0A8_0114;

fn one_device_state() -> SharedState {
    let mut s = SharedState::new();
    s.upsert_device(MAC_A, IP_A, 1);
    s
}

#[test]
fn parse_mac_accepts_colon_hex() {
    assert_eq!(parse_mac("AA:BB:CC:DD:EE:FF"), Some(MAC_A));
    assert_eq!(parse_mac("aa:bb:cc:dd:ee:ff"), Some(MAC_A));
    assert_eq!(parse_mac("0:1:2:3:4:5"), Some([0, 1, 2, 3, 4, 5]));
    assert_eq!(parse_mac("+a:bb:cc:dd:ee:ff"), Some([0x0a, 0xbb, 0xcc, 0xdd, 0xee, 0xff]));
}

#[test]
fn parse_mac_rejects_malformed() {
    for bad in ["", "AA:BB:CC:DD:EE", "AA:BB:CC:DD:EE:FF:00", "AA-BB-CC-DD-EE-FF", "AA:BB:CC:DD:EE:GG",
        "AA:BB:CC:DD:EE:100", "AA::CC:DD:EE:FF"] {
        assert_eq!(parse_mac(bad), None, "{bad}");
    }
}

#[test]
fn payload_limits_convert_to_bytes_per_second() {
    assert_eq!(payload_to_policy(PolicyPayload::Allow), DevicePolicy::Allow);
    assert_eq!(payload_to_policy(PolicyPayload::Block), DevicePolicy::Block);
    assert_eq!(
        payload_to_policy(PolicyPayload::Throttle { download_kbps: 1000, upload_kbps: 500 }),
        DevicePolicy::Throttle { download_bps: 125_000, upload_bps: 62_500 }
    );
    assert_eq!(
        payload_to_policy(PolicyPayload::Throttle { download_kbps: 1, upload_kbps: 3 }),
        DevicePolicy::Throttle { download_bps: 125, upload_bps: 375 }
    );
}

#[test]
fn service_dto_shows_limits_in_kbps() {
    let mut d = DeviceInfo::new(MAC_A, IP_A, 0);
    d.policy = DevicePolicy::Throttle { download_bps: 125_000, upload_bps: 62_500 };
    d.hostname = "tv".to_string();
    let dto = DeviceDto::from_device(&d);
    assert_eq!(dto.mac, "AA:BB:CC:DD:EE:FF");
    assert_eq!(dto.ip, "192.168.1.20");
    assert_eq!(dto.hostname, "tv");
    assert_eq!(dto.policy, "throttle");
    assert_eq!(dto.download_limit_kbps, Some(1000));
    assert_eq!(dto.upload_limit_kbps, Some(500));
    d.policy = DevicePolicy::Block;
    let dto = DeviceDto::from_device(&d);
    assert_eq!(dto.policy, "block");
    assert_eq!(dto.download_limit_kbps, None);
    assert_eq!(dto.upload_limit_kbps, None);
}

#[test]
fn listed_limits_are_those_set() {
    let mut s = one_device_state();
    let req = IpcRequest::SetPolicy {
        mac: "AA:BB:CC:DD:EE:FF".to_string(),
        policy: PolicyPayload::Throttle { download_kbps: 100, upload_kbps: 4 },
    };
    assert!(matches!(process_request(req, &mut s), IpcResponse::Success { data: ResponseData::Applied }));
    let mut d = DeviceInfo::new(MAC_A, IP_A, 0);
    d.policy = DevicePolicy::Throttle { download_bps: 12_500, upload_bps: 125 };
    let dto = DeviceDto::from_device(&d);
    assert_eq!((dto.download_limit_kbps, dto.upload_limit_kbps), (Some(100), Some(1)));
    match process_request(IpcRequest::GetDevices, &mut s) {
        IpcResponse::Success { data: ResponseData::Devices(v) } => {
            assert_eq!(v[0].download_limit_kbps, Some(100));
            assert_eq!(v[0].upload_limit_kbps, Some(4));
        },
        other => panic!("unexpected {other:?}"),
    }
}

#[test]
fn bad_mac_is_refused_whatever_the_limits() {
    let mut s = one_device_state();
    let req = IpcRequest::SetPolicy {
        mac: "nope".to_string(),
        policy: PolicyPayload::Throttle { download_kbps: u64::MAX, upload_kbps: u64::MAX },
    };
    match process_request(req, &mut s) {
        IpcResponse::Failure { message } => assert_eq!(message, "Invalid MAC address: nope"),
        other => panic!("unexpected {other:?}"),
    }
}

#[test]
fn get_devices_lists_every_device() {
    let mut s = one_device_state();
    match process_request(IpcRequest::GetDevices, &mut s) {
        IpcResponse::Success { data: ResponseData::Devices(v) } => {
            assert_eq!(v.len(), 1);
            assert_eq!(v[0].mac, "AA:BB:CC:DD:EE:FF");
            assert_eq!(v[0].policy, "allow");
        },
        other => panic!("unexpected {other:?}"),
    }
    assert_eq!(device_dtos(&s).len(), 1);
}

#[test]
fn set_policy_request_applies_to_the_device() {
    let mut s = one_device_state();
    let req = IpcRequest::SetPolicy {
        mac: "aa:bb:cc:dd:ee:ff".to_string(),
        policy: PolicyPayload::Throttle { download_kbps: 800, upload_kbps: 80 },
    };
    assert!(matches!(process_request(req, &mut s), IpcResponse::Success { data: ResponseData::Applied }));
    assert_eq!(s.policy_for_ip(&IP_A), Some(DevicePolicy::Throttle { download_bps: 100_000, upload_bps: 10_000 }));
}

#[test]
fn set_policy_request_with_bad_mac_fails() {
    let mut s = one_device_state();
    let req = IpcRequest::SetPolicy { mac: "zz".to_string(), policy: PolicyPayload::Block };
    match process_request(req, &mut s) {
        IpcResponse::Failure { message } => assert_eq!(message, "Invalid MAC address: zz"),
        other => panic!("unexpected {other:?}"),
    }
    assert_eq!(s.policy_for_ip(&IP_A), Some(DevicePolicy::Allow));
}

#[test]
fn scan_ping_and_stats_requests() {
    let mut s = one_device_state();
    assert!(matches!(process_request(IpcRequest::TriggerScan, &mut s), IpcResponse::Success {
        data: ResponseData::ScanTriggered
    }));
    assert!(matches!(process_request(IpcRequest::Ping, &mut s), IpcResponse::Success { data: ResponseData::Pong }));
    s.record_download(&IP_A, 1500, 2);
    s.record_upload(&IP_A, 40, 3);
    match process_request(IpcRequest::GetStats, &mut s) {
        IpcResponse::Success { data: ResponseData::Stats(st) } => assert_eq!(st, StatsDto {
            total_download_bytes: 1500,
            total_upload_bytes: 40,
            device_count: 1,
        }),
        other => panic!("unexpected {other:?}"),
    }
}

#[test]
fn stats_add_over_devices() {
    let mut s = one_device_state();
    s.upsert_device([1, 2, 3, 4, 5, 6], 0xC0A8_0101, 1);
    s.record_download(&IP_A, 10, 2);
    s.record_download(&0xC0A8_0101, 20, 2);
    s.record_upload(&0xC0A8_0101, 5, 2);
    assert!(s.totals_fit());
    assert_eq!(current_stats(&s), StatsDto { total_download_bytes: 30, total_upload_bytes: 5, device_count: 2 });
}

#[test]
fn totals_that_overflow_are_reported() {
    let mut s = one_device_state();
    s.upsert_device([1, 2, 3, 4, 5, 6], 0xC0A8_0101, 1);
    s.record_download(&IP_A, u64::MAX, 2);
    s.record_download(&0xC0A8_0101, 1, 2);
    assert!(!s.totals_fit());
    assert_eq!(device_totals(&s.snapshot_devices()), None);
}

#[test]
fn error_replies_are_read() {
    assert_eq!(error_reply_message(Some("error"), Some("Invalid MAC address: x")), Some("Invalid MAC address: x".to_string()));
    assert_eq!(error_reply_message(Some("error"), None), Some("Unknown error".to_string()));
    assert_eq!(error_reply_message(Some("ok"), Some("m")), None);
    assert_eq!(error_reply_message(None, Some("m")), None);
}
