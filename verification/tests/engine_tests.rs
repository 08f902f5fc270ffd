use gos3lih::engine::{handle_packet, PacketVerdict};
use gos3lih::state::{DevicePolicy, SharedState};
use gos3lih::throttle::BucketRegistry;

const LOCAL_MAC: [u8; 6] = [2, 0, 0, 0, 0, 1];
const LOCAL_IP: u32 = 0xC0A8_0114; // 192.168.1.20
const REMOTE_IP: u32 = 0x0808_0808; // 8.8.8.8

fn packet(src: u32, dst: u32, len: usize) -> Vec<u8> {
    let mut p = vec![0u8; len];
    p[0] = 0x45;
    p[12..16].copy_from_slice(&src.to_be_bytes());
    p[16..20].copy_from_slice(&dst.to_be_bytes());
    p
}

fn state_with(policy: DevicePolicy) -> SharedState {
    let mut s = SharedState::new();
    s.upsert_device(LOCAL_MAC, LOCAL_IP, 0);
    s.set_policy(&LOCAL_MAC, policy);
    s
}

#[test]
fn non_ipv4_passes_untouched() {
    let mut s = state_with(DevicePolicy::Block);
    let mut b = BucketRegistry::new();
    let mut p = packet(REMOTE_IP, LOCAL_IP, 40);
    p[0] = 0x60;
    assert_eq!(handle_packet(&mut s, &mut b, &p, 0), PacketVerdict::Passthrough);
    assert_eq!(s.snapshot_devices()[0].download_bytes, 0);
}

#[test]
fn blocked_device_traffic_is_dropped_both_ways() {
    let mut s = state_with(DevicePolicy::Block);
    let mut b = BucketRegistry::new();
    assert_eq!(handle_packet(&mut s, &mut b, &packet(REMOTE_IP, LOCAL_IP, 60), 0), PacketVerdict::Drop { delay_ns: 0 });
    assert_eq!(handle_packet(&mut s, &mut b, &packet(LOCAL_IP, REMOTE_IP, 60), 0), PacketVerdict::Drop { delay_ns: 0 });
    let d = &s.snapshot_devices()[0];
    assert_eq!(d.download_bytes, 0);
    assert_eq!(d.upload_bytes, 0);
}

#[test]
fn allowed_device_traffic_is_counted_and_passes_at_once() {
    let mut s = state_with(DevicePolicy::Allow);
    let mut b = BucketRegistry::new();
    assert_eq!(handle_packet(&mut s, &mut b, &packet(REMOTE_IP, LOCAL_IP, 100), 0), PacketVerdict::Reinject { delay_ns: 0 });
    assert_eq!(handle_packet(&mut s, &mut b, &packet(LOCAL_IP, REMOTE_IP, 30), 0), PacketVerdict::Reinject { delay_ns: 0 });
    let d = &s.snapshot_devices()[0];
    assert_eq!(d.download_bytes, 100);
    assert_eq!(d.upload_bytes, 30);
}

#[test]
fn unknown_addresses_pass_uncounted() {
    let mut s = SharedState::new();
    let mut b = BucketRegistry::new();
    assert_eq!(handle_packet(&mut s, &mut b, &packet(REMOTE_IP, LOCAL_IP, 100), 0), PacketVerdict::Reinject { delay_ns: 0 });
    assert!(b.get(LOCAL_IP, gos3lih::throttle::Direction::Download).is_none());
}

#[test]
fn throttled_traffic_is_delayed_not_dropped() {
    let mut s = state_with(DevicePolicy::Throttle { download_bps: 1000, upload_bps: 1000 });
    let mut b = BucketRegistry::new();
    // Within the 64 KiB burst: at once.
    assert_eq!(handle_packet(&mut s, &mut b, &packet(REMOTE_IP, LOCAL_IP, 100), 0), PacketVerdict::Reinject { delay_ns: 0 });
    // 70000 more bytes: 65436 in the bucket, 4564 bytes short at 1000 bytes per second.
    assert_eq!(
        handle_packet(&mut s, &mut b, &packet(REMOTE_IP, LOCAL_IP, 70_000), 0),
        PacketVerdict::Reinject { delay_ns: 4_564_000_000 }
    );
    assert_eq!(s.snapshot_devices()[0].download_bytes, 70_100);
}
