//! The packet decisions of the data plane.
//!
//! For every intercepted packet the engine reads the IPv4 source and
//! destination, looks up the policy of each as a local device, and decides:
//! the download half (packet to a device) first, then the upload half
//! (packet from a device). `Block` drops the packet; `Throttle` counts it
//! and takes tokens from the device's bucket for that direction, waiting as
//! long as the bucket says; `Allow` counts it. Packets that are not IPv4 pass
//! untouched. The caller performs the waits and the re-injection.

use vstd::prelude::*;
use crate::net::{ipv4_addrs_spec, parse_ipv4_addrs};
use crate::state::{
    after_download, after_upload, device_of_ip, policy_of, sat_add, DevicePolicy, SharedState, StateView,
};
use crate::throttle::{
    after_consume, bucket_key, consume_result, lemma_bucket_key_injective, lemma_new_bucket_holds_a_second,
    with_bucket, BucketRegistry, BucketState, Direction, MIN_BURST,
};

verus! {

/// What to do with an intercepted packet.
#[derive(Debug, Clone, Copy, PartialEq, Eq, Structural)]
pub enum PacketVerdict {
    /// Not an IPv4 packet: re-inject it as it is.
    Passthrough,
    /// Blocked: wait `delay_ns` (the throttling already applied to it), then
    /// drop it.
    Drop { delay_ns: u64 },
    /// Wait `delay_ns`, then re-inject it.
    Reinject { delay_ns: u64 },
}

/// The state, the buckets, whether the packet was blocked, and the wait, after
/// one half of the decision.
pub struct Flow {
    pub state: StateView,
    pub buckets: Map<u64, BucketState>,
    pub blocked: bool,
    pub delay: u64,
}

/// One half of the decision for a packet of `len` bytes whose local device
/// is `ip` with policy `policy`, in direction `dir`, at time `now`.
pub open spec fn direction_step(
    st: StateView,
    bk: Map<u64, BucketState>,
    ip: u32,
    dir: Direction,
    policy: Option<DevicePolicy>,
    len: u64,
    now: u64,
) -> Flow {
    let counted = if dir is Download { after_download(st, ip, len, now) } else { after_upload(st, ip, len, now) };
    match policy {
        Some(DevicePolicy::Block) => Flow { state: st, buckets: bk, blocked: true, delay: 0 },
        Some(DevicePolicy::Throttle { download_bps, upload_bps }) => {
            let rate = if dir is Download { download_bps } else { upload_bps };
            let k = bucket_key(ip, dir);
            let mid = with_bucket(bk, k, rate as nat, now as nat);
            Flow {
                state: counted,
                buckets: mid.insert(k, after_consume(mid[k], len as nat, now as nat)),
                blocked: false,
                delay: match consume_result(mid[k], len as nat, now as nat) {
                    Ok(_) => 0,
                    Err(d) => d,
                },
            }
        },
        Some(DevicePolicy::Allow) => Flow { state: counted, buckets: bk, blocked: false, delay: 0 },
        None => Flow { state: st, buckets: bk, blocked: false, delay: 0 },
    }
}

/// The decision for the packet `data` at time `now`: the new state, the new
/// buckets and the verdict. Both policies are read before anything changes;
/// the upload half runs once the download half's wait is over.
pub open spec fn packet_outcome(st: StateView, bk: Map<u64, BucketState>, data: Seq<u8>, now: u64) -> (
    StateView,
    Map<u64, BucketState>,
    PacketVerdict,
) {
    match ipv4_addrs_spec(data) {
        None => (st, bk, PacketVerdict::Passthrough),
        Some((src, dst)) => {
            let len = data.len() as u64;
            let down = direction_step(st, bk, dst, Direction::Download, policy_of(st, dst), len, now);
            if down.blocked {
                (down.state, down.buckets, PacketVerdict::Drop { delay_ns: 0 })
            } else {
                let up = direction_step(
                    down.state,
                    down.buckets,
                    src,
                    Direction::Upload,
                    policy_of(st, src),
                    len,
                    sat_add(now, down.delay),
                );
                if up.blocked {
                    (up.state, up.buckets, PacketVerdict::Drop { delay_ns: down.delay })
                } else {
                    (up.state, up.buckets, PacketVerdict::Reinject { delay_ns: sat_add(down.delay, up.delay) })
                }
            }
        },
    }
}

fn run_direction(
    state: &mut SharedState,
    buckets: &mut BucketRegistry,
    ip: u32,
    dir: Direction,
    policy: Option<DevicePolicy>,
    len: u64,
    now_ns: u64,
) -> (res: (bool, u64))
    requires
        old(state).wf(),
    ensures
        final(state).wf(),
        ({
            let f = direction_step(old(state)@, old(buckets)@, ip, dir, policy, len, now_ns);
            &&& final(state)@ == f.state
            &&& final(buckets)@ == f.buckets
            &&& res == (f.blocked, f.delay)
        }),
{
    match policy {
        Some(DevicePolicy::Block) => (true, 0),
        Some(DevicePolicy::Throttle { download_bps, upload_bps }) => {
            let rate = match dir {
                Direction::Download => {
                    state.record_download(&ip, len, now_ns);
                    download_bps
                },
                Direction::Upload => {
                    state.record_upload(&ip, len, now_ns);
                    upload_bps
                },
            };
            match buckets.consume(ip, dir, rate, len, now_ns) {
                Ok(()) => (false, 0),
                Err(d) => (false, d),
            }
        },
        Some(DevicePolicy::Allow) => {
            match dir {
                Direction::Download => state.record_download(&ip, len, now_ns),
                Direction::Upload => state.record_upload(&ip, len, now_ns),
            }
            (false, 0)
        },
        None => (false, 0),
    }
}

/// Decides what to do with the intercepted packet `data` at time `now_ns`,
/// counting its bytes and charging the buckets of the devices it concerns.
pub fn handle_packet(state: &mut SharedState, buckets: &mut BucketRegistry, data: &[u8], now_ns: u64) -> (v: PacketVerdict)
    requires
        old(state).wf(),
    ensures
        final(state).wf(),
        (final(state)@, final(buckets)@, v) == packet_outcome(old(state)@, old(buckets)@, data@, now_ns),
{
    let (src, dst) = match parse_ipv4_addrs(data) {
        Some(addrs) => addrs,
        None => {
            return PacketVerdict::Passthrough;
        },
    };
    let len = data.len() as u64;
    let policy_dst = state.policy_for_ip(&dst);
    let policy_src = state.policy_for_ip(&src);
    let (blocked, down_delay) = run_direction(state, buckets, dst, Direction::Download, policy_dst, len, now_ns);
    if blocked {
        return PacketVerdict::Drop { delay_ns: 0 };
    }
    let later = now_ns.saturating_add(down_delay);
    let (blocked, up_delay) = run_direction(state, buckets, src, Direction::Upload, policy_src, len, later);
    if blocked {
        return PacketVerdict::Drop { delay_ns: down_delay };
    }
    PacketVerdict::Reinject { delay_ns: down_delay.saturating_add(up_delay) }
}

}

verus! {

/// The policy blocks the device.
pub open spec fn is_blocked(p: Option<DevicePolicy>) -> bool {
    p == Some(DevicePolicy::Block)
}

/// The policy throttles the device.
pub open spec fn is_throttled(p: Option<DevicePolicy>) -> bool {
    p matches Some(DevicePolicy::Throttle { .. })
}

/// A packet that is not IPv4 passes untouched and changes nothing.
pub proof fn lemma_non_ipv4_passes(st: StateView, bk: Map<u64, BucketState>, data: Seq<u8>, now: u64)
    requires
        ipv4_addrs_spec(data) is None,
    ensures
        packet_outcome(st, bk, data, now) == (st, bk, PacketVerdict::Passthrough),
{
}

/// A packet to or from a blocked device is dropped.
pub proof fn lemma_blocked_dropped(
    st: StateView,
    bk: Map<u64, BucketState>,
    data: Seq<u8>,
    now: u64,
    src: u32,
    dst: u32,
)
    requires
        ipv4_addrs_spec(data) == Some((src, dst)),
        is_blocked(policy_of(st, dst)) || is_blocked(policy_of(st, src)),
    ensures
        packet_outcome(st, bk, data, now).2 is Drop,
{
}

/// A packet that concerns no blocked device is re-injected: throttling
/// delays packets and never drops them.
pub proof fn lemma_unblocked_reinjected(
    st: StateView,
    bk: Map<u64, BucketState>,
    data: Seq<u8>,
    now: u64,
    src: u32,
    dst: u32,
)
    requires
        ipv4_addrs_spec(data) == Some((src, dst)),
        !is_blocked(policy_of(st, dst)),
        !is_blocked(policy_of(st, src)),
    ensures
        packet_outcome(st, bk, data, now).2 is Reinject,
{
}

/// A packet that concerns no blocked and no throttled device is re-injected
/// at once and leaves the buckets as they were.
pub proof fn lemma_allowed_immediate(
    st: StateView,
    bk: Map<u64, BucketState>,
    data: Seq<u8>,
    now: u64,
    src: u32,
    dst: u32,
)
    requires
        ipv4_addrs_spec(data) == Some((src, dst)),
        !is_blocked(policy_of(st, dst)),
        !is_blocked(policy_of(st, src)),
        !is_throttled(policy_of(st, dst)),
        !is_throttled(policy_of(st, src)),
    ensures
        packet_outcome(st, bk, data, now).2 == (PacketVerdict::Reinject { delay_ns: 0 }),
        packet_outcome(st, bk, data, now).1 == bk,
{
}

/// Traffic from a throttled device is charged to that device's upload
/// bucket: a packet from a device with policy `Throttle { download_bps,
/// upload_bps }`, to no blocked device, leaves the device's upload bucket in
/// place, and one that the packet creates refills at `upload_bps` and holds
/// at least `upload_bps` bytes.
pub proof fn lemma_upload_uses_upload_rate(
    st: StateView,
    bk: Map<u64, BucketState>,
    data: Seq<u8>,
    now: u64,
    src: u32,
    dst: u32,
    down: u64,
    up: u64,
)
    requires
        ipv4_addrs_spec(data) == Some((src, dst)),
        !is_blocked(policy_of(st, dst)),
        policy_of(st, src) == Some(DevicePolicy::Throttle { download_bps: down, upload_bps: up }),
    ensures
        packet_outcome(st, bk, data, now).1.contains_key(bucket_key(src, Direction::Upload)),
        !bk.contains_key(bucket_key(src, Direction::Upload)) ==> ({
            let b = packet_outcome(st, bk, data, now).1[bucket_key(src, Direction::Upload)];
            &&& b.rate == up
            &&& b.capacity >= up
            &&& b.capacity >= MIN_BURST
        }),
        bk.contains_key(bucket_key(src, Direction::Upload)) ==> ({
            let b = packet_outcome(st, bk, data, now).1[bucket_key(src, Direction::Upload)];
            let b0 = bk[bucket_key(src, Direction::Upload)];
            &&& b.rate == b0.rate
            &&& b.capacity == b0.capacity
        }),
{
    let len = data.len() as u64;
    let kd = bucket_key(dst, Direction::Download);
    let ku = bucket_key(src, Direction::Upload);
    lemma_bucket_key_injective(dst, Direction::Download, src, Direction::Upload);
    let d = direction_step(st, bk, dst, Direction::Download, policy_of(st, dst), len, now);
    assert(d.buckets.contains_key(ku) == bk.contains_key(ku));
    assert(bk.contains_key(ku) ==> d.buckets[ku] == bk[ku]);
    let t = sat_add(now, d.delay);
    lemma_new_bucket_holds_a_second(d.buckets, ku, up as nat, t as nat);
}

/// Traffic to a throttled device is charged to that device's download
/// bucket: a packet to a device with policy `Throttle { download_bps,
/// upload_bps }` leaves the device's download bucket in place, and one that
/// the packet creates refills at `download_bps` and holds at least
/// `download_bps` bytes.
pub proof fn lemma_download_uses_download_rate(
    st: StateView,
    bk: Map<u64, BucketState>,
    data: Seq<u8>,
    now: u64,
    src: u32,
    dst: u32,
    down: u64,
    up: u64,
)
    requires
        ipv4_addrs_spec(data) == Some((src, dst)),
        policy_of(st, dst) == Some(DevicePolicy::Throttle { download_bps: down, upload_bps: up }),
    ensures
        packet_outcome(st, bk, data, now).1.contains_key(bucket_key(dst, Direction::Download)),
        !bk.contains_key(bucket_key(dst, Direction::Download)) ==> ({
            let b = packet_outcome(st, bk, data, now).1[bucket_key(dst, Direction::Download)];
            &&& b.rate == down
            &&& b.capacity >= down
            &&& b.capacity >= MIN_BURST
        }),
{
    let len = data.len() as u64;
    let kd = bucket_key(dst, Direction::Download);
    lemma_new_bucket_holds_a_second(bk, kd, down as nat, now as nat);
    let d = direction_step(st, bk, dst, Direction::Download, policy_of(st, dst), len, now);
    assert(d.buckets.contains_key(kd));
    assert(!d.blocked);
    let t = sat_add(now, d.delay);
    let u = direction_step(d.state, d.buckets, src, Direction::Upload, policy_of(st, src), len, t);
    lemma_bucket_key_injective(dst, Direction::Download, src, Direction::Upload);
    assert(u.buckets.contains_key(kd) && u.buckets[kd].rate == d.buckets[kd].rate && u.buckets[kd].capacity
        == d.buckets[kd].capacity);
}

/// A packet to a device that is not blocked adds its length to that device's
/// download counter (saturating), and a packet from a device that is not
/// blocked, to none that is, adds it to that device's upload counter.
pub proof fn lemma_packets_are_counted(st: StateView, bk: Map<u64, BucketState>, data: Seq<u8>, now: u64, src: u32, dst: u32)
    requires
        ipv4_addrs_spec(data) == Some((src, dst)),
    ensures
        device_of_ip(st, dst) matches Some(m) ==> (!is_blocked(policy_of(st, dst)) ==> packet_outcome(st, bk, data, now).0.devices[m].download_bytes
            == sat_add(st.devices[m].download_bytes, data.len() as u64)),
        device_of_ip(st, src) matches Some(m) ==> (!is_blocked(policy_of(st, dst)) && !is_blocked(policy_of(st, src)) && device_of_ip(st, dst)
            != Some(m) ==> packet_outcome(st, bk, data, now).0.devices[m].upload_bytes == sat_add(
            st.devices[m].upload_bytes,
            data.len() as u64,
        )),
{
}

}
