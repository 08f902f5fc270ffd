//! The control channel between the user interface and the service: its
//! requests and responses, and what the service does for each request.
//!
//! Requests and responses travel as newline-delimited JSON; the caller
//! turns JSON into `IpcRequest` values and `IpcResponse` values into JSON.

use vstd::prelude::*;
use crate::discovery::chars_equal;
use crate::text::chars_of;
use crate::net::{ipv4_text, ipv4_to_string, mac_from_text, mac_text, mac_text_ok, parse_mac_with, MacAddr};
use crate::state::{
    after_set_policy, download_of, lists_devices, sum_by, totals_fit, upload_of,
    lemma_listing_sum_invariant, DeviceInfo, DevicePolicy, DeviceView, SharedState, StateView,
};

verus! {

/// A policy as the user interface sends it, with limits in kilobits per
/// second.
#[derive(Debug, Clone, Copy, PartialEq, Eq, Structural)]
pub enum PolicyPayload {
    Allow,
    Throttle { download_kbps: u64, upload_kbps: u64 },
    Block,
}

/// `kbps` kilobits per second in bytes per second, as `kbps * 1000 / 8`.
pub open spec fn kbps_to_bps(kbps: u64) -> u64 {
    (kbps as int * 1000 / 8) as u64
}

/// The limits of `p` can be converted without overflow.
pub open spec fn payload_in_range(p: PolicyPayload) -> bool {
    p matches PolicyPayload::Throttle { download_kbps, upload_kbps } ==> download_kbps as int * 1000
        <= u64::MAX && upload_kbps as int * 1000 <= u64::MAX
}

/// The device policy that `p` asks for.
pub open spec fn policy_of_payload(p: PolicyPayload) -> DevicePolicy {
    match p {
        PolicyPayload::Allow => DevicePolicy::Allow,
        PolicyPayload::Throttle { download_kbps, upload_kbps } => DevicePolicy::Throttle {
            download_bps: kbps_to_bps(download_kbps),
            upload_bps: kbps_to_bps(upload_kbps),
        },
        PolicyPayload::Block => DevicePolicy::Block,
    }
}

/// The device policy that the payload asks for, limits converted from
/// kilobits to bytes per second.
pub fn payload_to_policy(p: PolicyPayload) -> (d: DevicePolicy)
    requires
        payload_in_range(p),
    ensures
        d == policy_of_payload(p),
{
    match p {
        PolicyPayload::Allow => DevicePolicy::Allow,
        PolicyPayload::Throttle { download_kbps, upload_kbps } => DevicePolicy::Throttle {
            download_bps: download_kbps * 1000 / 8,
            upload_bps: upload_kbps * 1000 / 8,
        },
        PolicyPayload::Block => DevicePolicy::Block,
    }
}

/// A limit of `k` kilobits per second that converts is `125 * k` bytes per
/// second.
pub proof fn lemma_kbps_to_bps(k: u64)
    requires
        k as int * 1000 <= u64::MAX,
    ensures
        kbps_to_bps(k) as int == 125 * k,
{
    assert(k as int * 1000 / 8 == 125 * k) by (nonlinear_arith);
}

/// A request from the user interface.
#[derive(Debug, Clone)]
pub enum IpcRequest {
    /// List the discovered devices.
    GetDevices,
    /// Set the policy of the device with MAC address `mac`
    /// (`AA:BB:CC:DD:EE:FF`).
    SetPolicy { mac: String, policy: PolicyPayload },
    /// Ask for an immediate network scan.
    TriggerScan,
    /// Report the traffic totals.
    GetStats,
    /// Health check.
    Ping,
}

/// A device as the user interface shows it.
#[derive(Debug, Clone)]
pub struct DeviceDto {
    pub mac: String,
    pub ip: String,
    pub hostname: String,
    pub vendor: String,
    /// `allow`, `throttle` or `block`.
    pub policy: String,
    pub download_limit_kbps: Option<u64>,
    pub upload_limit_kbps: Option<u64>,
    pub download_bytes: u64,
    pub upload_bytes: u64,
}

/// The abstract value of a `DeviceDto`.
pub struct DeviceDtoView {
    pub mac: Seq<char>,
    pub ip: Seq<char>,
    pub hostname: Seq<char>,
    pub vendor: Seq<char>,
    pub policy: Seq<char>,
    pub download_limit_kbps: Option<u64>,
    pub upload_limit_kbps: Option<u64>,
    pub download_bytes: u64,
    pub upload_bytes: u64,
}

impl View for DeviceDto {
    type V = DeviceDtoView;

    open spec fn view(&self) -> DeviceDtoView {
        DeviceDtoView {
            mac: self.mac@,
            ip: self.ip@,
            hostname: self.hostname@,
            vendor: self.vendor@,
            policy: self.policy@,
            download_limit_kbps: self.download_limit_kbps,
            upload_limit_kbps: self.upload_limit_kbps,
            download_bytes: self.download_bytes,
            upload_bytes: self.upload_bytes,
        }
    }
}

/// The word for a policy: `allow`, `throttle` or `block`.
pub open spec fn policy_word(p: DevicePolicy) -> Seq<char> {
    match p {
        DevicePolicy::Allow => "allow"@,
        DevicePolicy::Throttle { .. } => "throttle"@,
        DevicePolicy::Block => "block"@,
    }
}

fn policy_word_string(p: DevicePolicy) -> (s: String)
    ensures
        s@ == policy_word(p),
{
    match p {
        DevicePolicy::Allow => String::from_str("allow"),
        DevicePolicy::Throttle { .. } => String::from_str("throttle"),
        DevicePolicy::Block => String::from_str("block"),
    }
}

/// The device `d` as the user interface shows it: limits in kilobits per
/// second, as `bps * 8 / 1000`.
pub open spec fn dto_of(d: DeviceView) -> DeviceDtoView {
    DeviceDtoView {
        mac: mac_text(d.mac),
        ip: ipv4_text(d.ip),
        hostname: d.hostname,
        vendor: d.vendor,
        policy: policy_word(d.policy),
        download_limit_kbps: match d.policy {
            DevicePolicy::Throttle { download_bps, .. } => Some((download_bps as int * 8 / 1000) as u64),
            _ => None,
        },
        upload_limit_kbps: match d.policy {
            DevicePolicy::Throttle { upload_bps, .. } => Some((upload_bps as int * 8 / 1000) as u64),
            _ => None,
        },
        download_bytes: d.download_bytes,
        upload_bytes: d.upload_bytes,
    }
}

/// `bps` bytes per second in kilobits per second, `bps * 8 / 1000`,
/// computed without overflow.
fn kbps_of_bps(bps: u64) -> (k: u64)
    ensures
        k as int == bps as int * 8 / 1000,
{
    ((bps as u128) * 8 / 1000) as u64
}

impl DeviceDto {
    /// The device `d` as the user interface shows it.
    pub fn from_device(d: &DeviceInfo) -> (r: DeviceDto)
        ensures
            r@ == dto_of(d@),
            r.download_bytes == d.download_bytes,
            r.upload_bytes == d.upload_bytes,
    {
        let (dl, ul) = match d.policy {
            DevicePolicy::Throttle { download_bps, upload_bps } => (
                Some(kbps_of_bps(download_bps)),
                Some(kbps_of_bps(upload_bps)),
            ),
            _ => (None, None),
        };
        DeviceDto {
            mac: d.mac_string(),
            ip: ipv4_to_string(d.ip),
            hostname: d.hostname.clone(),
            vendor: d.vendor.clone(),
            policy: policy_word_string(d.policy),
            download_limit_kbps: dl,
            upload_limit_kbps: ul,
            download_bytes: d.download_bytes,
            upload_bytes: d.upload_bytes,
        }
    }
}

/// Traffic totals over all devices.
#[derive(Debug, Clone, Copy, PartialEq, Eq, Structural)]
pub struct StatsDto {
    pub total_download_bytes: u64,
    pub total_upload_bytes: u64,
    pub device_count: usize,
}

/// The totals of the devices `v`.
pub open spec fn stats_of(v: Seq<DeviceView>) -> StatsDto {
    StatsDto {
        total_download_bytes: sum_by(v, |d: DeviceView| download_of(d)) as u64,
        total_upload_bytes: sum_by(v, |d: DeviceView| upload_of(d)) as u64,
        device_count: v.len() as usize,
    }
}

/// The download and upload totals of `devices`, or `None` when one of them
/// does not fit in a `u64`.
pub fn device_totals(devices: &Vec<DeviceInfo>) -> (r: Option<(u64, u64)>)
    ensures
        ({
            let v = devices@.map_values(|d: DeviceInfo| d@);
            let dl = sum_by(v, |d: DeviceView| download_of(d));
            let ul = sum_by(v, |d: DeviceView| upload_of(d));
            &&& r is Some <==> dl <= u64::MAX && ul <= u64::MAX
            &&& r matches Some((a, b)) ==> a == dl && b == ul
        }),
{
    let ghost v = devices@.map_values(|d: DeviceInfo| d@);
    let ghost fd = |d: DeviceView| download_of(d);
    let ghost fu = |d: DeviceView| upload_of(d);
    let mut dl: u128 = 0;
    let mut ul: u128 = 0;
    let mut i: usize = 0;
    while i < devices.len()
        invariant
            i <= devices@.len(),
            v == devices@.map_values(|d: DeviceInfo| d@),
            fd == (|d: DeviceView| download_of(d)),
            fu == (|d: DeviceView| upload_of(d)),
            dl as int == sum_by(v.take(i as int), fd),
            ul as int == sum_by(v.take(i as int), fu),
            dl <= i * 0xffff_ffff_ffff_ffffu128,
            ul <= i * 0xffff_ffff_ffff_ffffu128,
            i <= usize::MAX,
        decreases devices@.len() - i,
    {
        proof {
            assert(v.take(i + 1).drop_last() =~= v.take(i as int));
            assert(v.take(i + 1).last() == devices@[i as int]@);
        }
        assert(dl + 0xffff_ffff_ffff_ffffu128 <= (i + 1) * 0xffff_ffff_ffff_ffffu128) by (nonlinear_arith)
            requires
                dl <= i * 0xffff_ffff_ffff_ffffu128,
        ;
        assert((i + 1) * 0xffff_ffff_ffff_ffffu128 <= 0x1_0000_0000_0000_0000u128 * 0xffff_ffff_ffff_ffffu128) by (nonlinear_arith)
            requires
                i < 0xffff_ffff_ffff_ffffu128,
        ;
        dl = dl + devices[i].download_bytes as u128;
        ul = ul + devices[i].upload_bytes as u128;
        i = i + 1;
    }
    assert(v.take(devices@.len() as int) =~= v);
    if dl <= 0xffff_ffff_ffff_ffffu128 && ul <= 0xffff_ffff_ffff_ffffu128 {
        Some((dl as u64, ul as u64))
    } else {
        None
    }
}

impl SharedState {
    /// Whether the traffic totals of all devices fit in a `u64`.
    pub fn totals_fit(&self) -> (b: bool)
        requires
            self.wf(),
        ensures
            b == totals_fit(self@.devices),
    {
        let devices = self.snapshot_devices();
        let r = device_totals(&devices);
        proof {
            let v = devices@.map_values(|d: DeviceInfo| d@);
            assert forall|w: Seq<DeviceView>| #[trigger] lists_devices(w, self@.devices) implies sum_by(w, |d: DeviceView| download_of(d))
                == sum_by(v, |d: DeviceView| download_of(d)) && sum_by(w, |d: DeviceView| upload_of(d)) == sum_by(v, |d: DeviceView| upload_of(d)) by {
                lemma_listing_sum_invariant(w, v, self@.devices, |d: DeviceView| download_of(d));
                lemma_listing_sum_invariant(w, v, self@.devices, |d: DeviceView| upload_of(d));
            }
        }
        r.is_some()
    }
}

}

verus! {

/// What a successful response carries.
#[derive(Debug, Clone)]
pub enum ResponseData {
    /// The devices, each once.
    Devices(Vec<DeviceDto>),
    /// A policy was applied.
    Applied,
    /// A scan was asked for.
    ScanTriggered,
    /// The traffic totals.
    Stats(StatsDto),
    /// Answer to a health check.
    Pong,
}

/// A response to the user interface.
#[derive(Debug, Clone)]
pub enum IpcResponse {
    Success { data: ResponseData },
    Failure { message: String },
}

/// The MAC address that the text `s` spells with `:` between its groups.
pub open spec fn mac_of_text(s: Seq<char>) -> MacAddr {
    mac_from_text(s, ':')
}

/// The response lists the devices of `m` as the service shows them.
pub open spec fn lists_dtos(r: IpcResponse, m: Map<MacAddr, DeviceView>) -> bool {
    match r {
        IpcResponse::Success { data: ResponseData::Devices(v) } => exists|w: Seq<DeviceView>|
            #![trigger lists_devices(w, m)]
            lists_devices(w, m) && v@.map_values(|d: DeviceDto| d@) == w.map_values(|d: DeviceView| dto_of(d)),
        _ => false,
    }
}

/// The response carries the totals of the devices of `m`.
pub open spec fn reports_stats(r: IpcResponse, m: Map<MacAddr, DeviceView>) -> bool {
    match r {
        IpcResponse::Success { data: ResponseData::Stats(s) } => exists|w: Seq<DeviceView>|
            #![trigger lists_devices(w, m)]
            lists_devices(w, m) && s == stats_of(w) && s.device_count == m.dom().len(),
        _ => false,
    }
}

/// What the service does for `req` in state `before`: the state after it and
/// the response.
pub open spec fn serves(req: IpcRequest, before: StateView, after: StateView, r: IpcResponse) -> bool {
    match req {
        IpcRequest::GetDevices => after == before && lists_dtos(r, before.devices),
        IpcRequest::SetPolicy { mac, policy } => if mac_text_ok(mac@, ':') {
            &&& after == after_set_policy(before, mac_of_text(mac@), policy_of_payload(policy))
            &&& r matches IpcResponse::Success { data: ResponseData::Applied }
        } else {
            &&& after == before
            &&& r matches IpcResponse::Failure { message }
            &&& message@ == "Invalid MAC address: "@ + mac@
        },
        IpcRequest::TriggerScan => after == before && r matches IpcResponse::Success {
            data: ResponseData::ScanTriggered,
        },
        IpcRequest::GetStats => after == before && reports_stats(r, before.devices),
        IpcRequest::Ping => after == before && r matches IpcResponse::Success { data: ResponseData::Pong },
    }
}

/// The inputs that `process_request` serves without overflow: the limits of
/// a policy for a valid MAC address convert, and the traffic totals fit.
pub open spec fn request_in_range(req: IpcRequest, st: StateView) -> bool {
    &&& match req {
        IpcRequest::SetPolicy { mac, policy } => mac_text_ok(mac@, ':') ==> payload_in_range(policy),
        _ => true,
    }
    &&& req is GetStats ==> totals_fit(st.devices)
}

/// Parses `AA:BB:CC:DD:EE:FF` into six bytes: six groups separated by `:`,
/// each one that `u8::from_str_radix(group, 16)` accepts.
pub fn parse_mac(s: &str) -> (res: Option<MacAddr>)
    ensures
        res is Some <==> mac_text_ok(s@, ':'),
        res matches Some(m) ==> m == mac_of_text(s@),
{
    parse_mac_with(s, ':')
}

/// The devices of `state` as the service shows them, each once.
pub fn device_dtos(state: &SharedState) -> (v: Vec<DeviceDto>)
    requires
        state.wf(),
    ensures
        exists|w: Seq<DeviceView>|
            #![trigger lists_devices(w, state@.devices)]
            lists_devices(w, state@.devices) && v@.map_values(|d: DeviceDto| d@) == w.map_values(
                |d: DeviceView| dto_of(d),
            ),
{
    let devices = state.snapshot_devices();
    let ghost w = devices@.map_values(|d: DeviceInfo| d@);
    let mut v: Vec<DeviceDto> = Vec::new();
    let mut i: usize = 0;
    while i < devices.len()
        invariant
            i <= devices@.len(),
            w == devices@.map_values(|d: DeviceInfo| d@),
            v@.len() == i,
            forall|j: int| 0 <= j < i ==> (#[trigger] v@[j])@ == dto_of(w[j]),
        decreases devices@.len() - i,
    {
        v.push(DeviceDto::from_device(&devices[i]));
        i = i + 1;
    }
    assert(v@.map_values(|d: DeviceDto| d@) =~= w.map_values(|d: DeviceView| dto_of(d)));
    v
}

/// The traffic totals of all devices of `state`.
pub fn current_stats(state: &SharedState) -> (s: StatsDto)
    requires
        state.wf(),
        totals_fit(state@.devices),
    ensures
        exists|w: Seq<DeviceView>| #![trigger lists_devices(w, state@.devices)] lists_devices(w, state@.devices) && s == stats_of(w),
        s.device_count == state@.devices.dom().len(),
{
    let devices = state.snapshot_devices();
    let ghost w = devices@.map_values(|d: DeviceInfo| d@);
    assert(lists_devices(w, state@.devices));
    proof {
        lemma_stats_count_every_device(w, state@.devices);
    }
    match device_totals(&devices) {
        Some((dl, ul)) => StatsDto { total_download_bytes: dl, total_upload_bytes: ul, device_count: devices.len() },
        None => {
            assert(false);
            StatsDto { total_download_bytes: 0, total_upload_bytes: 0, device_count: 0 }
        },
    }
}

/// Serves one request from the user interface.
pub fn process_request(req: IpcRequest, state: &mut SharedState) -> (r: IpcResponse)
    requires
        old(state).wf(),
        request_in_range(req, old(state)@),
    ensures
        final(state).wf(),
        serves(req, old(state)@, final(state)@, r),
{
    match req {
        IpcRequest::GetDevices => {
            let v = device_dtos(state);
            IpcResponse::Success { data: ResponseData::Devices(v) }
        },
        IpcRequest::SetPolicy { mac, policy } => {
            match parse_mac(mac.as_str()) {
                Some(mac_bytes) => {
                    let device_policy = payload_to_policy(policy);
                    state.set_policy(&mac_bytes, device_policy);
                    IpcResponse::Success { data: ResponseData::Applied }
                },
                None => {
                    let mut message = String::from_str("Invalid MAC address: ");
                    message.append(mac.as_str());
                    IpcResponse::Failure { message }
                },
            }
        },
        IpcRequest::TriggerScan => IpcResponse::Success { data: ResponseData::ScanTriggered },
        IpcRequest::GetStats => {
            let s = current_stats(state);
            IpcResponse::Success { data: ResponseData::Stats(s) }
        },
        IpcRequest::Ping => IpcResponse::Success { data: ResponseData::Pong },
    }
}

/// A throttle limit of `k` kilobits per second that is set is listed back
/// as exactly `k`.
pub proof fn lemma_listing_shows_limits(st: StateView, mac: MacAddr, dk: u64, uk: u64)
    requires
        st.devices.contains_key(mac),
        dk as int * 1000 <= u64::MAX,
        uk as int * 1000 <= u64::MAX,
    ensures
        ({
            let p = PolicyPayload::Throttle { download_kbps: dk, upload_kbps: uk };
            let d = after_set_policy(st, mac, policy_of_payload(p)).devices[mac];
            &&& dto_of(d).download_limit_kbps == Some(dk)
            &&& dto_of(d).upload_limit_kbps == Some(uk)
        }),
{
    lemma_kbps_to_bps(dk);
    lemma_kbps_to_bps(uk);
}

/// The error that the user interface reports for a reply of the service:
/// `Some` exactly when the reply's status is `error`, with the reply's
/// message, or `Unknown error` when it has none.
pub fn error_reply_message(status: Option<&str>, message: Option<&str>) -> (r: Option<String>)
    ensures
        r is Some <==> (status matches Some(st) && st@ == "error"@),
        r matches Some(m) ==> m@ == (match message {
            Some(t) => t@,
            None => "Unknown error"@,
        }),
{
    let is_error = match status {
        Some(st) => {
            let a = chars_of(st);
            let b = chars_of("error");
            chars_equal(a.as_slice(), b.as_slice())
        },
        None => false,
    };
    if !is_error {
        return None;
    }
    match message {
        Some(t) => Some(String::from_str(t)),
        None => Some(String::from_str("Unknown error")),
    }
}

/// A listed device shows that device: its own MAC and address text, name
/// and vendor, the word of its policy, and its counters each in its own
/// direction.
pub proof fn lemma_listing_shows_the_device(d: DeviceView)
    ensures
        dto_of(d).mac == mac_text(d.mac),
        dto_of(d).ip == ipv4_text(d.ip),
        dto_of(d).hostname == d.hostname,
        dto_of(d).vendor == d.vendor,
        dto_of(d).policy == policy_word(d.policy),
        dto_of(d).download_bytes == d.download_bytes,
        dto_of(d).upload_bytes == d.upload_bytes,
        d.policy is Throttle <==> dto_of(d).download_limit_kbps is Some,
        d.policy is Throttle <==> dto_of(d).upload_limit_kbps is Some,
{
}

/// The stats count every device of the state, whatever its counters: the
/// device count of the totals of any listing is the number of devices.
pub proof fn lemma_stats_count_every_device(w: Seq<DeviceView>, m: Map<MacAddr, DeviceView>)
    requires
        lists_devices(w, m),
        w.len() <= usize::MAX,
    ensures
        m.dom().finite(),
        stats_of(w).device_count == m.dom().len(),
{
    let macs = w.map_values(|d: DeviceView| d.mac);
    assert(macs.no_duplicates()) by {
        assert forall|i: int, j: int| 0 <= i < macs.len() && 0 <= j < macs.len() && i != j implies macs[i] != macs[j] by {
            if i < j {
                assert(w[i].mac != w[j].mac);
            } else {
                assert(w[j].mac != w[i].mac);
            }
        }
    }
    assert(macs.to_set() =~= m.dom()) by {
        assert forall|k: MacAddr| macs.to_set().contains(k) <==> m.dom().contains(k) by {
            if m.dom().contains(k) {
                let i = choose|i: int| 0 <= i < w.len() && w[i].mac == k;
                assert(macs[i] == k);
            }
            if macs.to_set().contains(k) {
                let i = choose|i: int| 0 <= i < macs.len() && macs[i] == k;
                assert(m.contains_key(w[i].mac));
            }
        }
    }
    macs.unique_seq_to_set();
}

}
