//! Shared application state: the devices found on the network, keyed by MAC
//! address, with their policies and traffic counters, and the reverse map
//! from IPv4 address to MAC address that the packet engine reads.

use vstd::prelude::*;
use dashmap::DashMap;
use crate::net::{mac_text, mac_to_string, MacAddr};

verus! {

/// What the control plane asks for a device's traffic.
#[derive(Debug, Clone, Copy, PartialEq, Eq, Structural)]
pub enum DevicePolicy {
    /// Traffic flows normally.
    Allow,
    /// Traffic is shaped to the given limits, in bytes per second.
    Throttle { download_bps: u64, upload_bps: u64 },
    /// All traffic is dropped.
    Block,
}

impl Default for DevicePolicy {
    fn default() -> (p: DevicePolicy)
        ensures
            p == DevicePolicy::Allow,
    {
        DevicePolicy::Allow
    }
}

/// One device on the local network.
#[derive(Debug)]
pub struct DeviceInfo {
    pub mac: MacAddr,
    pub ip: u32,
    pub hostname: String,
    pub vendor: String,
    pub policy: DevicePolicy,
    /// Bytes seen towards the device.
    pub download_bytes: u64,
    /// Bytes seen from the device.
    pub upload_bytes: u64,
    /// When the device was last seen, in monotonic nanoseconds.
    pub last_seen: Option<u64>,
}

/// The abstract value of a `DeviceInfo`, its text fields as characters.
pub struct DeviceView {
    pub mac: MacAddr,
    pub ip: u32,
    pub hostname: Seq<char>,
    pub vendor: Seq<char>,
    pub policy: DevicePolicy,
    pub download_bytes: u64,
    pub upload_bytes: u64,
    pub last_seen: Option<u64>,
}

impl View for DeviceInfo {
    type V = DeviceView;

    open spec fn view(&self) -> DeviceView {
        DeviceView {
            mac: self.mac,
            ip: self.ip,
            hostname: self.hostname@,
            vendor: self.vendor@,
            policy: self.policy,
            download_bytes: self.download_bytes,
            upload_bytes: self.upload_bytes,
            last_seen: self.last_seen,
        }
    }
}

/// A device first seen at `now`: no name, allowed, no traffic yet.
pub open spec fn new_device(mac: MacAddr, ip: u32, now: u64) -> DeviceView {
    DeviceView {
        mac,
        ip,
        hostname: Seq::<char>::empty(),
        vendor: Seq::<char>::empty(),
        policy: DevicePolicy::Allow,
        download_bytes: 0,
        upload_bytes: 0,
        last_seen: Some(now),
    }
}

impl Clone for DeviceInfo {
    fn clone(&self) -> (d: DeviceInfo)
        ensures
            d@ == self@,
    {
        DeviceInfo {
            mac: self.mac,
            ip: self.ip,
            hostname: self.hostname.clone(),
            vendor: self.vendor.clone(),
            policy: self.policy,
            download_bytes: self.download_bytes,
            upload_bytes: self.upload_bytes,
            last_seen: self.last_seen,
        }
    }
}

impl DeviceInfo {
    /// A device first seen at `now_ns`.
    pub fn new(mac: MacAddr, ip: u32, now_ns: u64) -> (d: DeviceInfo)
        ensures
            d@ == new_device(mac, ip, now_ns),
    {
        DeviceInfo {
            mac,
            ip,
            hostname: String::new(),
            vendor: String::new(),
            policy: DevicePolicy::default(),
            download_bytes: 0,
            upload_bytes: 0,
            last_seen: Some(now_ns),
        }
    }

    /// The MAC address as `AA:BB:CC:DD:EE:FF`.
    pub fn mac_string(&self) -> (s: String)
        ensures
            s@ == mac_text(self.mac),
    {
        mac_to_string(&self.mac)
    }
}

/// The device table: MAC address to device.
pub type DeviceTable = DashMap<MacAddr, DeviceInfo>;

/// The devices a device table holds.
pub uninterp spec fn device_table(t: DeviceTable) -> Map<MacAddr, DeviceView>;

/// `DashMap::new`: an empty table.
#[verifier::external_body]
fn device_table_new() -> (t: DeviceTable)
    ensures
        device_table(t) =~= Map::empty(),
{
    DashMap::new()
}

/// `DashMap::get`, the device cloned out: present exactly when the key is.
#[verifier::external_body]
fn device_table_get(t: &DeviceTable, k: &MacAddr) -> (res: Option<DeviceInfo>)
    ensures
        res is Some <==> device_table(*t).contains_key(*k),
        res matches Some(d) ==> d@ == device_table(*t)[*k],
{
    t.get(k).map(|r| r.value().clone())
}

/// `DashMap::insert`: the key now maps to `d`.
#[verifier::external_body]
fn device_table_insert(t: &mut DeviceTable, k: MacAddr, d: DeviceInfo)
    ensures
        device_table(*final(t)) == device_table(*old(t)).insert(k, d@),
{
    t.insert(k, d);
}

/// A device together with the key it is stored under.
pub type DeviceEntry = (MacAddr, DeviceInfo);

/// `DashMap::iter`, each entry cloned out: every key once, in some order.
#[verifier::external_body]
fn device_table_entries(t: &DeviceTable) -> (res: Vec<DeviceEntry>)
    ensures
        res@.len() == device_table(*t).dom().len(),
        forall|k: MacAddr| #[trigger] device_table(*t).contains_key(k) ==> exists|i: int| 0 <= i < res@.len() && res@[i].0 == k,
        forall|i: int| 0 <= i < res@.len() ==> #[trigger] device_table(*t).contains_key(res@[i].0),
        forall|i: int| 0 <= i < res@.len() ==> device_table(*t)[res@[i].0] == (#[trigger] res@[i]).1@,
        forall|i: int| 0 <= i < res@.len() ==> forall|j: int| i < j < res@.len() ==> (#[trigger] res@[i]).0 != (#[trigger] res@[j]).0,
{
    t.iter().map(|r| (*r.key(), r.value().clone())).collect()
}

/// The address table: IPv4 address to MAC address.
pub type AddressTable = DashMap<u32, MacAddr>;

/// The pairs an address table holds.
pub uninterp spec fn address_table(t: AddressTable) -> Map<u32, MacAddr>;

/// `DashMap::new`: an empty table.
#[verifier::external_body]
fn address_table_new() -> (t: AddressTable)
    ensures
        address_table(t) =~= Map::empty(),
{
    DashMap::new()
}

/// `DashMap::get`, the MAC address copied out.
#[verifier::external_body]
fn address_table_get(t: &AddressTable, k: &u32) -> (res: Option<MacAddr>)
    ensures
        res is Some <==> address_table(*t).contains_key(*k),
        res matches Some(m) ==> m == address_table(*t)[*k],
{
    t.get(k).map(|r| *r.value())
}

/// `DashMap::insert`: the key now maps to `m`.
#[verifier::external_body]
fn address_table_insert(t: &mut AddressTable, k: u32, m: MacAddr)
    ensures
        address_table(*final(t)) == address_table(*old(t)).insert(k, m),
{
    t.insert(k, m);
}

}

verus! {

/// The abstract value of the shared state.
pub struct StateView {
    /// MAC address to device.
    pub devices: Map<MacAddr, DeviceView>,
    /// IPv4 address to MAC address.
    pub ip_to_mac: Map<u32, MacAddr>,
    /// The local gateway, when known.
    pub gateway_ip: Option<u32>,
    /// The subnet to scan: network address and prefix length.
    pub subnet: (u32, u8),
    /// Shutdown has been asked for.
    pub shutdown: bool,
    /// A network scan has been asked for and not yet taken.
    pub scan_requested: bool,
}

/// Every device is stored under its own MAC address.
pub open spec fn keyed_by_mac(m: Map<MacAddr, DeviceView>) -> bool {
    forall|k: MacAddr| #[trigger] m.contains_key(k) ==> m[k].mac == k
}

/// The state at start: no devices, subnet 192.168.1.0/24, a scan pending.
pub open spec fn initial_state() -> StateView {
    StateView {
        devices: Map::empty(),
        ip_to_mac: Map::empty(),
        gateway_ip: None,
        subnet: (0xC0A8_0100u32, 24u8),
        shutdown: false,
        scan_requested: true,
    }
}

/// The device that traffic for `ip` belongs to: the MAC address `ip` maps
/// to, when a device is stored under it.
pub open spec fn device_of_ip(st: StateView, ip: u32) -> Option<MacAddr> {
    if st.ip_to_mac.contains_key(ip) && st.devices.contains_key(st.ip_to_mac[ip]) {
        Some(st.ip_to_mac[ip])
    } else {
        None
    }
}

/// The policy for traffic of `ip`.
pub open spec fn policy_of(st: StateView, ip: u32) -> Option<DevicePolicy> {
    match device_of_ip(st, ip) {
        Some(m) => Some(st.devices[m].policy),
        None => None,
    }
}

/// `a + b`, saturated at `u64::MAX`.
pub open spec fn sat_add(a: u64, b: u64) -> u64 {
    if a + b > u64::MAX { u64::MAX } else { (a + b) as u64 }
}

/// The state after `upsert_device(mac, ip)` at `now`: `ip` maps to `mac`; a
/// known device takes the new address and is marked seen, keeping its
/// policy, name and counters; an unknown one is added.
pub open spec fn after_upsert(st: StateView, mac: MacAddr, ip: u32, now: u64) -> StateView {
    StateView {
        devices: if st.devices.contains_key(mac) {
            st.devices.insert(mac, DeviceView { ip, last_seen: Some(now), ..st.devices[mac] })
        } else {
            st.devices.insert(mac, new_device(mac, ip, now))
        },
        ip_to_mac: st.ip_to_mac.insert(ip, mac),
        ..st
    }
}

/// The state after counting `bytes` towards `ip` at `now`.
pub open spec fn after_download(st: StateView, ip: u32, bytes: u64, now: u64) -> StateView {
    match device_of_ip(st, ip) {
        Some(m) => StateView {
            devices: st.devices.insert(
                m,
                DeviceView {
                    download_bytes: sat_add(st.devices[m].download_bytes, bytes),
                    last_seen: Some(now),
                    ..st.devices[m]
                },
            ),
            ..st
        },
        None => st,
    }
}

/// The state after counting `bytes` from `ip` at `now`.
pub open spec fn after_upload(st: StateView, ip: u32, bytes: u64, now: u64) -> StateView {
    match device_of_ip(st, ip) {
        Some(m) => StateView {
            devices: st.devices.insert(
                m,
                DeviceView {
                    upload_bytes: sat_add(st.devices[m].upload_bytes, bytes),
                    last_seen: Some(now),
                    ..st.devices[m]
                },
            ),
            ..st
        },
        None => st,
    }
}

/// The state after setting the policy of the device `mac`, if it is known.
pub open spec fn after_set_policy(st: StateView, mac: MacAddr, policy: DevicePolicy) -> StateView {
    if st.devices.contains_key(mac) {
        StateView { devices: st.devices.insert(mac, DeviceView { policy, ..st.devices[mac] }), ..st }
    } else {
        st
    }
}

/// The state after naming the device `mac`, if it is known and `name` is not
/// empty.
pub open spec fn after_hostname(st: StateView, mac: MacAddr, name: Seq<char>) -> StateView {
    if st.devices.contains_key(mac) && name.len() > 0 {
        StateView { devices: st.devices.insert(mac, DeviceView { hostname: name, ..st.devices[mac] }), ..st }
    } else {
        st
    }
}

/// `v` lists the devices of `m`: each exactly once, in some order.
pub open spec fn lists_devices(v: Seq<DeviceView>, m: Map<MacAddr, DeviceView>) -> bool {
    &&& forall|i: int| 0 <= i < v.len() ==> #[trigger] m.contains_key(v[i].mac) && m[v[i].mac] == v[i]
    &&& forall|i: int, j: int| 0 <= i < j < v.len() ==> (#[trigger] v[i]).mac != (#[trigger] v[j]).mac
    &&& forall|k: MacAddr| #[trigger] m.contains_key(k) ==> exists|i: int| 0 <= i < v.len() && v[i].mac == k
}

/// The sum of `f` over the devices `s`.
pub open spec fn sum_by(s: Seq<DeviceView>, f: spec_fn(DeviceView) -> int) -> int
    decreases s.len(),
{
    if s.len() == 0 { 0 } else { sum_by(s.drop_last(), f) + f(s.last()) }
}

/// Bytes seen towards a device.
pub open spec fn download_of(d: DeviceView) -> int {
    d.download_bytes as int
}

/// Bytes seen from a device.
pub open spec fn upload_of(d: DeviceView) -> int {
    d.upload_bytes as int
}

/// The traffic totals of the devices of `m` fit in a `u64`, in whatever
/// order they are added up.
pub open spec fn totals_fit(m: Map<MacAddr, DeviceView>) -> bool {
    forall|v: Seq<DeviceView>| #[trigger] lists_devices(v, m) ==> sum_by(v, |d: DeviceView| download_of(d)) <= u64::MAX
        && sum_by(v, |d: DeviceView| upload_of(d)) <= u64::MAX
}

proof fn lemma_sum_by_remove(s: Seq<DeviceView>, f: spec_fn(DeviceView) -> int, j: int)
    requires
        0 <= j < s.len(),
    ensures
        sum_by(s, f) == sum_by(s.remove(j), f) + f(s[j]),
    decreases s.len(),
{
    if j == s.len() - 1 {
        assert(s.remove(j) =~= s.drop_last());
    } else {
        let d = s.drop_last();
        lemma_sum_by_remove(d, f, j);
        assert(d.remove(j) =~= s.remove(j).drop_last());
        assert(s.remove(j).last() == s.last());
    }
}

/// The sum of any per-device quantity over a listing of the devices does not
/// depend on the order of the listing.
pub proof fn lemma_listing_sum_invariant(
    v1: Seq<DeviceView>,
    v2: Seq<DeviceView>,
    m: Map<MacAddr, DeviceView>,
    f: spec_fn(DeviceView) -> int,
)
    requires
        lists_devices(v1, m),
        lists_devices(v2, m),
    ensures
        sum_by(v1, f) == sum_by(v2, f),
    decreases v1.len(),
{
    if v1.len() == 0 {
        if v2.len() > 0 {
            assert(m.contains_key(v2[0].mac));
            let i = choose|i: int| 0 <= i < v1.len() && v1[i].mac == v2[0].mac;
        }
        assert(v2.len() == 0);
    } else {
        let x = v1.last();
        let k = x.mac;
        assert(m.contains_key(v1[v1.len() - 1].mac));
        let j = choose|j: int| 0 <= j < v2.len() && v2[j].mac == k;
        assert(m.contains_key(v2[j].mac));
        assert(v2[j] == x);
        let m2 = m.remove(k);
        let w1 = v1.drop_last();
        let w2 = v2.remove(j);
        assert(lists_devices(w1, m2)) by {
            assert forall|i: int| 0 <= i < w1.len() implies #[trigger] m2.contains_key(w1[i].mac) && m2[w1[i].mac] == w1[i] by {
                assert(w1[i] == v1[i]);
                assert(m.contains_key(v1[i].mac));
                assert(v1[i].mac != v1[v1.len() - 1].mac);
            }
            assert forall|a: int, b: int| 0 <= a < b < w1.len() implies (#[trigger] w1[a]).mac != (#[trigger] w1[b]).mac by {
                assert(w1[a] == v1[a] && w1[b] == v1[b]);
                assert(v1[a].mac != v1[b].mac);
            }
            assert forall|key: MacAddr| #[trigger] m2.contains_key(key) implies exists|i: int| 0 <= i < w1.len() && w1[i].mac == key by {
                assert(m.contains_key(key));
                let i = choose|i: int| 0 <= i < v1.len() && v1[i].mac == key;
                assert(i != v1.len() - 1);
                assert(w1[i] == v1[i]);
            }
        }
        assert(lists_devices(w2, m2)) by {
            assert forall|i: int| 0 <= i < w2.len() implies #[trigger] m2.contains_key(w2[i].mac) && m2[w2[i].mac] == w2[i] by {
                let o = if i < j { i } else { i + 1 };
                assert(w2[i] == v2[o]);
                assert(m.contains_key(v2[o].mac));
                if o < j {
                    assert(v2[o].mac != v2[j].mac);
                } else {
                    assert(v2[j].mac != v2[o].mac);
                }
            }
            assert forall|a: int, b: int| 0 <= a < b < w2.len() implies (#[trigger] w2[a]).mac != (#[trigger] w2[b]).mac by {
                let oa = if a < j { a } else { a + 1 };
                let ob = if b < j { b } else { b + 1 };
                assert(w2[a] == v2[oa] && w2[b] == v2[ob]);
                assert(v2[oa].mac != v2[ob].mac);
            }
            assert forall|key: MacAddr| #[trigger] m2.contains_key(key) implies exists|i: int| 0 <= i < w2.len() && w2[i].mac == key by {
                assert(m.contains_key(key));
                let i = choose|i: int| 0 <= i < v2.len() && v2[i].mac == key;
                assert(i != j);
                let o = if i < j { i } else { i - 1 };
                assert(w2[o] == v2[i]);
            }
        }
        lemma_listing_sum_invariant(w1, w2, m2, f);
        lemma_sum_by_remove(v2, f, j);
    }
}

/// State shared by the packet engine, discovery and the control channel.
pub struct SharedState {
    devices: DeviceTable,
    ip_to_mac: AddressTable,
    gateway_ip: Option<u32>,
    subnet: (u32, u8),
    shutdown: bool,
    scan_requested: bool,
}

impl View for SharedState {
    type V = StateView;

    closed spec fn view(&self) -> StateView {
        StateView {
            devices: device_table(self.devices),
            ip_to_mac: address_table(self.ip_to_mac),
            gateway_ip: self.gateway_ip,
            subnet: self.subnet,
            shutdown: self.shutdown,
            scan_requested: self.scan_requested,
        }
    }
}

impl SharedState {
    /// The state is well formed: every device is stored under its own MAC
    /// address.
    pub open spec fn wf(&self) -> bool {
        keyed_by_mac(self@.devices)
    }

    /// The state at start.
    pub fn new() -> (s: SharedState)
        ensures
            s@ == initial_state(),
            s.wf(),
    {
        let s = SharedState {
            devices: device_table_new(),
            ip_to_mac: address_table_new(),
            gateway_ip: None,
            subnet: (0xC0A8_0100u32, 24u8),
            shutdown: false,
            scan_requested: true,
        };
        assert(s@.devices =~= Map::<MacAddr, DeviceView>::empty());
        assert(s@.ip_to_mac =~= Map::<u32, MacAddr>::empty());
        s
    }

    /// Asks every subsystem to stop.
    pub fn request_shutdown(&mut self)
        ensures
            final(self)@ == (StateView { shutdown: true, ..old(self)@ }),
            final(self).wf() == old(self).wf(),
    {
        self.shutdown = true;
    }

    /// Whether shutdown has been asked for.
    pub fn is_shutdown(&self) -> (b: bool)
        ensures
            b == self@.shutdown,
    {
        self.shutdown
    }

    /// Asks for a network scan.
    pub fn request_scan(&mut self)
        ensures
            final(self)@ == (StateView { scan_requested: true, ..old(self)@ }),
            final(self).wf() == old(self).wf(),
    {
        self.scan_requested = true;
    }

    /// Takes a pending scan request: returns whether one was pending and
    /// clears it.
    pub fn take_scan_request(&mut self) -> (b: bool)
        ensures
            b == old(self)@.scan_requested,
            final(self)@ == (StateView { scan_requested: false, ..old(self)@ }),
            final(self).wf() == old(self).wf(),
    {
        let b = self.scan_requested;
        self.scan_requested = false;
        b
    }

    /// The subnet to scan.
    pub fn subnet(&self) -> (s: (u32, u8))
        ensures
            s == self@.subnet,
    {
        self.subnet
    }

    /// Sets the subnet to scan.
    pub fn set_subnet(&mut self, network: u32, prefix: u8)
        ensures
            final(self)@ == (StateView { subnet: (network, prefix), ..old(self)@ }),
            final(self).wf() == old(self).wf(),
    {
        self.subnet = (network, prefix);
    }

    /// The local gateway, when known.
    pub fn gateway_ip(&self) -> (g: Option<u32>)
        ensures
            g == self@.gateway_ip,
    {
        self.gateway_ip
    }

    /// Adds the device `mac` at `ip`, seen at `now_ns`, or updates its address
    /// and last-seen time if it is known, keeping its policy.
    pub fn upsert_device(&mut self, mac: MacAddr, ip: u32, now_ns: u64)
        requires
            old(self).wf(),
        ensures
            final(self).wf(),
            final(self)@ == after_upsert(old(self)@, mac, ip, now_ns),
    {
        address_table_insert(&mut self.ip_to_mac, ip, mac);
        match device_table_get(&self.devices, &mac) {
            Some(d) => {
                let mut d = d;
                d.ip = ip;
                d.last_seen = Some(now_ns);
                device_table_insert(&mut self.devices, mac, d);
            },
            None => {
                device_table_insert(&mut self.devices, mac, DeviceInfo::new(mac, ip, now_ns));
            },
        }
        assert(self@ =~= after_upsert(old(self)@, mac, ip, now_ns));
    }

    /// The policy for traffic of `ip`: that of the device `ip` belongs to.
    pub fn policy_for_ip(&self, ip: &u32) -> (p: Option<DevicePolicy>)
        ensures
            p == policy_of(self@, *ip),
    {
        match address_table_get(&self.ip_to_mac, ip) {
            Some(mac) => match device_table_get(&self.devices, &mac) {
                Some(d) => Some(d.policy),
                None => None,
            },
            None => None,
        }
    }

    /// Counts `bytes` towards the device of `ip`, seen at `now_ns`.
    pub fn record_download(&mut self, ip: &u32, bytes: u64, now_ns: u64)
        requires
            old(self).wf(),
        ensures
            final(self).wf(),
            final(self)@ == after_download(old(self)@, *ip, bytes, now_ns),
    {
        match address_table_get(&self.ip_to_mac, ip) {
            Some(mac) => match device_table_get(&self.devices, &mac) {
                Some(d) => {
                    let mut d = d;
                    d.download_bytes = d.download_bytes.saturating_add(bytes);
                    d.last_seen = Some(now_ns);
                    device_table_insert(&mut self.devices, mac, d);
                    assert(self@ =~= after_download(old(self)@, *ip, bytes, now_ns));
                },
                None => {},
            },
            None => {},
        }
    }

    /// Counts `bytes` from the device of `ip`, seen at `now_ns`.
    pub fn record_upload(&mut self, ip: &u32, bytes: u64, now_ns: u64)
        requires
            old(self).wf(),
        ensures
            final(self).wf(),
            final(self)@ == after_upload(old(self)@, *ip, bytes, now_ns),
    {
        match address_table_get(&self.ip_to_mac, ip) {
            Some(mac) => match device_table_get(&self.devices, &mac) {
                Some(d) => {
                    let mut d = d;
                    d.upload_bytes = d.upload_bytes.saturating_add(bytes);
                    d.last_seen = Some(now_ns);
                    device_table_insert(&mut self.devices, mac, d);
                    assert(self@ =~= after_upload(old(self)@, *ip, bytes, now_ns));
                },
                None => {},
            },
            None => {},
        }
    }

    /// Sets the policy of the device `mac`, if it is known.
    pub fn set_policy(&mut self, mac: &MacAddr, policy: DevicePolicy)
        requires
            old(self).wf(),
        ensures
            final(self).wf(),
            final(self)@ == after_set_policy(old(self)@, *mac, policy),
    {
        match device_table_get(&self.devices, mac) {
            Some(d) => {
                let mut d = d;
                d.policy = policy;
                device_table_insert(&mut self.devices, *mac, d);
                assert(self@ =~= after_set_policy(old(self)@, *mac, policy));
            },
            None => {},
        }
    }

    /// The MAC and IPv4 address of every device, each device once, in some
    /// order.
    pub fn device_addresses(&self) -> (v: Vec<(MacAddr, u32)>)
        requires
            self.wf(),
        ensures
            exists|w: Seq<DeviceView>| #![trigger lists_devices(w, self@.devices)] lists_devices(w, self@.devices)
                && v@ == w.map_values(|d: DeviceView| (d.mac, d.ip)),
    {
        let devices = self.snapshot_devices();
        let ghost w = devices@.map_values(|d: DeviceInfo| d@);
        let mut v: Vec<(MacAddr, u32)> = Vec::new();
        let mut i: usize = 0;
        while i < devices.len()
            invariant
                i <= devices@.len(),
                w == devices@.map_values(|d: DeviceInfo| d@),
                v@.len() == i,
                forall|j: int| 0 <= j < i ==> #[trigger] v@[j] == (w[j].mac, w[j].ip),
            decreases devices@.len() - i,
        {
            v.push((devices[i].mac, devices[i].ip));
            i = i + 1;
        }
        assert(v@ =~= w.map_values(|d: DeviceView| (d.mac, d.ip)));
        v
    }

    /// Whether the device `mac` still needs a name: it is unknown, or its
    /// name is empty.
    pub fn hostname_missing(&self, mac: &MacAddr) -> (b: bool)
        ensures
            b == !(self@.devices.contains_key(*mac) && self@.devices[*mac].hostname.len() > 0),
    {
        match device_table_get(&self.devices, mac) {
            Some(d) => d.hostname.as_str().is_empty(),
            None => true,
        }
    }

    /// Names the device `mac` `name`, if it is known and `name` is not empty;
    /// returns whether it did.
    pub fn adopt_hostname(&mut self, mac: &MacAddr, name: String) -> (b: bool)
        requires
            old(self).wf(),
        ensures
            final(self).wf(),
            final(self)@ == after_hostname(old(self)@, *mac, name@),
            b == (old(self)@.devices.contains_key(*mac) && name@.len() > 0),
    {
        if name.as_str().is_empty() {
            return false;
        }
        match device_table_get(&self.devices, mac) {
            Some(d) => {
                let mut d = d;
                d.hostname = name;
                device_table_insert(&mut self.devices, *mac, d);
                assert(self@ =~= after_hostname(old(self)@, *mac, d.hostname@));
                true
            },
            None => false,
        }
    }

    /// A copy of every device, each once, in some order.
    pub fn snapshot_devices(&self) -> (v: Vec<DeviceInfo>)
        requires
            self.wf(),
        ensures
            lists_devices(v@.map_values(|d: DeviceInfo| d@), self@.devices),
    {
        let entries = device_table_entries(&self.devices);
        let mut v: Vec<DeviceInfo> = Vec::new();
        let mut i: usize = 0;
        while i < entries.len()
            invariant
                i <= entries@.len(),
                v@.len() == i,
                self.wf(),
                forall|j: int| 0 <= j < i ==> (#[trigger] v@[j])@ == entries@[j].1@,
            decreases entries@.len() - i,
        {
            v.push(entries[i].1.clone());
            i = i + 1;
        }
        proof {
            let vs = v@.map_values(|d: DeviceInfo| d@);
            let m = self@.devices;
            assert forall|j: int| 0 <= j < vs.len() implies (#[trigger] vs[j]).mac == entries@[j].0 && m.contains_key(vs[j].mac) && m[vs[j].mac] == vs[j] by {
                assert(m.contains_key(entries@[j].0));
                assert(m[entries@[j].0] == entries@[j].1@);
            }
            assert forall|j: int, k: int| 0 <= j < k < vs.len() implies (#[trigger] vs[j]).mac != (#[trigger] vs[k]).mac by {
                assert(entries@[j].0 != entries@[k].0);
            }
            assert forall|key: MacAddr| #[trigger] m.contains_key(key) implies exists|j: int| 0 <= j < vs.len() && vs[j].mac == key by {
                let j = choose|j: int| 0 <= j < entries@.len() && entries@[j].0 == key;
                assert(vs[j].mac == entries@[j].0 && m.contains_key(vs[j].mac));
            }
        }
        v
    }
}

}

verus! {

/// Read after write: once the policy of a known device is set, traffic of
/// every address that belongs to that device gets that policy, and traffic
/// of every other address keeps its policy.
pub proof fn lemma_set_policy_then_read(st: StateView, mac: MacAddr, policy: DevicePolicy, ip: u32)
    requires
        st.devices.contains_key(mac),
    ensures
        device_of_ip(st, ip) == Some(mac) ==> policy_of(after_set_policy(st, mac, policy), ip) == Some(policy),
        device_of_ip(st, ip) != Some(mac) ==> policy_of(after_set_policy(st, mac, policy), ip) == policy_of(st, ip),
{
}

/// After `upsert_device(mac, ip)`, traffic of `ip` belongs to `mac`; a known
/// device keeps its policy, name and counters, a new one is allowed.
pub proof fn lemma_upsert_then_read(st: StateView, mac: MacAddr, ip: u32, now: u64)
    ensures
        device_of_ip(after_upsert(st, mac, ip, now), ip) == Some(mac),
        st.devices.contains_key(mac) ==> policy_of(after_upsert(st, mac, ip, now), ip) == Some(st.devices[mac].policy),
        !st.devices.contains_key(mac) ==> policy_of(after_upsert(st, mac, ip, now), ip) == Some(DevicePolicy::Allow),
        st.devices.contains_key(mac) ==> after_upsert(st, mac, ip, now).devices[mac].hostname == st.devices[mac].hostname,
        st.devices.contains_key(mac) ==> after_upsert(st, mac, ip, now).devices[mac].download_bytes == st.devices[mac].download_bytes,
        st.devices.contains_key(mac) ==> after_upsert(st, mac, ip, now).devices[mac].upload_bytes == st.devices[mac].upload_bytes,
{
}

/// Counting traffic changes no policy and never lowers a counter.
pub proof fn lemma_counting_keeps_policies(st: StateView, ip: u32, bytes: u64, now: u64, other: u32)
    ensures
        policy_of(after_download(st, ip, bytes, now), other) == policy_of(st, other),
        policy_of(after_upload(st, ip, bytes, now), other) == policy_of(st, other),
        device_of_ip(st, ip) matches Some(m) ==> after_download(st, ip, bytes, now).devices[m].download_bytes
            >= st.devices[m].download_bytes,
        device_of_ip(st, ip) matches Some(m) ==> after_upload(st, ip, bytes, now).devices[m].upload_bytes
            >= st.devices[m].upload_bytes,
{
}

/// An operation on the shared state, as the state's methods perform it.
pub enum StateOp {
    Upsert { mac: MacAddr, ip: u32, now: u64 },
    Download { ip: u32, bytes: u64, now: u64 },
    Upload { ip: u32, bytes: u64, now: u64 },
    SetPolicy { mac: MacAddr, policy: DevicePolicy },
    Name { mac: MacAddr, name: Seq<char> },
    SetSubnet { network: u32, prefix: u8 },
    RequestScan,
    TakeScanRequest,
    RequestShutdown,
}

/// The state after the operation `op`.
pub open spec fn after_op(st: StateView, op: StateOp) -> StateView {
    match op {
        StateOp::Upsert { mac, ip, now } => after_upsert(st, mac, ip, now),
        StateOp::Download { ip, bytes, now } => after_download(st, ip, bytes, now),
        StateOp::Upload { ip, bytes, now } => after_upload(st, ip, bytes, now),
        StateOp::SetPolicy { mac, policy } => after_set_policy(st, mac, policy),
        StateOp::Name { mac, name } => after_hostname(st, mac, name),
        StateOp::SetSubnet { network, prefix } => StateView { subnet: (network, prefix), ..st },
        StateOp::RequestScan => StateView { scan_requested: true, ..st },
        StateOp::TakeScanRequest => StateView { scan_requested: false, ..st },
        StateOp::RequestShutdown => StateView { shutdown: true, ..st },
    }
}

/// The state after the operations `ops`, in order.
pub open spec fn after_ops(st: StateView, ops: Seq<StateOp>) -> StateView
    decreases ops.len(),
{
    if ops.len() == 0 {
        st
    } else {
        after_op(after_ops(st, ops.drop_last()), ops.last())
    }
}

/// Shutdown is sticky: after any sequence of operations the state is shut
/// down exactly when it was before or one of the operations asked for it;
/// no operation clears the flag.
pub proof fn lemma_shutdown_sticky(st: StateView, ops: Seq<StateOp>)
    ensures
        after_ops(st, ops).shutdown == (st.shutdown || exists|i: int| 0 <= i < ops.len() && #[trigger] ops[i] is RequestShutdown),
    decreases ops.len(),
{
    if ops.len() > 0 {
        let pre = ops.drop_last();
        lemma_shutdown_sticky(st, pre);
        if exists|i: int| 0 <= i < pre.len() && #[trigger] pre[i] is RequestShutdown {
            let i = choose|i: int| 0 <= i < pre.len() && #[trigger] pre[i] is RequestShutdown;
            assert(ops[i] == pre[i]);
        }
        if exists|i: int| 0 <= i < ops.len() && #[trigger] ops[i] is RequestShutdown {
            let i = choose|i: int| 0 <= i < ops.len() && #[trigger] ops[i] is RequestShutdown;
            if i < ops.len() - 1 {
                assert(pre[i] == ops[i]);
            }
        }
        assert(ops.last() == ops[ops.len() - 1]);
    }
}

}
