//! The commands of the desktop window, which runs the subsystems in its own
//! process: list the devices, report the totals, set a policy, ask for a
//! scan, and read or apply the update found.
//!
//! Throttle limits are shown as `bps * 8 / 1000` kilobits per second, as
//! the control channel shows them.

use vstd::prelude::*;
use crate::ipc::{
    current_stats, device_dtos, dto_of, mac_of_text, parse_mac, payload_in_range, payload_to_policy,
    policy_of_payload, stats_of, PolicyPayload, StatsDto,
};
use crate::net::mac_text_ok;
use crate::state::{after_set_policy, lists_devices, totals_fit, DeviceView, SharedState, StateView};
use crate::updater::{update_download_url, UpdateInfo, UpdateState};

verus! {

/// A device as the window shows it: the same record as the control
/// channel's.
pub type DeviceDto = crate::ipc::DeviceDto;

/// The devices as the window shows them, each once.
pub fn get_devices(state: &SharedState) -> (v: Vec<DeviceDto>)
    requires
        state.wf(),
    ensures
        exists|w: Seq<DeviceView>|
            #![trigger lists_devices(w, state@.devices)]
            lists_devices(w, state@.devices) && v@.map_values(|d: DeviceDto| d@) == w.map_values(
                |d: DeviceView| dto_of(d),
            ),
{
    device_dtos(state)
}

/// The traffic totals of all devices.
pub fn get_stats(state: &SharedState) -> (s: StatsDto)
    requires
        state.wf(),
        totals_fit(state@.devices),
    ensures
        exists|w: Seq<DeviceView>| #![trigger lists_devices(w, state@.devices)] lists_devices(w, state@.devices)
            && s == stats_of(w),
{
    current_stats(state)
}

/// Sets the policy of the device with MAC address `mac`: `Err` with
/// `Invalid MAC: ` and the text when `mac` is no MAC address.
pub fn set_policy(state: &mut SharedState, mac: &str, policy: PolicyPayload) -> (r: Result<(), String>)
    requires
        old(state).wf(),
        mac_text_ok(mac@, ':') ==> payload_in_range(policy),
    ensures
        final(state).wf(),
        r is Ok <==> mac_text_ok(mac@, ':'),
        r is Ok ==> final(state)@ == after_set_policy(old(state)@, mac_of_text(mac@), policy_of_payload(policy)),
        r matches Err(m) ==> final(state)@ == old(state)@ && m@ == "Invalid MAC: "@ + mac@,
{
    match parse_mac(mac) {
        Some(mac_bytes) => {
            let device_policy = payload_to_policy(policy);
            state.set_policy(&mac_bytes, device_policy);
            Ok(())
        },
        None => {
            let mut message = String::from_str("Invalid MAC: ");
            message.append(mac);
            Err(message)
        },
    }
}

/// Asks the discovery loop for an immediate scan.
pub fn trigger_scan(state: &mut SharedState) -> (r: Result<(), String>)
    ensures
        r is Ok,
        final(state)@ == (StateView { scan_requested: true, ..old(state)@ }),
        final(state).wf() == old(state).wf(),
{
    state.request_scan();
    Ok(())
}

/// What the last update check found.
pub fn check_update(us: &UpdateState) -> (r: UpdateInfo)
    ensures
        r@ == us.info@,
{
    us.info.clone()
}

/// The address to download the update from, for the installer to run:
/// `Err` with `No update available` when there is none.
pub fn apply_update(us: &UpdateState) -> (r: Result<String, String>)
    ensures
        (us.info.available && us.info.download_url@.len() > 0) ==> (r matches Ok(u) && u@
            == us.info.download_url@),
        !(us.info.available && us.info.download_url@.len() > 0) ==> (r matches Err(m) && m@
            == "No update available"@),
{
    update_download_url(&us.info)
}

}
