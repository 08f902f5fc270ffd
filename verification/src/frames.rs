//! ARP over Ethernet: building the request frames a scan broadcasts and
//! reading the sender of reply frames. The byte layout is the `pnet`
//! packet crate's; each access goes through it.

use vstd::prelude::*;
use pnet::packet::arp::{ArpHardwareType, ArpOperation, ArpPacket, MutableArpPacket};
use pnet::packet::ethernet::{EtherType, EthernetPacket, MutableEthernetPacket};
use pnet::packet::Packet;
use crate::net::{octet, MacAddr};
use crate::state::{after_upsert, SharedState};

verus! {

/// The EtherType of ARP.
pub const ETHERTYPE_ARP: u16 = 0x0806;
/// The EtherType of IPv4.
pub const ETHERTYPE_IPV4: u16 = 0x0800;
/// The ARP hardware type of Ethernet.
pub const ARP_HARDWARE_ETHERNET: u16 = 1;
/// The ARP operation of a request.
pub const ARP_REQUEST: u16 = 1;
/// The ARP operation of a reply.
pub const ARP_REPLY: u16 = 2;
/// Length of an Ethernet header.
pub const ETHERNET_HEADER_LEN: usize = 14;
/// Length of an ARP message for IPv4 over Ethernet.
pub const ARP_LEN: usize = 28;

/// `v` as two bytes, most significant first.
pub open spec fn be16(v: u16) -> Seq<u8> {
    seq![(v / 256) as u8, (v % 256) as u8]
}

/// The big-endian value of the two bytes of `s` at `at`.
pub open spec fn read16(s: Seq<u8>, at: int) -> u16 {
    (s[at] as int * 256 + s[at + 1] as int) as u16
}

/// The four octets of `ip`, first octet first.
pub open spec fn ip_bytes(ip: u32) -> Seq<u8> {
    seq![octet(ip, 0) as u8, octet(ip, 1) as u8, octet(ip, 2) as u8, octet(ip, 3) as u8]
}

/// `s` with the bytes `b` written at `at`.
pub open spec fn put_bytes(s: Seq<u8>, at: int, b: Seq<u8>) -> Seq<u8> {
    s.take(at) + b + s.skip(at + b.len())
}

/// `EthernetPacket::new`, then `get_ethertype`: a frame needs the 14 bytes of
/// the header; the type is big-endian at bytes 12 and 13.
#[verifier::external_body]
fn ethernet_ethertype(frame: &[u8]) -> (r: Option<u16>)
    ensures
        r is Some <==> frame@.len() >= 14,
        r matches Some(t) ==> t == read16(frame@, 12),
{
    EthernetPacket::new(frame).map(|p| p.get_ethertype().0)
}

/// `EthernetPacket::new`, then `payload`: all bytes after the header.
#[verifier::external_body]
fn ethernet_payload(frame: &[u8]) -> (r: Option<Vec<u8>>)
    ensures
        r is Some <==> frame@.len() >= 14,
        r matches Some(p) ==> p@ == frame@.skip(14),
{
    EthernetPacket::new(frame).map(|p| p.payload().to_vec())
}

/// `ArpPacket::new`, then `get_operation`: a message needs 28 bytes; the
/// operation is big-endian at bytes 6 and 7.
#[verifier::external_body]
fn arp_operation(msg: &[u8]) -> (r: Option<u16>)
    ensures
        r is Some <==> msg@.len() >= 28,
        r matches Some(op) ==> op == read16(msg@, 6),
{
    ArpPacket::new(msg).map(|p| p.get_operation().0)
}

/// `ArpPacket::new`, then `get_sender_hw_addr`: bytes 8 to 13.
#[verifier::external_body]
fn arp_sender_hw_addr(msg: &[u8]) -> (r: Option<MacAddr>)
    ensures
        r is Some <==> msg@.len() >= 28,
        r matches Some(m) ==> m@ == msg@.subrange(8, 14),
{
    ArpPacket::new(msg).map(|p| p.get_sender_hw_addr().octets())
}

/// `ArpPacket::new`, then `get_sender_proto_addr`: bytes 14 to 17, first
/// octet first.
#[verifier::external_body]
fn arp_sender_proto_addr(msg: &[u8]) -> (r: Option<u32>)
    ensures
        r is Some <==> msg@.len() >= 28,
        r matches Some(ip) ==> ip_bytes(ip) == msg@.subrange(14, 18),
{
    ArpPacket::new(msg).map(|p| u32::from(p.get_sender_proto_addr()))
}

/// `MutableEthernetPacket::new`, then `set_destination`: bytes 0 to 5.
#[verifier::external_body]
fn ethernet_set_destination(frame: &mut Vec<u8>, mac: MacAddr)
    requires
        old(frame)@.len() >= 14,
    ensures
        final(frame)@ == put_bytes(old(frame)@, 0, mac@),
{
    MutableEthernetPacket::new(frame.as_mut_slice()).unwrap().set_destination(pnet::util::MacAddr::from(mac));
}

/// `MutableEthernetPacket::new`, then `set_source`: bytes 6 to 11.
#[verifier::external_body]
fn ethernet_set_source(frame: &mut Vec<u8>, mac: MacAddr)
    requires
        old(frame)@.len() >= 14,
    ensures
        final(frame)@ == put_bytes(old(frame)@, 6, mac@),
{
    MutableEthernetPacket::new(frame.as_mut_slice()).unwrap().set_source(pnet::util::MacAddr::from(mac));
}

/// `MutableEthernetPacket::new`, then `set_ethertype`: bytes 12 and 13,
/// big-endian.
#[verifier::external_body]
fn ethernet_set_ethertype(frame: &mut Vec<u8>, t: u16)
    requires
        old(frame)@.len() >= 14,
    ensures
        final(frame)@ == put_bytes(old(frame)@, 12, be16(t)),
{
    MutableEthernetPacket::new(frame.as_mut_slice()).unwrap().set_ethertype(EtherType(t));
}

/// `MutableArpPacket::new` on the bytes after the Ethernet header, then
/// `set_hardware_type`: frame bytes 14 and 15, big-endian.
#[verifier::external_body]
fn arp_set_hardware_type(frame: &mut Vec<u8>, v: u16)
    requires
        old(frame)@.len() >= 42,
    ensures
        final(frame)@ == put_bytes(old(frame)@, 14, be16(v)),
{
    MutableArpPacket::new(&mut frame[14..]).unwrap().set_hardware_type(ArpHardwareType(v));
}

/// `MutableArpPacket::new` after the Ethernet header, then
/// `set_protocol_type`: frame bytes 16 and 17, big-endian.
#[verifier::external_body]
fn arp_set_protocol_type(frame: &mut Vec<u8>, v: u16)
    requires
        old(frame)@.len() >= 42,
    ensures
        final(frame)@ == put_bytes(old(frame)@, 16, be16(v)),
{
    MutableArpPacket::new(&mut frame[14..]).unwrap().set_protocol_type(EtherType(v));
}

/// `MutableArpPacket::new` after the Ethernet header, then
/// `set_hw_addr_len`: frame byte 18.
#[verifier::external_body]
fn arp_set_hw_addr_len(frame: &mut Vec<u8>, v: u8)
    requires
        old(frame)@.len() >= 42,
    ensures
        final(frame)@ == put_bytes(old(frame)@, 18, seq![v]),
{
    MutableArpPacket::new(&mut frame[14..]).unwrap().set_hw_addr_len(v);
}

/// `MutableArpPacket::new` after the Ethernet header, then
/// `set_proto_addr_len`: frame byte 19.
#[verifier::external_body]
fn arp_set_proto_addr_len(frame: &mut Vec<u8>, v: u8)
    requires
        old(frame)@.len() >= 42,
    ensures
        final(frame)@ == put_bytes(old(frame)@, 19, seq![v]),
{
    MutableArpPacket::new(&mut frame[14..]).unwrap().set_proto_addr_len(v);
}

/// `MutableArpPacket::new` after the Ethernet header, then `set_operation`:
/// frame bytes 20 and 21, big-endian.
#[verifier::external_body]
fn arp_set_operation(frame: &mut Vec<u8>, v: u16)
    requires
        old(frame)@.len() >= 42,
    ensures
        final(frame)@ == put_bytes(old(frame)@, 20, be16(v)),
{
    MutableArpPacket::new(&mut frame[14..]).unwrap().set_operation(ArpOperation(v));
}

/// `MutableArpPacket::new` after the Ethernet header, then
/// `set_sender_hw_addr`: frame bytes 22 to 27.
#[verifier::external_body]
fn arp_set_sender_hw_addr(frame: &mut Vec<u8>, mac: MacAddr)
    requires
        old(frame)@.len() >= 42,
    ensures
        final(frame)@ == put_bytes(old(frame)@, 22, mac@),
{
    MutableArpPacket::new(&mut frame[14..]).unwrap().set_sender_hw_addr(pnet::util::MacAddr::from(mac));
}

/// `MutableArpPacket::new` after the Ethernet header, then
/// `set_sender_proto_addr`: frame bytes 28 to 31, first octet first.
#[verifier::external_body]
fn arp_set_sender_proto_addr(frame: &mut Vec<u8>, ip: u32)
    requires
        old(frame)@.len() >= 42,
    ensures
        final(frame)@ == put_bytes(old(frame)@, 28, ip_bytes(ip)),
{
    MutableArpPacket::new(&mut frame[14..]).unwrap().set_sender_proto_addr(ip.into());
}

/// `MutableArpPacket::new` after the Ethernet header, then
/// `set_target_hw_addr`: frame bytes 32 to 37.
#[verifier::external_body]
fn arp_set_target_hw_addr(frame: &mut Vec<u8>, mac: MacAddr)
    requires
        old(frame)@.len() >= 42,
    ensures
        final(frame)@ == put_bytes(old(frame)@, 32, mac@),
{
    MutableArpPacket::new(&mut frame[14..]).unwrap().set_target_hw_addr(pnet::util::MacAddr::from(mac));
}

/// `MutableArpPacket::new` after the Ethernet header, then
/// `set_target_proto_addr`: frame bytes 38 to 41, first octet first.
#[verifier::external_body]
fn arp_set_target_proto_addr(frame: &mut Vec<u8>, ip: u32)
    requires
        old(frame)@.len() >= 42,
    ensures
        final(frame)@ == put_bytes(old(frame)@, 38, ip_bytes(ip)),
{
    MutableArpPacket::new(&mut frame[14..]).unwrap().set_target_proto_addr(ip.into());
}

/// The 42-byte ARP request that asks, from `src_mac` and `src_ip`, who has
/// `target_ip`: broadcast Ethernet header, then an Ethernet/IPv4 request with
/// an all-zero target hardware address.
pub open spec fn arp_request_frame(src_mac: MacAddr, src_ip: u32, target_ip: u32) -> Seq<u8> {
    seq![0xffu8, 0xff, 0xff, 0xff, 0xff, 0xff] + src_mac@ + be16(ETHERTYPE_ARP)
        + be16(ARP_HARDWARE_ETHERNET) + be16(ETHERTYPE_IPV4) + seq![6u8, 4u8] + be16(ARP_REQUEST)
        + src_mac@ + ip_bytes(src_ip) + seq![0u8, 0, 0, 0, 0, 0] + ip_bytes(target_ip)
}

/// Builds the ARP request frame that asks who has `target_ip`.
pub fn build_arp_request(src_mac: MacAddr, src_ip: u32, target_ip: u32) -> (frame: Vec<u8>)
    ensures
        frame@ == arp_request_frame(src_mac, src_ip, target_ip),
{
    let mut frame: Vec<u8> = vec![0u8; 42];
    ethernet_set_destination(&mut frame, [0xffu8; 6]);
    ethernet_set_source(&mut frame, src_mac);
    ethernet_set_ethertype(&mut frame, ETHERTYPE_ARP);
    arp_set_hardware_type(&mut frame, ARP_HARDWARE_ETHERNET);
    arp_set_protocol_type(&mut frame, ETHERTYPE_IPV4);
    arp_set_hw_addr_len(&mut frame, 6);
    arp_set_proto_addr_len(&mut frame, 4);
    arp_set_operation(&mut frame, ARP_REQUEST);
    arp_set_sender_hw_addr(&mut frame, src_mac);
    arp_set_sender_proto_addr(&mut frame, src_ip);
    arp_set_target_hw_addr(&mut frame, [0u8; 6]);
    arp_set_target_proto_addr(&mut frame, target_ip);
    assert(frame@ =~= arp_request_frame(src_mac, src_ip, target_ip));
    frame
}

/// Whether `f` is an Ethernet frame that carries a whole ARP reply.
pub open spec fn is_arp_reply(f: Seq<u8>) -> bool {
    &&& f.len() >= 42
    &&& read16(f, 12) == ETHERTYPE_ARP
    &&& read16(f, 20) == ARP_REPLY
}

/// The sender of an ARP reply.
pub struct ArpSender {
    pub mac: MacAddr,
    pub ip: u32,
}

/// The sender of `frame` where it is an ARP reply, `None` for any other frame.
pub fn arp_reply_sender(frame: &[u8]) -> (r: Option<ArpSender>)
    ensures
        r is Some <==> is_arp_reply(frame@),
        r matches Some(s) ==> s.mac@ == frame@.subrange(22, 28) && ip_bytes(s.ip) == frame@.subrange(28, 32),
{
    let ethertype = match ethernet_ethertype(frame) {
        Some(t) => t,
        None => return None,
    };
    if ethertype != ETHERTYPE_ARP {
        return None;
    }
    let payload = match ethernet_payload(frame) {
        Some(p) => p,
        None => return None,
    };
    let op = match arp_operation(payload.as_slice()) {
        Some(op) => op,
        None => return None,
    };
    assert(payload@.len() >= 28);
    assert(read16(payload@, 6) == read16(frame@, 20));
    if op != ARP_REPLY {
        return None;
    }
    let mac = match arp_sender_hw_addr(payload.as_slice()) {
        Some(m) => m,
        None => return None,
    };
    let ip = match arp_sender_proto_addr(payload.as_slice()) {
        Some(ip) => ip,
        None => return None,
    };
    assert(payload@.subrange(8, 14) =~= frame@.subrange(22, 28));
    assert(payload@.subrange(14, 18) =~= frame@.subrange(28, 32));
    Some(ArpSender { mac, ip })
}

/// A request frame that the scan sends is never taken for a reply.
pub proof fn lemma_request_is_no_reply(src_mac: MacAddr, src_ip: u32, target_ip: u32)
    ensures
        !is_arp_reply(arp_request_frame(src_mac, src_ip, target_ip)),
{
    let f = arp_request_frame(src_mac, src_ip, target_ip);
    assert(f[20] == 0u8 && f[21] == 1u8);
}

/// Records the sender of `frame` as a device seen at `now_ns` when the frame
/// is an ARP reply, and leaves the state alone otherwise; returns whether it
/// was a reply.
pub fn record_arp_reply(state: &mut SharedState, frame: &[u8], now_ns: u64) -> (b: bool)
    requires
        old(state).wf(),
    ensures
        final(state).wf(),
        b == is_arp_reply(frame@),
        !b ==> final(state)@ == old(state)@,
        b ==> exists|s: ArpSender|
            s.mac@ == frame@.subrange(22, 28) && ip_bytes(s.ip) == frame@.subrange(28, 32)
                && final(state)@ == #[trigger] after_upsert(old(state)@, s.mac, s.ip, now_ns),
{
    match arp_reply_sender(frame) {
        Some(s) => {
            state.upsert_device(s.mac, s.ip, now_ns);
            true
        },
        None => false,
    }
}

}
