//! Device discovery: reading the local network from the system's network
//! configuration report, the addresses to probe, the system's ARP table,
//! ARP frames, NetBIOS node-status replies, and choosing the interface.
//!
//! The caller runs the commands, sockets and raw channels and hands their
//! output over; this module decides what it means.

use vstd::prelude::*;
use vstd::arithmetic::power2::{lemma2_to64, lemma_pow2_unfold, pow2};
use vstd::utf8::{decode_utf8, valid_utf8};
use crate::net::{
    is_private, is_private_ip, mac_from_text, mac_text_ok, parse_ipv4, parse_ipv4_spec, parse_mac_chars,
    parse_mac_with, MacAddr,
};
use crate::state::{after_hostname, after_upsert, SharedState, StateView};
use crate::text::{
    chars_of, contains_chars, contains_seq, lemma_split_seq_nonempty, split_chars, split_seq, split_words,
    string_from_chars, trim, trim_chars, words,
};

verus! {

/// The number of one bits of `x`.
pub open spec fn popcount(x: nat) -> nat
    decreases x,
{
    if x == 0 { 0 } else { (x % 2) + popcount(x / 2) }
}

/// The number of one bits of `x`, as `u32::count_ones` gives it.
pub fn count_ones(x: u32) -> (n: u32)
    ensures
        n == popcount(x as nat),
        n <= 32,
{
    let mut v: u32 = x;
    let mut n: u32 = 0;
    let mut k: u32 = 0;
    proof {
        lemma2_to64();
    }
    while v > 0
        invariant
            n + popcount(v as nat) == popcount(x as nat),
            n <= k,
            k <= 32,
            v < pow2((32 - k) as nat),
        decreases v,
    {
        proof {
            if k == 32 {
                assert(pow2(0) == 1) by {
                    lemma2_to64();
                }
            }
            lemma_pow2_unfold((32 - k) as nat);
        }
        n = n + v % 2;
        v = v / 2;
        k = k + 1;
    }
    n
}

}

verus! {

/// The text after the last `c` of `s` (all of `s` when it has none), as
/// `s.rsplit(c).next()` gives it.
pub open spec fn last_piece(s: Seq<char>, c: char) -> Seq<char> {
    split_seq(s, c).last()
}

/// The private address that a (trimmed) line of the configuration report
/// names as the IPv4 address: the line mentions `IPv4` or `IP Address` and
/// has a `:`, and the trimmed text after its last `:` is such an address.
pub open spec fn address_line(t: Seq<char>) -> Option<u32> {
    if (contains_seq(t, "IPv4"@) || contains_seq(t, "IP Address"@)) && contains_seq(t, ":"@) {
        match parse_ipv4_spec(trim(last_piece(t, ':'))) {
            Some(ip) => if is_private(ip) { Some(ip) } else { None },
            None => None,
        }
    } else {
        None
    }
}

/// The prefix length that a (trimmed) line of the report gives as the subnet
/// mask: the line mentions `Subnet Mask` and has a `:`, and the trimmed text
/// after its last `:` is an IPv4 mask, whose one bits are counted.
pub open spec fn mask_line(t: Seq<char>) -> Option<u8> {
    if contains_seq(t, "Subnet Mask"@) && contains_seq(t, ":"@) {
        match parse_ipv4_spec(trim(last_piece(t, ':'))) {
            Some(m) => Some(popcount(m as nat) as u8),
            None => None,
        }
    } else {
        None
    }
}

/// Reads the report line by line, remembering the last private address
/// found: the first mask line met once an address is known gives the
/// network; without one, a known address counts as a /24.
pub open spec fn network_from(lines: Seq<Seq<char>>, found: Option<u32>) -> Option<(u32, u8)>
    decreases lines.len(),
{
    if lines.len() == 0 {
        match found {
            Some(ip) => Some((ip, 24u8)),
            None => None,
        }
    } else {
        let t = trim(lines[0]);
        let found2 = match address_line(t) {
            Some(ip) => Some(ip),
            None => found,
        };
        match (found2, mask_line(t)) {
            (Some(ip), Some(p)) => Some((ip, p)),
            _ => network_from(lines.drop_first(), found2),
        }
    }
}

/// The local address and prefix length that the network configuration
/// report `text` gives.
pub open spec fn local_network(text: Seq<char>) -> Option<(u32, u8)> {
    network_from(split_seq(text, '\n'), None)
}

proof fn lemma_skip_addressless(pre: Seq<Seq<char>>, x: Seq<Seq<char>>)
    requires
        forall|i: int| 0 <= i < pre.len() ==> address_line(trim(#[trigger] pre[i])) is None,
    ensures
        network_from(pre + x, None) == network_from(x, None),
    decreases pre.len(),
{
    if pre.len() > 0 {
        assert((pre + x)[0] == pre[0]);
        assert((pre + x).drop_first() =~= pre.drop_first() + x);
        assert forall|i: int| 0 <= i < pre.drop_first().len() implies address_line(trim(#[trigger] pre.drop_first()[i])) is None by {
            assert(pre.drop_first()[i] == pre[i + 1]);
        }
        lemma_skip_addressless(pre.drop_first(), x);
    } else {
        assert(pre + x =~= x);
    }
}

proof fn lemma_skip_quiet(mid: Seq<Seq<char>>, x: Seq<Seq<char>>, ip: u32)
    requires
        forall|i: int| 0 <= i < mid.len() ==> address_line(trim(#[trigger] mid[i])) is None && mask_line(trim(mid[i])) is None,
    ensures
        network_from(mid + x, Some(ip)) == network_from(x, Some(ip)),
    decreases mid.len(),
{
    if mid.len() > 0 {
        assert((mid + x)[0] == mid[0]);
        assert((mid + x).drop_first() =~= mid.drop_first() + x);
        assert forall|i: int| 0 <= i < mid.drop_first().len() implies address_line(trim(#[trigger] mid.drop_first()[i])) is None
            && mask_line(trim(mid.drop_first()[i])) is None by {
            assert(mid.drop_first()[i] == mid[i + 1]);
        }
        lemma_skip_quiet(mid.drop_first(), x, ip);
    } else {
        assert(mid + x =~= x);
    }
}

/// The network is read from the first address line and the first mask line
/// after it: when the lines before the address line name no address and the
/// lines between it and the mask line name neither an address nor a mask,
/// the detected network is that address with that mask's prefix, whatever
/// lines follow.
pub proof fn lemma_first_address_and_mask(
    pre: Seq<Seq<char>>,
    addr: Seq<char>,
    mid: Seq<Seq<char>>,
    mask: Seq<char>,
    rest: Seq<Seq<char>>,
    ip: u32,
    prefix: u8,
)
    requires
        forall|i: int| 0 <= i < pre.len() ==> address_line(trim(#[trigger] pre[i])) is None,
        address_line(trim(addr)) == Some(ip),
        mask_line(trim(addr)) is None,
        forall|i: int| 0 <= i < mid.len() ==> address_line(trim(#[trigger] mid[i])) is None && mask_line(trim(mid[i])) is None,
        address_line(trim(mask)) is None,
        mask_line(trim(mask)) == Some(prefix),
    ensures
        network_from(pre + seq![addr] + mid + seq![mask] + rest, None) == Some((ip, prefix)),
{
    let tail = seq![mask] + rest;
    let y = seq![addr] + (mid + tail);
    assert(pre + seq![addr] + mid + seq![mask] + rest =~= pre + y);
    lemma_skip_addressless(pre, y);
    assert(y[0] == addr);
    assert(y.drop_first() =~= mid + tail);
    lemma_skip_quiet(mid, tail, ip);
    assert(tail[0] == mask);
}

fn last_piece_chars(cs: &[char], c: char) -> (r: Vec<char>)
    ensures
        r@ == last_piece(cs@, c),
{
    let pieces = split_chars(cs, c);
    proof {
        lemma_split_seq_nonempty(cs@, c);
    }
    let n = pieces.len();
    let mut r: Vec<char> = Vec::new();
    let last = &pieces[n - 1];
    let mut i: usize = 0;
    while i < last.len()
        invariant
            i <= last@.len(),
            r@ == last@.take(i as int),
        decreases last@.len() - i,
    {
        r.push(last[i]);
        i = i + 1;
        assert(r@ =~= last@.take(i as int));
    }
    assert(last@.take(last@.len() as int) =~= last@);
    r
}

fn address_in_line(t: &[char]) -> (r: Option<u32>)
    ensures
        r == address_line(t@),
{
    let k1 = chars_of("IPv4");
    let k2 = chars_of("IP Address");
    let colon = chars_of(":");
    if (contains_chars(t, k1.as_slice()) || contains_chars(t, k2.as_slice())) && contains_chars(t, colon.as_slice()) {
        let piece = last_piece_chars(t, ':');
        let text = trim_chars(piece.as_slice());
        match parse_ipv4(text.as_slice()) {
            Some(ip) => if is_private_ip(ip) { Some(ip) } else { None },
            None => None,
        }
    } else {
        None
    }
}

fn mask_in_line(t: &[char]) -> (r: Option<u8>)
    ensures
        r == mask_line(t@),
{
    let k = chars_of("Subnet Mask");
    let colon = chars_of(":");
    if contains_chars(t, k.as_slice()) && contains_chars(t, colon.as_slice()) {
        let piece = last_piece_chars(t, ':');
        let text = trim_chars(piece.as_slice());
        match parse_ipv4(text.as_slice()) {
            Some(m) => Some(count_ones(m) as u8),
            None => None,
        }
    } else {
        None
    }
}

/// The local address and prefix length that the network configuration
/// report `text` (the output of `ipconfig`) gives, or `None` when it names
/// no private IPv4 address.
pub fn detect_local_network(text: &str) -> (r: Option<(u32, u8)>)
    ensures
        r == local_network(text@),
{
    let cs = chars_of(text);
    let lines = split_chars(cs.as_slice(), '\n');
    let ghost ls = split_seq(text@, '\n');
    let mut found: Option<u32> = None;
    let mut i: usize = 0;
    assert(ls.skip(0) =~= ls);
    while i < lines.len()
        invariant
            i <= lines@.len(),
            lines@.len() == ls.len(),
            forall|j: int| 0 <= j < lines@.len() ==> #[trigger] lines@[j]@ == ls[j],
            local_network(text@) == network_from(ls.skip(i as int), found),
        decreases lines@.len() - i,
    {
        let t = trim_chars(lines[i].as_slice());
        proof {
            assert(ls.skip(i as int)[0] == lines@[i as int]@);
            assert(ls.skip(i as int).drop_first() =~= ls.skip(i + 1));
        }
        match address_in_line(t.as_slice()) {
            Some(ip) => {
                found = Some(ip);
            },
            None => {},
        }
        match (found, mask_in_line(t.as_slice())) {
            (Some(ip), Some(p)) => {
                return Some((ip, p));
            },
            _ => {},
        }
        i = i + 1;
    }
    match found {
        Some(ip) => Some((ip, 24)),
        None => None,
    }
}

}

verus! {

/// The netmask of a prefix of length `prefix` (all ones from 32 on).
pub open spec fn prefix_mask(prefix: u8) -> u32 {
    if prefix >= 32 { !0u32 } else { (!0u32) << ((32 - prefix) as u32) }
}

/// The number of addresses of a prefix of length `prefix` (one from 32 on).
pub open spec fn prefix_hosts(prefix: u8) -> u32 {
    if prefix >= 32 { 1u32 } else { 1u32 << ((32 - prefix) as u32) }
}

/// The network to scan around the local address `local_ip` with prefix
/// length `prefix`: its network address and its number of addresses. A
/// zero prefix is left out: its mask shift overflows.
pub fn network_plan(local_ip: u32, prefix: u8) -> (r: (u32, u32))
    requires
        prefix >= 1,
    ensures
        r.0 == local_ip & prefix_mask(prefix),
        r.1 == prefix_hosts(prefix),
        r.0 as int + r.1 as int <= 0x1_0000_0000,
{
    if prefix >= 32 {
        let n = local_ip & !0u32;
        assert(n as int + 1 <= 0x1_0000_0000) by (bit_vector)
            requires
                n == local_ip & !0u32,
        ;
        (local_ip & !0u32, 1)
    } else {
        let k: u32 = (32 - prefix) as u32;
        let mask: u32 = !0u32 << k;
        let hosts: u32 = 1u32 << k;
        let net: u32 = local_ip & mask;
        assert(net as int + hosts as int <= 0x1_0000_0000) by (bit_vector)
            requires
                1 <= k < 32,
                mask == !0u32 << k,
                hosts == 1u32 << k,
                net == local_ip & mask,
        ;
        (net, hosts)
    }
}

/// The number of addresses a scan covers: `min(host_count, 255)`.
pub open spec fn scan_span(host_count: u32) -> int {
    if host_count < 255 { host_count as int } else { 255 }
}

/// The addresses to probe in a network of `host_count` addresses from
/// `base`: `base + 1` up to `base + min(host_count, 255) - 1`.
pub open spec fn probe_targets_spec(base: u32, host_count: u32) -> Seq<u32> {
    if scan_span(host_count) <= 1 {
        Seq::<u32>::empty()
    } else {
        Seq::new((scan_span(host_count) - 1) as nat, |i: int| (base + i + 1) as u32)
    }
}

/// The addresses to probe: `base + 1` up to `base + min(host_count, 255) - 1`.
/// Addresses past the end of the IPv4 space are left out, as the sum
/// overflows.
pub fn probe_targets(base: u32, host_count: u32) -> (r: Vec<u32>)
    requires
        base as int + scan_span(host_count) <= 0x1_0000_0000,
    ensures
        r@ == probe_targets_spec(base, host_count),
{
    let span: u32 = if host_count < 255 { host_count } else { 255 };
    let mut r: Vec<u32> = Vec::new();
    let mut i: u32 = 1;
    while i < span
        invariant
            1 <= i,
            span as int == scan_span(host_count),
            base as int + span <= 0x1_0000_0000,
            i <= span || span <= 1,
            span <= 1 ==> i == 1,
            r@.len() == i - 1,
            forall|j: int| 0 <= j < r@.len() ==> r@[j] == (base + j + 1) as u32,
        decreases span - i,
    {
        r.push(base + i);
        i = i + 1;
    }
    proof {
        let t = probe_targets_spec(base, host_count);
        if span <= 1 {
            assert(r@.len() == 0);
            assert(r@ =~= t);
        } else {
            assert(i == span);
            assert(t.len() == span - 1);
            assert forall|j: int| 0 <= j < t.len() implies t[j] == r@[j] by {}
            assert(r@ =~= t);
        }
    }
    r
}

/// The ARP table line `line` as the device it names: its words are an IPv4
/// address, a MAC address written with `-`, and `dynamic`; the local address
/// and the broadcast MAC address are left out.
pub open spec fn arp_line_entry(line: Seq<char>, local_ip: u32) -> Option<(MacAddr, u32)> {
    let p = words(line);
    if p.len() >= 3 && p[2] == "dynamic"@ && parse_ipv4_spec(p[0]) is Some && mac_text_ok(p[1], '-') {
        let ip = parse_ipv4_spec(p[0])->0;
        let mac = mac_from_text(p[1], '-');
        if ip == local_ip || is_broadcast_mac(mac) { None } else { Some((mac, ip)) }
    } else {
        None
    }
}

/// `mac` is the broadcast address `FF:FF:FF:FF:FF:FF`.
pub open spec fn is_broadcast_mac(mac: MacAddr) -> bool {
    mac@[0] == 0xff && mac@[1] == 0xff && mac@[2] == 0xff && mac@[3] == 0xff && mac@[4] == 0xff && mac@[5] == 0xff
}

/// The devices that the lines `lines` of an ARP table name, in order.
pub open spec fn arp_entries(lines: Seq<Seq<char>>, local_ip: u32) -> Seq<(MacAddr, u32)>
    decreases lines.len(),
{
    if lines.len() == 0 {
        Seq::empty()
    } else {
        let prev = arp_entries(lines.drop_last(), local_ip);
        match arp_line_entry(lines.last(), local_ip) {
            Some(e) => prev.push(e),
            None => prev,
        }
    }
}

/// The state after adding the devices `es` in order, each seen at `now`.
pub open spec fn upsert_all(st: StateView, es: Seq<(MacAddr, u32)>, now: u64) -> StateView
    decreases es.len(),
{
    if es.len() == 0 {
        st
    } else {
        after_upsert(upsert_all(st, es.drop_last(), now), es.last().0, es.last().1, now)
    }
}

pub(crate) fn chars_equal(a: &[char], b: &[char]) -> (r: bool)
    ensures
        r == (a@ == b@),
{
    if a.len() != b.len() {
        return false;
    }
    let mut i: usize = 0;
    while i < a.len()
        invariant
            i <= a@.len(),
            a@.len() == b@.len(),
            forall|j: int| 0 <= j < i ==> a@[j] == b@[j],
        decreases a@.len() - i,
    {
        if a[i] != b[i] {
            return false;
        }
        i = i + 1;
    }
    assert(a@ =~= b@);
    true
}

fn arp_line(line: &[char], local_ip: u32) -> (r: Option<(MacAddr, u32)>)
    ensures
        r == arp_line_entry(line@, local_ip),
{
    let p = split_words(line);
    if p.len() < 3 {
        return None;
    }
    let dynamic = chars_of("dynamic");
    if !chars_equal(p[2].as_slice(), dynamic.as_slice()) {
        return None;
    }
    match (parse_ipv4(p[0].as_slice()), parse_mac_chars(p[1].as_slice(), '-')) {
        (Some(ip), Some(mac)) => {
            if ip == local_ip {
                return None;
            }
            if mac[0] == 0xff && mac[1] == 0xff && mac[2] == 0xff && mac[3] == 0xff && mac[4] == 0xff && mac[5] == 0xff {
                return None;
            }
            Some((mac, ip))
        },
        _ => None,
    }
}

/// Reads the system's ARP table `text` (the output of `arp -a`): every
/// dynamic entry other than the local address and the broadcast address is
/// added to `state` as a device seen at `now_ns`. Returns how many entries
/// were added.
pub fn parse_arp_table(state: &mut SharedState, text: &str, local_ip: u32, now_ns: u64) -> (count: usize)
    requires
        old(state).wf(),
    ensures
        final(state).wf(),
        final(state)@ == upsert_all(old(state)@, arp_entries(split_seq(text@, '\n'), local_ip), now_ns),
        count == arp_entries(split_seq(text@, '\n'), local_ip).len(),
{
    let cs = chars_of(text);
    let lines = split_chars(cs.as_slice(), '\n');
    let ghost ls = split_seq(text@, '\n');
    let mut count: usize = 0;
    let mut i: usize = 0;
    while i < lines.len()
        invariant
            i <= lines@.len(),
            lines@.len() == ls.len(),
            forall|j: int| 0 <= j < lines@.len() ==> #[trigger] lines@[j]@ == ls[j],
            state.wf(),
            state@ == upsert_all(old(state)@, arp_entries(ls.take(i as int), local_ip), now_ns),
            count == arp_entries(ls.take(i as int), local_ip).len(),
            count <= i,
        decreases lines@.len() - i,
    {
        proof {
            assert(ls.take(i + 1).drop_last() =~= ls.take(i as int));
            assert(ls.take(i + 1).last() == lines@[i as int]@);
        }
        match arp_line(lines[i].as_slice(), local_ip) {
            Some((mac, ip)) => {
                proof {
                    let prev = arp_entries(ls.take(i as int), local_ip);
                    let next = arp_entries(ls.take(i + 1), local_ip);
                    assert(next == prev.push((mac, ip)));
                    assert(next.drop_last() =~= prev);
                }
                state.upsert_device(mac, ip, now_ns);
                count = count + 1;
            },
            None => {},
        }
        i = i + 1;
    }
    assert(ls.take(ls.len() as int) =~= ls);
    count
}

/// Parses a MAC address as the ARP table writes it, `aa-bb-cc-dd-ee-ff`.
pub fn parse_win_mac(s: &str) -> (res: Option<MacAddr>)
    ensures
        res is Some <==> mac_text_ok(s@, '-'),
        res matches Some(m) ==> m == mac_from_text(s@, '-'),
{
    parse_mac_with(s, '-')
}

}

verus! {

/// The number of addresses a scan of a subnet with prefix length `prefix`
/// covers, `2^(32 - prefix)`; a zero prefix overflows the shift and is left
/// out.
pub fn subnet_hosts(prefix: u8) -> (n: u32)
    requires
        1 <= prefix <= 32,
    ensures
        n == prefix_hosts(prefix),
{
    if prefix >= 32 {
        1
    } else {
        1u32 << ((32 - prefix) as u32)
    }
}

/// The text that `String::from_utf8_lossy` makes of `bytes`.
pub uninterp spec fn utf8_lossy(bytes: Seq<u8>) -> Seq<char>;

/// `String::from_utf8_lossy`: valid UTF-8 decodes as itself; other bytes
/// decode as the lossy text of `bytes`.
#[verifier::external_body]
fn decode_lossy(bytes: &[u8]) -> (s: String)
    ensures
        s@ == utf8_lossy(bytes@),
        valid_utf8(bytes@) ==> s@ == decode_utf8(bytes@),
{
    String::from_utf8_lossy(bytes).into_owned()
}

/// The NetBIOS node-status query for the wildcard name `*`.
pub open spec fn netbios_query_bytes() -> Seq<u8> {
    seq![
        0x00u8, 0x01, 0x00, 0x00, 0x00, 0x01, 0x00, 0x00, 0x00, 0x00, 0x00, 0x00,
        0x20,
        0x43, 0x4B, 0x41, 0x41, 0x41, 0x41, 0x41, 0x41,
        0x41, 0x41, 0x41, 0x41, 0x41, 0x41, 0x41, 0x41,
        0x41, 0x41, 0x41, 0x41, 0x41, 0x41, 0x41, 0x41,
        0x41, 0x41, 0x41, 0x41, 0x41, 0x41, 0x41, 0x41,
        0x00,
        0x00, 0x21, 0x00, 0x01,
    ]
}

/// The NetBIOS node-status query to send to UDP port 137.
pub fn netbios_status_query() -> (q: Vec<u8>)
    ensures
        q@ == netbios_query_bytes(),
{
    let q: Vec<u8> = vec![
        0x00u8, 0x01, 0x00, 0x00, 0x00, 0x01, 0x00, 0x00, 0x00, 0x00, 0x00, 0x00,
        0x20,
        0x43, 0x4B, 0x41, 0x41, 0x41, 0x41, 0x41, 0x41,
        0x41, 0x41, 0x41, 0x41, 0x41, 0x41, 0x41, 0x41,
        0x41, 0x41, 0x41, 0x41, 0x41, 0x41, 0x41, 0x41,
        0x41, 0x41, 0x41, 0x41, 0x41, 0x41, 0x41, 0x41,
        0x00,
        0x00, 0x21, 0x00, 0x01,
    ];
    assert(q@ =~= netbios_query_bytes());
    q
}

/// A decoded NetBIOS name with the padding around it trimmed.
pub fn clean_name(raw: &str) -> (name: String)
    ensures
        name@ == trim(raw@),
{
    let cs = chars_of(raw);
    let t = trim_chars(cs.as_slice());
    string_from_chars(t.as_slice())
}

/// The name in a NetBIOS node-status reply of `len` bytes held in `buf`: when
/// the reply is longer than 57 bytes, names at least one name and holds a
/// full name entry (75 bytes), the first name's 15 bytes decoded and trimmed;
/// otherwise empty.
pub open spec fn netbios_name_spec(buf: Seq<u8>, len: int) -> Seq<char> {
    if len > 57 && buf[56] > 0 && len >= 75 {
        trim(utf8_lossy(buf.subrange(57, 72)))
    } else {
        Seq::<char>::empty()
    }
}

/// The first name of the NetBIOS node-status reply in the first `len` bytes
/// of `buf`, or the empty text.
pub fn netbios_name(buf: &[u8], len: usize) -> (name: String)
    requires
        len <= buf@.len(),
    ensures
        name@ == netbios_name_spec(buf@, len as int),
{
    if len > 57 {
        let name_count = buf[56];
        if name_count > 0 && len >= 57 + 18 {
            let raw = decode_lossy(&buf[57..72]);
            return clean_name(raw.as_str());
        }
    }
    String::new()
}

/// `s` without every trailing `:0`, as `trim_end_matches(":0")` gives it.
pub open spec fn strip_port_zero(s: Seq<char>) -> Seq<char>
    decreases s.len(),
{
    if s.len() >= 2 && s[s.len() - 2] == ':' && s[s.len() - 1] == '0' {
        strip_port_zero(s.subrange(0, s.len() - 2))
    } else {
        s
    }
}

/// The host part of a socket address text such as `192.168.1.5:0`: every
/// trailing `:0` removed.
pub fn strip_port_suffix(s: &str) -> (r: String)
    ensures
        r@ == strip_port_zero(s@),
{
    let cs = chars_of(s);
    let mut n: usize = cs.len();
    assert(cs@.subrange(0, cs@.len() as int) =~= cs@);
    while n >= 2 && cs[n - 2] == ':' && cs[n - 1] == '0'
        invariant
            n <= cs@.len(),
            strip_port_zero(s@) == strip_port_zero(cs@.subrange(0, n as int)),
            cs@ == s@,
        decreases n,
    {
        assert(cs@.subrange(0, n as int).subrange(0, n - 2) =~= cs@.subrange(0, n - 2));
        n = n - 2;
    }
    string_from_chars(&cs.as_slice()[0..n])
}

/// What is known of a network interface.
#[derive(Debug, Clone, Copy, PartialEq, Eq, Structural)]
pub struct InterfaceFacts {
    pub is_up: bool,
    pub is_loopback: bool,
    pub has_mac: bool,
    pub has_ipv4: bool,
}

/// An interface fit to scan from: up, not loopback, with a MAC address and an
/// IPv4 address.
pub open spec fn usable(f: InterfaceFacts) -> bool {
    f.is_up && !f.is_loopback && f.has_mac && f.has_ipv4
}

/// The first usable interface of `ifaces`, by index.
pub fn pick_interface(ifaces: &Vec<InterfaceFacts>) -> (r: Option<usize>)
    ensures
        r matches Some(i) ==> i < ifaces@.len() && usable(ifaces@[i as int]) && forall|j: int|
            0 <= j < i ==> !usable(#[trigger] ifaces@[j]),
        r is None ==> forall|j: int| 0 <= j < ifaces@.len() ==> !usable(#[trigger] ifaces@[j]),
{
    let mut i: usize = 0;
    while i < ifaces.len()
        invariant
            i <= ifaces@.len(),
            forall|j: int| 0 <= j < i ==> !usable(#[trigger] ifaces@[j]),
        decreases ifaces@.len() - i,
    {
        let f = ifaces[i];
        if f.is_up && !f.is_loopback && f.has_mac && f.has_ipv4 {
            return Some(i);
        }
        i = i + 1;
    }
    None
}

/// The local address and prefix length that the raw output of the network
/// configuration report gives, decoded as `String::from_utf8_lossy` does.
pub fn detect_network_in_output(output: &[u8]) -> (r: Option<(u32, u8)>)
    ensures
        r == local_network(utf8_lossy(output@)),
{
    let text = decode_lossy(output);
    detect_local_network(text.as_str())
}

/// Reads the raw output of `arp -a`, decoded as `String::from_utf8_lossy`
/// does, into `state` (see `parse_arp_table`).
pub fn read_arp_output(state: &mut SharedState, output: &[u8], local_ip: u32, now_ns: u64) -> (count: usize)
    requires
        old(state).wf(),
    ensures
        final(state).wf(),
        final(state)@ == upsert_all(
            old(state)@,
            arp_entries(split_seq(utf8_lossy(output@), '\n'), local_ip),
            now_ns,
        ),
        count == arp_entries(split_seq(utf8_lossy(output@), '\n'), local_ip).len(),
{
    let text = decode_lossy(output);
    parse_arp_table(state, text.as_str(), local_ip, now_ns)
}

/// What naming a device asks for next.
#[derive(Debug, Clone, Copy, PartialEq, Eq, Structural)]
pub enum NamingStep {
    /// Nothing more to do for this device.
    Finished,
    /// Ask the device's NetBIOS name service.
    AskNetbios,
    /// Look the address up in the DNS.
    AskDns,
}

/// The text of an optional answer.
pub open spec fn answer_text(a: Option<String>) -> Option<Seq<char>> {
    match a {
        Some(s) => Some(s@),
        None => None,
    }
}

/// One step of naming the device `mac`, given the NetBIOS and DNS answers
/// received so far (`None`: not asked yet): a device that has a name is
/// left alone; otherwise NetBIOS is asked first, a non-empty NetBIOS name is
/// taken, and only then is the DNS asked, whose answer is taken when it is
/// not empty.
pub open spec fn naming_outcome(
    st: StateView,
    mac: MacAddr,
    netbios: Option<Seq<char>>,
    dns: Option<Seq<char>>,
) -> (StateView, NamingStep) {
    if st.devices.contains_key(mac) && st.devices[mac].hostname.len() > 0 {
        (st, NamingStep::Finished)
    } else {
        match netbios {
            None => (st, NamingStep::AskNetbios),
            Some(n) => if n.len() > 0 {
                (after_hostname(st, mac, n), NamingStep::Finished)
            } else {
                match dns {
                    None => (st, NamingStep::AskDns),
                    Some(d) => (after_hostname(st, mac, d), NamingStep::Finished),
                }
            },
        }
    }
}

/// Takes one step of naming the device `mac` (see `naming_outcome`).
pub fn naming_step(state: &mut SharedState, mac: &MacAddr, netbios: Option<String>, dns: Option<String>) -> (step:
    NamingStep)
    requires
        old(state).wf(),
    ensures
        final(state).wf(),
        (final(state)@, step) == naming_outcome(old(state)@, *mac, answer_text(netbios), answer_text(dns)),
{
    if !state.hostname_missing(mac) {
        return NamingStep::Finished;
    }
    match netbios {
        None => NamingStep::AskNetbios,
        Some(n) => {
            if !n.as_str().is_empty() {
                state.adopt_hostname(mac, n);
                NamingStep::Finished
            } else {
                match dns {
                    None => NamingStep::AskDns,
                    Some(d) => {
                        state.adopt_hostname(mac, d);
                        NamingStep::Finished
                    },
                }
            }
        },
    }
}

}
