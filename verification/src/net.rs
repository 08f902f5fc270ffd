//! IPv4 and MAC addresses: their text forms, parsing, and the IPv4 header
//! fields that the packet engine reads.
//!
//! An IPv4 address is held as a `u32` whose most significant byte is the
//! first octet (the value `u32::from(Ipv4Addr)` gives).

use vstd::prelude::*;
use crate::text::{
    chars_of, dec_seq, digit_value, digits_value, hex2, parse_uint, parse_uint_chars, push_decimal,
    push_hex2, split_chars, split_seq, strip_plus, all_digits, lemma_hex2_reads_back, lemma_split_seq_append,
    lemma_split_seq_single, join_seq, lemma_join_split, lemma_hex_pair_prints_upper, to_upper,
};

verus! {

/// A MAC address as six bytes.
pub type MacAddr = [u8; 6];

/// The `i`-th octet (0 = first) of the address `ip`.
pub open spec fn octet(ip: u32, i: int) -> int {
    if i == 0 {
        ip as int / 16777216
    } else if i == 1 {
        (ip as int / 65536) % 256
    } else if i == 2 {
        (ip as int / 256) % 256
    } else {
        ip as int % 256
    }
}

/// The address whose octets are `a`, `b`, `c`, `d`.
pub open spec fn ipv4_value(a: int, b: int, c: int, d: int) -> int {
    a * 16777216 + b * 65536 + c * 256 + d
}

/// The address with octets `a.b.c.d`.
pub fn ipv4_from_octets(a: u8, b: u8, c: u8, d: u8) -> (ip: u32)
    ensures
        ip as int == ipv4_value(a as int, b as int, c as int, d as int),
        octet(ip, 0) == a,
        octet(ip, 1) == b,
        octet(ip, 2) == c,
        octet(ip, 3) == d,
{
    let ip: u32 = ((a as u32) << 24u32) | ((b as u32) << 16u32) | ((c as u32) << 8u32) | (d as u32);
    assert(ip == a * 16777216 + b * 65536 + c * 256 + d && ip / 16777216 == a && (ip / 65536) % 256
        == b && (ip / 256) % 256 == c && ip % 256 == d) by (bit_vector)
        requires
            ip == ((a as u32) << 24u32) | ((b as u32) << 16u32) | ((c as u32) << 8u32) | (d as u32),
    ;
    ip
}

/// The four octets of `ip`, first octet first.
pub fn ipv4_octets(ip: u32) -> (res: [u8; 4])
    ensures
        forall|i: int| 0 <= i < 4 ==> #[trigger] res@[i] as int == octet(ip, i),
{
    let res = [(ip / 16777216) as u8, ((ip / 65536) % 256) as u8, ((ip / 256) % 256) as u8, (ip % 256) as u8];
    assert forall|i: int| 0 <= i < 4 implies #[trigger] res@[i] as int == octet(ip, i) by {
        if i == 0 {
            assert(res@[0] == (ip / 16777216) as u8);
        }
    }
    res
}

/// The dotted-decimal text of `ip`, as `Ipv4Addr`'s `Display` writes it.
pub open spec fn ipv4_text(ip: u32) -> Seq<char> {
    dec_seq(octet(ip, 0) as nat) + seq!['.'] + dec_seq(octet(ip, 1) as nat) + seq!['.']
        + dec_seq(octet(ip, 2) as nat) + seq!['.'] + dec_seq(octet(ip, 3) as nat)
}

/// The dotted-decimal text of `ip`.
pub fn ipv4_to_string(ip: u32) -> (res: String)
    ensures
        res@ == ipv4_text(ip),
{
    let o = ipv4_octets(ip);
    let mut out = String::new();
    push_decimal(&mut out, o[0] as u64);
    out.push('.');
    push_decimal(&mut out, o[1] as u64);
    out.push('.');
    push_decimal(&mut out, o[2] as u64);
    out.push('.');
    push_decimal(&mut out, o[3] as u64);
    proof {
        assert(o@[0] as int == octet(ip, 0));
        assert(o@[1] as int == octet(ip, 1));
        assert(o@[2] as int == octet(ip, 2));
        assert(o@[3] as int == octet(ip, 3));
    }
    assert(out@ =~= ipv4_text(ip));
    out
}

/// Whether `ip` lies in one of the private ranges 10.0.0.0/8, 172.16.0.0/12
/// or 192.168.0.0/16.
pub open spec fn is_private(ip: u32) -> bool {
    ||| octet(ip, 0) == 10
    ||| (octet(ip, 0) == 172 && 16 <= octet(ip, 1) <= 31)
    ||| (octet(ip, 0) == 192 && octet(ip, 1) == 168)
}

/// Whether `ip` is a private address.
pub fn is_private_ip(ip: u32) -> (res: bool)
    ensures
        res == is_private(ip),
{
    let o = ipv4_octets(ip);
    proof {
        assert(o@[0] as int == octet(ip, 0));
        assert(o@[1] as int == octet(ip, 1));
    }
    o[0] == 10 || (o[0] == 172 && 16 <= o[1] && o[1] <= 31) || (o[0] == 192 && o[1] == 168)
}

/// One dotted-decimal group as the standard IPv4 parser takes it: one to
/// three ASCII digits, no leading zero unless the group is `0`, at most 255.
pub open spec fn ipv4_group_ok(g: Seq<char>) -> bool {
    &&& 1 <= g.len() <= 3
    &&& forall|i: int| 0 <= i < g.len() ==> '0' <= #[trigger] g[i] <= '9'
    &&& !(g.len() > 1 && g[0] == '0')
    &&& digits_value(g, 10) <= 255
}

/// What `s.parse::<Ipv4Addr>()` gives for the text `s`, as a `u32`.
pub open spec fn parse_ipv4_spec(s: Seq<char>) -> Option<u32> {
    let g = split_seq(s, '.');
    if g.len() == 4 && ipv4_group_ok(g[0]) && ipv4_group_ok(g[1]) && ipv4_group_ok(g[2])
        && ipv4_group_ok(g[3]) {
        Some(
            ipv4_value(
                digits_value(g[0], 10),
                digits_value(g[1], 10),
                digits_value(g[2], 10),
                digits_value(g[3], 10),
            ) as u32,
        )
    } else {
        None
    }
}

fn parse_ipv4_group(g: &[char]) -> (res: Option<u8>)
    ensures
        res is Some <==> ipv4_group_ok(g@),
        res matches Some(v) ==> v as int == digits_value(g@, 10),
{
    if g.len() == 0 || g.len() > 3 {
        return None;
    }
    if g.len() > 1 && g[0] == '0' {
        return None;
    }
    let mut i: usize = 0;
    while i < g.len()
        invariant
            i <= g@.len() <= 3,
            forall|j: int| 0 <= j < i ==> '0' <= #[trigger] g@[j] <= '9',
        decreases g@.len() - i,
    {
        if !('0' <= g[i] && g[i] <= '9') {
            return None;
        }
        i = i + 1;
    }
    assert(all_digits(g@, 10)) by {
        assert forall|j: int| 0 <= j < g@.len() implies digit_value(#[trigger] g@[j], 10) >= 0 by {
            assert('0' <= g@[j] <= '9');
        }
    }
    match parse_uint_chars(g, 10, 255) {
        Some(v) => {
            assert(strip_plus(g@) == g@);
            Some(v as u8)
        },
        None => {
            assert(strip_plus(g@) == g@);
            None
        },
    }
}

/// Parses dotted-decimal IPv4 text, as `str::parse::<Ipv4Addr>` does.
pub fn parse_ipv4(cs: &[char]) -> (res: Option<u32>)
    ensures
        res == parse_ipv4_spec(cs@),
{
    let g = split_chars(cs, '.');
    if g.len() != 4 {
        return None;
    }
    let a = parse_ipv4_group(g[0].as_slice());
    let b = parse_ipv4_group(g[1].as_slice());
    let c = parse_ipv4_group(g[2].as_slice());
    let d = parse_ipv4_group(g[3].as_slice());
    match (a, b, c, d) {
        (Some(a), Some(b), Some(c), Some(d)) => Some(ipv4_from_octets(a, b, c, d)),
        _ => None,
    }
}

/// The text of `mac` as six uppercase two-digit hexadecimal groups joined by
/// `:`, as `{:02X}:{:02X}:...` writes it.
pub open spec fn mac_text(mac: MacAddr) -> Seq<char> {
    hex2(mac@[0]) + seq![':'] + hex2(mac@[1]) + seq![':'] + hex2(mac@[2]) + seq![':'] + hex2(mac@[3])
        + seq![':'] + hex2(mac@[4]) + seq![':'] + hex2(mac@[5])
}

/// The `AA:BB:CC:DD:EE:FF` text of `mac`.
pub fn mac_to_string(mac: &MacAddr) -> (res: String)
    ensures
        res@ == mac_text(*mac),
{
    let mut out = String::new();
    push_hex2(&mut out, mac[0]);
    out.push(':');
    push_hex2(&mut out, mac[1]);
    out.push(':');
    push_hex2(&mut out, mac[2]);
    out.push(':');
    push_hex2(&mut out, mac[3]);
    out.push(':');
    push_hex2(&mut out, mac[4]);
    out.push(':');
    push_hex2(&mut out, mac[5]);
    assert(out@ =~= mac_text(*mac));
    out
}

/// Whether `s` is six groups separated by `sep`, each of which
/// `u8::from_str_radix(group, 16)` accepts.
pub open spec fn mac_text_ok(s: Seq<char>, sep: char) -> bool {
    let g = split_seq(s, sep);
    g.len() == 6 && forall|i: int| 0 <= i < 6 ==> parse_uint(#[trigger] g[i], 16, 255) is Some
}

/// The `i`-th byte of the MAC address that `s` spells with separator `sep`.
pub open spec fn mac_text_byte(s: Seq<char>, sep: char, i: int) -> int {
    parse_uint(split_seq(s, sep)[i], 16, 255)->0
}

/// The MAC address that the text `s` spells with `sep` between its groups.
pub open spec fn mac_from_text(s: Seq<char>, sep: char) -> MacAddr {
    [
        mac_text_byte(s, sep, 0) as u8,
        mac_text_byte(s, sep, 1) as u8,
        mac_text_byte(s, sep, 2) as u8,
        mac_text_byte(s, sep, 3) as u8,
        mac_text_byte(s, sep, 4) as u8,
        mac_text_byte(s, sep, 5) as u8,
    ]
}

/// The text of a MAC address parses back to that address.
pub proof fn lemma_mac_text_round_trip(mac: MacAddr)
    ensures
        mac_text_ok(mac_text(mac), ':'),
        mac_from_text(mac_text(mac), ':') == mac,
{
    let h0 = hex2(mac@[0]);
    let h1 = hex2(mac@[1]);
    let h2 = hex2(mac@[2]);
    let h3 = hex2(mac@[3]);
    let h4 = hex2(mac@[4]);
    let h5 = hex2(mac@[5]);
    lemma_hex2_reads_back(mac@[0]);
    lemma_hex2_reads_back(mac@[1]);
    lemma_hex2_reads_back(mac@[2]);
    lemma_hex2_reads_back(mac@[3]);
    lemma_hex2_reads_back(mac@[4]);
    lemma_hex2_reads_back(mac@[5]);
    let t1 = h0 + seq![':'] + h1;
    let t2 = t1 + seq![':'] + h2;
    let t3 = t2 + seq![':'] + h3;
    let t4 = t3 + seq![':'] + h4;
    let t5 = t4 + seq![':'] + h5;
    lemma_split_seq_single(h0, ':');
    lemma_split_seq_append(h0, h1, ':');
    lemma_split_seq_append(t1, h2, ':');
    lemma_split_seq_append(t2, h3, ':');
    lemma_split_seq_append(t3, h4, ':');
    lemma_split_seq_append(t4, h5, ':');
    assert(t5 == mac_text(mac));
    let g = split_seq(mac_text(mac), ':');
    assert(g =~= seq![h0, h1, h2, h3, h4, h5]);
    assert(mac_from_text(mac_text(mac), ':')@ =~= mac@);
}

/// `s` with every `a` replaced by `b`, as `str::replace` gives it for single
/// characters.
pub open spec fn replace_char(s: Seq<char>, a: char, b: char) -> Seq<char> {
    s.map_values(|c: char| if c == a { b } else { c })
}

proof fn lemma_split_replace(s: Seq<char>, a: char, b: char)
    requires
        !s.contains(b),
    ensures
        split_seq(replace_char(s, a, b), b) == split_seq(s, a),
    decreases s.len(),
{
    let t = replace_char(s, a, b);
    if s.len() > 0 {
        assert(!s.drop_last().contains(b)) by {
            if s.drop_last().contains(b) {
                let i = choose|i: int| 0 <= i < s.drop_last().len() && s.drop_last()[i] == b;
                assert(s[i] == b);
            }
        }
        lemma_split_replace(s.drop_last(), a, b);
        assert(t.drop_last() =~= replace_char(s.drop_last(), a, b));
        assert(s.last() != b) by {
            assert(s[s.len() - 1] == s.last());
        }
        assert(t.last() == (if s.last() == a { b } else { s.last() }));
    } else {
        assert(t =~= s);
    }
}

/// A text of six two-digit hexadecimal groups joined by `:`.
pub open spec fn mac_pairs_text(s: Seq<char>) -> bool {
    let g = split_seq(s, ':');
    &&& g.len() == 6
    &&& forall|i: int| 0 <= i < 6 ==> (#[trigger] g[i]).len() == 2 && all_digits(g[i], 16)
}

/// Printing a parsed MAC address gives its text back uppercased: a text of
/// six two-digit hexadecimal groups joined by `:` is a MAC address, and the
/// text of that address is the given text with its letters uppercased.
pub proof fn lemma_parsed_mac_prints_upper(s: Seq<char>)
    requires
        mac_pairs_text(s),
    ensures
        mac_text_ok(s, ':'),
        mac_text(mac_from_text(s, ':')) == to_upper(s),
{
    let g = split_seq(s, ':');
    assert(g[0].len() == 2 && all_digits(g[0], 16));
    assert(g[1].len() == 2 && all_digits(g[1], 16));
    assert(g[2].len() == 2 && all_digits(g[2], 16));
    assert(g[3].len() == 2 && all_digits(g[3], 16));
    assert(g[4].len() == 2 && all_digits(g[4], 16));
    assert(g[5].len() == 2 && all_digits(g[5], 16));
    lemma_hex_pair_prints_upper(g[0]);
    lemma_hex_pair_prints_upper(g[1]);
    lemma_hex_pair_prints_upper(g[2]);
    lemma_hex_pair_prints_upper(g[3]);
    lemma_hex_pair_prints_upper(g[4]);
    lemma_hex_pair_prints_upper(g[5]);
    lemma_join_split(s, ':');
    assert(g.take(6) =~= g);
    assert(join_seq(g.take(1), ':') == g[0]) by {
        assert(g.take(1).len() == 1);
    }
    assert(join_seq(g.take(2), ':') == join_seq(g.take(1), ':') + seq![':'] + g[1]) by {
        assert(g.take(2).drop_last() =~= g.take(1));
    }
    assert(join_seq(g.take(3), ':') == join_seq(g.take(2), ':') + seq![':'] + g[2]) by {
        assert(g.take(3).drop_last() =~= g.take(2));
    }
    assert(join_seq(g.take(4), ':') == join_seq(g.take(3), ':') + seq![':'] + g[3]) by {
        assert(g.take(4).drop_last() =~= g.take(3));
    }
    assert(join_seq(g.take(5), ':') == join_seq(g.take(4), ':') + seq![':'] + g[4]) by {
        assert(g.take(5).drop_last() =~= g.take(4));
    }
    assert(join_seq(g.take(6), ':') == join_seq(g.take(5), ':') + seq![':'] + g[5]) by {
        assert(g.take(6).drop_last() =~= g.take(5));
    }
    assert(to_upper(join_seq(g.take(2), ':')) =~= to_upper(join_seq(g.take(1), ':')) + seq![':'] + to_upper(g[1]));
    assert(to_upper(join_seq(g.take(3), ':')) =~= to_upper(join_seq(g.take(2), ':')) + seq![':'] + to_upper(g[2]));
    assert(to_upper(join_seq(g.take(4), ':')) =~= to_upper(join_seq(g.take(3), ':')) + seq![':'] + to_upper(g[3]));
    assert(to_upper(join_seq(g.take(5), ':')) =~= to_upper(join_seq(g.take(4), ':')) + seq![':'] + to_upper(g[4]));
    assert(to_upper(join_seq(g.take(6), ':')) =~= to_upper(join_seq(g.take(5), ':')) + seq![':'] + to_upper(g[5]));
    let m = mac_from_text(s, ':');
    assert(mac_text(m) =~= to_upper(s));
}

/// A MAC address written with `-` reads as the same address written with
/// `:`: for a text without `:`, replacing each `-` by `:` changes neither
/// whether it is a MAC address nor which one.
pub proof fn lemma_dash_mac_is_colon_mac(s: Seq<char>)
    requires
        !s.contains(':'),
    ensures
        mac_text_ok(replace_char(s, '-', ':'), ':') == mac_text_ok(s, '-'),
        mac_from_text(replace_char(s, '-', ':'), ':') == mac_from_text(s, '-'),
{
    lemma_split_replace(s, '-', ':');
}

/// Parses a MAC address written as six hexadecimal groups separated by `sep`.
pub fn parse_mac_with(s: &str, sep: char) -> (res: Option<MacAddr>)
    ensures
        res is Some <==> mac_text_ok(s@, sep),
        res matches Some(m) ==> m == mac_from_text(s@, sep),
{
    let cs = chars_of(s);
    parse_mac_chars(cs.as_slice(), sep)
}

/// Parses the characters `cs` as a MAC address written as six hexadecimal
/// groups separated by `sep`.
pub fn parse_mac_chars(cs: &[char], sep: char) -> (res: Option<MacAddr>)
    ensures
        res is Some <==> mac_text_ok(cs@, sep),
        res matches Some(m) ==> m == mac_from_text(cs@, sep),
{
    let g = split_chars(cs, sep);
    if g.len() != 6 {
        return None;
    }
    let mut mac: [u8; 6] = [0u8; 6];
    let mut i: usize = 0;
    while i < 6
        invariant
            i <= 6,
            g@.len() == 6,
            g@.len() == split_seq(cs@, sep).len(),
            forall|j: int| 0 <= j < g@.len() ==> #[trigger] g@[j]@ == split_seq(cs@, sep)[j],
            forall|j: int| 0 <= j < i ==> parse_uint(#[trigger] split_seq(cs@, sep)[j], 16, 255) is Some,
            forall|j: int| 0 <= j < i ==> #[trigger] mac@[j] as int == mac_text_byte(cs@, sep, j),
        decreases 6 - i,
    {
        assert(g@[i as int]@ == split_seq(cs@, sep)[i as int]);
        match parse_uint_chars(g[i].as_slice(), 16, 255) {
            Some(v) => {
                mac[i] = v as u8;
            },
            None => {
                return None;
            },
        }
        i = i + 1;
    }
    assert(mac@ =~= mac_from_text(cs@, sep)@);
    Some(mac)
}

/// The source and destination addresses of an IPv4 packet `data`: it has
/// at least the 20 bytes of a header and its version nibble is 4.
pub open spec fn ipv4_addrs_spec(data: Seq<u8>) -> Option<(u32, u32)> {
    if data.len() >= 20 && data[0] / 16 == 4 {
        Some(
            (
                ipv4_value(data[12] as int, data[13] as int, data[14] as int, data[15] as int) as u32,
                ipv4_value(data[16] as int, data[17] as int, data[18] as int, data[19] as int) as u32,
            ),
        )
    } else {
        None
    }
}

/// Extracts the source and destination addresses of a raw IPv4 packet, or
/// `None` when `data` is no IPv4 packet.
pub fn parse_ipv4_addrs(data: &[u8]) -> (res: Option<(u32, u32)>)
    ensures
        res == ipv4_addrs_spec(data@),
{
    if data.len() < 20 {
        return None;
    }
    let b0 = data[0];
    let version = (b0 >> 4u8) & 0x0Fu8;
    assert(version == b0 / 16) by (bit_vector)
        requires
            version == (b0 >> 4u8) & 0x0Fu8,
    ;
    if version != 4 {
        return None;
    }
    let src = ipv4_from_octets(data[12], data[13], data[14], data[15]);
    let dst = ipv4_from_octets(data[16], data[17], data[18], data[19]);
    Some((src, dst))
}

}
