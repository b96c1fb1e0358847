//! IP addresses and networks as integers, network containment, and CIDR
//! prefix text for IPv4 and IPv6 addresses.

use vstd::prelude::*;
use crate::text::{append_chars, chars_of, dec, dec_chars};

verus! {

/// An IP address: IPv4 as the big-endian value of its four octets, IPv6 as
/// the big-endian value of its sixteen octets.
#[derive(Debug, Clone, Copy, PartialEq, Eq)]
pub enum IpAddr {
    V4(u32),
    V6(u128),
}

/// An IP network: an address and a prefix length (at most 32 for IPv4, at
/// most 128 for IPv6). The address may have host bits set.
#[derive(Debug, Clone, Copy, PartialEq, Eq)]
pub enum IpNet {
    V4 { addr: u32, prefix: u8 },
    V6 { addr: u128, prefix: u8 },
}

/// What `"...".parse::<ipnet::IpNet>()` gives for this text.
pub uninterp spec fn ipnet_parse(s: Seq<char>) -> Option<IpNet>;

/// What `"...".parse::<IpAddr>()` (the standard parser) gives for this text.
pub uninterp spec fn ip_parse(s: Seq<char>) -> Option<IpAddr>;

/// The text that `Display` for an IPv6 address writes (RFC 5952 form).
pub uninterp spec fn ipv6_text(a: u128) -> Seq<char>;

/// Whether a network's prefix length fits its family.
pub open spec fn net_valid(n: IpNet) -> bool {
    match n {
        IpNet::V4 { prefix, .. } => prefix <= 32,
        IpNet::V6 { prefix, .. } => prefix <= 128,
    }
}

/// Parses a network such as `192.168.0.0/16` with `ipnet::IpNet::from_str`.
/// The prefix length of a parsed network never exceeds its family's width.
#[verifier::external_body]
pub fn parse_net(s: &str) -> (r: Option<IpNet>)
    ensures
        r == ipnet_parse(s@),
        r matches Some(n) ==> net_valid(n),
{
    match s.parse::<ipnet::IpNet>() {
        Ok(ipnet::IpNet::V4(n)) => Some(IpNet::V4 { addr: u32::from(n.addr()), prefix: n.prefix_len() }),
        Ok(ipnet::IpNet::V6(n)) => Some(IpNet::V6 { addr: u128::from(n.addr()), prefix: n.prefix_len() }),
        Err(_) => None,
    }
}

/// Parses an IP address with the standard `FromStr` for `IpAddr`.
#[verifier::external_body]
pub fn parse_ip(s: &str) -> (r: Option<IpAddr>)
    ensures
        r == ip_parse(s@),
{
    match s.parse::<core::net::IpAddr>() {
        Ok(core::net::IpAddr::V4(a)) => Some(IpAddr::V4(u32::from(a))),
        Ok(core::net::IpAddr::V6(a)) => Some(IpAddr::V6(u128::from(a))),
        Err(_) => None,
    }
}

/// What `"...".parse::<Ipv4Addr>()` gives for this text, as the address's
/// big-endian value.
pub uninterp spec fn ipv4_parse(s: Seq<char>) -> Option<u32>;

/// What `"...".parse::<Ipv6Addr>()` gives for this text, as the address's
/// big-endian value.
pub uninterp spec fn ipv6_parse(s: Seq<char>) -> Option<u128>;

/// Parses an IPv4 address with the standard `FromStr` for `Ipv4Addr`.
#[verifier::external_body]
pub fn parse_ipv4(s: &str) -> (r: Option<u32>)
    ensures
        r == ipv4_parse(s@),
{
    match s.parse::<core::net::Ipv4Addr>() {
        Ok(a) => Some(u32::from(a)),
        Err(_) => None,
    }
}

/// Parses an IPv6 address with the standard `FromStr` for `Ipv6Addr`.
#[verifier::external_body]
pub fn parse_ipv6(s: &str) -> (r: Option<u128>)
    ensures
        r == ipv6_parse(s@),
{
    match s.parse::<core::net::Ipv6Addr>() {
        Ok(a) => Some(u128::from(a)),
        Err(_) => None,
    }
}

/// The text of an IPv6 address as `Display` writes it.
#[verifier::external_body]
pub fn ipv6_to_text(a: u128) -> (r: String)
    ensures
        r@ == ipv6_text(a),
{
    core::net::Ipv6Addr::from(a).to_string()
}

/// The IPv4 netmask of a prefix length (all ones in the first `p` bits).
pub open spec fn mask4(p: nat) -> u32 {
    if p == 0 {
        0
    } else {
        (!0u32) << ((32 - p) as u32)
    }
}

/// The IPv6 netmask of a prefix length.
pub open spec fn mask6(p: nat) -> u128 {
    if p == 0 {
        0
    } else {
        (!0u128) << ((128 - p) as u128)
    }
}

/// `ipnet`'s containment: the address lies between the network address and
/// the broadcast address of a network of the same family.
pub open spec fn net_contains(n: IpNet, a: IpAddr) -> bool {
    match (n, a) {
        (IpNet::V4 { addr, prefix }, IpAddr::V4(x)) => {
            let m = mask4(prefix as nat);
            (addr & m) <= x && x <= (addr | !m)
        },
        (IpNet::V6 { addr, prefix }, IpAddr::V6(x)) => {
            let m = mask6(prefix as nat);
            (addr & m) <= x && x <= (addr | !m)
        },
        _ => false,
    }
}

proof fn lemma_range_is_prefix4(a: u32, x: u32, s: u32)
    by (bit_vector)
    requires
        s < 32,
    ensures
        ((a & ((!0u32) << s)) <= x && x <= (a | !((!0u32) << s))) <==> (x & ((!0u32) << s)) == (a & ((!0u32) << s)),
{
}

proof fn lemma_range_is_prefix6(a: u128, x: u128, s: u128)
    by (bit_vector)
    requires
        s < 128,
    ensures
        ((a & ((!0u128) << s)) <= x && x <= (a | !((!0u128) << s))) <==> (x & ((!0u128) << s)) == (a & ((!0u128) << s)),
{
}

/// A network holds exactly the addresses of its family that agree with its
/// address on the first `prefix` bits: `x & mask == addr & mask` for the
/// prefix's netmask. So an address past the network's last address (its
/// address with every host bit set) is never held, nor is one of the other
/// family.
pub proof fn lemma_contains_iff_same_prefix(n: IpNet, a: IpAddr)
    requires
        net_valid(n),
    ensures
        net_contains(n, a) <==> match (n, a) {
            (IpNet::V4 { addr, prefix }, IpAddr::V4(x)) => (x & mask4(prefix as nat)) == (addr & mask4(prefix as nat)),
            (IpNet::V6 { addr, prefix }, IpAddr::V6(x)) => (x & mask6(prefix as nat)) == (addr & mask6(prefix as nat)),
            _ => false,
        },
{
    match (n, a) {
        (IpNet::V4 { addr, prefix }, IpAddr::V4(x)) => {
            if prefix == 0 {
                assert(addr & 0u32 == 0u32 && x & 0u32 == 0u32 && (addr | !0u32) == 0xffff_ffffu32) by (bit_vector);
            } else {
                lemma_range_is_prefix4(addr, x, (32 - prefix) as u32);
            }
        },
        (IpNet::V6 { addr, prefix }, IpAddr::V6(x)) => {
            if prefix == 0 {
                assert(addr & 0u128 == 0u128 && x & 0u128 == 0u128 && (addr | !0u128) == 0xffff_ffff_ffff_ffff_ffff_ffff_ffff_ffffu128) by (bit_vector);
            } else {
                lemma_range_is_prefix6(addr, x, (128 - prefix) as u128);
            }
        },
        _ => {},
    }
}

fn netmask4(p: u8) -> (m: u32)
    requires
        p <= 32,
    ensures
        m == mask4(p as nat),
{
    if p == 0 {
        0
    } else {
        (!0u32) << (32 - p as u32)
    }
}

fn netmask6(p: u8) -> (m: u128)
    requires
        p <= 128,
    ensures
        m == mask6(p as nat),
{
    if p == 0 {
        0
    } else {
        (!0u128) << (128 - p as u128)
    }
}

impl IpNet {
    /// Whether `ip` lies in this network (`IpNet::contains`).
    pub fn contains(&self, ip: &IpAddr) -> (b: bool)
        requires
            net_valid(*self),
        ensures
            b == net_contains(*self, *ip),
    {
        match (self, ip) {
            (IpNet::V4 { addr, prefix }, IpAddr::V4(x)) => {
                let m = netmask4(*prefix);
                (*addr & m) <= *x && *x <= (*addr | !m)
            },
            (IpNet::V6 { addr, prefix }, IpAddr::V6(x)) => {
                let m = netmask6(*prefix);
                (*addr & m) <= *x && *x <= (*addr | !m)
            },
            _ => false,
        }
    }
}

/// The four octets of an IPv4 address, most significant first.
pub open spec fn octet(a: u32, i: nat) -> nat {
    ((a >> ((24 - 8 * i) as u32)) & 0xff) as nat
}

/// Dotted-decimal text of an IPv4 address (`Display` for `Ipv4Addr`).
pub open spec fn ipv4_text(a: u32) -> Seq<char> {
    dec(octet(a, 0)) + seq!['.'] + dec(octet(a, 1)) + seq!['.'] + dec(octet(a, 2)) + seq!['.']
        + dec(octet(a, 3))
}

/// Dotted-decimal text of an IPv4 address.
pub fn ipv4_to_chars(a: u32) -> (r: Vec<char>)
    ensures
        r@ == ipv4_text(a),
{
    let mut r = dec_chars(((a >> 24u32) & 0xff) as u64);
    r.push('.');
    let b1 = dec_chars(((a >> 16u32) & 0xff) as u64);
    append_chars(&mut r, &b1);
    r.push('.');
    let b2 = dec_chars(((a >> 8u32) & 0xff) as u64);
    append_chars(&mut r, &b2);
    r.push('.');
    let b3 = dec_chars((a & 0xff) as u64);
    append_chars(&mut r, &b3);
    assert((a >> 0u32) == a) by (bit_vector);
    assert(r@ =~= ipv4_text(a));
    r
}

/// Text of an IP address as `Display` writes it.
pub open spec fn ip_text(a: IpAddr) -> Seq<char> {
    match a {
        IpAddr::V4(x) => ipv4_text(x),
        IpAddr::V6(x) => ipv6_text(x),
    }
}

/// Text of an IP address as `Display` writes it.
pub fn ip_to_chars(a: &IpAddr) -> (r: Vec<char>)
    ensures
        r@ == ip_text(*a),
{
    match a {
        IpAddr::V4(x) => ipv4_to_chars(*x),
        IpAddr::V6(x) => {
            let s = ipv6_to_text(*x);
            chars_of(s.as_str())
        },
    }
}

/// The CIDR text of the IPv4 network of `ip` with `mask` leading bits kept
/// (the mask is capped at 32): `a.b.c.d/m`.
pub open spec fn v4_prefix_text(ip: u32, mask: nat) -> Seq<char> {
    let m = if mask > 32 {
        32
    } else {
        mask
    };
    ipv4_text(ip & mask4(m)) + seq!['/'] + dec(m)
}

/// The CIDR text of the IPv6 network of `ip` with `mask` leading bits kept
/// (the mask is capped at 128).
pub open spec fn v6_prefix_text(ip: u128, mask: nat) -> Seq<char> {
    let m = if mask > 128 {
        128
    } else {
        mask
    };
    ipv6_text(ip & mask6(m)) + seq!['/'] + dec(m)
}

/// The canonical CIDR text of the IPv4 network containing `ip` with the
/// first `mask` bits (at most 32) kept, such as `192.0.2.0/24`.
pub fn make_v4_prefix(ip: u32, mask: u8) -> (r: String)
    ensures
        r@ == v4_prefix_text(ip, mask as nat),
{
    let m: u8 = if mask > 32 {
        32
    } else {
        mask
    };
    let net = ip & netmask4(m);
    let mut t = ipv4_to_chars(net);
    t.push('/');
    let d = dec_chars(m as u64);
    append_chars(&mut t, &d);
    crate::text::string_from_chars(&t)
}

/// The canonical CIDR text of the IPv6 network containing `ip` with the
/// first `mask` bits (at most 128) kept, such as `2001:db8::/48`.
pub fn make_v6_prefix(ip: u128, mask: u8) -> (r: String)
    ensures
        r@ == v6_prefix_text(ip, mask as nat),
{
    let m: u8 = if mask > 128 {
        128
    } else {
        mask
    };
    let net = ip & netmask6(m);
    let s = ipv6_to_text(net);
    let mut t = chars_of(s.as_str());
    t.push('/');
    let d = dec_chars(m as u64);
    append_chars(&mut t, &d);
    crate::text::string_from_chars(&t)
}

} // verus!
