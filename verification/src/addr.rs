//! Internet addresses: their octets, groups, prefixes and special ranges.

use vstd::prelude::*;

use crate::bytes;
use crate::bytes::{octets_of, u128_of_be, u32_of_be};

verus! {

/// An IPv4 address, as the 32-bit number its four octets write.
#[derive(Clone, Copy, Debug, PartialEq, Eq, Structural, Hash)]
pub struct Ipv4Addr {
    /// The address, most significant octet first.
    pub bits: u32,
}

/// An IPv6 address, as the 128-bit number its sixteen octets write.
#[derive(Clone, Copy, Debug, PartialEq, Eq, Structural, Hash)]
pub struct Ipv6Addr {
    /// The address, most significant octet first.
    pub bits: u128,
}

/// An address of either family.
#[derive(Clone, Copy, Debug, PartialEq, Eq, Structural, Hash)]
pub enum IpAddr {
    /// An IPv4 address.
    V4(Ipv4Addr),
    /// An IPv6 address.
    V6(Ipv6Addr),
}

/// A transport endpoint: an address and a port.
#[derive(Clone, Copy, Debug, PartialEq, Eq, Structural, Hash)]
pub struct SocketAddr {
    /// The address.
    pub ip: IpAddr,
    /// The port.
    pub port: u16,
}

/// The last `n` 16-bit groups of `x`, most significant group first.
pub open spec fn groups_of(x: nat, n: nat) -> Seq<u16>
    decreases n,
{
    if n == 0 {
        Seq::empty()
    } else {
        groups_of(x / 65536, (n - 1) as nat).push((x % 65536) as u16)
    }
}

/// The number that `groups` writes in base 65536, most significant first.
pub open spec fn groups_value(groups: Seq<u16>) -> nat
    decreases groups.len(),
{
    if groups.len() == 0 {
        0
    } else {
        groups_value(groups.drop_last()) * 65536 + groups.last() as nat
    }
}

/// Whether `a` and `b`, numbers of `width` bits, agree in their first
/// `len` bits.
pub open spec fn same_prefix(a: nat, b: nat, width: nat, len: nat) -> bool {
    let block = vstd::arithmetic::power2::pow2((width - len) as nat);
    a / block == b / block
}

/// `groups_of` yields `n` groups.
pub proof fn lemma_groups_len(x: nat, n: nat)
    ensures
        groups_of(x, n).len() == n,
    decreases n,
{
    if n > 0 {
        lemma_groups_len(x / 65536, (n - 1) as nat);
    }
}

/// The groups of a number that is itself written by groups.
pub proof fn lemma_groups_value(groups: Seq<u16>)
    ensures
        groups_of(groups_value(groups), groups.len()) == groups,
    decreases groups.len(),
{
    if groups.len() > 0 {
        lemma_groups_value(groups.drop_last());
        let v = groups_value(groups);
        assert(v / 65536 == groups_value(groups.drop_last()));
        assert(v % 65536 == groups.last());
        assert(groups.drop_last().push(groups.last()) == groups);
    } else {
        assert(groups_of(0, 0) == groups);
    }
}

/// The number of values that `n` groups can write.
spec fn groups_limit(n: nat) -> nat
    decreases n,
{
    if n == 0 {
        1
    } else {
        65536 * groups_limit((n - 1) as nat)
    }
}

proof fn lemma_groups_hold_value(x: nat, n: nat)
    requires
        x < groups_limit(n),
    ensures
        groups_value(groups_of(x, n)) == x,
    decreases n,
{
    if n > 0 {
        lemma_groups_hold_value(x / 65536, (n - 1) as nat);
        let g = groups_of(x, n);
        assert(g.drop_last() == groups_of(x / 65536, (n - 1) as nat));
        assert(g.last() == x % 65536);
    }
}

/// The groups of an address write its number.
pub proof fn lemma_segments_hold_address(ip: Ipv6Addr)
    ensures
        ip.segments_spec().len() == 8,
        groups_value(ip.segments_spec()) == ip.bits,
{
    reveal_with_fuel(groups_limit, 9);
    lemma_groups_len(ip.bits as nat, 8);
    lemma_groups_hold_value(ip.bits as nat, 8);
}

/// The number of eight groups.
proof fn lemma_eight_groups(a: u16, b: u16, c: u16, d: u16, e: u16, f: u16, g: u16, h: u16)
    ensures
        groups_value(seq![a, b, c, d, e, f, g, h]) == ((((((a * 65536 + b) * 65536 + c) * 65536 + d)
            * 65536 + e) * 65536 + f) * 65536 + g) * 65536 + h,
{
    reveal_with_fuel(groups_value, 9);
    assert(seq![a, b, c, d, e, f, g, h].drop_last() == seq![a, b, c, d, e, f, g]);
    assert(seq![a, b, c, d, e, f, g].drop_last() == seq![a, b, c, d, e, f]);
    assert(seq![a, b, c, d, e, f].drop_last() == seq![a, b, c, d, e]);
    assert(seq![a, b, c, d, e].drop_last() == seq![a, b, c, d]);
    assert(seq![a, b, c, d].drop_last() == seq![a, b, c]);
    assert(seq![a, b, c].drop_last() == seq![a, b]);
    assert(seq![a, b].drop_last() == seq![a]);
    assert(seq![a].drop_last() == Seq::<u16>::empty());
}

impl Ipv4Addr {
    /// The four octets of the address.
    pub open spec fn octets_spec(self) -> Seq<u8> {
        bytes::be_bytes(self.bits as nat, 4)
    }

    /// The address `a.b.c.d`.
    pub fn new(a: u8, b: u8, c: u8, d: u8) -> (r: Ipv4Addr)
        ensures
            r.octets_spec() == seq![a, b, c, d],
            r.bits == bytes::be_value(seq![a, b, c, d]),
    {
        let bits: u32 = u32_of_be(a, b, c, d);
        proof {
            bytes::lemma_be_value_bytes(seq![a, b, c, d]);
        }
        Ipv4Addr { bits }
    }

    /// The address written by a 32-bit number.
    pub fn from_bits(bits: u32) -> (r: Ipv4Addr)
        ensures
            r.bits == bits,
    {
        Ipv4Addr { bits }
    }

    /// The four octets of the address.
    pub fn octets(&self) -> (r: [u8; 4])
        ensures
            r@ == self.octets_spec(),
    {
        let x: u32 = self.bits;
        let r: [u8; 4] = [
            (x / 0x100_0000) as u8,
            (x / 0x1_0000 % 256) as u8,
            (x / 256 % 256) as u8,
            (x % 256) as u8,
        ];
        proof {
            reveal_with_fuel(bytes::be_bytes, 5);
            assert(r@ == self.octets_spec());
        }
        r
    }

    /// Whether the address lies in `127.0.0.0/8`.
    pub open spec fn loopback(self) -> bool {
        self.bits / 0x100_0000 == 127
    }

    /// Whether the address lies in `127.0.0.0/8`.
    pub fn is_loopback(&self) -> (r: bool)
        ensures
            r == self.loopback(),
    {
        self.bits / 0x100_0000 == 127
    }

    /// Whether the address lies in `224.0.0.0/4`.
    pub open spec fn multicast(self) -> bool {
        self.bits / 0x1000_0000 == 14
    }

    /// Whether the address is `255.255.255.255`.
    pub open spec fn broadcast(self) -> bool {
        self.bits == 0xffff_ffff
    }

    /// Whether the address lies in `224.0.0.0/4`.
    pub fn is_multicast(&self) -> (r: bool)
        ensures
            r == self.multicast(),
    {
        self.bits / 0x1000_0000 == 14
    }

    /// Whether the address is `255.255.255.255`.
    pub fn is_broadcast(&self) -> (r: bool)
        ensures
            r == self.broadcast(),
    {
        self.bits == 0xffff_ffff
    }

    /// Whether the address lies in `10.0.0.0/8`, `172.16.0.0/12` or
    /// `192.168.0.0/16`.
    pub open spec fn private(self) -> bool {
        ||| self.bits / 0x100_0000 == 10
        ||| self.bits / 0x10_0000 == 0xac1
        ||| self.bits / 0x1_0000 == 0xc0a8
    }

    /// Whether the address lies in `10.0.0.0/8`, `172.16.0.0/12` or
    /// `192.168.0.0/16`.
    pub fn is_private(&self) -> (r: bool)
        ensures
            r == self.private(),
    {
        self.bits / 0x100_0000 == 10 || self.bits / 0x10_0000 == 0xac1 || self.bits / 0x1_0000
            == 0xc0a8
    }

    /// Whether the address lies in `169.254.0.0/16`.
    pub open spec fn link_local(self) -> bool {
        self.bits / 0x1_0000 == 0xa9fe
    }

    /// Whether the address lies in `169.254.0.0/16`.
    pub fn is_link_local(&self) -> (r: bool)
        ensures
            r == self.link_local(),
    {
        self.bits / 0x1_0000 == 0xa9fe
    }
}

impl Ipv6Addr {
    /// The sixteen octets of the address.
    pub open spec fn octets_spec(self) -> Seq<u8> {
        bytes::be_bytes(self.bits as nat, 16)
    }

    /// The eight 16-bit groups of the address.
    pub open spec fn segments_spec(self) -> Seq<u16> {
        groups_of(self.bits as nat, 8)
    }

    /// The address with the given groups.
    pub fn new(a: u16, b: u16, c: u16, d: u16, e: u16, f: u16, g: u16, h: u16) -> (r: Ipv6Addr)
        ensures
            r.segments_spec() == seq![a, b, c, d, e, f, g, h],
            r.bits == groups_value(seq![a, b, c, d, e, f, g, h]),
    {
        proof {
            lemma_eight_groups(a, b, c, d, e, f, g, h);
            lemma_groups_value(seq![a, b, c, d, e, f, g, h]);
        }
        let bits: u128 = ((((((a as u128 * 65536 + b as u128) * 65536 + c as u128) * 65536
            + d as u128) * 65536 + e as u128) * 65536 + f as u128) * 65536 + g as u128) * 65536
            + h as u128;
        Ipv6Addr { bits }
    }

    /// The address written by a 128-bit number.
    pub fn from_bits(bits: u128) -> (r: Ipv6Addr)
        ensures
            r.bits == bits,
    {
        Ipv6Addr { bits }
    }

    /// The address with the given octets.
    pub fn from_octets(octets: &[u8]) -> (r: Ipv6Addr)
        requires
            octets@.len() == 16,
        ensures
            r.octets_spec() == octets@,
            r.bits == bytes::be_value(octets@),
    {
        proof {
            bytes::lemma_be_value_bytes(octets@);
        }
        Ipv6Addr { bits: u128_of_be(octets) }
    }

    /// The sixteen octets of the address.
    pub fn octets(&self) -> (r: Vec<u8>)
        ensures
            r@ == self.octets_spec(),
            r@.len() == 16,
    {
        proof {
            bytes::lemma_be_bytes(self.bits as nat, 16);
        }
        octets_of(self.bits, 16)
    }

    /// The eight 16-bit groups of the address.
    pub fn segments(&self) -> (r: Vec<u16>)
        ensures
            r@ == self.segments_spec(),
            r@.len() == 8,
    {
        proof {
            lemma_groups_len(self.bits as nat, 8);
        }
        last_groups(self.bits, 8)
    }

    /// Whether the address is `::1`.
    pub open spec fn loopback(self) -> bool {
        self.bits == 1
    }

    /// Whether the address is `::1`.
    pub fn is_loopback(&self) -> (r: bool)
        ensures
            r == self.loopback(),
    {
        self.bits == 1
    }

    /// Whether the address lies in `ff00::/8`.
    pub open spec fn multicast(self) -> bool {
        self.bits >= 0xff00_0000_0000_0000_0000_0000_0000_0000
    }

    /// Whether the address lies in `ff00::/8`.
    pub fn is_multicast(&self) -> (r: bool)
        ensures
            r == self.multicast(),
    {
        self.bits >= 0xff00_0000_0000_0000_0000_0000_0000_0000
    }
}

/// The last `n` 16-bit groups of `x`, most significant group first.
fn last_groups(x: u128, n: usize) -> (r: Vec<u16>)
    ensures
        r@ == groups_of(x as nat, n as nat),
    decreases n,
{
    if n == 0 {
        let none: Vec<u16> = Vec::new();
        assert(none@ == groups_of(x as nat, 0));
        none
    } else {
        let mut r: Vec<u16> = last_groups(x / 65536, n - 1);
        r.push((x % 65536) as u16);
        r
    }
}

impl IpAddr {
    /// Whether the address reaches the host itself.
    pub open spec fn loopback(self) -> bool {
        match self {
            IpAddr::V4(v4) => v4.loopback(),
            IpAddr::V6(v6) => v6.loopback(),
        }
    }

    /// Whether the address is the wildcard of its family.
    pub open spec fn unspecified(self) -> bool {
        match self {
            IpAddr::V4(v4) => v4.bits == 0,
            IpAddr::V6(v6) => v6.bits == 0,
        }
    }

    /// The octets of the address: four or sixteen.
    pub open spec fn octets_spec(self) -> Seq<u8> {
        match self {
            IpAddr::V4(v4) => v4.octets_spec(),
            IpAddr::V6(v6) => v6.octets_spec(),
        }
    }

    /// Whether the address reaches the host itself.
    pub fn is_loopback(&self) -> (r: bool)
        ensures
            r == self.loopback(),
    {
        match self {
            IpAddr::V4(v4) => v4.is_loopback(),
            IpAddr::V6(v6) => v6.is_loopback(),
        }
    }

    /// Whether the address is the wildcard of its family.
    pub fn is_unspecified(&self) -> (r: bool)
        ensures
            r == self.unspecified(),
    {
        match self {
            IpAddr::V4(v4) => v4.bits == 0,
            IpAddr::V6(v6) => v6.bits == 0,
        }
    }

    /// Whether the address is an IPv6 address.
    pub fn is_ipv6(&self) -> (r: bool)
        ensures
            r == (self is V6),
    {
        match self {
            IpAddr::V4(_) => false,
            IpAddr::V6(_) => true,
        }
    }

    /// The octets of the address: four or sixteen.
    pub fn octets(&self) -> (r: Vec<u8>)
        ensures
            r@ == self.octets_spec(),
    {
        match self {
            IpAddr::V4(v4) => octets_of(v4.bits as u128, 4),
            IpAddr::V6(v6) => v6.octets(),
        }
    }
}

impl SocketAddr {
    /// The endpoint with the given address and port.
    pub fn new(ip: IpAddr, port: u16) -> (r: SocketAddr)
        ensures
            r.ip == ip,
            r.port == port,
    {
        SocketAddr { ip, port }
    }
}

/// Whether `a` and `b` agree in their first `len` bits.
pub fn agree_in_prefix(a: u128, b: u128, len: u32) -> (r: bool)
    requires
        len <= 128,
    ensures
        r == same_prefix(a as nat, b as nat, 128, len as nat),
{
    if len == 0 {
        proof {
            lemma_whole_width(a);
            lemma_whole_width(b);
        }
        true
    } else {
        let shift: u128 = (128 - len) as u128;
        proof {
            vstd::bits::lemma_u128_shr_is_div(a, shift);
            vstd::bits::lemma_u128_shr_is_div(b, shift);
        }
        (a >> shift) == (b >> shift)
    }
}

proof fn lemma_whole_width(a: u128)
    ensures
        a as nat / vstd::arithmetic::power2::pow2(128) == 0,
{
    vstd::arithmetic::power2::lemma_pow2_adds(64, 64);
    vstd::arithmetic::power2::lemma2_to64();
    assert(0x1_0000_0000_0000_0000int * 0x1_0000_0000_0000_0000int
        == 0x1_0000_0000_0000_0000_0000_0000_0000_0000int) by (nonlinear_arith);
    assert(vstd::arithmetic::power2::pow2(128) == 0x1_0000_0000_0000_0000_0000_0000_0000_0000int);
    vstd::arithmetic::div_mod::lemma_basic_div(
        a as int,
        vstd::arithmetic::power2::pow2(128) as int,
    );
}

/// An address written by octets is given back by those octets.
pub proof fn law_octets_identify_address(a: IpAddr, b: IpAddr)
    requires
        a is V6 == b is V6,
        a.octets_spec() == b.octets_spec(),
    ensures
        a == b,
{
    reveal_with_fuel(bytes::be_limit, 17);
    match (a, b) {
        (IpAddr::V4(x), IpAddr::V4(y)) => {
            bytes::lemma_be_bytes_value(x.bits as nat, 4);
            bytes::lemma_be_bytes_value(y.bits as nat, 4);
        },
        (IpAddr::V6(x), IpAddr::V6(y)) => {
            bytes::lemma_be_bytes_value(x.bits as nat, 16);
            bytes::lemma_be_bytes_value(y.bits as nat, 16);
        },
        _ => {},
    }
}

/// The octets of an IPv4 address by division.
pub proof fn lemma_octets_by_division(ip: Ipv4Addr)
    ensures
        ip.octets_spec().len() == 4,
        ip.octets_spec()[0] == ip.bits / 0x100_0000,
        ip.octets_spec()[1] == ip.bits / 0x1_0000 % 256,
        ip.octets_spec()[2] == ip.bits / 0x100 % 256,
        ip.octets_spec()[3] == ip.bits % 256,
{
    reveal_with_fuel(bytes::be_bytes, 5);
    let x = ip.bits as nat;
    let o = ip.octets_spec();
    assert(o[0] == x / 256 / 256 / 256 % 256);
    assert(o[1] == x / 256 / 256 % 256);
    assert(o[2] == x / 256 % 256);
    assert(o[3] == x % 256);
}

/// What the kinds of IPv4 addresses are in octets: `127.x.x.x` reaches the host
/// itself, a first octet of 224 to 239 is a group, `255.255.255.255` is everyone
/// on the link, `10.x.x.x`, `172.16.x.x` to `172.31.x.x` and `192.168.x.x` are
/// private, and `169.254.x.x` stays on the link.
pub proof fn law_ipv4_kinds_by_octets(ip: Ipv4Addr)
    ensures
        ip.loopback() <==> ip.octets_spec()[0] == 127,
        ip.multicast() <==> 224 <= ip.octets_spec()[0] <= 239,
        ip.broadcast() <==> ip.octets_spec() == seq![255u8, 255, 255, 255],
        ip.private() <==> {
            ||| ip.octets_spec()[0] == 10
            ||| ip.octets_spec()[0] == 172 && 16 <= ip.octets_spec()[1] <= 31
            ||| ip.octets_spec()[0] == 192 && ip.octets_spec()[1] == 168
        },
        ip.link_local() <==> ip.octets_spec()[0] == 169 && ip.octets_spec()[1] == 254,
        IpAddr::V4(ip).loopback() <==> ip.octets_spec()[0] == 127,
        IpAddr::V4(ip).unspecified() <==> ip.octets_spec() == seq![0u8, 0, 0, 0],
{
    lemma_octets_by_division(ip);
    let o = ip.octets_spec();
    let x = ip.bits;
    assert(x == o[0] * 0x100_0000 + o[1] * 0x1_0000 + o[2] * 0x100 + o[3]);
    assert(x / 0x1000_0000 == o[0] / 16);
    assert(x / 0x10_0000 == o[0] * 16 + o[1] / 16);
    assert(x / 0x1_0000 == o[0] * 256 + o[1]);
    let ones = seq![255u8, 255, 255, 255];
    let zeros = seq![0u8, 0, 0, 0];
    if x == 0xffff_ffff {
        assert(o == ones);
    } else if o == ones {
        assert(o[0] == 255 && o[1] == 255 && o[2] == 255 && o[3] == 255);
    }
    if x == 0 {
        assert(o == zeros);
    } else if o == zeros {
        assert(o[0] == 0 && o[1] == 0 && o[2] == 0 && o[3] == 0);
    }
}

/// The IPv6 groups are the addresses whose first eight bits are all ones, and the
/// one address that reaches the host itself is `::1`.
pub proof fn law_ipv6_kinds(ip: Ipv6Addr)
    ensures
        ip.multicast() <==> ip.bits / 0x100_0000_0000_0000_0000_0000_0000_0000 == 0xff,
        ip.segments_spec() == seq![0u16, 0, 0, 0, 0, 0, 0, 1] ==> ip.loopback(),
        ip.loopback() ==> IpAddr::V6(ip).loopback() && ip.segments_spec() == seq![
            0u16,
            0,
            0,
            0,
            0,
            0,
            0,
            1,
        ],
        IpAddr::V6(ip).unspecified() <==> ip.bits == 0,
{
    let one = seq![0u16, 0, 0, 0, 0, 0, 0, 1];
    lemma_eight_groups(0, 0, 0, 0, 0, 0, 0, 1);
    lemma_groups_value(one);
    lemma_segments_hold_address(ip);
}

} // verus!
