//! macOS: process attribution from the `pcblist_n` tables, interface ioctls and
//! the `route` command.

use vstd::prelude::*;
use vstd::slice::{slice_subrange, slice_to_vec};

use super::attribution;
use super::attribution::{Endpoint, EndpointCache, Owner, Owners};
use super::{fill_if_name, open_failure, NumberOption, PhysicalInterface};
use crate::addr::{IpAddr, Ipv4Addr, Ipv6Addr, SocketAddr};
use crate::addr_text;
use crate::addr_text::push_ip;
use crate::bytes;
use crate::bytes::{octets_of_le, push_zeros, u16_of_be, u32_of_be};
use crate::error::{Error, IoFailure, IoKind};
use crate::text;
use crate::text::{
    chars_of, has_prefix, has_text, lower_text, push_decimal, push_str, push_text, split_any,
    string_of, text_from_utf8, trimmed,
};

verus! {

/// What the names of utun interfaces look like.
pub const ADAPTER_NAME: &'static str = "utun%d";

// ── Process attribution ─────────────────────────────────────────────────────

/// Set in the version flags of an IPv6 socket.
pub const INP_IPV6: u8 = 0x2;

/// Foreign port within a control block record, network order.
pub const XINPCB_OFFSET_FPORT: usize = 16;

/// Local port within a control block record, network order.
pub const XINPCB_OFFSET_LPORT: usize = 18;

/// Version flags within a control block record.
pub const XINPCB_OFFSET_VFLAG: usize = 44;

/// Foreign address within a control block record.
pub const XINPCB_OFFSET_FADDR: usize = 48;

/// Local address within a control block record.
pub const XINPCB_OFFSET_LADDR: usize = 64;

/// Size of a control block record.
pub const XINPCB_RECORD_LEN: usize = 100;

/// Last process id within a socket record.
pub const XSOCKET_OFFSET_LAST_PID: usize = 68;

/// Size of a socket record.
pub const XSOCKET_RECORD_LEN: usize = 104;

/// Minimum size of the table header.
pub const XINPGEN_LEN: usize = 24;

/// The `n` octets at `offset`, where the record holds them.
pub open spec fn field(record: Seq<u8>, offset: int, n: int) -> Option<Seq<u8>> {
    if offset + n <= record.len() {
        Some(record.subrange(offset, offset + n))
    } else {
        None
    }
}

/// The 32-bit number at `offset`, least significant octet first.
pub open spec fn u32_le_at(record: Seq<u8>, offset: int) -> Option<nat> {
    match field(record, offset, 4) {
        Some(f) => Some(bytes::le_value(f)),
        None => None,
    }
}

/// The 16-bit number at `offset`, most significant octet first.
pub open spec fn u16_be_at(record: Seq<u8>, offset: int) -> Option<nat> {
    match field(record, offset, 2) {
        Some(f) => Some(bytes::be_value(f)),
        None => None,
    }
}

/// The signed 32-bit number at `offset`, least significant octet first.
pub open spec fn i32_le_at(record: Seq<u8>, offset: int) -> Option<int> {
    match u32_le_at(record, offset) {
        Some(v) => if v < 0x8000_0000 {
            Some(v as int)
        } else {
            Some(v - 0x1_0000_0000)
        },
        None => None,
    }
}

/// The address in the 16-octet slot at `offset`: all of it for IPv6, its last
/// four octets for IPv4.
pub open spec fn address_at(record: Seq<u8>, offset: int, v6: bool) -> Option<IpAddr> {
    if v6 {
        match field(record, offset, 16) {
            Some(f) => Some(IpAddr::V6(Ipv6Addr { bits: bytes::be_value(f) as u128 })),
            None => None,
        }
    } else {
        match field(record, offset + 12, 4) {
            Some(f) => Some(IpAddr::V4(Ipv4Addr { bits: bytes::be_value(f) as u32 })),
            None => None,
        }
    }
}

/// Reads a little-endian u32, as all record lengths are.
pub fn read_u32_le(record: &[u8], offset: usize) -> (r: Option<u32>)
    ensures
        r is Some <==> u32_le_at(record@, offset as int) is Some,
        r is Some ==> r->Some_0 == u32_le_at(record@, offset as int)->Some_0,
{
    if record.len() < 4 || offset > record.len() - 4 {
        return None;
    }
    let (a, b, c, d) = (
        record[offset],
        record[offset + 1],
        record[offset + 2],
        record[offset + 3],
    );
    let ghost f = record@.subrange(offset as int, offset + 4);
    assert(f.reverse() == seq![d, c, b, a]);
    Some(u32_of_be(d, c, b, a))
}

/// Reads a network-order u16.
pub fn read_u16_be(record: &[u8], offset: usize) -> (r: Option<u16>)
    ensures
        r is Some <==> u16_be_at(record@, offset as int) is Some,
        r is Some ==> r->Some_0 == u16_be_at(record@, offset as int)->Some_0,
{
    if record.len() < 2 || offset > record.len() - 2 {
        return None;
    }
    let ghost f = record@.subrange(offset as int, offset + 2);
    assert(f == seq![record@[offset as int], record@[offset + 1]]);
    Some(u16_of_be(record[offset], record[offset + 1]))
}

/// Reads a little-endian i32.
pub fn read_i32_le(record: &[u8], offset: usize) -> (r: Option<i32>)
    ensures
        r is Some <==> i32_le_at(record@, offset as int) is Some,
        r is Some ==> r->Some_0 == i32_le_at(record@, offset as int)->Some_0,
{
    match read_u32_le(record, offset) {
        Some(v) => if v < 0x8000_0000 {
            Some(v as i32)
        } else {
            Some((v as i64 - 0x1_0000_0000) as i32)
        },
        None => None,
    }
}

/// Reads the address in the 16-octet slot at `offset`.
pub fn read_address(record: &[u8], offset: usize, v6: bool) -> (r: Option<IpAddr>)
    ensures
        r == address_at(record@, offset as int, v6),
{
    if record.len() < 16 || offset > record.len() - 16 {
        return None;
    }
    if v6 {
        let octets: &[u8] = slice_subrange(record, offset, offset + 16);
        Some(IpAddr::V6(Ipv6Addr::from_octets(octets)))
    } else {
        let ghost f = record@.subrange(offset + 12, offset + 16);
        assert(f == seq![
            record@[offset + 12],
            record@[offset + 13],
            record@[offset + 14],
            record@[offset + 15],
        ]);
        Some(
            IpAddr::V4(
                Ipv4Addr::new(
                    record[offset + 12],
                    record[offset + 13],
                    record[offset + 14],
                    record[offset + 15],
                ),
            ),
        )
    }
}

/// A socket that may own a flow, and how specifically it matches it: 3 for the
/// full four-tuple, 2 for a specific local endpoint, 1 for a wildcard bind.
#[derive(Debug, Clone, Copy, PartialEq, Eq, Structural)]
pub struct Candidate {
    /// The owning process.
    pub pid: u32,
    /// How specifically the socket matches.
    pub specificity: u8,
}

/// How specifically a socket bound to `laddr` and connected to `faddr:fport`
/// (or not connected, where those are zero) matches a flow. A socket that is
/// connected elsewhere does not match.
pub open spec fn specificity(
    laddr: IpAddr,
    faddr: IpAddr,
    fport: nat,
    local: SocketAddr,
    remote: SocketAddr,
) -> Option<u8> {
    let connected = fport != 0 && !faddr.unspecified();
    if connected && !(faddr == remote.ip && fport == remote.port) {
        None
    } else if connected && laddr == local.ip {
        Some(3)
    } else if laddr.unspecified() {
        Some(1)
    } else if laddr == local.ip {
        Some(2)
    } else {
        None
    }
}

/// Whether a control block record belongs to an IPv6 socket.
pub open spec fn is_v6_record(inpcb: Seq<u8>) -> bool {
    inpcb[XINPCB_OFFSET_VFLAG as int] / 2 % 2 == 1
}

/// What a pair of records says about a flow.
pub open spec fn candidate(
    inpcb: Seq<u8>,
    socket: Seq<u8>,
    local: SocketAddr,
    remote: SocketAddr,
) -> Option<Candidate> {
    let v6 = is_v6_record(inpcb);
    if inpcb.len() <= XINPCB_OFFSET_VFLAG || v6 != (local.ip is V6) || u16_be_at(
        inpcb,
        XINPCB_OFFSET_LPORT as int,
    ) != Some(local.port as nat) {
        None
    } else {
        match (
            address_at(inpcb, XINPCB_OFFSET_LADDR as int, v6),
            address_at(inpcb, XINPCB_OFFSET_FADDR as int, v6),
            u16_be_at(inpcb, XINPCB_OFFSET_FPORT as int),
            i32_le_at(socket, XSOCKET_OFFSET_LAST_PID as int),
        ) {
            (Some(laddr), Some(faddr), Some(fport), Some(pid)) => match specificity(
                laddr,
                faddr,
                fport,
                local,
                remote,
            ) {
                Some(specificity) => if pid > 0 {
                    Some(Candidate { pid: pid as u32, specificity })
                } else {
                    None
                },
                None => None,
            },
            _ => None,
        }
    }
}

/// The ends of the control block record at `offset` and of the socket record
/// behind it, where the table holds both in full.
pub open spec fn record_pair(table: Seq<u8>, offset: int) -> Option<(int, int)> {
    match u32_le_at(table, offset) {
        Some(inpcb_len) => {
            let mid = offset + inpcb_len;
            if inpcb_len < XINPCB_OFFSET_LADDR + 16 || mid > table.len() {
                None
            } else {
                match u32_le_at(table, mid) {
                    Some(socket_len) => if socket_len < XSOCKET_OFFSET_LAST_PID + 4 || mid
                        + socket_len > table.len() {
                        None
                    } else {
                        Some((mid, mid + socket_len))
                    },
                    None => None,
                }
            }
        },
        None => None,
    }
}

/// The candidates among the record pairs from `offset` on, in order.
pub open spec fn candidates(
    table: Seq<u8>,
    offset: int,
    local: SocketAddr,
    remote: SocketAddr,
) -> Seq<Candidate>
    decreases table.len() - offset,
{
    match record_pair(table, offset) {
        Some((mid, end)) => if offset >= 0 && end > offset {
            let rest = candidates(table, end, local, remote);
            match candidate(table.subrange(offset, mid), table.subrange(mid, end), local, remote) {
                Some(c) => seq![c] + rest,
                None => rest,
            }
        } else {
            Seq::empty()
        },
        None => Seq::empty(),
    }
}

/// The most specific of `list`; of several equally specific ones, the first.
pub open spec fn most_specific(list: Seq<Candidate>) -> Option<Candidate>
    decreases list.len(),
{
    if list.len() == 0 {
        None
    } else {
        match most_specific(list.drop_last()) {
            Some(best) => if list.last().specificity > best.specificity {
                Some(list.last())
            } else {
                Some(best)
            },
            None => Some(list.last()),
        }
    }
}

/// The process that owns a flow, according to a table.
pub open spec fn owner(table: Seq<u8>, local: SocketAddr, remote: SocketAddr) -> Option<u32> {
    match u32_le_at(table, 0) {
        Some(header) => if header < XINPGEN_LEN {
            None
        } else {
            match most_specific(candidates(table, header as int, local, remote)) {
                Some(c) => Some(c.pid),
                None => None,
            }
        },
        None => None,
    }
}

/// The ends of the next pair of records, or `None` at the end of the table; a
/// truncated table is treated like the end of a valid one.
pub fn next_record_pair(table: &[u8], offset: usize) -> (r: Option<(usize, usize)>)
    ensures
        r is Some <==> record_pair(table@, offset as int) is Some,
        r is Some ==> (r->Some_0.0 as int, r->Some_0.1 as int) == record_pair(
            table@,
            offset as int,
        )->Some_0,
{
    let inpcb_len: usize = match read_u32_le(table, offset) {
        Some(n) => n as usize,
        None => {
            return None;
        },
    };
    if inpcb_len < XINPCB_OFFSET_LADDR + 16 || inpcb_len > table.len() - offset {
        return None;
    }
    let mid: usize = offset + inpcb_len;
    let socket_len: usize = match read_u32_le(table, mid) {
        Some(n) => n as usize,
        None => {
            return None;
        },
    };
    if socket_len < XSOCKET_OFFSET_LAST_PID + 4 || socket_len > table.len() - mid {
        return None;
    }
    Some((mid, mid + socket_len))
}

/// Scores a pair of records against a flow; `None` means that the records are
/// not this flow's socket.
pub fn score_record(
    inpcb: &[u8],
    socket: &[u8],
    local: SocketAddr,
    remote: SocketAddr,
) -> (r: Option<Candidate>)
    ensures
        r == candidate(inpcb@, socket@, local, remote),
{
    if inpcb.len() <= XINPCB_OFFSET_VFLAG {
        return None;
    }
    let v6: bool = inpcb[XINPCB_OFFSET_VFLAG] / INP_IPV6 % 2 == 1;
    if v6 != local.ip.is_ipv6() {
        return None;
    }
    match read_u16_be(inpcb, XINPCB_OFFSET_LPORT) {
        Some(port) => {
            if port != local.port {
                return None;
            }
        },
        None => {
            return None;
        },
    }
    match (
        read_address(inpcb, XINPCB_OFFSET_LADDR, v6),
        read_address(inpcb, XINPCB_OFFSET_FADDR, v6),
        read_u16_be(inpcb, XINPCB_OFFSET_FPORT),
        read_i32_le(socket, XSOCKET_OFFSET_LAST_PID),
    ) {
        (Some(laddr), Some(faddr), Some(fport), Some(pid)) => {
            let connected: bool = fport != 0 && !faddr.is_unspecified();
            if connected && !(faddr == remote.ip && fport == remote.port) {
                return None;
            }
            let specificity: u8 = if connected && laddr == local.ip {
                3
            } else if laddr.is_unspecified() {
                1
            } else if laddr == local.ip {
                2
            } else {
                return None;
            };
            if pid <= 0 {
                return None;
            }
            Some(Candidate { pid: pid as u32, specificity })
        },
        _ => None,
    }
}

/// Walks a table and returns the process of the socket that owns the flow's
/// local endpoint, preferring the most specific match: a listener and its
/// accepted children share a local endpoint, and the child scores higher.
pub fn scan_pcblist(table: &[u8], local: SocketAddr, remote: SocketAddr) -> (r: Option<u32>)
    ensures
        r == owner(table@, local, remote),
{
    let mut offset: usize = match read_u32_le(table, 0) {
        Some(n) => n as usize,
        None => {
            return None;
        },
    };
    if offset < XINPGEN_LEN {
        return None;
    }
    let ghost all = candidates(table@, offset as int, local, remote);
    let ghost mut seen: Seq<Candidate> = Seq::empty();
    let mut best: Option<Candidate> = None;
    assert(seen + all == all);
    loop
        invariant_except_break
            all == seen + candidates(table@, offset as int, local, remote),
        invariant
            best == most_specific(seen),
        ensures
            all == seen,
        decreases table@.len() - offset,
    {
        let (mid, end): (usize, usize) = match next_record_pair(table, offset) {
            Some(pair) => pair,
            None => {
                assert(all == seen);
                break;
            },
        };
        let inpcb: &[u8] = slice_subrange(table, offset, mid);
        let socket: &[u8] = slice_subrange(table, mid, end);
        let ghost rest = candidates(table@, end as int, local, remote);
        match score_record(inpcb, socket, local, remote) {
            Some(c) => {
                let better: bool = match best {
                    Some(b) => c.specificity > b.specificity,
                    None => true,
                };
                if better {
                    best = Some(c);
                }
                proof {
                    let next = seen.push(c);
                    assert(next.drop_last() == seen);
                    assert(seen + (seq![c] + rest) == next + rest);
                    seen = next;
                }
            },
            None => {},
        }
        offset = end;
    }
    match best {
        Some(c) => Some(c.pid),
        None => None,
    }
}

/// The short process name in a fixed field: everything up to the first NUL.
pub open spec fn comm_text(field: Seq<u8>) -> Option<Seq<char>> {
    let bytes = field.take(nul_position(field));
    let name = text::trim(vstd::utf8::decode_utf8(bytes));
    if !vstd::utf8::valid_utf8(bytes) || name.len() == 0 {
        None
    } else {
        Some(name)
    }
}

/// The position of the first NUL, or the length.
pub open spec fn nul_position(field: Seq<u8>) -> int
    decreases field.len(),
{
    if field.len() == 0 || field[0] == 0 {
        0
    } else {
        1 + nul_position(field.drop_first())
    }
}

proof fn lemma_nul_position(field: Seq<u8>, n: int)
    requires
        0 <= n <= field.len(),
        forall|i: int| 0 <= i < n ==> field[i] != 0,
        n < field.len() ==> field[n] == 0,
    ensures
        nul_position(field) == n,
    decreases n,
{
    if n > 0 {
        lemma_nul_position(field.drop_first(), n - 1);
    }
}

/// The short process name in a fixed field that need not end with a NUL.
pub fn comm_name(field: &[u8]) -> (r: Option<String>)
    ensures
        r is Some <==> comm_text(field@) is Some,
        r is Some ==> r->Some_0@ == comm_text(field@)->Some_0,
{
    let mut end: usize = 0;
    while end < field.len() && field[end] != 0
        invariant
            end <= field.len(),
            forall|i: int| 0 <= i < end ==> field@[i] != 0,
        decreases field.len() - end,
    {
        end = end + 1;
    }
    proof {
        lemma_nul_position(field@, end as int);
    }
    let bytes: &[u8] = slice_subrange(field, 0, end);
    assert(bytes@ == field@.take(end as int));
    match text_from_utf8(bytes) {
        Some(text) => {
            let chars: Vec<char> = chars_of(text);
            let name: &[char] = trimmed(&chars);
            if name.len() == 0 {
                None
            } else {
                Some(string_of(name))
            }
        },
        None => None,
    }
}

// ── Addresses ───────────────────────────────────────────────────────────────

/// The number of a BSD ioctl: direction, argument size, group and number.
pub open spec fn ioctl_number(direction: nat, size: nat, group: nat, number: nat) -> nat {
    direction * 0x4000_0000 + size * 0x1_0000 + group * 0x100 + number
}

/// Assigns an IPv4 address: `_IOW('i', 26, ifaliasreq)`.
pub const SIOCAIFADDR: u64 = 0x4040_691a;

/// Assigns an IPv6 address: `_IOW('i', 26, in6_ifaliasreq)`.
pub const SIOCAIFADDR_IN6: u64 = 0x4080_691a;

/// Sets the MTU: `_IOW('i', 52, ifreq)`.
pub const SIOCSIFMTU: u64 = 0x4020_6934;

/// Reads the interface flags: `_IOWR('i', 17, ifreq)`.
pub const SIOCGIFFLAGS: u64 = 0xc020_6911;

/// Sets the interface flags: `_IOW('i', 16, ifreq)`.
pub const SIOCSIFFLAGS: u64 = 0x4020_6910;

/// The ioctl numbers are the encodings of their header definitions, with 32
/// octets in `ifreq`, 64 in `ifaliasreq` and 128 in `in6_ifaliasreq`.
pub proof fn law_ioctl_numbers_match_their_definitions()
    ensures
        SIOCAIFADDR == ioctl_number(1, 64, 0x69, 26),
        SIOCAIFADDR_IN6 == ioctl_number(1, 128, 0x69, 26),
        SIOCSIFMTU == ioctl_number(1, 32, 0x69, 52),
        SIOCGIFFLAGS == ioctl_number(3, 32, 0x69, 17),
        SIOCSIFFLAGS == ioctl_number(1, 32, 0x69, 16),
{
}

/// The number of `width` bits whose first `prefix_len` bits are ones and whose
/// others are zeros.
pub open spec fn mask_bits(width: nat, prefix_len: nat) -> int {
    vstd::arithmetic::power2::pow2(width) - vstd::arithmetic::power2::pow2(
        (width - prefix_len) as nat,
    )
}

/// 2 to the power of `n`.
fn power_of_two(n: u8) -> (r: u128)
    requires
        n < 128,
    ensures
        r == vstd::arithmetic::power2::pow2(n as nat),
{
    let mut x: u128 = 1;
    let mut i: u8 = 0;
    proof {
        vstd::arithmetic::power2::lemma2_to64();
    }
    while i < n
        invariant
            i <= n < 128,
            x == vstd::arithmetic::power2::pow2(i as nat),
        decreases n - i,
    {
        proof {
            vstd::arithmetic::power2::lemma_pow2_unfold((i + 1) as nat);
            lemma_pow2_fits((i + 1) as nat);
        }
        x = x * 2;
        i = i + 1;
    }
    x
}

proof fn lemma_pow2_128()
    ensures
        vstd::arithmetic::power2::pow2(128) == 0x1_0000_0000_0000_0000_0000_0000_0000_0000,
{
    vstd::arithmetic::power2::lemma_pow2_adds(64, 64);
    vstd::arithmetic::power2::lemma2_to64();
    assert(0x1_0000_0000_0000_0000int * 0x1_0000_0000_0000_0000int
        == 0x1_0000_0000_0000_0000_0000_0000_0000_0000int) by (nonlinear_arith);
}

proof fn lemma_pow2_fits(n: nat)
    requires
        n < 128,
    ensures
        vstd::arithmetic::power2::pow2(n) <= u128::MAX,
{
    lemma_pow2_128();
    vstd::arithmetic::power2::lemma_pow2_strictly_increases(n, 128);
}

/// The netmask for a prefix length, e.g. `/24` is `255.255.255.0`.
pub fn netmask_v4(prefix_len: u8) -> (r: Ipv4Addr)
    requires
        prefix_len <= 32,
    ensures
        r.bits == mask_bits(32, prefix_len as nat),
{
    proof {
        vstd::arithmetic::power2::lemma2_to64();
    }
    if prefix_len == 0 {
        Ipv4Addr { bits: 0 }
    } else {
        let host: u128 = power_of_two(32 - prefix_len);
        proof {
            vstd::arithmetic::power2::lemma_pow2_strictly_increases(
                (32 - prefix_len) as nat,
                32,
            );
            vstd::arithmetic::power2::lemma_pow2_pos((32 - prefix_len) as nat);
        }
        Ipv4Addr { bits: (0x1_0000_0000 - host) as u32 }
    }
}

/// The netmask for an IPv6 prefix length, e.g. `/64` is `ffff:ffff:ffff:ffff::`.
pub fn netmask_v6(prefix_len: u8) -> (r: Ipv6Addr)
    requires
        prefix_len <= 128,
    ensures
        r.bits == mask_bits(128, prefix_len as nat),
{
    proof {
        lemma_pow2_128();
    }
    if prefix_len == 0 {
        Ipv6Addr { bits: 0 }
    } else {
        let host: u128 = power_of_two(128 - prefix_len);
        proof {
            vstd::arithmetic::power2::lemma_pow2_pos((128 - prefix_len) as nat);
        }
        Ipv6Addr { bits: 0xffff_ffff_ffff_ffff_ffff_ffff_ffff_ffff - (host - 1) }
    }
}

// ── Routes ──────────────────────────────────────────────────────────────────

/// The texts behind a sequence of strings.
pub open spec fn strings(list: Seq<String>) -> Seq<Seq<char>> {
    list.map_values(|s: String| s@)
}

/// A network as the `route` command takes it.
pub open spec fn network_text(dest: IpAddr, prefix_len: u8) -> Seq<char> {
    addr_text::write_ip(dest).push('/') + text::decimal(prefix_len as nat)
}

/// The option that tells the `route` command the address family.
pub open spec fn family_flag(dest: IpAddr) -> Seq<char> {
    match dest {
        IpAddr::V4(_) => "-inet"@,
        IpAddr::V6(_) => "-inet6"@,
    }
}

fn network_string(dest: IpAddr, prefix_len: u8) -> (r: String)
    ensures
        r@ == network_text(dest, prefix_len),
{
    let mut out: Vec<char> = Vec::new();
    push_ip(&mut out, dest);
    out.push('/');
    push_decimal(&mut out, prefix_len as u64);
    assert(out@ == network_text(dest, prefix_len));
    string_of(&out)
}

fn family_string(dest: IpAddr) -> (r: String)
    ensures
        r@ == family_flag(dest),
{
    match dest {
        IpAddr::V4(_) => "-inet".to_string(),
        IpAddr::V6(_) => "-inet6".to_string(),
    }
}

/// The arguments with which the `route` command adds a route out of the
/// interface `name`.
pub fn route_add_args(dest: IpAddr, prefix_len: u8, name: &str) -> (r: Vec<String>)
    ensures
        strings(r@) == seq![
            "-n"@,
            "add"@,
            family_flag(dest),
            network_text(dest, prefix_len),
            "-interface"@,
            name@,
        ],
{
    let mut args: Vec<String> = Vec::new();
    args.push("-n".to_string());
    args.push("add".to_string());
    args.push(family_string(dest));
    args.push(network_string(dest, prefix_len));
    args.push("-interface".to_string());
    args.push(name.to_string());
    assert(strings(args@) == seq![
        "-n"@,
        "add"@,
        family_flag(dest),
        network_text(dest, prefix_len),
        "-interface"@,
        name@,
    ]);
    args
}

/// The arguments with which the `route` command deletes a route.
pub fn route_delete_args(dest: IpAddr, prefix_len: u8) -> (r: Vec<String>)
    ensures
        strings(r@) == seq!["-n"@, "delete"@, family_flag(dest), network_text(dest, prefix_len)],
{
    let mut args: Vec<String> = Vec::new();
    args.push("-n".to_string());
    args.push("delete".to_string());
    args.push(family_string(dest));
    args.push(network_string(dest, prefix_len));
    assert(strings(args@) == seq![
        "-n"@,
        "delete"@,
        family_flag(dest),
        network_text(dest, prefix_len),
    ]);
    args
}

/// The error of a failed `route` command.
pub open spec fn is_route_error(verb: Seq<char>, stderr: Seq<char>, e: IoFailure) -> bool {
    e.kind == IoKind::Other && e.code is None && e.message@ == "route "@ + verb + " failed: "@
        + text::trim(stderr)
}

fn route_error(verb: &str, stderr: &str) -> (r: IoFailure)
    ensures
        is_route_error(verb@, stderr@, r),
{
    let text: Vec<char> = chars_of(stderr);
    let mut out: Vec<char> = Vec::new();
    push_str(&mut out, "route ");
    push_str(&mut out, verb);
    push_str(&mut out, " failed: ");
    push_text(&mut out, trimmed(&text));
    assert(out@ == "route "@ + verb@ + " failed: "@ + text::trim(stderr@));
    IoFailure { kind: IoKind::Other, code: None, message: string_of(&out) }
}

/// Whether the output of a `route` command says `what`, letter case aside.
pub open spec fn says(stderr: Seq<char>, what: Seq<char>) -> bool {
    text::contains_text(text::lowered(stderr), what)
}

fn output_says(stderr: &str, what: &str) -> (r: bool)
    ensures
        r == says(stderr@, what@),
{
    let text: Vec<char> = chars_of(stderr);
    let low: Vec<char> = lower_text(&text);
    let needle: Vec<char> = chars_of(what);
    has_text(&low, &needle)
}

/// How adding a route went. A route that is in the table already is no failure.
pub fn route_added(success: bool, code: Option<i32>, stderr: &str) -> (r: Result<(), IoFailure>)
    ensures
        r is Ok <==> success || (code == Some(1i32) && says(stderr@, "file exists"@)),
        r is Err ==> is_route_error("add"@, stderr@, r->Err_0),
{
    if success {
        return Ok(());
    }
    let one: bool = match code {
        Some(c) => c == 1,
        None => false,
    };
    if one && output_says(stderr, "file exists") {
        return Ok(());
    }
    Err(route_error("add", stderr))
}

/// How deleting a route went. A route that is gone already is no failure.
pub fn route_deleted(success: bool, stderr: &str) -> (r: Result<(), IoFailure>)
    ensures
        r is Ok <==> success || says(stderr@, "not in table"@) || says(
            stderr@,
            "no such process"@,
        ),
        r is Err ==> is_route_error("delete"@, stderr@, r->Err_0),
{
    if success || output_says(stderr, "not in table") || output_says(stderr, "no such process") {
        return Ok(());
    }
    Err(route_error("delete", stderr))
}

/// What stands in front of the interface name in the output of `route get`.
pub open spec fn interface_label() -> Seq<char> {
    seq!['i', 'n', 't', 'e', 'r', 'f', 'a', 'c', 'e', ':']
}

/// The interface named in the first of `lines` that names one.
pub open spec fn named_interface(lines: Seq<Seq<char>>) -> Option<Seq<char>>
    decreases lines.len(),
{
    if lines.len() == 0 {
        None
    } else {
        let line = text::trim(lines[0]);
        if text::starts_with(line, interface_label()) {
            Some(text::trim(line.skip(10)))
        } else {
            named_interface(lines.drop_first())
        }
    }
}

/// The interface that the output of `route get` names.
pub fn route_interface(stdout: &str) -> (r: Option<String>)
    ensures
        r is Some <==> named_interface(text::split(stdout@, seq!['\n'])) is Some,
        r is Some ==> r->Some_0@ == named_interface(text::split(stdout@, seq!['\n']))->Some_0,
{
    let text: Vec<char> = chars_of(stdout);
    let feed: [char; 1] = ['\n'];
    assert(feed@ == seq!['\n']);
    let label: [char; 10] = ['i', 'n', 't', 'e', 'r', 'f', 'a', 'c', 'e', ':'];
    assert(label@ == interface_label());
    let lines: Vec<&[char]> = split_any(&text, &feed);
    let ghost all = text::split(stdout@, seq!['\n']);
    assert(text::texts(lines@).len() == lines@.len());
    assert(all.skip(0) == all);
    let mut i: usize = 0;
    while i < lines.len()
        invariant
            i <= lines.len(),
            text::texts(lines@) == all,
            all == text::split(stdout@, seq!['\n']),
            all.len() == lines@.len(),
            label@ == interface_label(),
            named_interface(all) == named_interface(all.skip(i as int)),
        decreases lines.len() - i,
    {
        let line: &[char] = trimmed(lines[i]);
        proof {
            assert(text::texts(lines@)[i as int] == lines@[i as int]@);
            assert(all.skip(i as int)[0] == lines@[i as int]@);
            assert(all.skip(i as int).drop_first() == all.skip(i + 1));
        }
        if has_prefix(line, &label) {
            let rest: &[char] = slice_subrange(line, 10, line.len());
            assert(rest@ == line@.skip(10));
            return Some(string_of(trimmed(rest)));
        }
        i = i + 1;
    }
    None
}

// ── Laws ────────────────────────────────────────────────────────────────────

/// The owner is a candidate, and none is more specific.
pub proof fn law_most_specific_candidate_wins(list: Seq<Candidate>)
    requires
        list.len() > 0,
    ensures
        most_specific(list) is Some,
        list.contains(most_specific(list)->Some_0),
        forall|i: int|
            0 <= i < list.len() ==> (#[trigger] list[i]).specificity
                <= most_specific(list)->Some_0.specificity,
    decreases list.len(),
{
    let front = list.drop_last();
    assert(list[list.len() - 1] == list.last());
    if front.len() > 0 {
        law_most_specific_candidate_wins(front);
        let best = most_specific(front)->Some_0;
        let i = choose|i: int| 0 <= i < front.len() && front[i] == best;
        assert(list[i] == best);
        assert forall|j: int| 0 <= j < list.len() implies (#[trigger] list[j]).specificity
            <= most_specific(list)->Some_0.specificity by {
            if j < front.len() {
                assert(front[j] == list[j]);
            }
        }
    }
}

/// A socket connected to another peer never owns a flow.
pub proof fn law_socket_of_another_peer_is_no_candidate(
    laddr: IpAddr,
    faddr: IpAddr,
    fport: nat,
    local: SocketAddr,
    remote: SocketAddr,
)
    requires
        fport != 0,
        !faddr.unspecified(),
        faddr != remote.ip || fport != remote.port,
    ensures
        specificity(laddr, faddr, fport, local, remote) is None,
{
}

/// A socket without a process never owns a flow.
pub proof fn law_socket_without_process_is_no_candidate(
    inpcb: Seq<u8>,
    socket: Seq<u8>,
    local: SocketAddr,
    remote: SocketAddr,
)
    requires
        i32_le_at(socket, XSOCKET_OFFSET_LAST_PID as int) matches Some(pid) ==> pid <= 0,
    ensures
        candidate(inpcb, socket, local, remote) is None,
{
}

/// A flow of one family never matches a socket of the other.
pub proof fn law_families_do_not_mix(
    inpcb: Seq<u8>,
    socket: Seq<u8>,
    local: SocketAddr,
    remote: SocketAddr,
)
    requires
        is_v6_record(inpcb) != (local.ip is V6),
    ensures
        candidate(inpcb, socket, local, remote) is None,
{
}

// ── Socket addresses ────────────────────────────────────────────────────────

/// Address family of IPv4.
pub const AF_INET: u8 = 2;

/// Address family of IPv6.
pub const AF_INET6: u8 = 30;

/// A socket address for the interface ioctls, sixteen octets: its length, its
/// family and, in the first four octets of its data, the address.
pub open spec fn sockaddr_v4(addr: Ipv4Addr) -> Seq<u8> {
    seq![16u8, AF_INET] + addr.octets_spec() + bytes::zeros(10)
}

/// An IPv6 socket address, twenty-eight octets: its length, its family, no port,
/// no flow information, the address and no scope.
pub open spec fn sockaddr_v6(addr: Ipv6Addr) -> Seq<u8> {
    seq![28u8, AF_INET6] + bytes::zeros(6) + addr.octets_spec() + bytes::zeros(4)
}

/// A socket address for the interface ioctls.
pub fn v4_sockaddr(addr: Ipv4Addr) -> (r: Vec<u8>)
    ensures
        r@ == sockaddr_v4(addr),
{
    let octets = addr.octets();
    let mut r: Vec<u8> = vec![16, AF_INET, octets[0], octets[1], octets[2], octets[3]];
    assert(r@ =~= seq![16u8, AF_INET] + octets@);
    push_zeros(&mut r, 10);
    r
}

/// An IPv6 socket address.
pub fn v6_sockaddr(addr: Ipv6Addr) -> (r: Vec<u8>)
    ensures
        r@ == sockaddr_v6(addr),
{
    let mut r: Vec<u8> = vec![28, AF_INET6];
    push_zeros(&mut r, 6);
    let mut octets = addr.octets();
    r.append(&mut octets);
    push_zeros(&mut r, 4);
    assert(r@ =~= sockaddr_v6(addr));
    r
}

// ── Interface requests ──────────────────────────────────────────────────────

/// Skips duplicate address detection, which is meaningless on a tunnel.
pub const IN6_IFF_NODAD: u32 = 0x20;

/// The argument of [`SIOCAIFADDR`]: the interface's name, its address, the same in
/// place of a broadcast address, which a point-to-point link has not, and its
/// netmask.
pub open spec fn alias_v4(name: Seq<u8>, addr: Ipv4Addr, prefix_len: u8) -> Seq<u8> {
    super::name_field(name) + sockaddr_v4(addr) + sockaddr_v4(addr) + sockaddr_v4(
        Ipv4Addr { bits: mask_bits(32, prefix_len as nat) as u32 },
    )
}

/// The argument of [`SIOCAIFADDR_IN6`]: the interface's name, its address, no
/// destination, its netmask, flags, and a lifetime without an end.
pub open spec fn alias_v6(name: Seq<u8>, addr: Ipv6Addr, prefix_len: u8) -> Seq<u8> {
    super::name_field(name) + sockaddr_v6(addr) + bytes::zeros(28) + sockaddr_v6(
        Ipv6Addr { bits: mask_bits(128, prefix_len as nat) as u128 },
    ) + bytes::le_bytes(IN6_IFF_NODAD as nat, 4) + bytes::zeros(16) + bytes::le_bytes(
        u32::MAX as nat,
        4,
    ) + bytes::le_bytes(u32::MAX as nat, 4)
}

/// The argument of [`SIOCAIFADDR`] that assigns an address.
pub fn add_address_v4(name: &str, addr: Ipv4Addr, prefix_len: u8) -> (r: Vec<u8>)
    requires
        prefix_len <= 32,
    ensures
        r@ == alias_v4(vstd::utf8::encode_utf8(name@), addr, prefix_len),
        r@.len() == 64,
{
    let mut r: Vec<u8> = fill_if_name(name);
    r.append(&mut v4_sockaddr(addr));
    r.append(&mut v4_sockaddr(addr));
    r.append(&mut v4_sockaddr(netmask_v4(prefix_len)));
    proof {
        bytes::lemma_be_bytes(addr.bits as nat, 4);
        bytes::lemma_be_bytes(mask_bits(32, prefix_len as nat) as u32 as nat, 4);
    }
    r
}

/// The argument of [`SIOCAIFADDR_IN6`] that assigns an address.
pub fn add_address_v6(name: &str, addr: Ipv6Addr, prefix_len: u8) -> (r: Vec<u8>)
    requires
        prefix_len <= 128,
    ensures
        r@ == alias_v6(vstd::utf8::encode_utf8(name@), addr, prefix_len),
        r@.len() == 128,
{
    let mut r: Vec<u8> = fill_if_name(name);
    r.append(&mut v6_sockaddr(addr));
    push_zeros(&mut r, 28);
    r.append(&mut v6_sockaddr(netmask_v6(prefix_len)));
    r.append(&mut octets_of_le(IN6_IFF_NODAD as u128, 4));
    push_zeros(&mut r, 16);
    r.append(&mut octets_of_le(u32::MAX as u128, 4));
    r.append(&mut octets_of_le(u32::MAX as u128, 4));
    proof {
        bytes::lemma_be_bytes(addr.bits as nat, 16);
        bytes::lemma_be_bytes(mask_bits(128, prefix_len as nat) as u128 as nat, 16);
        bytes::lemma_be_bytes(IN6_IFF_NODAD as nat, 4);
        bytes::lemma_be_bytes(u32::MAX as nat, 4);
    }
    r
}

/// The ioctl that assigns an address, and its argument.
pub fn add_address(name: &str, addr: IpAddr, prefix_len: u8) -> (r: (u64, Vec<u8>))
    requires
        prefix_len <= match addr {
            IpAddr::V4(_) => 32int,
            IpAddr::V6(_) => 128int,
        },
    ensures
        match addr {
            IpAddr::V4(v4) => r.0 == SIOCAIFADDR && r.1@ == alias_v4(
                vstd::utf8::encode_utf8(name@),
                v4,
                prefix_len,
            ),
            IpAddr::V6(v6) => r.0 == SIOCAIFADDR_IN6 && r.1@ == alias_v6(
                vstd::utf8::encode_utf8(name@),
                v6,
                prefix_len,
            ),
        },
{
    match addr {
        IpAddr::V4(v4) => (SIOCAIFADDR, add_address_v4(name, v4, prefix_len)),
        IpAddr::V6(v6) => (SIOCAIFADDR_IN6, add_address_v6(name, v6, prefix_len)),
    }
}

/// The argument of [`SIOCSIFMTU`]: the interface's name and the MTU.
pub fn set_link_mtu(name: &str, mtu: u16) -> (r: Vec<u8>)
    ensures
        r@ == super::name_field(vstd::utf8::encode_utf8(name@)) + bytes::le_bytes(mtu as nat, 4)
            + bytes::zeros(12),
        r@.len() == 32,
{
    let mut r: Vec<u8> = fill_if_name(name);
    r.append(&mut octets_of_le(mtu as u128, 4));
    push_zeros(&mut r, 12);
    proof {
        bytes::lemma_be_bytes(mtu as nat, 4);
    }
    r
}

/// The argument of [`SIOCGIFFLAGS`]: the interface's name, and room for its flags.
pub fn read_link_flags(name: &str) -> (r: Vec<u8>)
    ensures
        r@ == super::name_field(vstd::utf8::encode_utf8(name@)) + bytes::zeros(16),
        r@.len() == 32,
{
    let mut r: Vec<u8> = fill_if_name(name);
    push_zeros(&mut r, 16);
    r
}

/// The argument of [`SIOCSIFFLAGS`] that brings a link up, from what
/// [`SIOCGIFFLAGS`] filled in: the lowest bit of the flags is set, and all others
/// stay as they are.
pub fn link_up(flags: &[u8]) -> (r: Vec<u8>)
    requires
        flags@.len() == 32,
    ensures
        r@ == flags@.update(
            16,
            if flags@[16] % 2 == 0 {
                (flags@[16] + 1) as u8
            } else {
                flags@[16]
            },
        ),
        r@[16] % 2 == 1,
        r@[16] / 2 == flags@[16] / 2,
        forall|i: int| 0 <= i < 32 && i != 16 ==> #[trigger] r@[i] == flags@[i],
{
    let mut r: Vec<u8> = slice_to_vec(flags);
    if flags[16] % 2 == 0 {
        r.set(16, flags[16] + 1);
    }
    assert(r@ =~= flags@.update(
        16,
        if flags@[16] % 2 == 0 {
            (flags@[16] + 1) as u8
        } else {
            flags@[16]
        },
    ));
    r
}

// ── Socket pinning ──────────────────────────────────────────────────────────

/// The protocol level of IPv4.
pub const IPPROTO_IP: i32 = 0;

/// The protocol level of IPv6.
pub const IPPROTO_IPV6: i32 = 41;

/// Binds an IPv4 socket to an interface.
pub const IP_BOUND_IF: i32 = 25;

/// Binds an IPv6 socket to an interface.
pub const IPV6_BOUND_IF: i32 = 125;

/// The option that pins a socket for `dest` to an interface. Both families take the
/// index as it is, unlike on Windows.
pub fn pin_socket(index: u32, dest: IpAddr) -> (r: NumberOption)
    ensures
        r == match dest {
            IpAddr::V4(_) => NumberOption {
                level: IPPROTO_IP,
                option: IP_BOUND_IF,
                value: index,
            },
            IpAddr::V6(_) => NumberOption {
                level: IPPROTO_IPV6,
                option: IPV6_BOUND_IF,
                value: index,
            },
        },
        r.value == index,
        dest is V4 ==> r.level == 0 && r.option == 25,
        dest is V6 ==> r.level == 41 && r.option == 125,
{
    match dest {
        IpAddr::V4(_) => NumberOption { level: IPPROTO_IP, option: IP_BOUND_IF, value: index },
        IpAddr::V6(_) => NumberOption {
            level: IPPROTO_IPV6,
            option: IPV6_BOUND_IF,
            value: index,
        },
    }
}

// ── Opening the device ──────────────────────────────────────────────────────

/// One step of opening the device.
#[derive(Debug, Clone, Copy, PartialEq, Eq, Structural)]
pub enum OpenStep {
    /// Open a kernel control socket.
    Socket,
    /// Find the utun control by its name.
    FindControl,
    /// Connect to the control, which creates an interface with a free unit.
    Connect,
    /// Read the name of the interface.
    ReadName,
    /// Make the descriptor nonblocking.
    SetNonblocking,
    /// Find the index of the interface.
    FindIndex,
}

/// What follows a step of opening the device.
#[derive(Debug, Clone, Copy, PartialEq, Eq, Structural)]
pub enum OpenNext {
    /// Carry this step out.
    Do(OpenStep),
    /// Go on with [`open_named`] and the name that was read.
    Named,
    /// The device is open, as the interface with this index.
    Opened(u32),
}

/// What the interface's name begins with.
pub open spec fn unit_prefix() -> Seq<char> {
    seq!['u', 't', 'u', 'n']
}

/// What follows `step` when it returned `number`: the name that was read has to be
/// a utun interface's before anything follows it.
pub open spec fn following_step(step: OpenStep, number: u32) -> OpenNext {
    match step {
        OpenStep::Socket => OpenNext::Do(OpenStep::FindControl),
        OpenStep::FindControl => OpenNext::Do(OpenStep::Connect),
        OpenStep::Connect => OpenNext::Do(OpenStep::ReadName),
        OpenStep::ReadName => OpenNext::Named,
        OpenStep::SetNonblocking => OpenNext::Do(OpenStep::FindIndex),
        OpenStep::FindIndex => OpenNext::Opened(number),
    }
}

/// Whether `step` fails for want of privileges.
pub open spec fn needs_privileges(step: OpenStep) -> bool {
    step == OpenStep::Socket || step == OpenStep::Connect
}

/// What a step is called in errors.
pub open spec fn step_name(step: OpenStep) -> Seq<char> {
    match step {
        OpenStep::Socket => "socket(PF_SYSTEM)"@,
        OpenStep::FindControl => "CTLIOCGINFO"@,
        OpenStep::Connect => "connect(utun_control)"@,
        OpenStep::ReadName => "getsockopt(UTUN_OPT_IFNAME)"@,
        OpenStep::SetNonblocking => "fcntl(O_NONBLOCK)"@,
        OpenStep::FindIndex => "if_nametoindex"@,
    }
}

/// What follows `step`. A step that succeeded returned a number, which is the
/// interface's index for the last one.
pub fn open_next(step: OpenStep, outcome: Result<u32, IoFailure>) -> (r: Result<OpenNext, Error>)
    ensures
        r is Ok == outcome is Ok,
        r is Ok ==> r->Ok_0 == following_step(step, outcome->Ok_0),
        r is Err && needs_privileges(step) && outcome->Err_0.kind is PermissionDenied
            ==> r->Err_0 is NotElevated,
        r is Err && !(needs_privileges(step) && outcome->Err_0.kind is PermissionDenied) ==> (
        r->Err_0 matches Error::NetConfig { op, source } && op@ == step_name(step) && source
            == outcome->Err_0),
{
    match outcome {
        Ok(index) => Ok(
            match step {
                OpenStep::Socket => OpenNext::Do(OpenStep::FindControl),
                OpenStep::FindControl => OpenNext::Do(OpenStep::Connect),
                OpenStep::Connect => OpenNext::Do(OpenStep::ReadName),
                OpenStep::ReadName => OpenNext::Named,
                OpenStep::SetNonblocking => OpenNext::Do(OpenStep::FindIndex),
                OpenStep::FindIndex => OpenNext::Opened(index),
            },
        ),
        Err(source) => Err(
            match step {
                OpenStep::Socket => open_failure("socket(PF_SYSTEM)", source),
                OpenStep::FindControl => Error::netcfg("CTLIOCGINFO", source),
                OpenStep::Connect => open_failure("connect(utun_control)", source),
                OpenStep::ReadName => Error::netcfg("getsockopt(UTUN_OPT_IFNAME)", source),
                OpenStep::SetNonblocking => Error::netcfg("fcntl(O_NONBLOCK)", source),
                OpenStep::FindIndex => Error::netcfg("if_nametoindex", source),
            },
        ),
    }
}

/// Whether an error says that an interface is not a utun interface.
pub open spec fn is_unexpected_name(e: Error, name: Seq<char>) -> bool {
    e matches Error::NetConfig { op, source } && op@ == "UTUN_OPT_IFNAME"@ && source.kind
        == IoKind::InvalidData && source.code is None && source.message@
        == "unexpected utun interface name '"@ + name + "'"@
}

/// Checks the name of the interface that was created.
pub fn check_name(name: &str) -> (r: Result<(), Error>)
    ensures
        r is Ok <==> text::starts_with(name@, unit_prefix()),
        r is Err ==> is_unexpected_name(r->Err_0, name@),
{
    let chars: Vec<char> = chars_of(name);
    let prefix: [char; 4] = ['u', 't', 'u', 'n'];
    assert(prefix@ == unit_prefix());
    if has_prefix(&chars, &prefix) {
        return Ok(());
    }
    let mut line: Vec<char> = Vec::new();
    push_str(&mut line, "unexpected utun interface name '");
    push_str(&mut line, name);
    push_str(&mut line, "'");
    assert(line@ == "unexpected utun interface name '"@ + name@ + "'"@);
    let message: String = string_of(&line);
    Err(
        Error::netcfg(
            "UTUN_OPT_IFNAME",
            IoFailure { kind: IoKind::InvalidData, code: None, message },
        ),
    )
}

/// What follows once the name of the interface was read: the device is made
/// nonblocking, if it is a utun interface.
pub fn open_named(name: &str) -> (r: Result<OpenNext, Error>)
    ensures
        r is Ok <==> text::starts_with(name@, unit_prefix()),
        r is Ok ==> r->Ok_0 == OpenNext::Do(OpenStep::SetNonblocking),
        r is Err ==> is_unexpected_name(r->Err_0, name@),
{
    match check_name(name) {
        Ok(()) => Ok(OpenNext::Do(OpenStep::SetNonblocking)),
        Err(e) => Err(e),
    }
}

// ── The backend ─────────────────────────────────────────────────────────────

/// The macOS backend.
pub struct MacosBackend;

impl MacosBackend {
    /// The internet-facing interface, from the routes to the two probe addresses.
    pub fn discover_physical_interface(v4_route: Option<u32>, v6_route: Option<u32>) -> (r:
        PhysicalInterface)
        ensures
            r.v4_index == super::real_index(v4_route),
            r.v6_index == super::real_index(v6_route),
    {
        PhysicalInterface::discover(v4_route, v6_route)
    }

    /// Whether the process may create and run the tunnel: root may.
    pub fn is_privileged(euid: u32) -> (r: bool)
        ensures
            r == (euid == 0),
    {
        euid == 0
    }
}

/// Which process a flow belongs to.
///
/// An attribution asks what is remembered, and then the table of sockets.
pub struct MacosProcessTable {
    endpoints: EndpointCache,
}

impl MacosProcessTable {
    /// The owners that are remembered, by endpoint.
    pub closed spec fn owners(&self) -> Owners {
        self.endpoints@
    }

    /// A table that knows nothing.
    pub fn new() -> (r: MacosProcessTable)
        ensures
            r.owners() == Owners::empty(),
    {
        MacosProcessTable { endpoints: EndpointCache::new() }
    }

    /// The process that a flow's local endpoint belongs to, where that is
    /// remembered.
    pub fn resolve_pid(&self, local: SocketAddr, is_udp: bool, now: u64) -> (r: Option<u32>)
        ensures
            r == attribution::owner_at(
                self.owners(),
                Endpoint { ip: local.ip, port: local.port, is_udp },
                now,
            ),
    {
        self.endpoints.lookup(Endpoint { ip: local.ip, port: local.port, is_udp }, now)
    }

    /// The process that a flow belongs to by the table of sockets. It is
    /// remembered for the endpoint.
    pub fn resolve_scanned(
        &mut self,
        table: &[u8],
        local: SocketAddr,
        remote: SocketAddr,
        is_udp: bool,
        now: u64,
    ) -> (r: Option<u32>)
        ensures
            r == owner(table@, local, remote),
            final(self).owners() == match r {
                Some(pid) => old(self).owners().insert(
                    Endpoint { ip: local.ip, port: local.port, is_udp },
                    Owner { pid, resolved: now },
                ),
                None => old(self).owners(),
            },
    {
        let pid = scan_pcblist(table, local, remote);
        if let Some(pid) = pid {
            self.endpoints.remember(
                Endpoint { ip: local.ip, port: local.port, is_udp },
                pid,
                now,
            );
        }
        pid
    }

    /// What a process is called, from the field that holds its short name.
    pub fn process_name(field: &[u8]) -> (r: Option<String>)
        ensures
            crate::config::optional_text(r) == comm_text(field@),
    {
        comm_name(field)
    }
}

// ── Laws on what is read and written ────────────────────────────────────────

/// How specifically a socket matches a flow: 3 where it is bound to the flow's
/// local address and connected to its peer, 2 where it is bound there and not
/// connected, 1 where it is bound to no address, connected to the peer or not at
/// all; a socket bound elsewhere does not match.
pub proof fn law_specificity_ranks_the_binds(
    laddr: IpAddr,
    faddr: IpAddr,
    fport: u16,
    local: SocketAddr,
    remote: SocketAddr,
)
    requires
        !local.ip.unspecified(),
    ensures
        ({
            let found = specificity(laddr, faddr, fport as nat, local, remote);
            let open = fport == 0 || faddr.unspecified();
            let peer = !open && faddr == remote.ip && fport == remote.port;
            &&& laddr == local.ip && peer ==> found == Some(3u8)
            &&& laddr == local.ip && open ==> found == Some(2u8)
            &&& laddr.unspecified() && (open || peer) ==> found == Some(1u8)
            &&& !open && !peer ==> found is None
            &&& laddr != local.ip && !laddr.unspecified() ==> found is None
        }),
{
}

/// Of equally specific candidates the first owns the flow.
pub proof fn law_first_of_equals_wins(list: Seq<Candidate>, i: int)
    requires
        0 <= i < list.len(),
        forall|j: int| 0 <= j < i ==> (#[trigger] list[j]).specificity < list[i].specificity,
        forall|j: int| i < j < list.len() ==> (#[trigger] list[j]).specificity
            <= list[i].specificity,
    ensures
        most_specific(list) == Some(list[i]),
    decreases list.len(),
{
    let front = list.drop_last();
    if i < list.len() - 1 {
        assert forall|j: int| 0 <= j < i implies (#[trigger] front[j]).specificity
            < front[i].specificity by {
            assert(front[j] == list[j]);
        }
        assert forall|j: int| i < j < front.len() implies (#[trigger] front[j]).specificity
            <= front[i].specificity by {
            assert(front[j] == list[j]);
        }
        law_first_of_equals_wins(front, i);
        assert(list[list.len() - 1].specificity <= list[i].specificity);
    } else if front.len() > 0 {
        law_most_specific_candidate_wins(front);
        let best = most_specific(front)->Some_0;
        let j = choose|j: int| 0 <= j < front.len() && front[j] == best;
        assert(list[j] == best);
    }
}

/// The number that two octets write.
proof fn lemma_two_octets(s: Seq<u8>)
    requires
        s.len() == 2,
    ensures
        bytes::be_value(s) == s[0] * 256 + s[1],
{
    reveal_with_fuel(bytes::be_value, 3);
    assert(s.drop_last().drop_last() =~= Seq::<u8>::empty());
}

/// The number that four octets write, lowest first.
proof fn lemma_four_octets(s: Seq<u8>)
    requires
        s.len() == 4,
    ensures
        bytes::le_value(s) == s[0] + s[1] * 0x100 + s[2] * 0x1_0000 + s[3] * 0x100_0000,
{
    let r = s.reverse();
    reveal_with_fuel(bytes::be_value, 5);
    assert(r =~= seq![s[3], s[2], s[1], s[0]]);
    assert(r.drop_last() =~= seq![s[3], s[2], s[1]]);
    assert(r.drop_last().drop_last() =~= seq![s[3], s[2]]);
    assert(r.drop_last().drop_last().drop_last() =~= seq![s[3]]);
    assert(seq![s[3]].drop_last() =~= Seq::<u8>::empty());
}

/// A number in a table is written with its lowest octet first, a port with its
/// highest.
pub proof fn law_fields_are_read_in_their_order(record: Seq<u8>, offset: int)
    requires
        0 <= offset,
        offset + 4 <= record.len(),
    ensures
        u32_le_at(record, offset) == Some(
            (record[offset] + record[offset + 1] * 0x100 + record[offset + 2] * 0x1_0000
                + record[offset + 3] * 0x100_0000) as nat,
        ),
        u16_be_at(record, offset) == Some((record[offset] * 256 + record[offset + 1]) as nat),
        record[offset + 3] < 128 ==> i32_le_at(record, offset) == Some(
            record[offset] + record[offset + 1] * 0x100 + record[offset + 2] * 0x1_0000
                + record[offset + 3] * 0x100_0000,
        ),
        record[offset + 3] >= 128 ==> (i32_le_at(record, offset) matches Some(n) && n < 0),
{
    lemma_four_octets(record.subrange(offset, offset + 4));
    lemma_two_octets(record.subrange(offset, offset + 2));
}

/// An address in a table is that of the octets in its slot: all sixteen for IPv6,
/// the last four for IPv4.
pub proof fn law_address_is_read_from_its_slot(record: Seq<u8>, offset: int)
    requires
        0 <= offset,
        offset + 16 <= record.len(),
    ensures
        address_at(record, offset, true) matches Some(ip) && ip is V6 && ip.octets_spec()
            == record.subrange(offset, offset + 16),
        address_at(record, offset, false) matches Some(ip) && ip is V4 && ip.octets_spec()
            == record.subrange(offset + 12, offset + 16),
{
    let wide = record.subrange(offset, offset + 16);
    let short = record.subrange(offset + 12, offset + 16);
    reveal_with_fuel(bytes::be_limit, 17);
    bytes::lemma_be_value_bytes(wide);
    bytes::lemma_be_value_bound(wide);
    bytes::lemma_be_value_bytes(short);
    bytes::lemma_be_value_bound(short);
}

/// A pair of records is a candidate where the socket is of the flow's family, has
/// the flow's local port and a process, and its bind and peer match: the octets of
/// the records say which.
pub proof fn law_candidate_by_its_octets(
    inpcb: Seq<u8>,
    socket: Seq<u8>,
    local: SocketAddr,
    remote: SocketAddr,
    laddr: IpAddr,
    faddr: IpAddr,
)
    requires
        inpcb.len() >= 80,
        socket.len() >= 72,
        laddr is V6 == local.ip is V6,
        faddr is V6 == local.ip is V6,
        local.ip is V6 ==> inpcb.subrange(64, 80) == laddr.octets_spec() && inpcb.subrange(48, 64)
            == faddr.octets_spec(),
        local.ip is V4 ==> inpcb.subrange(76, 80) == laddr.octets_spec() && inpcb.subrange(60, 64)
            == faddr.octets_spec(),
    ensures
        ({
            let pid = socket[68] + socket[69] * 0x100 + socket[70] * 0x1_0000 + socket[71]
                * 0x100_0000;
            let fport = inpcb[16] * 256 + inpcb[17];
            let found = specificity(laddr, faddr, fport as nat, local, remote);
            let owned = (inpcb[44] / 2 % 2 == 1 <==> local.ip is V6) && inpcb[18] * 256 + inpcb[19]
                == local.port && 0 < pid < 0x8000_0000 && found is Some;
            &&& candidate(inpcb, socket, local, remote) is Some <==> owned
            &&& owned ==> candidate(inpcb, socket, local, remote) == Some(
                Candidate { pid: pid as u32, specificity: found->Some_0 },
            )
        }),
{
    law_fields_are_read_in_their_order(socket, 68);
    law_fields_are_read_in_their_order(inpcb, 16);
    law_fields_are_read_in_their_order(inpcb, 18);
    law_address_is_read_from_its_slot(inpcb, 64);
    law_address_is_read_from_its_slot(inpcb, 48);
    let v6 = local.ip is V6;
    crate::addr::law_octets_identify_address(laddr, address_at(inpcb, 64, v6)->Some_0);
    crate::addr::law_octets_identify_address(faddr, address_at(inpcb, 48, v6)->Some_0);
}

/// A control block record and the socket record behind it.
pub struct RecordPair {
    /// The control block record.
    pub inpcb: Seq<u8>,
    /// The socket record.
    pub socket: Seq<u8>,
}

/// Whether a record begins with its own length, lowest octet first.
pub open spec fn tells_its_length(record: Seq<u8>) -> bool {
    record.len() >= 4 && record.len() == record[0] + record[1] * 0x100 + record[2] * 0x1_0000
        + record[3] * 0x100_0000
}

impl RecordPair {
    /// Whether the records are complete.
    pub open spec fn is_complete(self) -> bool {
        tells_its_length(self.inpcb) && self.inpcb.len() >= 80 && tells_its_length(self.socket)
            && self.socket.len() >= 72
    }
}

/// The octets of some pairs of records.
pub open spec fn pairs_octets(pairs: Seq<RecordPair>) -> Seq<u8>
    decreases pairs.len(),
{
    if pairs.len() == 0 {
        Seq::empty()
    } else {
        pairs[0].inpcb + pairs[0].socket + pairs_octets(pairs.drop_first())
    }
}

/// The candidates among some pairs of records, in order.
pub open spec fn candidates_of(
    pairs: Seq<RecordPair>,
    local: SocketAddr,
    remote: SocketAddr,
) -> Seq<Candidate>
    decreases pairs.len(),
{
    if pairs.len() == 0 {
        Seq::empty()
    } else {
        let rest = candidates_of(pairs.drop_first(), local, remote);
        match candidate(pairs[0].inpcb, pairs[0].socket, local, remote) {
            Some(c) => seq![c] + rest,
            None => rest,
        }
    }
}

/// Every pair of records behind the header of a table is looked at, in order, and
/// the most specific candidate among them owns the flow. What follows the last
/// pair and is too short for another record says nothing.
pub proof fn law_every_record_pair_is_looked_at(
    header: Seq<u8>,
    pairs: Seq<RecordPair>,
    tail: Seq<u8>,
    local: SocketAddr,
    remote: SocketAddr,
)
    requires
        tells_its_length(header),
        header.len() >= 24,
        forall|i: int| 0 <= i < pairs.len() ==> (#[trigger] pairs[i]).is_complete(),
        tail.len() < 4,
    ensures
        owner(header + pairs_octets(pairs) + tail, local, remote) == match most_specific(
            candidates_of(pairs, local, remote),
        ) {
            Some(c) => Some(c.pid),
            None => None,
        },
{
    let table = header + pairs_octets(pairs) + tail;
    law_fields_are_read_in_their_order(table, 0);
    assert(table[0] == header[0] && table[1] == header[1] && table[2] == header[2] && table[3]
        == header[3]);
    assert(table.skip(header.len() as int) =~= pairs_octets(pairs) + tail);
    lemma_pairs_are_walked(table, header.len() as int, pairs, tail, local, remote);
}

proof fn lemma_pairs_are_walked(
    table: Seq<u8>,
    offset: int,
    pairs: Seq<RecordPair>,
    tail: Seq<u8>,
    local: SocketAddr,
    remote: SocketAddr,
)
    requires
        0 <= offset <= table.len(),
        table.skip(offset) == pairs_octets(pairs) + tail,
        forall|i: int| 0 <= i < pairs.len() ==> (#[trigger] pairs[i]).is_complete(),
        tail.len() < 4,
    ensures
        candidates(table, offset, local, remote) == candidates_of(pairs, local, remote),
    decreases pairs.len(),
{
    let here = table.skip(offset);
    if pairs.len() == 0 {
        assert(here =~= tail);
        assert(table.len() - offset < 4);
        assert(record_pair(table, offset) is None);
        assert(candidates(table, offset, local, remote) =~= Seq::<Candidate>::empty());
    } else {
        let pair = pairs[0];
        let rest = pairs.drop_first();
        assert(pair.is_complete());
        let mid = offset + pair.inpcb.len();
        let end = mid + pair.socket.len();
        assert(here == pair.inpcb + pair.socket + pairs_octets(rest) + tail);
        assert(here.len() == table.len() - offset);
        assert forall|i: int| 0 <= i < pair.inpcb.len() implies table[offset + i]
            == pair.inpcb[i] by {
            assert(here[i] == table[offset + i]);
        }
        assert forall|i: int| 0 <= i < pair.socket.len() implies table[mid + i]
            == pair.socket[i] by {
            assert(here[pair.inpcb.len() + i] == table[mid + i]);
        }
        assert(table.subrange(offset, mid) =~= pair.inpcb);
        assert(table.subrange(mid, end) =~= pair.socket);
        law_fields_are_read_in_their_order(table, offset);
        law_fields_are_read_in_their_order(table, mid);
        assert(table[offset] == pair.inpcb[0] && table[offset + 1] == pair.inpcb[1] && table[offset
            + 2] == pair.inpcb[2] && table[offset + 3] == pair.inpcb[3]) by {
            assert(table[offset + 0] == pair.inpcb[0]);
        }
        assert(table[mid] == pair.socket[0] && table[mid + 1] == pair.socket[1] && table[mid + 2]
            == pair.socket[2] && table[mid + 3] == pair.socket[3]) by {
            assert(table[mid + 0] == pair.socket[0]);
        }
        assert(record_pair(table, offset) == Some((mid, end)));
        assert(table.skip(end) =~= pairs_octets(rest) + tail) by {
            assert forall|i: int| 0 <= i < table.len() - end implies table[end + i] == (
            pairs_octets(rest) + tail)[i] by {
                assert(here[end - offset + i] == table[end + i]);
            }
        }
        assert forall|i: int| 0 <= i < rest.len() implies (#[trigger] rest[i]).is_complete() by {
            assert(rest[i] == pairs[i + 1]);
        }
        lemma_pairs_are_walked(table, end, rest, tail, local, remote);
    }
}

/// The name of a process ends at the first zero octet, whatever follows it; white
/// space around it is cut off.
pub proof fn law_name_ends_at_the_first_zero(
    pre: Seq<char>,
    name: Seq<char>,
    post: Seq<char>,
    rest: Seq<u8>,
)
    requires
        vstd::utf8::is_ascii_chars(pre + name + post),
        !(pre + name + post).contains('\0'),
        text::is_blank(pre),
        text::is_blank(post),
        name.len() > 0,
        !text::is_space(name[0]),
        !text::is_space(name.last()),
        rest.len() > 0 ==> rest[0] == 0,
    ensures
        comm_text(vstd::utf8::encode_utf8(pre + name + post) + rest) == Some(name),
{
    let s = pre + name + post;
    let octets = vstd::utf8::encode_utf8(s);
    let field = octets + rest;
    vstd::utf8::is_ascii_chars_encode_utf8(s);
    vstd::utf8::encode_utf8_valid_utf8(s);
    vstd::utf8::encode_utf8_decode_utf8(s);
    assert forall|i: int| 0 <= i < octets.len() implies field[i] != 0 by {
        assert(s.contains(s[i]));
        assert(octets[i] as char == s[i]);
    }
    if rest.len() > 0 {
        assert(field[octets.len() as int] == rest[0]);
    }
    lemma_nul_position(field, octets.len() as int);
    assert(field.take(octets.len() as int) =~= octets);
    text::law_trim_cuts_blanks_only(pre, name, post);
}

/// A netmask grows from nothing by one bit at a time, the highest first.
pub proof fn law_netmask_grows_by_the_next_bit(width: nat, prefix_len: nat)
    requires
        prefix_len < width,
    ensures
        mask_bits(width, 0) == 0,
        mask_bits(width, prefix_len + 1) - mask_bits(width, prefix_len)
            == vstd::arithmetic::power2::pow2((width - prefix_len - 1) as nat),
{
    vstd::arithmetic::power2::lemma_pow2_unfold((width - prefix_len) as nat);
}

/// A network is written as its address, a slash and its prefix length, each of
/// which reads back.
pub proof fn law_network_text_reads_back(dest: IpAddr, prefix_len: u8) -> (parts: (
    Seq<char>,
    Seq<char>,
))
    ensures
        network_text(dest, prefix_len) == parts.0.push('/') + parts.1,
        addr_text::ip_text(parts.0) == Some(dest),
        text::unsigned_value(parts.1, 255) == Some(prefix_len as nat),
{
    let len = text::decimal(prefix_len as nat);
    addr_text::law_ip_text_round_trip(dest);
    text::lemma_decimal_reads_back(prefix_len as nat);
    assert(text::is_digit(len[0]));
    (addr_text::write_ip(dest), len)
}

/// The output of a command says something wherever it stands and in whatever
/// letter case.
pub proof fn law_output_says_it_in_any_case(
    pre: Seq<char>,
    spelling: Seq<char>,
    post: Seq<char>,
    what: Seq<char>,
)
    requires
        text::lowered(spelling) == what,
    ensures
        says(pre + spelling + post, what),
{
    let whole = pre + spelling + post;
    let low = text::lowered(whole);
    let n = pre.len() as int;
    assert(low.subrange(n, n + what.len()) =~= what) by {
        assert forall|i: int| 0 <= i < what.len() implies low[n + i] == what[i] by {
            assert(whole[n + i] == spelling[i]);
            assert(low[n + i] == text::ascii_lower(whole[n + i]));
            assert(text::lowered(spelling)[i] == text::ascii_lower(spelling[i]));
        }
    }
    assert(text::stands_at(low, what, n));
}

/// The interface is named by the first line that begins with `interface:`, white
/// space aside: it is what follows.
pub proof fn law_first_interface_line_counts(
    before: Seq<Seq<char>>,
    blanks: (Seq<char>, Seq<char>, Seq<char>),
    name: Seq<char>,
    after: Seq<Seq<char>>,
)
    requires
        forall|i: int|
            0 <= i < before.len() ==> !text::starts_with(
                text::trim(#[trigger] before[i]),
                "interface:"@,
            ),
        text::is_blank(blanks.0),
        text::is_blank(blanks.1),
        text::is_blank(blanks.2),
        name.len() > 0,
        !text::is_space(name[0]),
        !text::is_space(name.last()),
    ensures
        named_interface(
            before + seq![blanks.0 + ("interface:"@ + blanks.1 + name) + blanks.2] + after,
        ) == Some(name),
    decreases before.len(),
{
    reveal_strlit("interface:");
    let line = blanks.0 + ("interface:"@ + blanks.1 + name) + blanks.2;
    let lines = before + seq![line] + after;
    assert("interface:"@ =~= interface_label());
    if before.len() == 0 {
        let inner = "interface:"@ + blanks.1 + name;
        assert(inner.last() == name.last());
        assert(inner[0] == 'i');
        text::law_trim_cuts_blanks_only(blanks.0, inner, blanks.2);
        assert(lines[0] == line);
        assert(inner.take(10) =~= interface_label());
        let none = Seq::<char>::empty();
        assert(inner.skip(10) =~= blanks.1 + name + none);
        text::law_trim_cuts_blanks_only(blanks.1, name, none);
    } else {
        let rest = before.drop_first();
        assert(lines[0] == before[0]);
        assert(lines.drop_first() =~= rest + seq![line] + after);
        assert forall|i: int| 0 <= i < rest.len() implies !text::starts_with(
            text::trim(#[trigger] rest[i]),
            "interface:"@,
        ) by {
            assert(rest[i] == before[i + 1]);
        }
        law_first_interface_line_counts(rest, blanks, name, after);
    }
}

/// A socket address tells its length and its family (2 or 30) and holds its
/// address: at the third octet for IPv4, at the ninth for IPv6; the rest is zero.
pub proof fn law_sockaddr_holds_the_address(v4: Ipv4Addr, v6: Ipv6Addr)
    ensures
        sockaddr_v4(v4).len() == 16,
        sockaddr_v4(v4)[0] == 16,
        sockaddr_v4(v4)[1] == 2,
        sockaddr_v4(v4).subrange(2, 6) == v4.octets_spec(),
        sockaddr_v4(v4).skip(6) == bytes::zeros(10),
        sockaddr_v6(v6).len() == 28,
        sockaddr_v6(v6)[0] == 28,
        sockaddr_v6(v6)[1] == 30,
        sockaddr_v6(v6).subrange(2, 8) == bytes::zeros(6),
        sockaddr_v6(v6).subrange(8, 24) == v6.octets_spec(),
        sockaddr_v6(v6).skip(24) == bytes::zeros(4),
{
    bytes::lemma_be_bytes(v4.bits as nat, 4);
    bytes::lemma_be_bytes(v6.bits as nat, 16);
    assert(sockaddr_v4(v4).subrange(2, 6) =~= v4.octets_spec());
    assert(sockaddr_v4(v4).skip(6) =~= bytes::zeros(10));
    assert(sockaddr_v6(v6).subrange(2, 8) =~= bytes::zeros(6));
    assert(sockaddr_v6(v6).subrange(8, 24) =~= v6.octets_spec());
    assert(sockaddr_v6(v6).skip(24) =~= bytes::zeros(4));
}

/// A request that assigns an address holds the interface's name, the address, and
/// the mask of the prefix length.
pub proof fn law_alias_holds_name_address_and_mask(
    name: Seq<u8>,
    v4: Ipv4Addr,
    v6: Ipv6Addr,
    prefix_len: u8,
)
    ensures
        ({
            let mask = Ipv4Addr { bits: mask_bits(32, prefix_len as nat) as u32 };
            let r = alias_v4(name, v4, prefix_len);
            &&& r.len() == 64
            &&& r.take(16) == super::name_field(name)
            &&& r.subrange(16, 32) == sockaddr_v4(v4)
            &&& r.subrange(32, 48) == sockaddr_v4(v4)
            &&& r.skip(48) == sockaddr_v4(mask)
        }),
        ({
            let mask = Ipv6Addr { bits: mask_bits(128, prefix_len as nat) as u128 };
            let r = alias_v6(name, v6, prefix_len);
            &&& r.len() == 128
            &&& r.take(16) == super::name_field(name)
            &&& r.subrange(16, 44) == sockaddr_v6(v6)
            &&& r.subrange(44, 72) == bytes::zeros(28)
            &&& r.subrange(72, 100) == sockaddr_v6(mask)
            &&& bytes::le_value(r.subrange(100, 104)) == 0x20
        }),
{
    let mask4 = Ipv4Addr { bits: mask_bits(32, prefix_len as nat) as u32 };
    let mask6 = Ipv6Addr { bits: mask_bits(128, prefix_len as nat) as u128 };
    law_sockaddr_holds_the_address(v4, v6);
    law_sockaddr_holds_the_address(mask4, mask6);
    let r = alias_v4(name, v4, prefix_len);
    assert(r.take(16) =~= super::name_field(name));
    assert(r.subrange(16, 32) =~= sockaddr_v4(v4));
    assert(r.subrange(32, 48) =~= sockaddr_v4(v4));
    assert(r.skip(48) =~= sockaddr_v4(mask4));
    bytes::lemma_be_bytes(0x20, 4);
    bytes::lemma_be_bytes(u32::MAX as nat, 4);
    reveal_with_fuel(bytes::be_limit, 5);
    bytes::lemma_be_bytes_value(0x20, 4);
    let q = alias_v6(name, v6, prefix_len);
    assert(q.take(16) =~= super::name_field(name));
    assert(q.subrange(16, 44) =~= sockaddr_v6(v6));
    assert(q.subrange(44, 72) =~= bytes::zeros(28));
    assert(q.subrange(72, 100) =~= sockaddr_v6(mask6));
    assert(q.subrange(100, 104) =~= bytes::le_bytes(0x20, 4));
    assert(bytes::be_bytes(0x20, 4).reverse().reverse() =~= bytes::be_bytes(0x20, 4));
}

/// The error of a failed `route` command tells the verb and what the command said,
/// without the white space around it.
pub proof fn law_route_error_tells_what_was_said(
    verb: Seq<char>,
    pre: Seq<char>,
    said: Seq<char>,
    post: Seq<char>,
    e: IoFailure,
)
    requires
        is_route_error(verb, pre + said + post, e),
        text::is_blank(pre),
        text::is_blank(post),
        said.len() > 0 ==> !text::is_space(said[0]) && !text::is_space(said.last()),
    ensures
        e.message@ == "route "@ + verb + " failed: "@ + said,
        e.kind == IoKind::Other,
{
    text::law_trim_cuts_blanks_only(pre, said, post);
}

/// The interfaces that are accepted are those whose names begin with `utun`.
pub proof fn law_utun_names_begin_with_utun(name: Seq<char>, rest: Seq<char>)
    ensures
        text::starts_with("utun"@ + rest, unit_prefix()),
        text::starts_with(name, unit_prefix()) ==> name.len() >= 4 && name.take(4) == "utun"@,
{
    reveal_strlit("utun");
    assert("utun"@ =~= unit_prefix());
    assert(("utun"@ + rest).take(4) =~= unit_prefix());
}

/// The walk ends at a control block record that is shorter than its fields or longer
/// than what is left of the table.
pub proof fn law_incomplete_record_ends_the_walk(
    table: Seq<u8>,
    offset: int,
    local: SocketAddr,
    remote: SocketAddr,
)
    requires
        0 <= offset,
        offset + 4 <= table.len(),
        ({
            let len = table[offset] + table[offset + 1] * 0x100 + table[offset + 2] * 0x1_0000
                + table[offset + 3] * 0x100_0000;
            len < 80 || offset + len > table.len()
        }),
    ensures
        candidates(table, offset, local, remote).len() == 0,
{
    law_fields_are_read_in_their_order(table, offset);
}

} // verus!
