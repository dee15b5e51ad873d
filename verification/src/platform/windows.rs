//! Windows: process attribution from the owner-PID tables, socket pinning and
//! loading the driver library.

use vstd::prelude::*;
use vstd::slice::slice_subrange;

use super::{NumberOption, PhysicalInterface};
use crate::addr::{IpAddr, Ipv4Addr, Ipv6Addr, SocketAddr};
use crate::bytes;
use crate::bytes::{push_zeros, u32_of_be};
use crate::text::{chars_of, string_of};

verus! {

/// Adapter name shown in the network connections list.
pub const ADAPTER_NAME: &'static str = "Ace Blocker";

/// Tunnel type that appears in the driver's logs.
pub const TUNNEL_TYPE: &'static str = "AceBlocker";

/// Interface metric forced onto the tunnel. Lower wins, and a physical
/// interface typically has 5 to 35.
pub const TUN_METRIC: u32 = 1;

/// Size of the driver's ring buffer, in bytes.
pub const RING_CAPACITY: u32 = 0x40_0000;

/// How often loading the driver library beside the executable is tried.
pub const LOAD_RETRY_ATTEMPTS: u32 = 5;

/// How long to wait after each such try, in milliseconds.
pub const LOAD_RETRY_DELAY_MS: u64 = 800;

// ── Socket pinning ──────────────────────────────────────────────────────────

/// A 32-bit number with its octets in the opposite order.
pub open spec fn swapped(x: u32) -> nat {
    let (a, b, c, d) = (x / 0x100_0000, x / 0x1_0000 % 256, x / 256 % 256, x % 256);
    (d * 0x100_0000 + c * 0x1_0000 + b * 256 + a) as nat
}

/// Encodes an interface index for the `*_UNICAST_IF` socket options: network
/// byte order for IPv4, host byte order for IPv6. The host is little-endian.
pub fn unicast_if_value(index: u32, is_ipv6: bool) -> (r: u32)
    ensures
        r == if is_ipv6 {
            index as nat
        } else {
            swapped(index)
        },
{
    if is_ipv6 {
        index
    } else {
        let (a, b, c, d) = (
            index / 0x100_0000,
            index / 0x1_0000 % 256,
            index / 256 % 256,
            index % 256,
        );
        d * 0x100_0000 + c * 0x1_0000 + b * 256 + a
    }
}

/// Encoding an IPv4 index twice gives it back.
pub proof fn law_network_order_is_its_own_inverse(index: u32)
    ensures
        swapped(index) <= u32::MAX,
        swapped(swapped(index) as u32) == index,
{
    let (a, b, c, d) = (
        index as int / 0x100_0000,
        index as int / 0x1_0000 % 256,
        index as int / 256 % 256,
        index as int % 256,
    );
    lemma_octets(a, b, c, d);
    lemma_octets(d, c, b, a);
}

proof fn lemma_octets(a: int, b: int, c: int, d: int)
    requires
        0 <= a < 256,
        0 <= b < 256,
        0 <= c < 256,
        0 <= d < 256,
    ensures
        ({
            let x = a * 0x100_0000 + b * 0x1_0000 + c * 256 + d;
            x <= u32::MAX && x / 0x100_0000 == a && x / 0x1_0000 % 256 == b && x / 256 % 256 == c
                && x % 256 == d
        }),
{
    let x = a * 0x100_0000 + b * 0x1_0000 + c * 256 + d;
    assert(x / 256 == a * 0x1_0000 + b * 256 + c);
    assert(x / 0x1_0000 == a * 256 + b);
}

/// The protocol level of IPv4.
pub const IPPROTO_IP: i32 = 0;

/// The protocol level of IPv6.
pub const IPPROTO_IPV6: i32 = 41;

/// Sends a socket's IPv4 packets out of an interface.
pub const IP_UNICAST_IF: i32 = 31;

/// Sends a socket's IPv6 packets out of an interface.
pub const IPV6_UNICAST_IF: i32 = 31;

/// The option that pins a socket for `dest` to an interface.
pub fn pin_socket(index: u32, dest: IpAddr) -> (r: NumberOption)
    ensures
        r == match dest {
            IpAddr::V4(_) => NumberOption {
                level: IPPROTO_IP,
                option: IP_UNICAST_IF,
                value: swapped(index) as u32,
            },
            IpAddr::V6(_) => NumberOption {
                level: IPPROTO_IPV6,
                option: IPV6_UNICAST_IF,
                value: index,
            },
        },
        dest is V4 ==> r.level == 0 && r.option == 31 && swapped(r.value) == index,
        dest is V6 ==> r.level == 41 && r.option == 31 && r.value == index,
{
    proof {
        law_network_order_is_its_own_inverse(index);
    }
    let value = unicast_if_value(index, dest.is_ipv6());
    match dest {
        IpAddr::V4(_) => NumberOption { level: IPPROTO_IP, option: IP_UNICAST_IF, value },
        IpAddr::V6(_) => NumberOption { level: IPPROTO_IPV6, option: IPV6_UNICAST_IF, value },
    }
}

// ── Process attribution ─────────────────────────────────────────────────────

/// The port in a table field: its low 16 bits, in network byte order.
pub open spec fn field_port(field: u32) -> nat {
    (field % 256 * 256 + field / 256 % 256) as nat
}

/// The port in a table field.
pub fn table_port_to_host(field: u32) -> (r: u16)
    ensures
        r == field_port(field),
{
    (field % 256 * 256 + field / 256 % 256) as u16
}

/// An IPv4 address as the tables store it: its octets in memory order, read as
/// a little-endian number.
pub fn ipv4_table_key(ip: Ipv4Addr) -> (r: u32)
    ensures
        r == bytes::le_value(ip.octets_spec()),
{
    let o: [u8; 4] = ip.octets();
    assert(ip.octets_spec().reverse() == seq![o@[3], o@[2], o@[1], o@[0]]);
    u32_of_be(o[3], o[2], o[1], o[0])
}

/// A row of an IPv4 table.
#[derive(Debug, Clone, Copy, PartialEq, Eq, Structural)]
pub struct RowV4 {
    /// Local address, as the table stores it.
    pub local_addr: u32,
    /// Local port, as the table stores it.
    pub local_port: u32,
    /// The owning process.
    pub owning_pid: u32,
}

/// A row of an IPv6 table.
#[derive(Debug, Clone, Copy, PartialEq, Eq, Structural)]
pub struct RowV6 {
    /// Local address, as the number that its octets write.
    pub local_addr: u128,
    /// Local port, as the table stores it.
    pub local_port: u32,
    /// The owning process.
    pub owning_pid: u32,
}

/// The owner in the first row with the address `key` and the port `port`.
pub open spec fn owner_v4(rows: Seq<RowV4>, key: u32, port: u16) -> Option<u32>
    decreases rows.len(),
{
    if rows.len() == 0 {
        None
    } else if rows[0].local_addr == key && field_port(rows[0].local_port) == port {
        Some(rows[0].owning_pid)
    } else {
        owner_v4(rows.drop_first(), key, port)
    }
}

/// The owner in the first row with the address `addr` and the port `port`.
pub open spec fn owner_v6(rows: Seq<RowV6>, addr: u128, port: u16) -> Option<u32>
    decreases rows.len(),
{
    if rows.len() == 0 {
        None
    } else if rows[0].local_addr == addr && field_port(rows[0].local_port) == port {
        Some(rows[0].owning_pid)
    } else {
        owner_v6(rows.drop_first(), addr, port)
    }
}

/// `first`, or else `second`.
pub open spec fn or_else(first: Option<u32>, second: Option<u32>) -> Option<u32> {
    match first {
        Some(pid) => Some(pid),
        None => second,
    }
}

/// The owner of a UDP endpoint: an exact bind before a wildcard bind.
pub open spec fn udp_owner_v4(rows: Seq<RowV4>, key: u32, port: u16) -> Option<u32> {
    or_else(owner_v4(rows, key, port), owner_v4(rows, 0, port))
}

/// The owner of a UDP endpoint: an exact bind before a wildcard bind.
pub open spec fn udp_owner_v6(rows: Seq<RowV6>, addr: u128, port: u16) -> Option<u32> {
    or_else(owner_v6(rows, addr, port), owner_v6(rows, 0, port))
}

fn find_v4(rows: &[RowV4], key: u32, port: u16) -> (r: Option<u32>)
    ensures
        r == owner_v4(rows@, key, port),
{
    let mut i: usize = 0;
    assert(rows@.skip(0) == rows@);
    while i < rows.len()
        invariant
            i <= rows.len(),
            owner_v4(rows@, key, port) == owner_v4(rows@.skip(i as int), key, port),
        decreases rows.len() - i,
    {
        assert(rows@.skip(i as int)[0] == rows@[i as int]);
        assert(rows@.skip(i as int).drop_first() == rows@.skip(i + 1));
        if rows[i].local_addr == key && table_port_to_host(rows[i].local_port) == port {
            return Some(rows[i].owning_pid);
        }
        i = i + 1;
    }
    None
}

fn find_v6(rows: &[RowV6], addr: u128, port: u16) -> (r: Option<u32>)
    ensures
        r == owner_v6(rows@, addr, port),
{
    let mut i: usize = 0;
    assert(rows@.skip(0) == rows@);
    while i < rows.len()
        invariant
            i <= rows.len(),
            owner_v6(rows@, addr, port) == owner_v6(rows@.skip(i as int), addr, port),
        decreases rows.len() - i,
    {
        assert(rows@.skip(i as int)[0] == rows@[i as int]);
        assert(rows@.skip(i as int).drop_first() == rows@.skip(i + 1));
        if rows[i].local_addr == addr && table_port_to_host(rows[i].local_port) == port {
            return Some(rows[i].owning_pid);
        }
        i = i + 1;
    }
    None
}

/// The owner of an IPv4 TCP endpoint.
pub fn resolve_pid_tcp_v4(rows: &[RowV4], ip: Ipv4Addr, port: u16) -> (r: Option<u32>)
    ensures
        r == owner_v4(rows@, bytes::le_value(ip.octets_spec()) as u32, port),
{
    find_v4(rows, ipv4_table_key(ip), port)
}

/// The owner of an IPv4 UDP endpoint: an exact bind before a wildcard bind.
pub fn resolve_pid_udp_v4(rows: &[RowV4], ip: Ipv4Addr, port: u16) -> (r: Option<u32>)
    ensures
        r == udp_owner_v4(rows@, bytes::le_value(ip.octets_spec()) as u32, port),
{
    match find_v4(rows, ipv4_table_key(ip), port) {
        Some(pid) => Some(pid),
        None => find_v4(rows, 0, port),
    }
}

/// The owner of an IPv6 TCP endpoint.
pub fn resolve_pid_tcp_v6(rows: &[RowV6], ip: Ipv6Addr, port: u16) -> (r: Option<u32>)
    ensures
        r == owner_v6(rows@, ip.bits, port),
{
    find_v6(rows, ip.bits, port)
}

/// The owner of an IPv6 UDP endpoint: an exact bind before a wildcard bind.
pub fn resolve_pid_udp_v6(rows: &[RowV6], ip: Ipv6Addr, port: u16) -> (r: Option<u32>)
    ensures
        r == udp_owner_v6(rows@, ip.bits, port),
{
    match find_v6(rows, ip.bits, port) {
        Some(pid) => Some(pid),
        None => find_v6(rows, 0, port),
    }
}

/// The tables to look an endpoint up in, as far as they could be fetched. A
/// table that could not be fetched is empty.
pub struct OwnerTables {
    /// TCP over IPv4.
    pub tcp_v4: Vec<RowV4>,
    /// UDP over IPv4.
    pub udp_v4: Vec<RowV4>,
    /// TCP over IPv6.
    pub tcp_v6: Vec<RowV6>,
    /// UDP over IPv6.
    pub udp_v6: Vec<RowV6>,
}

/// The owner of an endpoint. A UDP endpoint that has no owner is looked up
/// among the TCP endpoints.
pub open spec fn endpoint_owner(
    t: OwnerTables,
    ip: IpAddr,
    port: u16,
    is_udp: bool,
) -> Option<u32> {
    match ip {
        IpAddr::V4(v4) => {
            let key = bytes::le_value(v4.octets_spec()) as u32;
            let tcp = owner_v4(t.tcp_v4@, key, port);
            if is_udp {
                or_else(udp_owner_v4(t.udp_v4@, key, port), tcp)
            } else {
                tcp
            }
        },
        IpAddr::V6(v6) => {
            let tcp = owner_v6(t.tcp_v6@, v6.bits, port);
            if is_udp {
                or_else(udp_owner_v6(t.udp_v6@, v6.bits, port), tcp)
            } else {
                tcp
            }
        },
    }
}

/// Resolves the process that owns the given local endpoint.
pub fn resolve_pid(tables: &OwnerTables, local_ip: IpAddr, local_port: u16, is_udp: bool) -> (r:
    Option<u32>)
    ensures
        r == endpoint_owner(*tables, local_ip, local_port, is_udp),
{
    match local_ip {
        IpAddr::V4(v4) => {
            if is_udp {
                match resolve_pid_udp_v4(tables.udp_v4.as_slice(), v4, local_port) {
                    Some(pid) => {
                        return Some(pid);
                    },
                    None => {},
                }
            }
            resolve_pid_tcp_v4(tables.tcp_v4.as_slice(), v4, local_port)
        },
        IpAddr::V6(v6) => {
            if is_udp {
                match resolve_pid_udp_v6(tables.udp_v6.as_slice(), v6, local_port) {
                    Some(pid) => {
                        return Some(pid);
                    },
                    None => {},
                }
            }
            resolve_pid_tcp_v6(tables.tcp_v6.as_slice(), v6, local_port)
        },
    }
}

/// The position behind the last path separator.
pub open spec fn name_start(path: Seq<char>) -> int
    decreases path.len(),
{
    if path.len() == 0 {
        0
    } else if path.last() == '\\' || path.last() == '/' {
        path.len() as int
    } else {
        name_start(path.drop_last())
    }
}

/// The file name of a Windows or Unix path.
pub open spec fn base_name(path: Seq<char>) -> Seq<char> {
    path.skip(name_start(path))
}

proof fn lemma_name_start(path: Seq<char>, n: int)
    requires
        0 <= n <= path.len(),
        n > 0 ==> path[n - 1] == '\\' || path[n - 1] == '/',
        forall|i: int| n <= i < path.len() ==> path[i] != '\\' && path[i] != '/',
    ensures
        name_start(path) == n,
    decreases path.len() - n,
{
    if n < path.len() {
        lemma_name_start(path.drop_last(), n);
    }
}

/// Extracts the file name from a Windows or Unix path.
pub fn file_name(path: &str) -> (r: String)
    ensures
        r@ == base_name(path@),
{
    let chars: Vec<char> = chars_of(path);
    let mut i: usize = chars.len();
    while i > 0 && chars[i - 1] != '\\' && chars[i - 1] != '/'
        invariant
            i <= chars.len(),
            forall|j: int| i <= j < chars@.len() ==> chars@[j] != '\\' && chars@[j] != '/',
        decreases i,
    {
        i = i - 1;
    }
    proof {
        lemma_name_start(chars@, i as int);
    }
    let name: &[char] = slice_subrange(chars.as_slice(), i, chars.len());
    assert(name@ == path@.skip(i as int));
    string_of(name)
}

/// The file name of a path holds no separator, and nothing but a directory that
/// ends with one stands in front of it.
pub proof fn law_base_name_is_the_last_component(path: Seq<char>)
    ensures
        0 <= name_start(path) <= path.len(),
        !base_name(path).contains('\\'),
        !base_name(path).contains('/'),
        name_start(path) > 0 ==> path[name_start(path) - 1] == '\\' || path[name_start(path) - 1]
            == '/',
    decreases path.len(),
{
    if path.len() > 0 && path.last() != '\\' && path.last() != '/' {
        let front = path.drop_last();
        law_base_name_is_the_last_component(front);
        let name = base_name(path);
        assert(name == base_name(front).push(path.last()));
        assert forall|c: char| name.contains(c) implies base_name(front).contains(c) || c
            == path.last() by {
            let i = choose|i: int| 0 <= i < name.len() && name[i] == c;
            if i < base_name(front).len() {
                assert(base_name(front)[i] == c);
            }
        }
    }
}

// ── Driver library ──────────────────────────────────────────────────────────

/// Which copy of the driver library to load next.
#[derive(Debug, Clone, Copy, PartialEq, Eq, Structural)]
pub enum LoadStep {
    /// The copy beside the executable.
    Local,
    /// The copy on the system's search path.
    System,
}

/// Which copy of the driver library to load after `failures` failed tries of
/// the one beside the executable.
pub fn next_load(local_exists: bool, failures: u32) -> (r: LoadStep)
    ensures
        r == if local_exists && failures < LOAD_RETRY_ATTEMPTS {
            LoadStep::Local
        } else {
            LoadStep::System
        },
        r is Local <==> local_exists && failures < 5,
{
    if local_exists && failures < LOAD_RETRY_ATTEMPTS {
        LoadStep::Local
    } else {
        LoadStep::System
    }
}

/// Windows error code of an object that exists already.
pub const ERROR_OBJECT_ALREADY_EXISTS: u32 = 5010;

/// Whether adding an address or a route went well. One that exists already is
/// no failure.
pub fn added(code: u32) -> (r: bool)
    ensures
        r == (code == 0 || code == ERROR_OBJECT_ALREADY_EXISTS),
        r <==> code == 0 || code == 5010,
{
    code == 0 || code == ERROR_OBJECT_ALREADY_EXISTS
}

// ── Socket addresses ────────────────────────────────────────────────────────

/// Address family of IPv4.
pub const AF_INET: u8 = 2;

/// Address family of IPv6.
pub const AF_INET6: u8 = 23;

/// The octets of a `SOCKADDR_INET` without a port: the family, little-endian, and
/// the address, in the order of the network.
pub open spec fn sockaddr_octets(ip: IpAddr) -> Seq<u8> {
    match ip {
        IpAddr::V4(a) => seq![AF_INET, 0u8] + bytes::zeros(2) + a.octets_spec() + bytes::zeros(20),
        IpAddr::V6(a) => seq![AF_INET6, 0u8] + bytes::zeros(6) + a.octets_spec() + bytes::zeros(4),
    }
}

/// The octets of a `SOCKADDR_INET` for the address configuration calls.
pub fn sockaddr_inet(ip: IpAddr) -> (r: Vec<u8>)
    ensures
        r@ == sockaddr_octets(ip),
{
    let mut r: Vec<u8> = Vec::new();
    match ip {
        IpAddr::V4(a) => {
            r.push(AF_INET);
            push_zeros(&mut r, 3);
            let octets = a.octets();
            r.extend_from_slice(&octets);
            push_zeros(&mut r, 20);
        },
        IpAddr::V6(a) => {
            r.push(AF_INET6);
            push_zeros(&mut r, 7);
            let mut octets = a.octets();
            r.append(&mut octets);
            push_zeros(&mut r, 4);
        },
    }
    assert(r@ =~= sockaddr_octets(ip));
    r
}

// ── The backend ─────────────────────────────────────────────────────────────

/// The executable *file name* in a process's path, where the path is known.
pub fn process_name(path: Option<&str>) -> (r: Option<String>)
    ensures
        r is Some == path is Some,
        r is Some ==> r->0@ == base_name(path->0@),
{
    match path {
        Some(p) => Some(file_name(p)),
        None => None,
    }
}

/// The Windows backend.
pub struct WindowsBackend;

impl WindowsBackend {
    /// The internet-facing interface, from the routes to the two probe addresses.
    pub fn discover_physical_interface(v4_route: Option<u32>, v6_route: Option<u32>) -> (r:
        PhysicalInterface)
        ensures
            r.v4_index == super::real_index(v4_route),
            r.v6_index == super::real_index(v6_route),
    {
        PhysicalInterface::discover(v4_route, v6_route)
    }
}

/// Which process a flow belongs to, from the owner tables.
pub struct WindowsProcessTable;

impl WindowsProcessTable {
    /// The process that a flow's local endpoint belongs to.
    pub fn resolve_pid(tables: &OwnerTables, local: SocketAddr, is_udp: bool) -> (r: Option<u32>)
        ensures
            r == endpoint_owner(*tables, local.ip, local.port, is_udp),
    {
        resolve_pid(tables, local.ip, local.port, is_udp)
    }

    /// The executable *file name* in a process's path, where the path is known.
    pub fn process_name(path: Option<&str>) -> (r: Option<String>)
        ensures
            r is Some == path is Some,
            r is Some ==> r->0@ == base_name(path->0@),
    {
        process_name(path)
    }
}

/// Where some row of a UDP table is bound to the very address, a row of that
/// address owns the endpoint, wherever the rows of the wildcard address stand.
pub proof fn law_exact_bind_beats_wildcard_v4(rows: Seq<RowV4>, i: int, key: u32, port: u16)
    requires
        0 <= i < rows.len(),
        rows[i].local_addr == key,
        field_port(rows[i].local_port) == port,
    ensures
        udp_owner_v4(rows, key, port) == owner_v4(rows, key, port),
        exists|j: int|
            0 <= j <= i && (#[trigger] rows[j]).local_addr == key && field_port(rows[j].local_port)
                == port && udp_owner_v4(rows, key, port) == Some(rows[j].owning_pid),
    decreases i,
{
    if rows[0].local_addr != key || field_port(rows[0].local_port) != port {
        let rest = rows.drop_first();
        law_exact_bind_beats_wildcard_v4(rest, i - 1, key, port);
        let j = choose|j: int|
            0 <= j <= i - 1 && (#[trigger] rest[j]).local_addr == key && field_port(
                rest[j].local_port,
            ) == port && udp_owner_v4(rest, key, port) == Some(rest[j].owning_pid);
        assert(rows[j + 1] == rest[j]);
    }
}

/// As [`law_exact_bind_beats_wildcard_v4`], for IPv6.
pub proof fn law_exact_bind_beats_wildcard_v6(rows: Seq<RowV6>, i: int, addr: u128, port: u16)
    requires
        0 <= i < rows.len(),
        rows[i].local_addr == addr,
        field_port(rows[i].local_port) == port,
    ensures
        udp_owner_v6(rows, addr, port) == owner_v6(rows, addr, port),
        exists|j: int|
            0 <= j <= i && (#[trigger] rows[j]).local_addr == addr && field_port(rows[j].local_port)
                == port && udp_owner_v6(rows, addr, port) == Some(rows[j].owning_pid),
    decreases i,
{
    if rows[0].local_addr != addr || field_port(rows[0].local_port) != port {
        let rest = rows.drop_first();
        law_exact_bind_beats_wildcard_v6(rest, i - 1, addr, port);
        let j = choose|j: int|
            0 <= j <= i - 1 && (#[trigger] rest[j]).local_addr == addr && field_port(
                rest[j].local_port,
            ) == port && udp_owner_v6(rest, addr, port) == Some(rest[j].owning_pid);
        assert(rows[j + 1] == rest[j]);
    }
}

/// An index in the order of the network has its octets reversed.
pub proof fn law_network_order_reverses_the_octets(index: u32)
    ensures
        swapped(index) / 0x100_0000 == index % 256,
        swapped(index) / 0x1_0000 % 256 == index / 256 % 256,
        swapped(index) / 256 % 256 == index / 0x1_0000 % 256,
        swapped(index) % 256 == index / 0x100_0000,
{
    let (a, b, c, d) = (
        index as int / 0x100_0000,
        index as int / 0x1_0000 % 256,
        index as int / 256 % 256,
        index as int % 256,
    );
    lemma_octets(d, c, b, a);
}

/// A table field holds a port with its octets swapped, whatever stands in the upper
/// half of the field.
pub proof fn law_table_field_holds_its_port(high: u8, low: u8, upper: (u8, u8))
    ensures
        field_port(
            (upper.0 * 0x100_0000 + upper.1 * 0x1_0000 + low * 256 + high) as u32,
        ) == high * 256 + low,
{
    lemma_octets(upper.0 as int, upper.1 as int, low as int, high as int);
}

/// The owner of an IPv4 endpoint is that of the first row with its address and
/// port; without such a row it has none.
pub proof fn law_first_row_owns_the_endpoint_v4(rows: Seq<RowV4>, key: u32, port: u16, n: int)
    requires
        0 <= n <= rows.len(),
        forall|i: int|
            0 <= i < n ==> (#[trigger] rows[i]).local_addr != key || field_port(rows[i].local_port)
                != port,
        n < rows.len() ==> rows[n].local_addr == key && field_port(rows[n].local_port) == port,
    ensures
        n < rows.len() ==> owner_v4(rows, key, port) == Some(rows[n].owning_pid),
        n == rows.len() ==> owner_v4(rows, key, port) is None,
    decreases n,
{
    if n > 0 {
        assert(rows[0].local_addr != key || field_port(rows[0].local_port) != port);
        let rest = rows.drop_first();
        assert forall|i: int| 0 <= i < n - 1 implies (#[trigger] rest[i]).local_addr != key
            || field_port(rest[i].local_port) != port by {
            assert(rest[i] == rows[i + 1]);
        }
        law_first_row_owns_the_endpoint_v4(rest, key, port, n - 1);
    }
}

/// As [`law_first_row_owns_the_endpoint_v4`], for IPv6.
pub proof fn law_first_row_owns_the_endpoint_v6(rows: Seq<RowV6>, addr: u128, port: u16, n: int)
    requires
        0 <= n <= rows.len(),
        forall|i: int|
            0 <= i < n ==> (#[trigger] rows[i]).local_addr != addr || field_port(rows[i].local_port)
                != port,
        n < rows.len() ==> rows[n].local_addr == addr && field_port(rows[n].local_port) == port,
    ensures
        n < rows.len() ==> owner_v6(rows, addr, port) == Some(rows[n].owning_pid),
        n == rows.len() ==> owner_v6(rows, addr, port) is None,
    decreases n,
{
    if n > 0 {
        assert(rows[0].local_addr != addr || field_port(rows[0].local_port) != port);
        let rest = rows.drop_first();
        assert forall|i: int| 0 <= i < n - 1 implies (#[trigger] rest[i]).local_addr != addr
            || field_port(rest[i].local_port) != port by {
            assert(rest[i] == rows[i + 1]);
        }
        law_first_row_owns_the_endpoint_v6(rest, addr, port, n - 1);
    }
}

/// An IPv4 endpoint is looked up by its address with the first octet lowest, TCP
/// among the TCP rows alone. UDP is looked up among the UDP rows, by its address
/// and then by the wildcard address, and then among the TCP rows.
pub proof fn law_endpoint_is_looked_up_in_turn_v4(t: OwnerTables, ip: Ipv4Addr, port: u16, key: u32)
    requires
        key == ip.octets_spec()[0] + ip.octets_spec()[1] * 0x100 + ip.octets_spec()[2] * 0x1_0000
            + ip.octets_spec()[3] * 0x100_0000,
    ensures
        endpoint_owner(t, IpAddr::V4(ip), port, false) == owner_v4(t.tcp_v4@, key, port),
        owner_v4(t.udp_v4@, key, port) is Some ==> endpoint_owner(t, IpAddr::V4(ip), port, true)
            == owner_v4(t.udp_v4@, key, port),
        owner_v4(t.udp_v4@, key, port) is None && owner_v4(t.udp_v4@, 0, port) is Some
            ==> endpoint_owner(t, IpAddr::V4(ip), port, true) == owner_v4(t.udp_v4@, 0, port),
        owner_v4(t.udp_v4@, key, port) is None && owner_v4(t.udp_v4@, 0, port) is None
            ==> endpoint_owner(t, IpAddr::V4(ip), port, true) == owner_v4(t.tcp_v4@, key, port),
{
    let o = ip.octets_spec();
    bytes::lemma_be_bytes(ip.bits as nat, 4);
    let r = o.reverse();
    assert(r =~= seq![o[3], o[2], o[1], o[0]]);
    reveal_with_fuel(bytes::be_value, 5);
    assert(r.drop_last() =~= seq![o[3], o[2], o[1]]);
    assert(r.drop_last().drop_last() =~= seq![o[3], o[2]]);
    assert(r.drop_last().drop_last().drop_last() =~= seq![o[3]]);
    assert(seq![o[3]].drop_last() =~= Seq::<u8>::empty());
    assert(bytes::le_value(o) == key);
}

/// As [`law_endpoint_is_looked_up_in_turn_v4`], for IPv6.
pub proof fn law_endpoint_is_looked_up_in_turn_v6(t: OwnerTables, ip: Ipv6Addr, port: u16)
    ensures
        endpoint_owner(t, IpAddr::V6(ip), port, false) == owner_v6(t.tcp_v6@, ip.bits, port),
        owner_v6(t.udp_v6@, ip.bits, port) is Some ==> endpoint_owner(t, IpAddr::V6(ip), port, true)
            == owner_v6(t.udp_v6@, ip.bits, port),
        owner_v6(t.udp_v6@, ip.bits, port) is None && owner_v6(t.udp_v6@, 0, port) is Some
            ==> endpoint_owner(t, IpAddr::V6(ip), port, true) == owner_v6(t.udp_v6@, 0, port),
        owner_v6(t.udp_v6@, ip.bits, port) is None && owner_v6(t.udp_v6@, 0, port) is None
            ==> endpoint_owner(t, IpAddr::V6(ip), port, true) == owner_v6(t.tcp_v6@, ip.bits, port),
{
}

/// The file name is what stands behind the last separator, of either kind.
pub proof fn law_file_name_stands_behind_the_last_separator(dir: Seq<char>, name: Seq<char>)
    requires
        dir.len() == 0 || dir.last() == '/' || dir.last() == '\\',
        !name.contains('/'),
        !name.contains('\\'),
    ensures
        base_name(dir + name) == name,
{
    let path = dir + name;
    let n = dir.len() as int;
    if n > 0 {
        assert(path[n - 1] == dir.last());
    }
    assert forall|i: int| n <= i < path.len() implies path[i] != '\\' && path[i] != '/' by {
        assert(path[i] == name[i - n]);
        assert(name.contains(name[i - n]));
    }
    lemma_name_start(path, n);
    assert(path.skip(n) =~= name);
}

/// A socket address has twenty-eight octets: its family, and its address at the
/// fifth octet for IPv4 and at the ninth for IPv6.
pub proof fn law_sockaddr_holds_the_address(ip: IpAddr)
    ensures
        sockaddr_octets(ip).len() == 28,
        sockaddr_octets(ip)[1] == 0,
        ip is V4 ==> sockaddr_octets(ip)[0] == 2 && sockaddr_octets(ip).subrange(4, 8)
            == ip.octets_spec(),
        ip is V6 ==> sockaddr_octets(ip)[0] == 23 && sockaddr_octets(ip).subrange(8, 24)
            == ip.octets_spec(),
{
    match ip {
        IpAddr::V4(a) => {
            bytes::lemma_be_bytes(a.bits as nat, 4);
            assert(sockaddr_octets(ip).subrange(4, 8) =~= a.octets_spec());
        },
        IpAddr::V6(a) => {
            bytes::lemma_be_bytes(a.bits as nat, 16);
            assert(sockaddr_octets(ip).subrange(8, 24) =~= a.octets_spec());
        },
    }
}

} // verus!
