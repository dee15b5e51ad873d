//! Windows: socket pinning, owner tables and the driver library.

use ace_tun::addr::{IpAddr, Ipv4Addr, Ipv6Addr, SocketAddr};
use ace_tun::platform::windows::{
    added, file_name, ipv4_table_key, next_load, pin_socket, process_name, resolve_pid,
    resolve_pid_udp_v6, sockaddr_inet, table_port_to_host, unicast_if_value, LoadStep,
    OwnerTables, RowV4, RowV6, WindowsProcessTable, AF_INET, AF_INET6, LOAD_RETRY_ATTEMPTS,
    RING_CAPACITY,
};

/// IPv4 takes the index in network byte order. On a little-endian host that
/// means index 7 is encoded as 0x07000000.
#[test]
fn v4_unicast_if_is_network_order() {
    assert_eq!(unicast_if_value(7, false), 0x0700_0000);
    assert_eq!(unicast_if_value(0x0102_0304, false), 0x0403_0201);
}

/// IPv6 takes the index verbatim (host order) on Windows.
#[test]
fn v6_unicast_if_is_host_order() {
    assert_eq!(unicast_if_value(7, true), 7);
}

/// The two encodings must actually differ for a typical index, otherwise
/// the test above would pass on a broken implementation.
#[test]
fn v4_and_v6_encodings_differ() {
    assert_ne!(unicast_if_value(12, false), unicast_if_value(12, true));
}

#[test]
fn extracts_file_name() {
    assert_eq!(
        file_name(r"C:\Program Files\Google\Chrome\Application\chrome.exe"),
        "chrome.exe"
    );
    assert_eq!(file_name("/usr/bin/firefox"), "firefox");
    assert_eq!(file_name("notepad.exe"), "notepad.exe");
    assert_eq!(file_name(""), "");
}

#[test]
fn a_process_is_named_by_its_path() {
    assert_eq!(process_name(Some(r"C:\x\y.exe")).as_deref(), Some("y.exe"));
    assert_eq!(process_name(None), None);
    assert_eq!(WindowsProcessTable::process_name(None), None);
}

#[test]
fn port_conversion_is_ntohs() {
    // Port 443 in network order is 0x01BB; stored in low bytes as bytes
    // [0x01, 0xBB]; read as LE u16 that is 0xBB01; swap -> 0x01BB = 443.
    let net_le = u16::from_le_bytes([0x01, 0xBB]) as u32;
    assert_eq!(table_port_to_host(net_le), 443);
    let net_le = u16::from_le_bytes([0x00, 0x50]) as u32; // 80
    assert_eq!(table_port_to_host(net_le), 80);
}

#[test]
fn ipv4_key_matches_memory_order() {
    // 192.168.1.10 octets in memory -> LE u32.
    let ip = Ipv4Addr::new(192, 168, 1, 10);
    assert_eq!(ipv4_table_key(ip), u32::from_le_bytes([192, 168, 1, 10]));
}

#[test]
fn sockaddr_v4_roundtrips_family_and_address() {
    let sa = sockaddr_inet(IpAddr::V4(Ipv4Addr::new(10, 6, 7, 1)));
    assert_eq!(sa.len(), 28);
    assert_eq!(u16::from_le_bytes([sa[0], sa[1]]), AF_INET as u16);
    assert_eq!(sa[4..8], [10, 6, 7, 1]);
}

#[test]
fn sockaddr_v6_roundtrips_family_and_address() {
    let addr = Ipv6Addr::new(0xfd00, 0xace, 7, 0, 0, 0, 0, 1);
    let sa = sockaddr_inet(IpAddr::V6(addr));
    assert_eq!(sa.len(), 28);
    assert_eq!(u16::from_le_bytes([sa[0], sa[1]]), AF_INET6 as u16);
    assert_eq!(sa[8..24], addr.octets()[..]);
}

/// The driver takes powers of two from 128 KiB to 64 MiB.
#[test]
fn ring_capacity_is_a_valid_power_of_two() {
    assert!(RING_CAPACITY.is_power_of_two());
    assert!(RING_CAPACITY >= 0x2_0000);
    assert!(RING_CAPACITY <= 0x400_0000);
}

// ── Owner tables ────────────────────────────────────────────────────────────

fn row_v4(ip: [u8; 4], port: u16, pid: u32) -> RowV4 {
    RowV4 {
        local_addr: u32::from_le_bytes(ip),
        local_port: u16::from_le_bytes(port.to_be_bytes()) as u32,
        owning_pid: pid,
    }
}

fn row_v6(bits: u128, port: u16, pid: u32) -> RowV6 {
    RowV6 {
        local_addr: bits,
        local_port: u16::from_le_bytes(port.to_be_bytes()) as u32,
        owning_pid: pid,
    }
}

fn tables() -> OwnerTables {
    OwnerTables {
        tcp_v4: vec![row_v4([10, 0, 0, 1], 80, 1), row_v4([10, 0, 0, 2], 81, 2)],
        udp_v4: vec![row_v4([0, 0, 0, 0], 53, 3), row_v4([10, 0, 0, 1], 53, 4)],
        tcp_v6: vec![row_v6(1, 80, 5)],
        udp_v6: vec![row_v6(0, 53, 6)],
    }
}

#[test]
fn endpoints_have_owners() {
    let t = tables();
    let ip = |s: &str| s.parse::<IpAddr>().unwrap();
    assert_eq!(resolve_pid(&t, ip("10.0.0.1"), 80, false), Some(1));
    assert_eq!(resolve_pid(&t, ip("10.0.0.2"), 81, false), Some(2));
    assert_eq!(resolve_pid(&t, ip("10.0.0.2"), 80, false), None);
    // The exact address is preferred to the wildcard one.
    assert_eq!(resolve_pid(&t, ip("10.0.0.1"), 53, true), Some(4));
    assert_eq!(resolve_pid(&t, ip("10.0.0.9"), 53, true), Some(3));
    // A UDP endpoint without an owner is looked up among the TCP endpoints.
    assert_eq!(resolve_pid(&t, ip("10.0.0.1"), 80, true), Some(1));
    assert_eq!(resolve_pid(&t, ip("::1"), 80, false), Some(5));
    assert_eq!(resolve_pid(&t, ip("::9"), 53, true), Some(6));
    // The exact address is preferred to a wildcard one that stands before it.
    let rows = [row_v6(0, 5353, 1), row_v6(0xfd00 << 112 | 1, 5353, 2)];
    let bound = "fd00::1".parse::<Ipv6Addr>().unwrap();
    assert_eq!(resolve_pid_udp_v6(&rows, bound, 5353), Some(2));
    assert_eq!(resolve_pid_udp_v6(&rows[..1], bound, 5353), Some(1));
    let local = SocketAddr::new(ip("::1"), 80);
    assert_eq!(WindowsProcessTable::resolve_pid(&t, local, false), Some(5));
}

// ── The driver library ──────────────────────────────────────────────────────

#[test]
fn the_local_library_is_tried_a_few_times() {
    assert_eq!(next_load(true, 0), LoadStep::Local);
    assert_eq!(next_load(true, LOAD_RETRY_ATTEMPTS - 1), LoadStep::Local);
    assert_eq!(next_load(true, LOAD_RETRY_ATTEMPTS), LoadStep::System);
    assert_eq!(next_load(false, 0), LoadStep::System);
}

#[test]
fn what_exists_already_is_no_failure() {
    assert!(added(0));
    assert!(added(5010));
    assert!(!added(5));
}

#[test]
fn sockets_are_pinned_by_family() {
    let v4 = pin_socket(7, "8.8.8.8".parse().unwrap());
    assert_eq!((v4.level, v4.option, v4.value), (0, 31, 0x0700_0000));
    let v6 = pin_socket(7, "2001::1".parse().unwrap());
    assert_eq!((v6.level, v6.option, v6.value), (41, 31, 7));
}
