//! macOS: process attribution, ioctls and the `route` command.

use ace_tun::addr::{Ipv4Addr, Ipv6Addr, SocketAddr};
use ace_tun::error::{Error, IoFailure, IoKind};
use ace_tun::platform::macos::{
    add_address, add_address_v4, add_address_v6, check_name, comm_name, link_up, netmask_v4,
    netmask_v6, open_named, open_next, pin_socket, read_i32_le, read_link_flags, read_u16_be,
    read_u32_le, route_add_args, route_added, route_delete_args, route_deleted, route_interface,
    scan_pcblist, set_link_mtu, v4_sockaddr, v6_sockaddr, MacosBackend, MacosProcessTable, OpenNext, OpenStep,
    AF_INET, AF_INET6, IPV6_BOUND_IF, IP_BOUND_IF, SIOCAIFADDR, SIOCAIFADDR_IN6, SIOCGIFFLAGS,
    SIOCSIFFLAGS, SIOCSIFMTU, XINPCB_RECORD_LEN, XINPGEN_LEN, XSOCKET_RECORD_LEN,
};

/// Build one PCB/socket record pair with the endpoints and PID given,
/// writing every field at the *literal* offsets from the xnu headers —
/// independent of the parser's own constants.
fn record_pair(
    pid: u32,
    local_addr: [u8; 16],
    local_port: u16,
    foreign_addr: [u8; 16],
    foreign_port: u16,
    is_v6: bool,
) -> Vec<u8> {
    let mut inpcb = vec![0u8; XINPCB_RECORD_LEN];
    inpcb[0..4].copy_from_slice(&(XINPCB_RECORD_LEN as u32).to_le_bytes());
    inpcb[16..18].copy_from_slice(&foreign_port.to_be_bytes());
    inpcb[18..20].copy_from_slice(&local_port.to_be_bytes());
    inpcb[44] = if is_v6 { 0x2 } else { 0x1 };
    // Foreign address union at 48, local at 64; a v4 address sits in the
    // last four bytes of its 4-in-6 slot.
    write_address(&mut inpcb, 48, &foreign_addr, is_v6);
    write_address(&mut inpcb, 64, &local_addr, is_v6);

    let mut socket = vec![0u8; XSOCKET_RECORD_LEN];
    socket[0..4].copy_from_slice(&(XSOCKET_RECORD_LEN as u32).to_le_bytes());
    socket[68..72].copy_from_slice(&(pid as i32).to_le_bytes());
    inpcb.extend_from_slice(&socket);
    inpcb
}

/// Copy a 16-byte address into a record at `offset`, honouring the
/// 4-in-6 slot for v4.
fn write_address(record: &mut [u8], offset: usize, addr: &[u8; 16], is_v6: bool) {
    if is_v6 {
        record[offset..offset + 16].copy_from_slice(addr);
    } else {
        record[offset + 12..offset + 16].copy_from_slice(&addr[12..16]);
    }
}

/// A table with one record: a connected v4 TCP socket owned by pid 4242.
fn connected_v4_table() -> Vec<u8> {
    let mut table = vec![0u8; XINPGEN_LEN];
    table[0..4].copy_from_slice(&(XINPGEN_LEN as u32).to_le_bytes());
    table.extend(record_pair(
        4242,
        [0, 0, 0, 0, 0, 0, 0, 0, 0, 0, 0, 0, 10, 63, 7, 1],
        12345,
        [0, 0, 0, 0, 0, 0, 0, 0, 0, 0, 0, 0, 8, 8, 8, 8],
        443,
        false,
    ));
    table
}

#[test]
fn connected_v4_socket_is_attributed() {
    let table = connected_v4_table();
    let local: SocketAddr = "10.63.7.1:12345".parse().unwrap();
    let remote: SocketAddr = "8.8.8.8:443".parse().unwrap();
    assert_eq!(scan_pcblist(&table, local, remote), Some(4242));
}

#[test]
fn connected_v6_socket_is_attributed() {
    let local_addr = [0xfd, 0, 0x0a, 0xce, 0, 7, 0, 0, 0, 0, 0, 0, 0, 0, 0, 1];
    let foreign_addr = [0x20, 0x01, 0x48, 0x60, 0x48, 0x60, 0, 0, 0, 0, 0, 0, 0, 0, 0x88, 0x88];
    let mut table = vec![0u8; XINPGEN_LEN];
    table[0..4].copy_from_slice(&(XINPGEN_LEN as u32).to_le_bytes());
    table.extend(record_pair(777, local_addr, 443, foreign_addr, 53, true));

    let local: SocketAddr = "[fd00:ace:7::1]:443".parse().unwrap();
    let remote: SocketAddr = "[2001:4860:4860::8888]:53".parse().unwrap();
    assert_eq!(scan_pcblist(&table, local, remote), Some(777));
}

#[test]
fn wrong_remote_does_not_match() {
    let table = connected_v4_table();
    let local: SocketAddr = "10.63.7.1:12345".parse().unwrap();
    let remote: SocketAddr = "1.1.1.1:443".parse().unwrap();
    assert_eq!(scan_pcblist(&table, local, remote), None);
}

/// A listener and its accepted child share a local endpoint; the child
/// (full four-tuple) must win over the listener (local-only), regardless
/// of table order.
#[test]
fn accepted_child_beats_listener() {
    let mut table = vec![0u8; XINPGEN_LEN];
    table[0..4].copy_from_slice(&(XINPGEN_LEN as u32).to_le_bytes());
    // Listener first: pid 9001, port 8080, no peer.
    table.extend(record_pair(
        9001,
        [0, 0, 0, 0, 0, 0, 0, 0, 0, 0, 0, 0, 10, 63, 7, 1],
        8080,
        [0; 16],
        0,
        false,
    ));
    // Accepted child: pid 9002, same local endpoint, peer 9.9.9.9:80.
    table.extend(record_pair(
        9002,
        [0, 0, 0, 0, 0, 0, 0, 0, 0, 0, 0, 0, 10, 63, 7, 1],
        8080,
        [0, 0, 0, 0, 0, 0, 0, 0, 0, 0, 0, 0, 9, 9, 9, 9],
        80,
        false,
    ));

    let local: SocketAddr = "10.63.7.1:8080".parse().unwrap();
    let remote: SocketAddr = "9.9.9.9:80".parse().unwrap();
    assert_eq!(scan_pcblist(&table, local, remote), Some(9002));
}

/// A wildcard-bind socket matches any flow on its port (specificity 1).
#[test]
fn wildcard_bind_matches_by_port() {
    let mut table = vec![0u8; XINPGEN_LEN];
    table[0..4].copy_from_slice(&(XINPGEN_LEN as u32).to_le_bytes());
    table.extend(record_pair(
        31337,
        [0; 16],
        5353,
        [0; 16],
        0,
        false,
    ));

    let local: SocketAddr = "10.1.2.3:5353".parse().unwrap();
    let remote: SocketAddr = "224.0.0.251:5353".parse().unwrap();
    assert_eq!(scan_pcblist(&table, local, remote), Some(31337));
}

/// A flow of one family never matches a socket of the other.
#[test]
fn family_mismatch_does_not_match() {
    let mut table = vec![0u8; XINPGEN_LEN];
    table[0..4].copy_from_slice(&(XINPGEN_LEN as u32).to_le_bytes());
    // v4 socket...
    table.extend(record_pair(
        4242,
        [0, 0, 0, 0, 0, 0, 0, 0, 0, 0, 0, 0, 10, 63, 7, 1],
        12345,
        [0, 0, 0, 0, 0, 0, 0, 0, 0, 0, 0, 0, 8, 8, 8, 8],
        443,
        false,
    ));
    // ...queried as v6.
    let local: SocketAddr = "[fd00:ace:7::1]:12345".parse().unwrap();
    let remote: SocketAddr = "[2001:4860:4860::8888]:443".parse().unwrap();
    assert_eq!(scan_pcblist(&table, local, remote), None);
}

/// A socket with no owner (`so_last_pid` = 0) attributes nothing.
#[test]
fn ownerless_socket_is_not_attributed() {
    let mut table = vec![0u8; XINPGEN_LEN];
    table[0..4].copy_from_slice(&(XINPGEN_LEN as u32).to_le_bytes());
    table.extend(record_pair(0, [0; 16], 9999, [0; 16], 0, false));
    let local: SocketAddr = "10.0.0.1:9999".parse().unwrap();
    let remote: SocketAddr = "10.0.0.2:9999".parse().unwrap();
    assert_eq!(scan_pcblist(&table, local, remote), None);
}

/// Truncated or malformed tables must not panic; they attribute nothing.
#[test]
fn malformed_tables_do_not_panic() {
    let local: SocketAddr = "10.0.0.1:9999".parse().unwrap();
    let remote: SocketAddr = "10.0.0.2:9999".parse().unwrap();

    // Empty.
    assert_eq!(scan_pcblist(&[], local, remote), None);
    // Header only.
    assert_eq!(scan_pcblist(&[0u8; XINPGEN_LEN], local, remote), None);
    // Header claiming a huge size.
    let mut header = vec![0u8; XINPGEN_LEN];
    header[0..4].copy_from_slice(&u32::MAX.to_le_bytes());
    assert_eq!(scan_pcblist(&header, local, remote), None);
    // Records cut off mid-way.
    let mut table = connected_v4_table();
    table.truncate(table.len() - 20);
    assert_eq!(scan_pcblist(&table, local, remote), None);
}

/// Byte-order helpers must match the record encodings: lengths and PIDs
/// native (little-endian), ports network order.
#[test]
fn byte_order_helpers() {
    assert_eq!(read_u32_le(&42u32.to_le_bytes(), 0), Some(42));
    assert_eq!(read_u16_be(&443u16.to_be_bytes(), 0), Some(443));
    assert_eq!(read_i32_le(&(-5i32).to_le_bytes(), 0), Some(-5));
    assert_eq!(read_u32_le(&[1, 2], 0), None);
}


/// The ioctl numbers must match the `_IOW`/`_IOWR` encodings from the
/// xnu headers; a transcription error would make every address
/// assignment fail with ENOTTY in a way that is hard to diagnose.
#[test]
fn ioctl_numbers_match_header_encodings() {
    // _IOW('i', 26, ifaliasreq): size 64, type 'i' (0x69), nr 26.
    assert_eq!(SIOCAIFADDR, 0x4040_691a);
    // _IOW('i', 26, in6_ifaliasreq): size 128.
    assert_eq!(SIOCAIFADDR_IN6, 0x4080_691a);
    // _IOW('i', 52, ifreq): size 32.
    assert_eq!(SIOCSIFMTU, 0x4020_6934);
    // _IOWR('i', 17, ifreq): direction 3.
    assert_eq!(SIOCGIFFLAGS, 0xc020_6911);
    // _IOW('i', 16, ifreq).
    assert_eq!(SIOCSIFFLAGS, 0x4020_6910);
}

#[test]
fn v4_netmasks() {
    assert_eq!(netmask_v4(0), Ipv4Addr::from_bits(0));
    assert_eq!(netmask_v4(1), Ipv4Addr::new(128, 0, 0, 0));
    assert_eq!(netmask_v4(24), Ipv4Addr::new(255, 255, 255, 0));
    assert_eq!(netmask_v4(32), Ipv4Addr::new(255, 255, 255, 255));
}

#[test]
fn v6_netmasks() {
    assert_eq!(netmask_v6(0), Ipv6Addr::from_bits(0));
    assert_eq!(netmask_v6(1), Ipv6Addr::new(0x8000, 0, 0, 0, 0, 0, 0, 0));
    assert_eq!(
        netmask_v6(64),
        Ipv6Addr::new(0xffff, 0xffff, 0xffff, 0xffff, 0, 0, 0, 0)
    );
    assert_eq!(
        netmask_v6(128),
        Ipv6Addr::new(0xffff, 0xffff, 0xffff, 0xffff, 0xffff, 0xffff, 0xffff, 0xffff)
    );
}

/// The v4 sockaddr must carry the address in the first four bytes of
/// `sa_data` — the `sin_addr` position inside `sockaddr_in`.
#[test]
fn v4_sockaddr_embeds_address_at_sin_addr_offset() {
    let addr = Ipv4Addr::new(10, 63, 7, 1);
    let sockaddr = v4_sockaddr(addr);
    assert_eq!(sockaddr.len(), 16);
    assert_eq!(sockaddr[0], 16);
    assert_eq!(sockaddr[1], AF_INET);
    assert_eq!(
        &sockaddr[2..6],
        &[10, 63, 7, 1],
        "address must sit at the sin_addr offset"
    );
}

/// The v6 sockaddr must carry the full 16-byte address.
#[test]
fn v6_sockaddr_embeds_address() {
    let addr = Ipv6Addr::new(0xfd00, 0x0ace, 7, 0, 0, 0, 0, 1);
    let sockaddr = v6_sockaddr(addr);
    assert_eq!(sockaddr.len(), 28);
    assert_eq!(sockaddr[0], 28);
    assert_eq!(sockaddr[1], AF_INET6);
    assert_eq!(sockaddr[8..24], addr.octets()[..]);
}

// ── The process table ───────────────────────────────────────────────────────

#[test]
fn an_attribution_is_remembered() {
    let mut table = MacosProcessTable::new();
    let local: SocketAddr = "10.63.7.1:12345".parse().unwrap();
    let remote: SocketAddr = "8.8.8.8:443".parse().unwrap();
    assert_eq!(table.resolve_pid(local, false, 0), None);
    assert_eq!(table.resolve_scanned(&[], local, remote, false, 0), None);
    assert_eq!(table.resolve_pid(local, false, 0), None);
    let sockets = connected_v4_table();
    assert_eq!(table.resolve_scanned(&sockets, local, remote, false, 0), Some(4242));
    assert_eq!(table.resolve_pid(local, false, 1), Some(4242));
    assert_eq!(table.resolve_pid(local, true, 1), None);
    assert_eq!(table.resolve_pid(local, false, 250_000_000), None);
}

#[test]
fn root_is_privileged() {
    assert!(MacosBackend::is_privileged(0));
    assert!(!MacosBackend::is_privileged(501));
}

#[test]
fn process_names_end_at_the_first_nul() {
    assert_eq!(comm_name(b"Safari\0junk").as_deref(), Some("Safari"));
    assert_eq!(comm_name(b"\0"), None);
    assert_eq!(MacosProcessTable::process_name(b" Mail \0").as_deref(), Some("Mail"));
}

// ── The route command ───────────────────────────────────────────────────────

#[test]
fn route_arguments() {
    let v4 = "0.0.0.0".parse().unwrap();
    let v6 = "8000::".parse().unwrap();
    let add = route_add_args(v4, 1, "utun3").join(" ");
    assert!(add.contains("-inet") && add.contains("0.0.0.0/1") && add.contains("utun3"), "{add}");
    let delete = route_delete_args(v6, 1).join(" ");
    assert!(delete.contains("-inet6") && delete.contains("8000::/1"), "{delete}");
}

#[test]
fn an_existing_route_is_no_failure() {
    assert!(route_added(true, Some(0), "").is_ok());
    assert!(route_added(false, Some(1), "route: writing to routing socket: File exists").is_ok());
    let failure = route_added(false, Some(1), "route: bad address\n").unwrap_err();
    assert!(failure.message.contains("bad address"));
    assert_eq!(failure.kind, IoKind::Other);
}

#[test]
fn a_missing_route_is_no_failure() {
    assert!(route_deleted(true, "").is_ok());
    assert!(route_deleted(false, "route: writing to routing socket: not in table").is_ok());
    assert!(route_deleted(false, "route: bad address").is_err());
}

#[test]
fn the_interface_of_a_route() {
    let stdout = "   route to: dns.google\n  interface: en0\n      flags: <UP>\n";
    assert_eq!(route_interface(stdout).as_deref(), Some("en0"));
    assert_eq!(route_interface("no such line"), None);
}

#[test]
fn opening_needs_privileges_at_two_steps() {
    let denied = || Err(IoFailure::new(IoKind::PermissionDenied, "no"));
    for step in [OpenStep::Socket, OpenStep::Connect] {
        assert!(matches!(open_next(step, denied()), Err(Error::NotElevated)));
    }
    for (step, name) in [
        (OpenStep::FindControl, "CTLIOCGINFO"),
        (OpenStep::ReadName, "getsockopt(UTUN_OPT_IFNAME)"),
        (OpenStep::SetNonblocking, "fcntl(O_NONBLOCK)"),
        (OpenStep::FindIndex, "if_nametoindex"),
    ] {
        match open_next(step, denied()) {
            Err(Error::NetConfig { op, source }) => {
                assert_eq!(op, name);
                assert_eq!(source.kind, IoKind::PermissionDenied);
            }
            other => panic!("expected NetConfig, got {other:?}"),
        }
    }
}

#[test]
fn opening_takes_its_steps_in_order() {
    let mut step = OpenStep::Socket;
    let mut taken = vec![step];
    let index = loop {
        let mut next = open_next(step, Ok(9)).unwrap();
        if next == OpenNext::Named {
            assert_eq!(step, OpenStep::ReadName);
            next = open_named("utun9").unwrap();
        }
        match next {
            OpenNext::Do(next) => step = next,
            OpenNext::Opened(index) => break index,
            OpenNext::Named => unreachable!(),
        }
        taken.push(step);
    };
    assert_eq!(index, 9);
    assert_eq!(
        taken,
        vec![
            OpenStep::Socket,
            OpenStep::FindControl,
            OpenStep::Connect,
            OpenStep::ReadName,
            OpenStep::SetNonblocking,
            OpenStep::FindIndex,
        ]
    );
}

#[test]
fn only_utun_names_are_accepted() {
    assert!(check_name("utun4").is_ok());
    assert!(open_named("en0").is_err());
    match check_name("en0") {
        Err(Error::NetConfig { op, source }) => {
            assert_eq!(op, "UTUN_OPT_IFNAME");
            assert_eq!(source.kind, IoKind::InvalidData);
            assert_eq!(source.message, "unexpected utun interface name 'en0'");
        }
        other => panic!("expected NetConfig, got {other:?}"),
    }
}

/// A pinned socket takes the index as it is, for both families.
#[test]
fn bound_if_option_numbers() {
    assert_eq!(IP_BOUND_IF, 25);
    assert_eq!(IPV6_BOUND_IF, 125);
    let v4 = pin_socket(7, "8.8.8.8".parse().unwrap());
    assert_eq!((v4.level, v4.option, v4.value), (0, 25, 7));
    let v6 = pin_socket(7, "2001::1".parse().unwrap());
    assert_eq!((v6.level, v6.option, v6.value), (41, 125, 7));
}

/// The address records must be exactly the sizes the kernel expects, or
/// the ioctl copies the wrong number of bytes.
#[test]
fn ioctl_struct_sizes() {
    assert_eq!(add_address_v4("utun4", Ipv4Addr::new(10, 63, 7, 1), 24).len(), 64);
    let v6 = Ipv6Addr::new(0xfd00, 0x0ace, 0x0007, 0, 0, 0, 0, 1);
    assert_eq!(add_address_v6("utun4", v6, 64).len(), 128);
}

#[test]
fn address_requests() {
    let (number, request) = add_address("utun4", "10.63.7.1".parse().unwrap(), 24);
    assert_eq!(number, SIOCAIFADDR);
    assert_eq!(&request[..16], b"utun4\0\0\0\0\0\0\0\0\0\0\0");
    assert_eq!(&request[16..24], &[16, 2, 10, 63, 7, 1, 0, 0]);
    assert_eq!(&request[32..40], &[16, 2, 10, 63, 7, 1, 0, 0]);
    assert_eq!(&request[48..56], &[16, 2, 255, 255, 255, 0, 0, 0]);

    let (number, request) = add_address("utun4", "fd00:ace:7::1".parse().unwrap(), 64);
    assert_eq!(number, SIOCAIFADDR_IN6);
    assert_eq!(&request[16..18], &[28, 30]);
    assert_eq!(&request[24..30], &[0xfd, 0x00, 0x0a, 0xce, 0x00, 0x07]);
    assert_eq!(request[39], 1);
    assert_eq!(&request[44..72], &[0; 28]);
    assert_eq!(&request[80..96], &[255, 255, 255, 255, 255, 255, 255, 255, 0, 0, 0, 0, 0, 0, 0, 0]);
    assert_eq!(&request[100..104], &[0x20, 0, 0, 0]);
    assert_eq!(&request[104..120], &[0; 16]);
    assert_eq!(&request[120..], &[0xff; 8]);
}

#[test]
fn link_requests() {
    let mtu = set_link_mtu("utun4", 1500);
    assert_eq!(&mtu[..5], b"utun4");
    assert_eq!(&mtu[16..], &[0xdc, 5, 0, 0, 0, 0, 0, 0, 0, 0, 0, 0, 0, 0, 0, 0]);

    let mut flags = read_link_flags("utun4");
    assert_eq!(flags.len(), 32);
    // Point-to-point, and something in the second octet.
    flags[16] = 0x10;
    flags[17] = 0x80;
    let up = link_up(&flags);
    assert_eq!((up[16], up[17]), (0x11, 0x80));
    assert_eq!(link_up(&up), up);
    assert_eq!(&up[..16], &flags[..16]);
}
