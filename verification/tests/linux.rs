//! Linux: rtnetlink, sock_diag and the process file system.

use ace_tun::addr::{IpAddr, Ipv4Addr, Ipv6Addr, SocketAddr};
use ace_tun::error::{Error, IoFailure, IoKind};
use ace_tun::platform::linux::netcfg::{
    ack_step, add_address, add_route, best_route_index, delete_route, family,
    idempotent_already_exists, idempotent_already_gone, lookup_step, route_lookup,
    set_link_mtu_and_up, wait_for_ack, AckStep, LookupStep, Sequence,
};
use ace_tun::platform::linux::process::{
    comm_name, exe_name, has_capability, is_privileged, next_attempt, pid_of_entry, process_name,
    query_one, query_socket_inode, query_step, socket_inode_of, socket_name, wildcard, InodeTable,
    Next, QueryStep,
};
use ace_tun::platform::linux::wire::{
    DiagBody, DiagReply, Incoming, RouteBody, RouteReply, SocketName,
};
use ace_tun::platform::linux::{
    open_next, open_start, pin_socket, Flow, LinuxBackend, LinuxProcessTable, OpenNext, OpenStep,
    ResolveStep,
};

fn ip(s: &str) -> IpAddr {
    s.parse().unwrap()
}

fn ne16(x: u16) -> [u8; 2] {
    x.to_ne_bytes()
}

fn ne32(x: u32) -> [u8; 4] {
    x.to_ne_bytes()
}

/// A message with this header and payload.
fn message(kind: u16, flags: u16, sequence: u32, payload: &[u8]) -> Vec<u8> {
    let mut m = Vec::new();
    m.extend_from_slice(&ne32(16 + payload.len() as u32));
    m.extend_from_slice(&ne16(kind));
    m.extend_from_slice(&ne16(flags));
    m.extend_from_slice(&ne32(sequence));
    m.extend_from_slice(&ne32(0));
    m.extend_from_slice(payload);
    m
}

fn attribute(kind: u16, value: &[u8]) -> Vec<u8> {
    let mut a = Vec::new();
    a.extend_from_slice(&ne16(4 + value.len() as u16));
    a.extend_from_slice(&ne16(kind));
    a.extend_from_slice(value);
    while a.len() % 4 != 0 {
        a.push(0);
    }
    a
}

// ── Requests ────────────────────────────────────────────────────────────────

#[test]
fn a_lookup_names_its_destination() {
    let mut payload = vec![2, 0, 0, 0, 0, 0, 0, 0];
    payload.extend_from_slice(&ne32(0x1000));
    payload.extend(attribute(1, &[8, 8, 8, 8]));
    assert_eq!(route_lookup(5, ip("8.8.8.8")), message(26, 1, 5, &payload));

    let mut payload = vec![10, 0, 0, 0, 0, 0, 0, 0];
    payload.extend_from_slice(&ne32(0x1000));
    payload.extend(attribute(1, &Ipv6Addr::from_bits(0x2001 << 112).octets()));
    assert_eq!(route_lookup(0, ip("2001::")), message(26, 1, 0, &payload));
}

#[test]
fn an_ipv4_address_is_its_own_peer() {
    let mut payload = vec![2, 24, 0, 0];
    payload.extend_from_slice(&ne32(7));
    payload.extend(attribute(1, &[10, 63, 7, 1]));
    payload.extend(attribute(2, &[10, 63, 7, 1]));
    assert_eq!(
        add_address(1, 7, ip("10.63.7.1"), 24),
        message(20, 0x605, 1, &payload)
    );
}

#[test]
fn an_ipv6_address_skips_duplicate_detection() {
    let addr = Ipv6Addr::new(0xfd00, 0x0ace, 7, 0, 0, 0, 0, 1);
    let mut payload = vec![10, 64, 2, 0];
    payload.extend_from_slice(&ne32(7));
    payload.extend(attribute(1, &addr.octets()));
    assert_eq!(
        add_address(1, 7, IpAddr::V6(addr), 64),
        message(20, 0x605, 1, &payload)
    );
}

#[test]
fn only_the_up_flag_of_a_link_changes() {
    let mut payload = vec![0, 0, 0, 0];
    payload.extend_from_slice(&ne32(9));
    payload.extend_from_slice(&ne32(1));
    payload.extend_from_slice(&ne32(1));
    payload.extend(attribute(4, &ne32(1500)));
    assert_eq!(set_link_mtu_and_up(3, 9, 1500), message(16, 5, 3, &payload));
}

#[test]
fn a_route_is_removed_by_the_name_it_was_added_under() {
    let mut payload = vec![2, 1, 0, 0, 254, 4, 253, 1];
    payload.extend_from_slice(&ne32(0));
    payload.extend(attribute(1, &[128, 0, 0, 0]));
    payload.extend(attribute(4, &ne32(9)));
    let (request, handle) = add_route(0, 9, ip("128.0.0.0"), 1);
    assert_eq!(request, message(24, 0x605, 0, &payload));
    assert_eq!(delete_route(1, &handle), message(25, 5, 1, &payload));
}

#[test]
fn sequence_numbers_start_over() {
    let mut numbers = Sequence::new();
    assert_eq!(numbers.next_sequence(), 0);
    assert_eq!(numbers.next_sequence(), 1);
    let mut last = Sequence { next: u32::MAX };
    assert_eq!(last.next_sequence(), u32::MAX);
    assert_eq!(last.next_sequence(), 0);
}

#[test]
fn families() {
    assert_eq!(family(ip("1.2.3.4")), 2);
    assert_eq!(family(ip("::")), 10);
}

// ── Answers ─────────────────────────────────────────────────────────────────

/// An error message with this code, as the kernel sends it: the code, and the
/// header of the request.
fn error(code: i32, sequence: u32) -> Vec<u8> {
    let mut payload = code.to_ne_bytes().to_vec();
    payload.extend_from_slice(&[0; 16]);
    message(2, 0, sequence, &payload)
}

#[test]
fn acknowledgements() {
    assert_eq!(wait_for_ack(&error(0, 3), 3), AckStep::Accepted);
    assert_eq!(wait_for_ack(&error(-17, 3), 3), AckStep::Refused(17));
    assert_eq!(wait_for_ack(&error(i32::MIN, 3), 3), AckStep::Refused(i32::MIN));
    assert_eq!(wait_for_ack(&error(0, 4), 3), AckStep::Wait);
    assert_eq!(
        wait_for_ack(&message(3, 0, 3, &[0, 0, 0, 0]), 3),
        AckStep::Accepted
    );
    assert_eq!(wait_for_ack(&message(1, 0, 3, &[]), 3), AckStep::Wait);
    assert_eq!(wait_for_ack(&message(4, 0, 3, &[1]), 3), AckStep::Wait);
}

#[test]
fn messages_that_cannot_be_read() {
    assert_eq!(wait_for_ack(&[], 0), AckStep::Malformed);
    assert_eq!(wait_for_ack(&message(2, 0, 0, &[0]), 0), AckStep::Malformed);
    assert_eq!(wait_for_ack(&message(23, 0, 0, &[]), 0), AckStep::Malformed);
    let mut long = error(0, 0);
    long[..4].copy_from_slice(&ne32(1000));
    assert_eq!(wait_for_ack(&long, 0), AckStep::Malformed);
    assert_eq!(best_route_index(&long, 0), LookupStep::NoRoute);
}

fn route_answer(kind: u16, attributes: &[Vec<u8>]) -> Vec<u8> {
    let mut payload = vec![2, 32, 0, 0, 254, 0, 0, 1];
    payload.extend_from_slice(&ne32(0));
    for a in attributes {
        payload.extend_from_slice(a);
    }
    message(kind, 0, 6, &payload)
}

#[test]
fn the_interface_of_the_best_route() {
    let answer = route_answer(24, &[attribute(1, &[8, 8, 8, 8]), attribute(4, &ne32(2))]);
    assert_eq!(best_route_index(&answer, 6), LookupStep::Found(2));
    assert_eq!(best_route_index(&answer, 7), LookupStep::Wait);
    assert_eq!(wait_for_ack(&answer, 6), AckStep::Wait);
    let get = route_answer(26, &[attribute(4, &ne32(3)), attribute(4, &ne32(4))]);
    assert_eq!(best_route_index(&get, 6), LookupStep::Found(3));
    let without = route_answer(24, &[attribute(1, &[8, 8, 8, 8])]);
    assert_eq!(best_route_index(&without, 6), LookupStep::Wait);
    let deleted = route_answer(25, &[attribute(4, &ne32(3))]);
    assert_eq!(best_route_index(&deleted, 6), LookupStep::Wait);
    assert_eq!(best_route_index(&error(-101, 6), 6), LookupStep::NoRoute);
    assert_eq!(best_route_index(&error(0, 6), 6), LookupStep::NoRoute);
    assert_eq!(
        best_route_index(&message(3, 0, 6, &[0; 4]), 6),
        LookupStep::NoRoute
    );
}

#[test]
fn routes_with_several_hops_are_read() {
    let mut hop = ne16(16).to_vec();
    hop.extend_from_slice(&[0, 0]);
    hop.extend_from_slice(&ne32(5));
    hop.extend(attribute(5, &[10, 0, 0, 1]));
    let answer = route_answer(24, &[attribute(9, &hop), attribute(4, &ne32(2))]);
    assert_eq!(best_route_index(&answer, 6), LookupStep::Found(2));
}

#[test]
fn attributes_that_are_too_short_are_malformed() {
    let realm = route_answer(24, &[attribute(11, &[1]), attribute(4, &ne32(2))]);
    assert_eq!(best_route_index(&realm, 6), LookupStep::NoRoute);
    let mut hop = ne16(4).to_vec();
    hop.extend_from_slice(&[0; 6]);
    let hops = route_answer(24, &[attribute(9, &hop), attribute(4, &ne32(2))]);
    assert_eq!(best_route_index(&hops, 6), LookupStep::NoRoute);
    assert_eq!(wait_for_ack(&hops, 6), AckStep::Malformed);
    let oif = route_answer(24, &[attribute(4, &[1, 2])]);
    assert_eq!(best_route_index(&oif, 6), LookupStep::NoRoute);
}

#[test]
fn decoded_messages_decide() {
    let reply = |body| Incoming::Reply(RouteReply { sequence: 1, body });
    assert_eq!(ack_step(&reply(RouteBody::Error(0)), 1), AckStep::Accepted);
    assert_eq!(ack_step(&reply(RouteBody::Error(-1)), 1), AckStep::Refused(1));
    assert_eq!(ack_step(&reply(RouteBody::Done), 1), AckStep::Accepted);
    assert_eq!(ack_step(&reply(RouteBody::Other), 1), AckStep::Wait);
    assert_eq!(ack_step(&Incoming::Foreign, 1), AckStep::Wait);
    assert_eq!(ack_step(&Incoming::Malformed, 1), AckStep::Malformed);
    let route = reply(RouteBody::Route(vec![None, Some(8), Some(9)]));
    assert_eq!(lookup_step(&route, 1), LookupStep::Found(8));
    assert_eq!(lookup_step(&route, 2), LookupStep::Wait);
    assert_eq!(lookup_step(&reply(RouteBody::Route(vec![])), 1), LookupStep::Wait);
}

#[test]
fn what_is_there_already_was_added() {
    assert_eq!(idempotent_already_exists(AckStep::Refused(17)), AckStep::Accepted);
    assert_eq!(idempotent_already_exists(AckStep::Refused(1)), AckStep::Refused(1));
    assert_eq!(idempotent_already_exists(AckStep::Wait), AckStep::Wait);
}

#[test]
fn what_is_gone_already_was_deleted() {
    for errno in [3, 2, 107] {
        assert_eq!(idempotent_already_gone(AckStep::Refused(errno)), AckStep::Accepted);
    }
    assert_eq!(idempotent_already_gone(AckStep::Refused(17)), AckStep::Refused(17));
    assert_eq!(idempotent_already_gone(AckStep::Malformed), AckStep::Malformed);
}

/// The name and the kind of a failed step.
fn net_config(e: Error) -> (String, IoKind) {
    match e {
        Error::NetConfig { op, source } => (op, source.kind),
        other => panic!("expected NetConfig, got {other:?}"),
    }
}

#[test]
fn a_device_that_cannot_be_opened() {
    let denied = || Err(IoFailure::new(IoKind::PermissionDenied, "no"));
    let missing = || Err(IoFailure::new(IoKind::NotFound, "no"));
    let failure = |step, outcome| open_next(step, outcome).unwrap_err();

    assert!(matches!(failure(OpenStep::Open, denied()), Error::NotElevated));
    assert!(matches!(failure(OpenStep::Attach, denied()), Error::NotElevated));
    assert_eq!(
        net_config(failure(OpenStep::Open, missing())),
        ("open(/dev/net/tun)".to_string(), IoKind::NotFound)
    );
    assert_eq!(
        net_config(failure(OpenStep::Attach, missing())),
        ("TUNSETIFF".to_string(), IoKind::NotFound)
    );
    assert_eq!(
        net_config(failure(OpenStep::SetNonblocking, denied())),
        ("fcntl(O_NONBLOCK)".to_string(), IoKind::PermissionDenied)
    );
    assert_eq!(
        net_config(failure(OpenStep::FindIndex, missing())),
        ("if_nametoindex".to_string(), IoKind::NotFound)
    );
}

#[test]
fn opening_goes_on_without_the_node_and_the_mask() {
    assert_eq!(open_start(true), OpenStep::Open);
    assert_eq!(open_start(false), OpenStep::CreateNode);
    let lost = || Err(IoFailure::new(IoKind::PermissionDenied, "no"));
    assert!(matches!(open_next(OpenStep::CreateNode, lost()), Ok(OpenNext::Do(OpenStep::Open))));
    assert!(matches!(
        open_next(OpenStep::ClearOffload, lost()),
        Ok(OpenNext::Do(OpenStep::SetNonblocking))
    ));
}

#[test]
fn opening_ends_with_the_index() {
    let mut step = open_start(true);
    let mut taken = vec![step];
    let index = loop {
        match open_next(step, Ok(7)).unwrap() {
            OpenNext::Do(next) => step = next,
            OpenNext::Opened(index) => break index,
        }
        taken.push(step);
    };
    assert_eq!(index, 7);
    assert_eq!(
        taken,
        vec![
            OpenStep::Open,
            OpenStep::Attach,
            OpenStep::ClearOffload,
            OpenStep::SetNonblocking,
            OpenStep::FindIndex,
        ]
    );
}

#[test]
fn a_deletion_names_the_route_that_was_added() {
    for (dest, prefix_len) in [("128.0.0.0", 1), ("8000::", 1), ("224.0.0.0", 4)] {
        let (added, handle) = add_route(1, 7, ip(dest), prefix_len);
        let deleted = delete_route(2, &handle);
        assert_eq!(added[16..], deleted[16..], "{dest}");
        assert_ne!(added[..16], deleted[..16], "{dest}");
    }
}

#[test]
fn sockets_are_pinned_by_name() {
    assert_eq!(pin_socket("eth0"), b"eth0\0".to_vec());
}

// ── Attribution ─────────────────────────────────────────────────────────────

#[test]
fn parses_socket_symlink_targets() {
    assert_eq!(socket_inode_of("socket:[123456]"), Some(123456));
    assert_eq!(socket_inode_of("socket:[0]"), Some(0));
    assert_eq!(socket_inode_of("/usr/bin/foo"), None);
    assert_eq!(socket_inode_of("socket:[abc]"), None);
    assert_eq!(socket_inode_of(""), None);
}

#[test]
fn socket_links_are_exact() {
    assert_eq!(socket_inode_of("socket:["), None);
    assert_eq!(socket_inode_of("socket:[]"), None);
    assert_eq!(socket_inode_of("socket:[1]x"), None);
    assert_eq!(socket_inode_of("socket:[18446744073709551615]"), Some(u64::MAX));
    assert_eq!(socket_inode_of("socket:[18446744073709551616]"), None);
}

#[test]
fn wildcard_address_matches_family() {
    assert_eq!(
        wildcard(IpAddr::V4(Ipv4Addr::new(10, 63, 7, 1))),
        IpAddr::V4(Ipv4Addr::from_bits(0))
    );
    assert_eq!(
        wildcard(IpAddr::V6(Ipv6Addr::from_bits(1))),
        IpAddr::V6(Ipv6Addr::from_bits(0))
    );
}

fn endpoints() -> (SocketAddr, SocketAddr) {
    ("10.63.7.1:5000".parse().unwrap(), "8.8.8.8:443".parse().unwrap())
}

#[test]
fn tcp_sockets_are_named_from_their_own_side() {
    let (local, remote) = endpoints();
    let name = |source_address, destination_port, destination_address| SocketName {
        source_port: 5000,
        destination_port,
        source_address,
        destination_address,
    };
    assert_eq!(socket_name(local, remote, false, 0), name(local.ip, 443, remote.ip));
    assert_eq!(socket_name(local, remote, false, 1), name(local.ip, 0, ip("0.0.0.0")));
    assert_eq!(socket_name(local, remote, false, 2), name(ip("0.0.0.0"), 0, ip("0.0.0.0")));
}

#[test]
fn udp_sockets_are_named_as_a_received_packet_would() {
    let (local, remote) = endpoints();
    let name = |source_port, source_address, destination_address| SocketName {
        source_port,
        destination_port: 5000,
        source_address,
        destination_address,
    };
    assert_eq!(socket_name(local, remote, true, 0), name(443, local.ip, remote.ip));
    assert_eq!(socket_name(local, remote, true, 1), name(0, local.ip, local.ip));
    assert_eq!(socket_name(local, remote, true, 2), name(0, ip("0.0.0.0"), ip("0.0.0.0")));
}

#[test]
fn a_query_asks_for_one_socket() {
    let (local, remote) = endpoints();
    let mut payload = vec![2, 6, 0, 0];
    payload.extend_from_slice(&ne32(0xffe));
    payload.extend_from_slice(&5000u16.to_be_bytes());
    payload.extend_from_slice(&443u16.to_be_bytes());
    payload.extend_from_slice(&[10, 63, 7, 1, 0, 0, 0, 0, 0, 0, 0, 0, 0, 0, 0, 0]);
    payload.extend_from_slice(&[8, 8, 8, 8, 0, 0, 0, 0, 0, 0, 0, 0, 0, 0, 0, 0]);
    payload.extend_from_slice(&ne32(0));
    payload.extend_from_slice(&[0xff; 8]);
    assert_eq!(
        query_socket_inode(local, remote, false, 0),
        Some(message(20, 1, 1, &payload))
    );
    let v6: SocketAddr = "[fd00:ace:7::1]:9".parse().unwrap();
    let query = query_socket_inode(v6, v6, true, 2).unwrap();
    assert_eq!(query.len(), 72);
    assert_eq!(&query[16..18], &[10, 17]);
    assert_eq!(query_socket_inode(local, remote, false, 3), None);
}

fn socket_answer(inode: u32, sequence: u32) -> Vec<u8> {
    let mut payload = vec![0; 72];
    payload[0] = 2;
    payload[68..].copy_from_slice(&ne32(inode));
    message(20, 0, sequence, &payload)
}

#[test]
fn a_socket_is_answered_with_its_inode() {
    assert_eq!(query_one(&socket_answer(4711, 1)), QueryStep::Found(4711));
    assert_eq!(query_one(&socket_answer(0, 1)), QueryStep::NotFound);
    assert_eq!(query_one(&socket_answer(4711, 2)), QueryStep::Wait);
    assert_eq!(query_one(&error(-2, 1)), QueryStep::NotFound);
    assert_eq!(query_one(&message(1, 0, 1, &[])), QueryStep::Wait);
    assert_eq!(query_one(&[]), QueryStep::NotFound);
    let mut with_attribute = socket_answer(4711, 1);
    with_attribute.extend(attribute(8, &[1]));
    let len = with_attribute.len() as u32;
    with_attribute[..4].copy_from_slice(&ne32(len));
    assert_eq!(query_one(&with_attribute), QueryStep::Found(4711));
}

#[test]
fn decoded_answers_decide() {
    let reply = |body| Some(DiagReply { sequence: 1, body });
    assert_eq!(query_step(reply(DiagBody::Socket(9))), QueryStep::Found(9));
    assert_eq!(query_step(reply(DiagBody::Socket(0))), QueryStep::NotFound);
    assert_eq!(query_step(reply(DiagBody::Error)), QueryStep::NotFound);
    assert_eq!(query_step(reply(DiagBody::Other)), QueryStep::Wait);
    assert_eq!(query_step(None), QueryStep::NotFound);
}

#[test]
fn the_first_inode_counts() {
    assert_eq!(next_attempt(0, Some(5)), Next::Stop(Some(5)));
    assert_eq!(next_attempt(0, None), Next::Ask(1));
    assert_eq!(next_attempt(1, None), Next::Ask(2));
    assert_eq!(next_attempt(2, None), Next::Stop(None));
}

fn links() -> Vec<(u32, String)> {
    vec![
        (10, "/dev/null".to_string()),
        (10, "socket:[100]".to_string()),
        (11, "socket:[100]".to_string()),
        (11, "socket:[101]".to_string()),
        (12, "pipe:[102]".to_string()),
    ]
}

#[test]
fn a_walk_finds_every_socket() {
    let mut table = InodeTable::new();
    assert_eq!(table.inode_to_pid(100), None);
    table.scan_socket_inodes(&links());
    assert_eq!(table.inode_to_pid(100), Some(10));
    assert_eq!(table.inode_to_pid(101), Some(11));
    assert_eq!(table.inode_to_pid(102), None);
    table.scan_socket_inodes(&vec![]);
    assert_eq!(table.inode_to_pid(100), None);
}

#[test]
fn an_attribution_goes_from_cache_to_walk() {
    let (local, remote) = endpoints();
    let tcp = Flow { local, remote, is_udp: false };
    let udp = Flow { local, remote, is_udp: true };
    let query = |flow: Flow, n| query_socket_inode(local, remote, flow.is_udp, n).unwrap();
    let mut table = LinuxProcessTable::new();

    // Nothing is known: three queries, and then a walk.
    match table.resolve_pid(tcp, 0) {
        ResolveStep::Ask(0, octets) => assert_eq!(octets, query(tcp, 0)),
        other => panic!("expected the first query, got {other:?}"),
    }
    match table.resolve_answered(tcp, 0, None, 0) {
        ResolveStep::Ask(1, octets) => assert_eq!(octets, query(tcp, 1)),
        other => panic!("expected the second query, got {other:?}"),
    }
    match table.resolve_answered(tcp, 1, None, 0) {
        ResolveStep::Ask(2, octets) => assert_eq!(octets, query(tcp, 2)),
        other => panic!("expected the third query, got {other:?}"),
    }
    assert!(matches!(table.resolve_answered(tcp, 2, Some(101), 0), ResolveStep::Walk(101)));
    assert_eq!(table.resolve_walked(tcp, 101, &links(), 0), Some(11));

    // The process is remembered for the endpoint, and the walk for other sockets.
    assert!(matches!(table.resolve_pid(tcp, 1), ResolveStep::Done(Some(11))));
    assert!(matches!(table.resolve_pid(udp, 1), ResolveStep::Ask(0, _)));
    assert!(matches!(
        table.resolve_answered(udp, 0, Some(100), 1),
        ResolveStep::Done(Some(10))
    ));
    assert!(matches!(table.resolve_pid(udp, 2), ResolveStep::Done(Some(10))));
    assert_eq!(table.resolve_walked(tcp, 7, &links(), 1), None);
    assert!(matches!(table.resolve_pid(tcp, 1), ResolveStep::Done(Some(11))));
}

#[test]
fn an_attribution_gives_up_after_the_last_query() {
    let (local, remote) = endpoints();
    let flow = Flow { local, remote, is_udp: true };
    let mut table = LinuxProcessTable::new();
    assert!(matches!(table.resolve_answered(flow, 2, None, 0), ResolveStep::Done(None)));
}

#[test]
fn processes_are_numbered_entries() {
    assert_eq!(pid_of_entry("1234"), Some(1234));
    assert_eq!(pid_of_entry("self"), None);
    assert_eq!(pid_of_entry("4294967295"), Some(u32::MAX));
    assert_eq!(pid_of_entry("4294967296"), None);
}

#[test]
fn unnamed_processes_are_called_after_their_executable() {
    assert_eq!(process_name(Some("\n"), Some("/usr/bin/curl")).as_deref(), Some("curl"));
    assert_eq!(process_name(None, Some("/usr/bin/foo")).as_deref(), Some("foo"));
    assert_eq!(process_name(Some(""), None), None);
    assert_eq!(process_name(None, None), None);
    assert_eq!(exe_name("/usr/bin/app (deleted)").as_deref(), Some("app (deleted)"));
    for path in ["/usr/bin/", "/usr/bin/.", "/usr/bin//./", "bin"] {
        assert_eq!(exe_name(path).as_deref(), Some("bin"), "{path}");
        let std_name = std::path::Path::new(path).file_name().unwrap();
        assert_eq!(std_name.to_str(), Some("bin"));
    }
    for path in ["", "/", ".", "/usr/.."] {
        assert_eq!(exe_name(path), None, "{path}");
        assert_eq!(std::path::Path::new(path).file_name(), None);
    }
}

#[test]
fn process_names_are_trimmed() {
    assert_eq!(comm_name("chrome\n").as_deref(), Some("chrome"));
    assert_eq!(
        LinuxProcessTable::process_name(Some("Web Content\n"), Some("/opt/firefox")).as_deref(),
        Some("Web Content")
    );
    assert_eq!(comm_name(" \n"), None);
}

#[test]
fn both_capabilities_are_needed() {
    let both = (1 << 12) | (1 << 13);
    assert!(is_privileged(Some([both, 0]), 1000));
    assert!(!is_privileged(Some([1 << 12, 0]), 0));
    assert!(!is_privileged(Some([1 << 13, both]), 0));
    assert!(is_privileged(None, 0));
    assert!(!is_privileged(None, 1000));
    assert!(has_capability([0, 1 << 1], 33));
    assert!(!has_capability([1 << 1, 0], 33));
    assert!(LinuxBackend::is_privileged(Some([both, 0]), 1000));
}

/// Messages on other things are waited through, unless they do not even fit.
#[test]
fn messages_on_other_things_are_waited_through() {
    let with = |kind: u16, header: usize, rest: &[u8]| {
        let mut payload = vec![0u8; header];
        payload.extend_from_slice(rest);
        message(kind, 0, 6, &payload)
    };
    for (kind, header) in [
        (16u16, 16usize),
        (20, 8),
        (28, 12),
        (32, 12),
        (36, 20),
        (44, 20),
        (52, 12),
        (64, 4),
        (88, 4),
        (100, 20),
    ] {
        let mtu = attribute(4, &ne32(1500));
        assert_eq!(wait_for_ack(&with(kind, header, &[]), 6), AckStep::Wait, "{kind}");
        assert_eq!(best_route_index(&with(kind, header, &mtu), 6), LookupStep::Wait, "{kind}");
        for bad in [
            with(kind, header - 1, &[]),
            with(kind, header, &[1]),
            with(kind, header, &mtu[..7]),
        ] {
            assert_eq!(wait_for_ack(&bad, 6), AckStep::Malformed, "{kind}");
            assert_eq!(best_route_index(&bad, 6), LookupStep::NoRoute, "{kind}");
        }
    }
    // A request for links may be cut short.
    assert_eq!(wait_for_ack(&with(18, 4, &[]), 6), AckStep::Wait);
    assert_eq!(wait_for_ack(&with(16, 4, &[]), 6), AckStep::Malformed);
}

/// The interface is the first that a route names, in an answer as the kernel gives
/// it; a deleted route names none.
#[test]
fn a_plain_route_names_its_interface() {
    let attributes = [
        attribute(15, &ne32(254)),
        attribute(1, &[8, 8, 8, 8]),
        attribute(4, &ne32(7)),
        attribute(4, &ne32(9)),
        attribute(5, &[10, 0, 0, 1]),
        attribute(7, &[10, 0, 0, 2]),
        attribute(25, &ne32(0)),
        attribute(12, &[0; 32]),
    ];
    let mut octets = route_answer(24, &attributes);
    octets[16] = 2;
    assert_eq!(best_route_index(&octets, 6), LookupStep::Found(7));
    let mut octets = route_answer(25, &attributes);
    octets[16] = 2;
    assert_eq!(best_route_index(&octets, 6), LookupStep::Wait);
}
