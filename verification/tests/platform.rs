//! Addressing, routing and interface choice; the tunnel device.

use ace_tun::addr::{IpAddr, Ipv4Addr, Ipv6Addr, SocketAddr};
use ace_tun::device::{
    frame_packet, on_read, on_write, unframe_packet, ReadAction, WriteAction, MAX_PACKET,
};
use ace_tun::error::{Error, IoFailure, IoKind};
use ace_tun::platform::attribution::{Endpoint, EndpointCache, CACHE_TTL};
use ace_tun::platform::{
    check_privileged, fill_if_name, PhysicalInterface, Route, Setup, SetupStep, Via, TUN_IPV4,
    TUN_IPV6, TUN_MTU, V4_SPLIT_DEFAULT, V6_SPLIT_DEFAULT,
};

/// The tunnel addresses must not fall inside the loopback or link-local
/// ranges, which are handled specially by the OS and would never route.
fn assert_routable_private_space() {
    let v4 = Ipv4Addr::from_bits(TUN_IPV4);
    assert_eq!(v4, Ipv4Addr::new(10, 63, 7, 1));
    assert!(v4.is_private());
    assert!(!v4.is_loopback());
    assert!(!v4.is_link_local());
    // fd00::/8 is unique-local.
    assert_eq!(Ipv6Addr::from_bits(TUN_IPV6).octets()[0], 0xfd);
}

#[test]
fn adapter_tunnel_addresses_are_routable_private_space() {
    assert_routable_private_space();
}

#[test]
fn mod_tunnel_addresses_are_routable_private_space() {
    assert_routable_private_space();
}

/// The device read buffer is sized from the same constant the adapter is
/// configured with; if that ever drifts, framing breaks silently.
#[test]
fn adapter_mtu_is_within_ipstack_limits() {
    assert!(TUN_MTU >= 1280, "below IPv6 minimum MTU");
}

#[test]
fn mod_mtu_is_within_ipstack_limits() {
    assert!(TUN_MTU >= 1280, "below IPv6 minimum MTU");
}

/// The split-default prefixes must cover the entire address space, or some
/// traffic would silently keep using the physical default route.
#[test]
fn split_default_covers_whole_v4_space() {
    let [(a, alen), (b, blen)] = V4_SPLIT_DEFAULT;
    assert_eq!((alen, blen), (1, 1));
    assert_eq!(Ipv4Addr::from_bits(a).octets()[0] >> 7, 0);
    assert_eq!(Ipv4Addr::from_bits(b).octets()[0] >> 7, 1);
}

#[test]
fn split_default_covers_whole_v6_space() {
    let [(a, alen), (b, blen)] = V6_SPLIT_DEFAULT;
    assert_eq!((alen, blen), (1, 1));
    assert_eq!(Ipv6Addr::from_bits(a).octets()[0] >> 7, 0);
    assert_eq!(Ipv6Addr::from_bits(b).octets()[0] >> 7, 1);
}

/// Interface discovery must cope with a machine in any state; it is allowed to
/// find nothing (e.g. no IPv6 connectivity).
#[test]
fn discover_physical_interface_is_infallible() {
    for v4 in [None, Some(0), Some(1), Some(u32::MAX)] {
        for v6 in [None, Some(0), Some(7)] {
            let iface = PhysicalInterface::discover(v4, v6);
            if let Some(idx) = iface.v4_index {
                assert_ne!(idx, 0, "a discovered interface index is never 0");
            }
            if let Some(idx) = iface.v6_index {
                assert_ne!(idx, 0, "a discovered interface index is never 0");
            }
        }
    }
    assert_eq!(PhysicalInterface::discover(Some(3), None).v4_index, Some(3));
}

/// Loopback destinations must never be bound to an interface: loopback traffic
/// cannot enter the tunnel, and a scoped lookup to it fails.
#[test]
fn dial_loopback_destinations_are_not_pinned() {
    let iface = PhysicalInterface { v4_index: Some(0xDEAD), v6_index: Some(0xDEAD) };
    assert_eq!(iface.pin_for("127.0.0.1".parse().unwrap()), None);
    assert_eq!(iface.pin_for("::1".parse().unwrap()), None);
    assert_eq!(iface.pin_for("8.8.8.8".parse().unwrap()), Some(0xDEAD));
}

#[test]
fn each_family_has_its_interface() {
    let iface = PhysicalInterface { v4_index: Some(1), v6_index: None };
    assert!(!iface.is_empty());
    assert!(PhysicalInterface::default().is_empty());
    assert_eq!(iface.index_for("1.2.3.4".parse().unwrap()), Some(1));
    assert_eq!(iface.index_for("::2".parse().unwrap()), None);
}

#[test]
fn privileges_come_first() {
    assert!(check_privileged(true).is_ok());
    assert!(matches!(check_privileged(false), Err(Error::NotElevated)));
}

// ── Adapter setup ───────────────────────────────────────────────────────────

fn all_steps(mut setup: Setup) -> (Vec<SetupStep>, Vec<Route>) {
    let mut steps = Vec::new();
    while let Some(step) = setup.next() {
        steps.push(step);
        setup.succeeded();
    }
    let removed = setup.remove_routes();
    assert!(setup.remove_routes().is_empty());
    (steps, removed)
}

fn is_route(step: &SetupStep) -> bool {
    matches!(step, SetupStep::AddRoute(_))
}

#[test]
fn routes_come_last_and_leave_first() {
    let iface = PhysicalInterface { v4_index: Some(3), v6_index: Some(4) };
    let (steps, removed) = all_steps(Setup::unix(true, &iface));
    assert_eq!(steps.len(), 9);
    assert!(steps[..3].iter().all(|s| !is_route(s)));
    assert!(steps[3..].iter().all(is_route));
    let mut installed: Vec<Route> = steps
        .iter()
        .filter_map(|s| match s {
            SetupStep::AddRoute(route) => Some(*route),
            _ => None,
        })
        .collect();
    assert_eq!(installed[0].via, Via::Physical(3));
    assert_eq!(installed[0].prefix_len, 4);
    assert_eq!(installed[1].via, Via::Physical(4));
    assert_eq!(installed[5].via, Via::Tunnel);
    installed.reverse();
    assert_eq!(removed, installed);
}

#[test]
fn without_ipv6_nothing_of_it_is_set_up() {
    let iface = PhysicalInterface { v4_index: None, v6_index: Some(4) };
    let (steps, removed) = all_steps(Setup::unix(false, &iface));
    assert_eq!(steps.len(), 4);
    assert!(removed.iter().all(|r| !r.dest.is_ipv6()));
    let (steps, removed) = all_steps(Setup::windows(false, 1));
    assert_eq!(steps.len(), 6);
    assert_eq!(steps[3], SetupStep::StartSession);
    assert_eq!(removed.len(), 2);
}

#[test]
fn windows_removes_in_the_order_of_installation() {
    let (steps, removed) = all_steps(Setup::windows(true, 1));
    let installed: Vec<Route> = steps
        .iter()
        .filter_map(|s| match s {
            SetupStep::AddRoute(route) => Some(*route),
            _ => None,
        })
        .collect();
    assert_eq!(removed, installed);
    assert_eq!(steps[2], SetupStep::SetMetric(false, 1));
    assert_eq!(steps[4], SetupStep::SetMetric(true, 1));
}

#[test]
fn a_failed_step_names_itself() {
    let iface = PhysicalInterface { v4_index: None, v6_index: None };
    let mut setup = Setup::unix(false, &iface);
    let op = |setup: &Setup| match setup.failed(IoFailure::new(IoKind::Other, "x")) {
        Error::NetConfig { op, .. } => op,
        other => panic!("expected NetConfig, got {other:?}"),
    };
    assert_eq!(op(&setup), "add_address(v4)");
    setup.succeeded();
    assert_eq!(op(&setup), "set_link_mtu_and_up");
    setup.succeeded();
    assert_eq!(op(&setup), "add_route(0.0.0.0/1)");
    setup.succeeded();
    assert_eq!(op(&setup), "add_route(128.0.0.0/1)");
}

// ── The device ──────────────────────────────────────────────────────────────

#[test]
fn packets_are_framed_and_unframed() {
    let v4 = [0x45, 1, 2];
    let v6 = [0x60, 3];
    assert_eq!(frame_packet(&v4), vec![0, 0, 0, 2, 0x45, 1, 2]);
    assert_eq!(frame_packet(&v6), vec![0, 0, 0, 30, 0x60, 3]);
    assert_eq!(unframe_packet(&frame_packet(&v4)), Some(&v4[..]));
    assert_eq!(unframe_packet(&[0, 0, 0]), None);
    assert_eq!(unframe_packet(&[0, 0, 0, 2]), Some(&[][..]));
}

#[test]
fn packets_that_do_not_fit_are_dropped() {
    assert_eq!(on_read(1500, 1500), ReadAction::Deliver);
    assert_eq!(on_read(1501, 1500), ReadAction::Drop);
    assert_eq!(on_write(0), WriteAction::Nothing);
    assert_eq!(on_write(MAX_PACKET), WriteAction::Send);
    assert_eq!(on_write(MAX_PACKET + 1), WriteAction::Refuse);
}

// ── Attribution ─────────────────────────────────────────────────────────────

fn endpoint(text: &str, is_udp: bool) -> Endpoint {
    let addr: SocketAddr = text.parse().unwrap();
    Endpoint { ip: addr.ip, port: addr.port, is_udp }
}

#[test]
fn an_owner_is_trusted_for_a_moment() {
    let mut cache = EndpointCache::new();
    let e = endpoint("10.63.7.1:5000", false);
    assert_eq!(cache.lookup(e, 0), None);
    cache.remember(e, 42, 1000);
    assert_eq!(cache.lookup(e, 1000), Some(42));
    assert_eq!(cache.lookup(e, 999), Some(42));
    assert_eq!(cache.lookup(e, 999 + CACHE_TTL), Some(42));
    assert_eq!(cache.lookup(e, 1000 + CACHE_TTL), None);
    cache.remember(e, 43, 1000 + CACHE_TTL);
    assert_eq!(cache.lookup(e, 1000 + CACHE_TTL), Some(43));
}

#[test]
fn endpoints_are_kept_apart() {
    let mut cache = EndpointCache::new();
    cache.remember(endpoint("10.0.0.1:5000", false), 1, 0);
    cache.remember(endpoint("10.0.0.1:5000", true), 2, 0);
    cache.remember(endpoint("10.0.0.2:5000", false), 3, 0);
    cache.remember(endpoint("[::1]:5000", false), 4, 0);
    cache.remember(endpoint("10.0.0.1:5001", false), 5, 0);
    cache.remember(endpoint("10.0.0.2:5000", false), 6, 0);
    assert_eq!(cache.lookup(endpoint("10.0.0.1:5000", false), 0), Some(1));
    assert_eq!(cache.lookup(endpoint("10.0.0.1:5000", true), 0), Some(2));
    assert_eq!(cache.lookup(endpoint("10.0.0.2:5000", false), 0), Some(6));
    assert_eq!(cache.lookup(endpoint("[::1]:5000", false), 0), Some(4));
    assert_eq!(cache.lookup(endpoint("10.0.0.1:5001", false), 0), Some(5));
    assert_eq!(cache.lookup(endpoint("10.0.0.2:5000", true), 0), None);
    assert!(IpAddr::V4(Ipv4Addr::new(10, 0, 0, 1)) != IpAddr::V6(Ipv6Addr::from_bits(0x0a00_0001)));
}

#[test]
fn interface_names_fill_their_field() {
    assert_eq!(fill_if_name("utun4"), b"utun4\0\0\0\0\0\0\0\0\0\0\0".to_vec());
    assert_eq!(fill_if_name(""), vec![0; 16]);
    assert_eq!(fill_if_name("abcdefghijklmnopq"), b"abcdefghijklmnop".to_vec());
}
