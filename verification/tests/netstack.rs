//! What happens to a flow.

use ace_tun::addr::{IpAddr, Ipv4Addr, Ipv6Addr, SocketAddr};
use ace_tun::config::ProxyConfig;
use ace_tun::dns::DnsCache;
use ace_tun::netstack::{
    accept, attributed_name, decide, domain_for, handle_tcp, handle_udp, is_group_address,
    open_tcp, open_udp, proxy_unavailable, report, snoop_datagram, udp_step, AcceptAction,
    Accepted, Decision, Flow, FlowFacts, TcpAction, UdpAction, UdpEvent, UdpStep,
};
use ace_tun::platform::PhysicalInterface;
use ace_tun::proxy::Target;
use ace_tun::rule::{Rule, RuleAction, RuleProtocol, RuleSet};
use ace_tun::state::{QuicPolicy, Shared, Stats};

fn shared_without_interface(rules: &[Rule], proxy_configs: Vec<ProxyConfig>) -> Shared {
    Shared {
        rules: RuleSet::new(rules),
        proxy_configs,
        localhost_via_proxy: false,
        quic_port: 443,
        quic_policy: QuicPolicy::Drop,
        current_pid: 4242,
        iface: None,
    }
}

fn shared_with_interface(rules: &[Rule], proxy_configs: Vec<ProxyConfig>) -> Shared {
    let mut shared = shared_without_interface(rules, proxy_configs);
    shared.iface = Some(PhysicalInterface {
        v4_index: Some(12),
        v6_index: Some(12),
    });
    shared
}


fn dest(ip: &str, port: u16) -> SocketAddr {
    format!("{ip}:{port}").parse().unwrap()
}

fn facts<'a>(d: SocketAddr, is_udp: bool, pid: Option<u32>, name: &'a str) -> FlowFacts<'a> {
    FlowFacts {
        dest: d,
        is_udp,
        pid,
        process_name: name,
        domain: None,
    }
}

/// Browser TCP 443 must reach the proxy — the core happy path.
#[test]
fn browser_tcp_443_goes_to_proxy() {
    let rules = [
        Rule::new("chrome.exe;brave.exe")
            .ports("80;443")
            .protocol(RuleProtocol::Tcp)
            .action(RuleAction::Proxy),
        Rule::new("*").action(RuleAction::Direct),
    ];
    let mut cfg = ProxyConfig::http("127.0.0.1", 8080);
    cfg.config_id = 1;
    let shared = shared_with_interface(&rules, vec![cfg]);

    let d = dest("140.82.113.4", 443);
    assert!(matches!(
        decide(&shared, &facts(d, false, Some(999), "brave.exe")),
        Decision::Proxy(_)
    ));
}

/// A non-browser doing TCP 443 falls through to the catch-all: direct.
#[test]
fn non_browser_tcp_is_direct() {
    let rules = [
        Rule::new("chrome.exe")
            .ports("443")
            .protocol(RuleProtocol::Tcp)
            .action(RuleAction::Proxy),
        Rule::new("*").action(RuleAction::Direct),
    ];
    let shared = shared_with_interface(&rules, vec![]);
    let d = dest("140.82.113.4", 443);
    assert_eq!(
        decide(&shared, &facts(d, false, Some(999), "curl.exe")),
        Decision::Direct
    );
}

/// A flow whose owning process cannot be identified must still reach the
/// internet, not be dropped.
#[test]
fn unattributed_tcp_flow_fails_open() {
    let rules = [
        Rule::new("chrome.exe")
            .ports("443")
            .protocol(RuleProtocol::Tcp)
            .action(RuleAction::Proxy),
        Rule::new("*").action(RuleAction::Direct),
    ];
    let shared = shared_with_interface(&rules, vec![]);
    let d = dest("140.82.113.4", 443);
    assert_eq!(
        decide(&shared, &facts(d, false, None, "")),
        Decision::Direct
    );
}

/// With no rules at all, everything still flows.
#[test]
fn empty_ruleset_fails_open() {
    let shared = shared_with_interface(&[], vec![]);
    let d = dest("1.1.1.1", 443);
    assert_eq!(
        decide(&shared, &facts(d, false, None, "")),
        Decision::Direct
    );
}

/// QUIC must be dropped even when the process is unknown.
#[test]
fn unattributed_quic_is_dropped() {
    let rules = [Rule::new("*").action(RuleAction::Direct)];
    let shared = shared_with_interface(&rules, vec![]);
    let d = dest("157.240.1.35", 443);
    assert_eq!(decide(&shared, &facts(d, true, None, "")), Decision::Block);
}

/// QUIC over IPv6 is dropped too.
#[test]
fn quic_over_ipv6_is_dropped() {
    let rules = [Rule::new("*").action(RuleAction::Direct)];
    let shared = shared_with_interface(&rules, vec![]);
    let d = SocketAddr::new(
        IpAddr::V6(Ipv6Addr::new(0x2a03, 0x2880, 0xf10c, 0, 0, 0, 0, 0x35)),
        443,
    );
    assert_eq!(decide(&shared, &facts(d, true, None, "")), Decision::Block);
}

/// A wildcard Direct rule must not resurrect QUIC.
#[test]
fn quic_drop_overrides_a_matching_direct_rule() {
    let rules = [Rule::new("*").action(RuleAction::Direct)];
    let shared = shared_with_interface(&rules, vec![]);
    let d = dest("157.240.1.35", 443);
    assert_eq!(
        decide(&shared, &facts(d, true, None, "chrome.exe")),
        Decision::Block
    );
}

/// mDNS, SSDP and LLMNR are dropped rather than relayed: relaying them would
/// cost a pinned unicast socket per packet.
#[test]
fn multicast_destinations_are_dropped() {
    let rules = [Rule::new("*").action(RuleAction::Direct)];
    let shared = shared_with_interface(&rules, vec![]);

    for (ip, port) in [
        ("224.0.0.251", 5353u16),  // mDNS
        ("239.255.255.250", 1900), // SSDP
        ("224.0.0.252", 5355),     // LLMNR
    ] {
        assert_eq!(
            decide(&shared, &facts(dest(ip, port), true, Some(9), "")),
            Decision::Block,
            "{ip}:{port} should be dropped"
        );
    }
}

/// Broadcast (DHCP, NetBIOS) is dropped for the same reason.
#[test]
fn broadcast_destinations_are_dropped() {
    let rules = [Rule::new("*").action(RuleAction::Direct)];
    let shared = shared_with_interface(&rules, vec![]);
    assert_eq!(
        decide(
            &shared,
            &facts(dest("255.255.255.255", 67), true, Some(9), "")
        ),
        Decision::Block
    );
}

/// IPv6 multicast (ff00::/8) too — neighbour discovery, mDNS over v6.
#[test]
fn ipv6_multicast_is_dropped() {
    let rules = [Rule::new("*").action(RuleAction::Direct)];
    let shared = shared_with_interface(&rules, vec![]);
    let d = SocketAddr::new(
        IpAddr::V6(Ipv6Addr::new(0xff02, 0, 0, 0, 0, 0, 0, 0xfb)),
        5353,
    );
    assert_eq!(
        decide(&shared, &facts(d, true, Some(9), "")),
        Decision::Block
    );
}

/// Ordinary unicast must not be caught by the group-address check — that
/// would black-hole normal traffic.
#[test]
fn unicast_is_not_treated_as_a_group_address() {
    assert!(!is_group_address("140.82.113.4".parse().unwrap()));
    assert!(!is_group_address("8.8.8.8".parse().unwrap()));
    assert!(!is_group_address("2606:50c0:8000::153".parse().unwrap()));
    // 223.x is the last unicast /8 before the 224.0.0.0/4 multicast range.
    assert!(!is_group_address("223.255.255.255".parse().unwrap()));
    assert!(is_group_address("224.0.0.0".parse().unwrap()));
}

/// Non-QUIC UDP (e.g. DNS) is unaffected by the QUIC policy.
#[test]
fn dns_udp_is_not_dropped() {
    let rules = [Rule::new("*").action(RuleAction::Direct)];
    let shared = shared_with_interface(&rules, vec![]);
    let d = dest("1.1.1.1", 53);
    assert_eq!(decide(&shared, &facts(d, true, None, "")), Decision::Direct);
}

/// Allowing QUIC must actually let it through, so the policy is real.
#[test]
fn quic_allow_policy_lets_it_through() {
    let rules = [Rule::new("*").action(RuleAction::Direct)];
    let mut shared = shared_with_interface(&rules, vec![]);
    shared.quic_policy = QuicPolicy::Allow;
    let d = dest("157.240.1.35", 443);
    assert_eq!(decide(&shared, &facts(d, true, None, "")), Decision::Direct);
}

/// The loop guard: our own traffic is never sent back to the proxy, even
/// when a rule says every process should be proxied.
#[test]
fn own_process_always_goes_direct() {
    let rules = [Rule::new("*")
        .protocol(RuleProtocol::Tcp)
        .action(RuleAction::Proxy)];
    let mut cfg = ProxyConfig::http("127.0.0.1", 8080);
    cfg.config_id = 1;
    let shared = shared_with_interface(&rules, vec![cfg]);

    let me = shared.current_pid;
    let d = dest("140.82.113.4", 443);
    assert_eq!(
        decide(&shared, &facts(d, false, Some(me), "ace-engine.exe")),
        Decision::Direct
    );
}

/// Our own process is exempt from Block rules as well, or a VPN-process
/// rule matching our name would sever the engine from the internet.
#[test]
fn own_process_bypasses_block_rules() {
    let rules = [Rule::new("*").action(RuleAction::Block)];
    let shared = shared_with_interface(&rules, vec![]);
    let me = shared.current_pid;
    let d = dest("140.82.113.4", 443);
    assert_eq!(
        decide(&shared, &facts(d, false, Some(me), "")),
        Decision::Direct
    );
}

/// Even our own QUIC goes direct — the loop guard runs before the QUIC drop.
#[test]
fn own_process_quic_is_not_dropped() {
    let shared = shared_with_interface(&[], vec![]);
    let me = shared.current_pid;
    let d = dest("1.1.1.1", 443);
    assert_eq!(
        decide(&shared, &facts(d, true, Some(me), "")),
        Decision::Direct
    );
}

/// With an interface to pin to, our own traffic is relayed directly —
/// the normal case, and the counterpart to the drop test below.
#[test]
fn own_process_goes_direct_when_an_interface_exists() {
    let shared = shared_with_interface(&[], vec![]);
    let me = shared.current_pid;
    let d = dest("140.82.113.4", 443);
    assert_eq!(
        decide(&shared, &facts(d, false, Some(me), "")),
        Decision::Direct
    );
}

/// Without one, relaying our own flow would loop forever, so it is dropped.
#[test]
fn own_process_is_dropped_when_there_is_nothing_to_pin_to() {
    let shared = shared_without_interface(&[], vec![]);
    let me = shared.current_pid;
    let d = dest("140.82.113.4", 443);
    assert_eq!(
        decide(&shared, &facts(d, false, Some(me), "")),
        Decision::Block
    );
}

/// Our own loopback traffic (e.g. reaching the local proxy) is never at
/// risk of looping, so it is relayed even with no interface known.
#[test]
fn own_process_loopback_is_direct_without_an_interface() {
    let shared = shared_without_interface(&[], vec![]);
    let me = shared.current_pid;
    let d = SocketAddr::new(IpAddr::V4(Ipv4Addr::new(127, 0, 0, 1)), 8080);
    assert_eq!(
        decide(&shared, &facts(d, false, Some(me), "")),
        Decision::Direct
    );
}

/// Loopback stays local regardless of rules.
#[test]
fn loopback_is_direct() {
    let rules = [Rule::new("*")
        .protocol(RuleProtocol::Tcp)
        .action(RuleAction::Proxy)];
    let mut cfg = ProxyConfig::http("127.0.0.1", 8080);
    cfg.config_id = 1;
    let shared = shared_with_interface(&rules, vec![cfg]);
    let d = SocketAddr::new(IpAddr::V4(Ipv4Addr::new(127, 0, 0, 1)), 8080);
    assert_eq!(
        decide(&shared, &facts(d, false, Some(1), "chrome.exe")),
        Decision::Direct
    );
}

/// A VPN executable is blocked outright, on both transports.
#[test]
fn vpn_process_is_blocked() {
    let rules = [
        Rule::new("openvpn.exe;wireguard.exe").action(RuleAction::Block),
        Rule::new("*").action(RuleAction::Direct),
    ];
    let shared = shared_with_interface(&rules, vec![]);
    let d = dest("203.0.113.9", 1194);
    assert_eq!(
        decide(&shared, &facts(d, false, Some(42), "openvpn.exe")),
        Decision::Block
    );
    assert_eq!(
        decide(&shared, &facts(d, true, Some(42), "wireguard.exe")),
        Decision::Block
    );
}

/// Domain rules are fed by the hostnames learned from DNS.
#[test]
fn domain_rule_blocks_by_snooped_hostname() {
    let rules = [
        Rule::new("*")
            .domains("*.protonvpn.com")
            .action(RuleAction::Block),
        Rule::new("*").action(RuleAction::Direct),
    ];
    let shared = shared_with_interface(&rules, vec![]);
    let d = dest("185.159.157.1", 443);

    let mut f = facts(d, false, Some(7), "chrome.exe");
    f.domain = Some("api.protonvpn.com");
    assert_eq!(decide(&shared, &f), Decision::Block);

    let mut f2 = facts(d, false, Some(7), "chrome.exe");
    f2.domain = Some("github.com");
    assert_eq!(decide(&shared, &f2), Decision::Direct);
}

/// IPv6 browser traffic is proxied exactly like IPv4.
#[test]
fn ipv6_browser_traffic_is_proxied() {
    let rules = [
        Rule::new("chrome.exe")
            .ports("443")
            .protocol(RuleProtocol::Tcp)
            .action(RuleAction::Proxy),
        Rule::new("*").action(RuleAction::Direct),
    ];
    let mut cfg = ProxyConfig::http("127.0.0.1", 8080);
    cfg.config_id = 1;
    let shared = shared_with_interface(&rules, vec![cfg]);

    let d = SocketAddr::new(
        IpAddr::V6(Ipv6Addr::new(0x2606, 0x50c0, 0x8000, 0, 0, 0, 0, 0x153)),
        443,
    );
    assert!(matches!(
        decide(&shared, &facts(d, false, Some(3), "chrome.exe")),
        Decision::Proxy(_)
    ));
}

// ── Serving a flow ──────────────────────────────────────────────────────────

fn one_proxy() -> Shared {
    let mut cfg = ProxyConfig::socks5("10.0.0.1", 1080);
    cfg.config_id = 1;
    shared_with_interface(&[], vec![cfg])
}

#[test]
fn accepted_flows_are_counted() {
    let mut stats = Stats::new();
    assert_eq!(accept(Accepted::Tcp, &mut stats), AcceptAction::ServeTcp);
    assert_eq!(accept(Accepted::Udp, &mut stats), AcceptAction::ServeUdp);
    assert_eq!(accept(Accepted::UnknownTransport, &mut stats), AcceptAction::Ignore);
    assert_eq!(accept(Accepted::UnknownNetwork, &mut stats), AcceptAction::Ignore);
    assert_eq!(accept(Accepted::Ended, &mut stats), AcceptAction::Stop);
    assert_eq!(accept(Accepted::Shutdown, &mut stats), AcceptAction::Stop);
    assert_eq!(stats.snapshot().tcp_flows, 1);
    assert_eq!(stats.snapshot().udp_flows, 1);
}

#[test]
fn process_names_are_lowered() {
    assert_eq!(attributed_name(Some("Chrome.EXE")), "chrome.exe");
    assert_eq!(attributed_name(None), "");
}

#[test]
fn hostnames_are_looked_up_only_for_domain_rules() {
    let d = dest("1.2.3.4", 443);
    let mut cache = DnsCache::default();
    cache.store(d.ip, "a.example", 0);
    let plain = shared_with_interface(&[Rule::new("*")], vec![]);
    assert_eq!(domain_for(&plain, &cache, d.ip, 1), None);
    let domains = shared_with_interface(&[Rule::new("*").domains("*.example")], vec![]);
    assert_eq!(domain_for(&domains, &cache, d.ip, 1).as_deref(), Some("a.example"));
}

#[test]
fn a_proxied_tcp_flow_names_its_target() {
    let shared = one_proxy();
    let mut stats = Stats::new();
    let f = facts(dest("1.2.3.4", 443), false, Some(1), "x");
    match open_tcp(&shared, &f, Decision::Proxy(1), &mut stats) {
        TcpAction::Proxy(cfg, Target::Ip(ip, port)) => {
            assert_eq!(cfg.port(), 1080);
            assert_eq!(ip, f.dest.ip);
            assert_eq!(port, 443);
        }
        other => panic!("expected a proxied flow, got {other:?}"),
    }
}

#[test]
fn a_blocked_tcp_flow_is_counted() {
    let shared = one_proxy();
    let mut stats = Stats::new();
    let f = facts(dest("1.2.3.4", 443), false, Some(1), "x");
    assert!(matches!(
        open_tcp(&shared, &f, Decision::Block, &mut stats),
        TcpAction::Drop
    ));
    assert_eq!(stats.snapshot().blocked, 1);
    assert!(matches!(
        open_tcp(&shared, &f, Decision::Direct, &mut stats),
        TcpAction::Direct
    ));
    assert_eq!(stats.snapshot().blocked, 1);
}

#[test]
fn an_unreachable_proxy_is_passed_over() {
    let mut stats = Stats::new();
    let (action, line) = proxy_unavailable("1.2.3.4:443", "refused", &mut stats);
    assert!(matches!(action, TcpAction::Direct));
    assert!(line.contains("1.2.3.4:443"));
    assert!(line.contains("refused"));
    assert_eq!(stats.snapshot().proxy_fallbacks, 1);
}

fn udp(ip: &str, port: u16) -> FlowFacts<'static> {
    facts(dest(ip, port), true, Some(1), "x")
}

#[test]
fn udp_is_never_proxied() {
    let shared = one_proxy();
    let mut stats = Stats::new();
    assert_eq!(
        open_udp(&shared, &udp("1.1.1.1", 53), Decision::Proxy(1), &mut stats),
        UdpAction::Relay(true)
    );
    assert_eq!(
        open_udp(&shared, &udp("1.1.1.1", 123), Decision::Direct, &mut stats),
        UdpAction::Relay(false)
    );
}

#[test]
fn dropped_udp_flows_are_counted_by_reason() {
    let shared = one_proxy();
    let mut stats = Stats::new();
    for (ip, port) in [("1.1.1.1", 443u16), ("224.0.0.251", 443), ("1.1.1.1", 7)] {
        assert_eq!(
            open_udp(&shared, &udp(ip, port), Decision::Block, &mut stats),
            UdpAction::Drop
        );
    }
    let counts = stats.snapshot();
    assert_eq!((counts.quic_dropped, counts.group_dropped, counts.blocked), (1, 1, 1));
}

#[test]
fn a_failed_send_does_not_end_a_udp_flow() {
    let mut stats = Stats::new();
    assert_eq!(udp_step(UdpEvent::Idle, &mut stats), UdpStep::Stop);
    assert_eq!(udp_step(UdpEvent::FromClient(None), &mut stats), UdpStep::Stop);
    assert_eq!(udp_step(UdpEvent::FromClient(Some(0)), &mut stats), UdpStep::Stop);
    assert_eq!(udp_step(UdpEvent::FromClient(Some(9)), &mut stats), UdpStep::Send);
    assert_eq!(udp_step(UdpEvent::SendFailed, &mut stats), UdpStep::Wait);
    assert_eq!(udp_step(UdpEvent::FromServer(Some(0)), &mut stats), UdpStep::Deliver);
    assert_eq!(udp_step(UdpEvent::FromServer(None), &mut stats), UdpStep::Stop);
    assert_eq!(udp_step(UdpEvent::DeliverFailed, &mut stats), UdpStep::Stop);
    assert_eq!(stats.snapshot().udp_send_errors, 1);
}

#[test]
fn only_dns_flows_are_snooped() {
    // A response with one question and one answer: x -> 9.8.7.6.
    let response = [
        0, 0, 0x80, 0, 0, 1, 0, 1, 0, 0, 0, 0, 1, b'x', 0, 0, 1, 0, 1, 0xc0, 12, 0, 1, 0, 1, 0, 0,
        0, 0, 0, 4, 9, 8, 7, 6,
    ];
    let ip = IpAddr::V4(Ipv4Addr::new(9, 8, 7, 6));
    let mut cache = DnsCache::default();
    snoop_datagram(false, &mut cache, &response, 0);
    assert_eq!(cache.lookup(ip, 0), None);
    snoop_datagram(true, &mut cache, &response, 0);
    assert_eq!(cache.lookup(ip, 0).as_deref(), Some("x"));
}

#[test]
fn reports_describe_the_decision() {
    let mut http = ProxyConfig::http("127.0.0.1", 8080);
    http.config_id = 1;
    let mut socks = ProxyConfig::socks5("h", 9);
    socks.config_id = 2;
    let shared = shared_with_interface(&[], vec![http, socks]);
    let f = facts(dest("1.2.3.4", 443), false, None, "x");
    let direct = report(&shared, &f, Decision::Direct);
    assert_eq!(direct.proxy_info, "Direct");
    assert_eq!(direct.pid, 0);
    assert_eq!(direct.action, RuleAction::Direct);
    assert_eq!(report(&shared, &f, Decision::Block).proxy_info, "Blocked");
    assert_eq!(
        report(&shared, &f, Decision::Proxy(1)).proxy_info,
        "Proxy HTTP://127.0.0.1:8080"
    );
    assert_eq!(
        report(&shared, &f, Decision::Proxy(2)).proxy_info,
        "Proxy SOCKS5://h:9"
    );
    let none = shared_with_interface(&[], vec![]);
    assert_eq!(
        report(&none, &f, Decision::Proxy(1)).proxy_info,
        "Proxy (unconfigured)"
    );
}

#[test]
fn a_tcp_flow_is_decided_served_and_reported() {
    let rules = [Rule::new("brave.exe").action(RuleAction::Proxy)];
    let mut cfg = ProxyConfig::http("127.0.0.1", 8080);
    cfg.config_id = 1;
    let shared = shared_with_interface(&rules, vec![cfg]);
    let cache = DnsCache::default();
    let mut stats = Stats::new();
    let d = dest("140.82.113.4", 443);

    let flow = Flow { dest: d, pid: Some(999), process: Some("Brave.EXE") };
    let (action, info) = handle_tcp(&shared, &cache, &mut stats, &flow, 0);
    assert!(matches!(action, TcpAction::Proxy(_, _)));
    assert_eq!(info.process_name, "brave.exe");
    assert_eq!(info.pid, 999);
    assert_eq!(info.action, RuleAction::Proxy);
    assert_eq!(info.proxy_info, "Proxy HTTP://127.0.0.1:8080");

    let flow = Flow { dest: d, pid: None, process: None };
    let (action, info) = handle_tcp(&shared, &cache, &mut stats, &flow, 0);
    assert!(matches!(action, TcpAction::Direct));
    assert_eq!(info.process_name, "");
    assert_eq!(info.pid, 0);
    assert_eq!(info.proxy_info, "Direct");
    assert_eq!(stats.snapshot().blocked, 0);
}

#[test]
fn a_blocked_hostname_is_seen_by_flows_of_both_kinds() {
    let rules = [Rule::new("*").domains("*.example.com").action(RuleAction::Block)];
    let shared = shared_with_interface(&rules, Vec::new());
    let mut cache = DnsCache::default();
    let mut stats = Stats::new();
    let d = dest("192.0.2.9", 5000);
    let flow = Flow { dest: d, pid: Some(999), process: Some("app") };

    let (action, info) = handle_udp(&shared, &cache, &mut stats, &flow, 0);
    assert_eq!(action, UdpAction::Relay(false));
    assert_eq!(info.action, RuleAction::Direct);

    cache.store(d.ip, "www.example.com", 0);
    let (action, info) = handle_tcp(&shared, &cache, &mut stats, &flow, 0);
    assert!(matches!(action, TcpAction::Drop));
    assert_eq!(info.proxy_info, "Blocked");
    let (action, info) = handle_udp(&shared, &cache, &mut stats, &flow, 0);
    assert_eq!(action, UdpAction::Drop);
    assert_eq!(info.proxy_info, "Blocked");
    assert_eq!(stats.snapshot().blocked, 2);
}

#[test]
fn a_proxied_flow_is_named_without_domain_rules() {
    let rules = [Rule::new("*").action(RuleAction::Proxy)];
    let mut cfg = ProxyConfig::http("127.0.0.1", 8080);
    cfg.config_id = 1;
    let shared = shared_with_interface(&rules, vec![cfg.clone()]);
    let by_address = shared_with_interface(&rules, vec![cfg.resolve_on_proxy(false)]);
    let mut cache = DnsCache::default();
    let mut stats = Stats::new();
    let d = dest("192.0.2.9", 443);
    let flow = Flow { dest: d, pid: Some(999), process: Some("app") };

    let (action, _) = handle_tcp(&shared, &cache, &mut stats, &flow, 0);
    assert!(matches!(action, TcpAction::Proxy(_, Target::Ip(ip, 443)) if ip == d.ip));

    cache.store(d.ip, "www.example.com", 0);
    match handle_tcp(&shared, &cache, &mut stats, &flow, 0).0 {
        TcpAction::Proxy(_, Target::Domain(host, port)) => {
            assert_eq!(host, "www.example.com");
            assert_eq!(port, 443);
        }
        other => panic!("expected a named target, got {other:?}"),
    }

    let (action, _) = handle_tcp(&by_address, &cache, &mut stats, &flow, 0);
    assert!(matches!(action, TcpAction::Proxy(_, Target::Ip(ip, 443)) if ip == d.ip));
}

/// Where QUIC is allowed, a drop is never counted as QUIC's.
#[test]
fn drops_under_an_allowing_policy_are_not_quic() {
    let mut shared = shared_with_interface(&[], vec![]);
    shared.quic_policy = QuicPolicy::Allow;
    let cache = DnsCache::default();
    let mut stats = Stats::new();
    let flow = Flow { dest: dest("224.0.0.251", 443), pid: Some(9), process: None };
    assert_eq!(handle_udp(&shared, &cache, &mut stats, &flow, 0).0, UdpAction::Drop);
    let counts = stats.snapshot();
    assert_eq!((counts.quic_dropped, counts.group_dropped, counts.blocked), (0, 1, 0));
}

#[test]
fn dropped_tcp_flows_are_counted_by_reason() {
    let rules = [Rule::new("*").ports("443").action(RuleAction::Block)];
    let shared = shared_with_interface(&rules, vec![]);
    let cache = DnsCache::default();
    let mut stats = Stats::new();
    for ip in ["224.0.0.251", "157.240.1.35"] {
        let flow = Flow { dest: dest(ip, 443), pid: Some(9), process: None };
        let (action, _) = handle_tcp(&shared, &cache, &mut stats, &flow, 0);
        assert!(matches!(action, TcpAction::Drop));
    }
    let counts = stats.snapshot();
    assert_eq!((counts.quic_dropped, counts.group_dropped, counts.blocked), (0, 1, 1));
}

/// Block rules do not apply to QUIC that the policy allows.
#[test]
fn allowed_quic_is_not_blocked() {
    let rules = [Rule::new("*").action(RuleAction::Block)];
    let mut shared = shared_with_interface(&rules, vec![]);
    let d = dest("157.240.1.35", 443);
    assert_eq!(decide(&shared, &facts(d, true, None, "")), Decision::Block);
    shared.quic_policy = QuicPolicy::Allow;
    assert_eq!(decide(&shared, &facts(d, true, None, "")), Decision::Direct);
    assert_eq!(decide(&shared, &facts(d, false, None, "")), Decision::Block);
}

/// Our own flow without an interface is counted by where it was going.
#[test]
fn own_drops_are_counted_by_destination() {
    let mut shared = shared_without_interface(&[], vec![]);
    let cache = DnsCache::default();
    let mut stats = Stats::new();
    for policy in [QuicPolicy::Drop, QuicPolicy::Allow] {
        shared.quic_policy = policy;
        for (ip, port) in [("1.1.1.1", 443u16), ("1.1.1.1", 53)] {
            let flow = Flow { dest: dest(ip, port), pid: Some(4242), process: None };
            assert_eq!(handle_udp(&shared, &cache, &mut stats, &flow, 0).0, UdpAction::Drop);
        }
    }
    let flow = Flow { dest: dest("1.1.1.1", 443), pid: Some(4242), process: None };
    assert!(matches!(handle_tcp(&shared, &cache, &mut stats, &flow, 0).0, TcpAction::Drop));
    let counts = stats.snapshot();
    assert_eq!((counts.quic_dropped, counts.group_dropped, counts.blocked), (2, 0, 3));
}
