//! The engine: building, starting and stopping.

use ace_tun::config::ProxyConfig;
use ace_tun::engine::{Phase, TunRedirect};
use ace_tun::error::{Error, IoFailure, IoKind};
use ace_tun::platform::PhysicalInterface;
use ace_tun::rule::{Rule, RuleAction};
use ace_tun::state::{QuicPolicy, StatsSnapshot};


#[test]
fn builder_rejects_a_malformed_address() {
    // `TunRedirectBuilder` is not `Debug`, so match rather than unwrap_err.
    match TunRedirect::builder("not-an-address") {
        Err(Error::InvalidAddress { .. }) => {}
        other => panic!("expected InvalidAddress, got {:?}", other.err()),
    }
}

#[test]
fn builder_synthesizes_a_proxy_config_from_the_listen_address() {
    let redirect = TunRedirect::builder("127.0.0.1:8080")
        .unwrap()
        .build(1)
        .unwrap();
    let cfg = redirect
        .shared
        .find_proxy_config(1)
        .expect("default config");
    assert_eq!(cfg.host(), "127.0.0.1");
    assert_eq!(cfg.port(), 8080);
    assert_eq!(cfg.config_id(), 1);
}

#[test]
fn registered_proxy_configs_get_stable_ids() {
    let redirect = TunRedirect::builder("127.0.0.1:1")
        .unwrap()
        .proxy_config(ProxyConfig::http("127.0.0.1", 8080))
        .proxy_config(ProxyConfig::socks5("127.0.0.1", 1080))
        .build(1)
        .unwrap();
    assert_eq!(redirect.shared.find_proxy_config(1).unwrap().port(), 8080);
    assert_eq!(redirect.shared.find_proxy_config(2).unwrap().port(), 1080);
}

#[test]
fn a_zero_port_proxy_config_is_rejected() {
    let built = TunRedirect::builder("127.0.0.1:1")
        .unwrap()
        .proxy_config(ProxyConfig::http("127.0.0.1", 0))
        .build(1);
    match built {
        Err(Error::Config(_)) => {}
        other => panic!("expected Config error, got {:?}", other.err()),
    }
}

#[test]
fn quic_is_dropped_by_default() {
    let redirect = TunRedirect::builder("127.0.0.1:1")
        .unwrap()
        .build(1)
        .unwrap();
    assert_eq!(redirect.shared.quic_policy, QuicPolicy::Drop);
    assert_eq!(redirect.shared.quic_port, 443);
}

/// IPv6 defaulting to off would let all IPv6 traffic bypass the engine.
#[test]
fn ipv6_is_enabled_by_default() {
    let redirect = TunRedirect::builder("127.0.0.1:1")
        .unwrap()
        .build(1)
        .unwrap();
    assert!(redirect.ipv6);
}

#[test]
fn a_fresh_engine_is_not_running() {
    let redirect = TunRedirect::builder("127.0.0.1:1")
        .unwrap()
        .build(1)
        .unwrap();
    assert!(!redirect.is_running());
    assert_eq!(redirect.stats(), StatsSnapshot::default());
}

#[test]
fn stopping_an_idle_engine_reports_not_running() {
    let mut redirect = TunRedirect::builder("127.0.0.1:1")
        .unwrap()
        .build(1)
        .unwrap();
    assert!(matches!(redirect.stop(), Err(Error::NotRunning)));
}

/// Dropping an engine that never started must not panic or touch the
/// machine's routing.
#[test]
fn dropping_an_unstarted_engine_is_a_no_op() {
    let redirect = TunRedirect::builder("127.0.0.1:1")
        .unwrap()
        .build(1)
        .unwrap();
    drop(redirect);
}

fn engine() -> TunRedirect {
    TunRedirect::builder("127.0.0.1:1").unwrap().build(1).unwrap()
}

#[test]
fn settings_reach_the_engine() {
    let engine = TunRedirect::builder("[::1]:8080")
        .unwrap()
        .add_rule(Rule::new("a"))
        .add_rules(vec![Rule::new("b"), Rule::new("c").domains("x")])
        .quic_port(8443)
        .quic_policy(QuicPolicy::Allow)
        .ipv6(false)
        .localhost_via_proxy(true)
        .build(77)
        .unwrap();
    assert!(!engine.shared.rules.is_empty());
    assert!(engine.shared.rules.needs_domain_resolution());
    assert_eq!(engine.shared.quic_port, 8443);
    assert_eq!(engine.shared.quic_policy, QuicPolicy::Allow);
    assert!(!engine.ipv6);
    assert!(engine.shared.localhost_via_proxy);
    assert_eq!(engine.shared.current_pid, 77);
    assert_eq!(engine.shared.find_proxy_config(1).unwrap().host(), "::1");
}

#[test]
fn an_unknown_config_id_means_the_first() {
    let engine = TunRedirect::builder("127.0.0.1:1")
        .unwrap()
        .proxy_config(ProxyConfig::http("a", 1))
        .proxy_config(ProxyConfig::http("b", 2))
        .build(1)
        .unwrap();
    assert_eq!(engine.shared.find_proxy_config(0).unwrap().host(), "a");
    assert_eq!(engine.shared.find_proxy_config(9).unwrap().host(), "a");
}

#[test]
fn an_empty_host_is_rejected() {
    let built = TunRedirect::builder("127.0.0.1:1")
        .unwrap()
        .proxy_config(ProxyConfig::http(" ", 80))
        .build(1);
    assert!(matches!(built, Err(Error::Config(_))));
}

#[test]
fn an_engine_starts_once() {
    let mut engine = engine();
    let iface = PhysicalInterface { v4_index: Some(3), v6_index: None };
    assert!(engine.start(true).is_ok());
    assert!(matches!(engine.start(true), Err(Error::AlreadyRunning)));
    assert!(engine.choose_interface(iface).is_ok());
    assert!(engine.finish_start(Ok(())).is_ok());
    assert!(engine.is_running());
    assert_eq!(engine.shared.iface(), iface);
    assert!(matches!(engine.start(true), Err(Error::AlreadyRunning)));
    assert!(engine.stop().is_ok());
    assert!(!engine.is_running());
    assert!(matches!(engine.stop(), Err(Error::NotRunning)));
}

#[test]
fn a_failed_start_leaves_the_engine_idle() {
    let mut engine = engine();
    assert!(engine.start(true).is_ok());
    assert!(matches!(engine.finish_start(Err(Error::NotElevated)), Err(Error::NotElevated)));
    assert_eq!(engine.phase, Phase::Idle);
    assert!(engine.start(true).is_ok());
}

#[test]
fn without_an_interface_there_is_nothing_to_divert() {
    let mut engine = engine();
    assert!(engine.start(true).is_ok());
    match engine.choose_interface(PhysicalInterface::default()) {
        Err(Error::NetConfig { op, source }) => {
            assert_eq!(op, "discover_physical_interface");
            assert_eq!(source.kind, IoKind::NotConnected);
        }
        other => panic!("expected NetConfig, got {other:?}"),
    }
    assert_eq!(engine.shared.iface, None);
}

#[test]
fn errors_describe_themselves() {
    let io = || IoFailure::new(IoKind::Other, "boom");
    let texts = [
        (Error::InvalidAddress { input: "x".to_string() }, "invalid address 'x': invalid socket address syntax"),
        (Error::config("c"), "invalid configuration: c"),
        (Error::MissingProxyConfig, "no proxy configuration available for a Proxy rule"),
        (Error::WintunLoad("w".to_string()), "failed to load wintun.dll: w"),
        (
            Error::AdapterCreate { name: "n".to_string(), reason: "r".to_string() },
            "failed to create WinTun adapter 'n': r",
        ),
        (Error::SessionStart("s".to_string()), "failed to start WinTun session: s"),
        (Error::netcfg("op", io()), "network configuration failed (op): boom"),
        (
            Error::NotElevated,
            "administrator privileges are required to create a WinTun adapter",
        ),
        (Error::AlreadyRunning, "tun redirect is already running"),
        (Error::NotRunning, "tun redirect is not running"),
        (Error::Io(io()), "io error: boom"),
    ];
    for (error, text) in texts {
        assert_eq!(error.message(), text);
    }
}

#[test]
fn rules_keep_their_actions() {
    let rule = Rule::new("a").action(RuleAction::Proxy).proxy_config(3);
    assert_eq!(rule.clone().action_kind(), RuleAction::Proxy);
}

#[test]
fn without_privileges_nothing_starts() {
    let mut engine = engine();
    assert!(matches!(engine.start(false), Err(Error::NotElevated)));
    assert!(!engine.is_running());
    assert_eq!(engine.phase, Phase::Idle);
    assert_eq!(engine.shared.iface, None);
    assert!(engine.start(true).is_ok());
    assert!(matches!(engine.start(false), Err(Error::AlreadyRunning)));
}
