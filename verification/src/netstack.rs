//! Flow dispatch: what happens to each connection that enters the tunnel.
//!
//! Every path lets traffic through by default: if the owning process is not
//! known, if there are no rules, if the proxy is down, the flow goes direct.
//! There are two exceptions: QUIC, and traffic to a group of hosts. See
//! [`decide`].

use vstd::prelude::*;

use crate::addr::{IpAddr, SocketAddr};
use crate::config;
use crate::config::{ProxyConfig, ProxyModel, ProxyType};
use crate::dns;
use crate::dns::{DnsCache, Hostnames};
use crate::proxy::Target;
use crate::rule;
use crate::rule::{CompiledModel, Connection, RuleAction, RuleMatch};
use crate::state;
use crate::state::{Counter, QuicPolicy, Shared, Stats, StatsSnapshot};
use crate::text;
use crate::text::{chars_of, lower_text, push_decimal, push_str, string_of};

verus! {

/// How long a UDP flow may sit idle before it is released, in seconds.
pub const UDP_IDLE_TIMEOUT: u64 = 30;

/// Largest datagram that is relayed.
pub const UDP_BUFFER: usize = 65_535;

/// The port of plaintext DNS.
pub const DNS_PORT: u16 = 53;

/// What to do with an accepted flow.
#[derive(Debug, Clone, Copy, PartialEq, Eq, Structural)]
pub enum Decision {
    /// Connect straight to the original destination, bypassing the tunnel.
    Direct,
    /// Relay through the upstream proxy identified by this config id.
    Proxy(u32),
    /// Drop the flow.
    Block,
}

/// The facts about a flow that feed [`decide`].
#[derive(Debug, Clone, Copy)]
pub struct FlowFacts<'a> {
    /// Original destination.
    pub dest: SocketAddr,
    /// `true` for UDP, `false` for TCP.
    pub is_udp: bool,
    /// PID that owns the local endpoint, if it could be resolved.
    pub pid: Option<u32>,
    /// Executable file name of that process, in small letters.
    pub process_name: &'a str,
    /// Destination hostname from the DNS cache, if known.
    pub domain: Option<&'a str>,
}

/// What is known about a flow.
#[verifier::ext_equal]
pub struct FlowModel {
    /// Original destination.
    pub dest: SocketAddr,
    /// Whether the flow is UDP.
    pub is_udp: bool,
    /// PID that owns the local endpoint.
    pub pid: Option<u32>,
    /// File name of that process, in small letters.
    pub process_name: Seq<char>,
    /// Hostname of the destination.
    pub domain: Option<Seq<char>>,
}

impl<'a> View for FlowFacts<'a> {
    type V = FlowModel;

    open spec fn view(&self) -> FlowModel {
        FlowModel {
            dest: self.dest,
            is_udp: self.is_udp,
            pid: self.pid,
            process_name: self.process_name@,
            domain: rule::text_of(self.domain),
        }
    }
}

impl FlowModel {
    /// What the rules are evaluated against.
    pub open spec fn connection(self) -> Connection {
        Connection {
            process_name: self.process_name,
            dest: self.dest.ip,
            port: self.dest.port,
            is_udp: self.is_udp,
            domain: self.domain,
        }
    }
}

/// Whether an address names a group of hosts rather than one: multicast or
/// broadcast.
pub open spec fn group_address(ip: IpAddr) -> bool {
    match ip {
        IpAddr::V4(v4) => v4.multicast() || v4.broadcast(),
        IpAddr::V6(v6) => v6.multicast(),
    }
}

/// Whether an address names a group of hosts rather than one.
pub fn is_group_address(ip: IpAddr) -> (r: bool)
    ensures
        r == group_address(ip),
{
    match ip {
        IpAddr::V4(v4) => v4.is_multicast() || v4.is_broadcast(),
        IpAddr::V6(v6) => v6.is_multicast(),
    }
}

/// Whether a flow belongs to this process.
pub open spec fn is_own(shared: Shared, f: FlowModel) -> bool {
    f.pid == Some(shared.current_pid)
}

/// Whether a flow stays on the machine and is to be left alone.
pub open spec fn is_kept_local(shared: Shared, f: FlowModel) -> bool {
    f.dest.ip.loopback() && !shared.localhost_via_proxy
}

/// Whether a flow is QUIC.
pub open spec fn is_quic(shared: Shared, f: FlowModel) -> bool {
    f.is_udp && f.dest.port == shared.quic_port
}

/// Whether a flow is QUIC that is to be dropped.
pub open spec fn is_unwanted_quic(shared: Shared, f: FlowModel) -> bool {
    is_quic(shared, f) && shared.quic_policy == QuicPolicy::Drop
}

/// What an outcome of the rules means for a flow.
pub open spec fn decision_of(m: RuleMatch) -> Decision {
    match m.action {
        RuleAction::Direct => Decision::Direct,
        RuleAction::Block => Decision::Block,
        RuleAction::Proxy => Decision::Proxy(m.proxy_config_id),
    }
}

/// What happens to a flow.
pub open spec fn decision(shared: Shared, f: FlowModel) -> Decision {
    if is_own(shared, f) {
        if !f.dest.ip.loopback() && shared.iface_spec().index_spec(f.dest.ip) is None {
            Decision::Block
        } else {
            Decision::Direct
        }
    } else if is_kept_local(shared, f) {
        Decision::Direct
    } else if group_address(f.dest.ip) || is_unwanted_quic(shared, f) {
        Decision::Block
    } else if is_quic(shared, f) {
        Decision::Direct
    } else {
        decision_of(rule::decided(shared.rules@, f.connection()))
    }
}

/// Chooses an action for one flow.
///
/// The order of the checks matters:
///
/// 1. Our own traffic goes direct, always, lest it re-enter the tunnel forever.
///    Where there is no interface to pin it to, "direct" would itself re-enter
///    the tunnel, so it is dropped.
/// 2. Loopback goes direct unless configured otherwise.
/// 3. Multicast and broadcast are dropped: a connected unicast socket cannot
///    relay them.
/// 4. QUIC is dropped where the policy says so, whichever process owns it:
///    every QUIC client falls back to TCP, which is inspected. Where the policy
///    allows QUIC, it goes direct, and the rules do not apply to it.
/// 5. Otherwise the rules decide, defaulting to direct.
pub fn decide(shared: &Shared, facts: &FlowFacts<'_>) -> (r: Decision)
    ensures
        r == decision(*shared, facts@),
{
    let own: bool = match facts.pid {
        Some(pid) => pid == shared.current_pid,
        None => false,
    };
    if own {
        if !facts.dest.ip.is_loopback() && shared.iface().index_for(facts.dest.ip).is_none() {
            return Decision::Block;
        }
        return Decision::Direct;
    }
    if facts.dest.ip.is_loopback() && !shared.localhost_via_proxy {
        return Decision::Direct;
    }
    if is_group_address(facts.dest.ip) {
        return Decision::Block;
    }
    if facts.is_udp && facts.dest.port == shared.quic_port {
        return match shared.quic_policy {
            QuicPolicy::Drop => Decision::Block,
            QuicPolicy::Allow => Decision::Direct,
        };
    }
    let m: RuleMatch = shared.rules.evaluate(
        facts.process_name,
        facts.dest.ip,
        facts.dest.port,
        facts.is_udp,
        facts.domain,
    );
    match m.action {
        RuleAction::Direct => Decision::Direct,
        RuleAction::Block => Decision::Block,
        RuleAction::Proxy => Decision::Proxy(m.proxy_config_id),
    }
}

// ── Accepting flows ─────────────────────────────────────────────────────────

/// What the userland stack handed over.
#[derive(Debug, Clone, Copy, PartialEq, Eq, Structural)]
pub enum Accepted {
    /// A TCP flow.
    Tcp,
    /// A UDP flow.
    Udp,
    /// A packet of another transport, such as ICMP.
    UnknownTransport,
    /// A packet that could not be parsed.
    UnknownNetwork,
    /// The stack has ended.
    Ended,
    /// The engine is being stopped.
    Shutdown,
}

/// What to do with it.
#[derive(Debug, Clone, Copy, PartialEq, Eq, Structural)]
pub enum AcceptAction {
    /// Relay the TCP flow.
    ServeTcp,
    /// Relay the UDP flow.
    ServeUdp,
    /// Drop the packet.
    Ignore,
    /// Stop accepting.
    Stop,
}

/// What to do with what the stack handed over.
pub open spec fn accept_action(event: Accepted) -> AcceptAction {
    match event {
        Accepted::Tcp => AcceptAction::ServeTcp,
        Accepted::Udp => AcceptAction::ServeUdp,
        Accepted::UnknownTransport => AcceptAction::Ignore,
        Accepted::UnknownNetwork => AcceptAction::Ignore,
        Accepted::Ended => AcceptAction::Stop,
        Accepted::Shutdown => AcceptAction::Stop,
    }
}

/// Decides what to do with what the stack handed over, and counts flows.
pub fn accept(event: Accepted, stats: &mut Stats) -> (r: AcceptAction)
    ensures
        r == accept_action(event),
        final(stats)@ == match event {
            Accepted::Tcp => state::counted(old(stats)@, Counter::TcpFlows),
            Accepted::Udp => state::counted(old(stats)@, Counter::UdpFlows),
            _ => old(stats)@,
        },
{
    match event {
        Accepted::Tcp => {
            stats.count(Counter::TcpFlows);
            AcceptAction::ServeTcp
        },
        Accepted::Udp => {
            stats.count(Counter::UdpFlows);
            AcceptAction::ServeUdp
        },
        Accepted::UnknownTransport => AcceptAction::Ignore,
        Accepted::UnknownNetwork => AcceptAction::Ignore,
        Accepted::Ended => AcceptAction::Stop,
        Accepted::Shutdown => AcceptAction::Stop,
    }
}

/// The name under which the rules see a process: its file name in small
/// letters, or nothing where it is not known.
pub open spec fn name_for_rules(name: Option<Seq<char>>) -> Seq<char> {
    match name {
        Some(n) => text::lowered(n),
        None => Seq::empty(),
    }
}

/// The name under which the rules see a process.
pub fn attributed_name(name: Option<&str>) -> (r: String)
    ensures
        r@ == name_for_rules(rule::text_of(name)),
{
    match name {
        Some(n) => {
            let chars: Vec<char> = chars_of(n);
            string_of(&lower_text(&chars))
        },
        None => String::new(),
    }
}

/// The hostname of the destination, looked up only if some rule needs it.
pub open spec fn domain_known(
    rules: Seq<CompiledModel>,
    names: Hostnames,
    dest: IpAddr,
    now: u64,
) -> Option<Seq<char>> {
    if rule::any_domain_rule(rules) {
        dns::hostname_of(names, dest, now)
    } else {
        None
    }
}

/// The hostname of the destination, looked up only if some rule needs it.
pub fn domain_for(shared: &Shared, cache: &DnsCache, dest: IpAddr, now: u64) -> (r: Option<String>)
    ensures
        config::optional_text(r) == domain_known(shared.rules@, cache@, dest, now),
{
    if shared.rules.needs_domain_resolution() {
        cache.lookup(dest, now)
    } else {
        None
    }
}

// ── TCP ─────────────────────────────────────────────────────────────────────

/// The counter of a dropped flow: that of what it was dropped for. Our own flow
/// that has no interface to leave by is counted by where it was going.
pub open spec fn drop_counter(shared: Shared, f: FlowModel) -> Counter {
    if group_address(f.dest.ip) {
        Counter::GroupDropped
    } else if is_quic(shared, f) {
        Counter::QuicDropped
    } else {
        Counter::Blocked
    }
}

fn count_drop(shared: &Shared, facts: &FlowFacts<'_>, stats: &mut Stats)
    ensures
        final(stats)@ == state::counted(old(stats)@, drop_counter(*shared, facts@)),
{
    if is_group_address(facts.dest.ip) {
        stats.count(Counter::GroupDropped);
    } else if facts.is_udp && facts.dest.port == shared.quic_port {
        stats.count(Counter::QuicDropped);
    } else {
        stats.count(Counter::Blocked);
    }
}

/// How to serve a TCP flow.
#[derive(Debug)]
pub enum TcpAction {
    /// Reset the connection.
    Drop,
    /// Connect to the original destination.
    Direct,
    /// Open a tunnel to the target through the proxy.
    Proxy(ProxyConfig, Target),
}

/// What is asked of the proxy: the hostname where the proxy wants it and it is
/// known, or else the address.
pub open spec fn is_target(cfg: ProxyModel, f: FlowModel, target: Target) -> bool {
    match (cfg.send_domain_to_proxy, f.domain) {
        (true, Some(d)) => target matches Target::Domain(host, port) && host@ == d && port
            == f.dest.port,
        _ => target == Target::Ip(f.dest.ip, f.dest.port),
    }
}

/// Whether `action` serves a flow as decided.
pub open spec fn serves_tcp(shared: Shared, f: FlowModel, d: Decision, action: TcpAction) -> bool {
    match d {
        Decision::Block => action is Drop,
        Decision::Direct => action is Direct,
        Decision::Proxy(id) => match shared.proxy_spec(id) {
            None => action is Direct,
            Some(cfg) => action matches TcpAction::Proxy(c, target) && c@ == cfg && is_target(
                cfg,
                f,
                target,
            ),
        },
    }
}

/// The counters once it is known how to serve a TCP flow.
pub open spec fn tcp_counts(
    shared: Shared,
    f: FlowModel,
    d: Decision,
    before: StatsSnapshot,
) -> StatsSnapshot {
    match d {
        Decision::Block => state::counted(before, drop_counter(shared, f)),
        Decision::Direct => before,
        Decision::Proxy(id) => if shared.proxy_spec(id) is None {
            state::counted(before, Counter::ProxyFallbacks)
        } else {
            before
        },
    }
}

/// How to serve a TCP flow. A flow that is to be proxied without any proxy
/// configured goes direct rather than nowhere, and is counted.
pub fn open_tcp(shared: &Shared, facts: &FlowFacts<'_>, d: Decision, stats: &mut Stats) -> (r:
    TcpAction)
    ensures
        serves_tcp(*shared, facts@, d, r),
        final(stats)@ == tcp_counts(*shared, facts@, d, old(stats)@),
{
    match d {
        Decision::Block => {
            count_drop(shared, facts, stats);
            TcpAction::Drop
        },
        Decision::Direct => TcpAction::Direct,
        Decision::Proxy(id) => match shared.find_proxy_config(id) {
            None => {
                stats.count(Counter::ProxyFallbacks);
                TcpAction::Direct
            },
            Some(cfg) => {
                let target: Target = match facts.domain {
                    Some(d) => if cfg.send_domain_to_proxy {
                        Target::Domain(d.to_string(), facts.dest.port)
                    } else {
                        Target::Ip(facts.dest.ip, facts.dest.port)
                    },
                    None => Target::Ip(facts.dest.ip, facts.dest.port),
                };
                TcpAction::Proxy(cfg.clone(), target)
            },
        },
    }
}

/// How to serve a TCP flow whose proxy could not be reached or refused the
/// tunnel: direct, uninspected, and counted. `reason` is what the proxy's
/// failure is described as; the second result is the line to log.
pub fn proxy_unavailable(dest: &str, reason: &str, stats: &mut Stats) -> (r: (TcpAction, String))
    ensures
        r.0 is Direct,
        r.1@ == fallback_line(dest@, reason@),
        final(stats)@ == state::counted(old(stats)@, Counter::ProxyFallbacks),
{
    stats.count(Counter::ProxyFallbacks);
    let mut line: Vec<char> = Vec::new();
    push_str(&mut line, "proxy unavailable for ");
    push_str(&mut line, dest);
    push_str(&mut line, " (");
    push_str(&mut line, reason);
    push_str(&mut line, "); falling back to direct — this flow was NOT inspected");
    assert(line@ == fallback_line(dest@, reason@));
    (TcpAction::Direct, string_of(&line))
}

/// The log line about a flow whose proxy is not available.
pub open spec fn fallback_line(dest: Seq<char>, reason: Seq<char>) -> Seq<char> {
    "proxy unavailable for "@ + dest + " ("@ + reason
        + "); falling back to direct — this flow was NOT inspected"@
}

// ── UDP ─────────────────────────────────────────────────────────────────────

/// How to serve a UDP flow.
#[derive(Debug, Clone, Copy, PartialEq, Eq, Structural)]
pub enum UdpAction {
    /// Drop the flow.
    Drop,
    /// Relay the flow to its destination; snoop DNS responses where told to.
    Relay(bool),
}

/// How a UDP flow is served.
pub open spec fn udp_action(dest: SocketAddr, d: Decision) -> UdpAction {
    if d == Decision::Block {
        UdpAction::Drop
    } else {
        UdpAction::Relay(dest.port == DNS_PORT)
    }
}

/// The counters once it is known how to serve a UDP flow.
pub open spec fn udp_counts(
    shared: Shared,
    f: FlowModel,
    d: Decision,
    before: StatsSnapshot,
) -> StatsSnapshot {
    if d == Decision::Block {
        state::counted(before, drop_counter(shared, f))
    } else {
        before
    }
}

/// How to serve a UDP flow. UDP is never tunnelled through a proxy: a flow that
/// is to be proxied is relayed directly, so that it still works.
pub fn open_udp(shared: &Shared, facts: &FlowFacts<'_>, d: Decision, stats: &mut Stats) -> (r:
    UdpAction)
    ensures
        r == udp_action(facts.dest, d),
        final(stats)@ == udp_counts(*shared, facts@, d, old(stats)@),
{
    match d {
        Decision::Block => {
            count_drop(shared, facts, stats);
            UdpAction::Drop
        },
        Decision::Direct => UdpAction::Relay(facts.dest.port == DNS_PORT),
        Decision::Proxy(_) => UdpAction::Relay(facts.dest.port == DNS_PORT),
    }
}

/// What happened to a UDP flow that is relayed.
#[derive(Debug, Clone, Copy, PartialEq, Eq, Structural)]
pub enum UdpEvent {
    /// Neither side sent anything for [`UDP_IDLE_TIMEOUT`].
    Idle,
    /// Reading from the client failed or returned this many octets.
    FromClient(Option<usize>),
    /// Sending to the server failed.
    SendFailed,
    /// Reading from the server failed or returned this many octets.
    FromServer(Option<usize>),
    /// Writing to the client failed.
    DeliverFailed,
}

/// What to do next in a UDP flow that is relayed.
#[derive(Debug, Clone, Copy, PartialEq, Eq, Structural)]
pub enum UdpStep {
    /// Release the flow.
    Stop,
    /// Send the datagram to the server.
    Send,
    /// Write the datagram to the client.
    Deliver,
    /// Wait for the next datagram.
    Wait,
}

/// What to do next in a UDP flow that is relayed. A failed send loses one
/// datagram and does not end the flow; a failed receive does.
pub open spec fn udp_next(event: UdpEvent) -> UdpStep {
    match event {
        UdpEvent::Idle => UdpStep::Stop,
        UdpEvent::FromClient(None) => UdpStep::Stop,
        UdpEvent::FromClient(Some(n)) => if n == 0 {
            UdpStep::Stop
        } else {
            UdpStep::Send
        },
        UdpEvent::SendFailed => UdpStep::Wait,
        UdpEvent::FromServer(None) => UdpStep::Stop,
        UdpEvent::FromServer(Some(_)) => UdpStep::Deliver,
        UdpEvent::DeliverFailed => UdpStep::Stop,
    }
}

/// Decides what to do next in a UDP flow that is relayed, and counts lost
/// datagrams.
pub fn udp_step(event: UdpEvent, stats: &mut Stats) -> (r: UdpStep)
    ensures
        r == udp_next(event),
        final(stats)@ == if event == UdpEvent::SendFailed {
            state::counted(old(stats)@, Counter::UdpSendErrors)
        } else {
            old(stats)@
        },
{
    match event {
        UdpEvent::Idle => UdpStep::Stop,
        UdpEvent::FromClient(None) => UdpStep::Stop,
        UdpEvent::FromClient(Some(n)) => if n == 0 {
            UdpStep::Stop
        } else {
            UdpStep::Send
        },
        UdpEvent::SendFailed => {
            stats.count(Counter::UdpSendErrors);
            UdpStep::Wait
        },
        UdpEvent::FromServer(None) => UdpStep::Stop,
        UdpEvent::FromServer(Some(_)) => UdpStep::Deliver,
        UdpEvent::DeliverFailed => UdpStep::Stop,
    }
}

/// Learns hostnames from a datagram of the server where the flow is DNS.
pub fn snoop_datagram(snoop: bool, cache: &mut DnsCache, datagram: &[u8], now: u64)
    ensures
        final(cache)@ == if snoop {
            dns::remembering_all(
                old(cache)@,
                dns::dns_answers(datagram@).0,
                dns::dns_answers(datagram@).1,
                (now + old(cache).ttl()) as nat,
            )
        } else {
            old(cache)@
        },
        final(cache).ttl() == old(cache).ttl(),
{
    if snoop {
        cache.snoop_response(datagram, now);
    }
}

// ── Reporting ───────────────────────────────────────────────────────────────

/// Details about a single intercepted connection.
#[derive(Debug)]
pub struct ConnectionInfo {
    /// Executable file name of the originating process.
    pub process_name: String,
    /// Process id that owns the local endpoint; 0 where it is not known.
    pub pid: u32,
    /// Original destination address the process tried to reach.
    pub dest_ip: IpAddr,
    /// Original destination port.
    pub dest_port: u16,
    /// The action selected for this connection.
    pub action: RuleAction,
    /// Human-readable proxy description, e.g. `Proxy HTTP://127.0.0.1:8080`,
    /// `Direct`, or `Blocked`.
    pub proxy_info: String,
}

/// How a proxy is described.
pub open spec fn proxy_text(cfg: ProxyModel) -> Seq<char> {
    let scheme = match cfg.proxy_type {
        ProxyType::Http => "HTTP"@,
        ProxyType::Socks5 => "SOCKS5"@,
    };
    ("Proxy "@ + scheme + "://"@ + cfg.host).push(':') + text::decimal(cfg.port as nat)
}

/// How a decision is described.
pub open spec fn decision_text(shared: Shared, d: Decision) -> Seq<char> {
    match d {
        Decision::Direct => "Direct"@,
        Decision::Block => "Blocked"@,
        Decision::Proxy(id) => match shared.proxy_spec(id) {
            Some(cfg) => proxy_text(cfg),
            None => "Proxy (unconfigured)"@,
        },
    }
}

/// The action of a decision.
pub open spec fn decision_action(d: Decision) -> RuleAction {
    match d {
        Decision::Direct => RuleAction::Direct,
        Decision::Block => RuleAction::Block,
        Decision::Proxy(_) => RuleAction::Proxy,
    }
}

fn describe_proxy(cfg: &ProxyConfig) -> (r: String)
    ensures
        r@ == proxy_text(cfg@),
{
    let mut out: Vec<char> = Vec::new();
    push_str(&mut out, "Proxy ");
    match cfg.proxy_type {
        ProxyType::Http => push_str(&mut out, "HTTP"),
        ProxyType::Socks5 => push_str(&mut out, "SOCKS5"),
    }
    push_str(&mut out, "://");
    push_str(&mut out, cfg.host.as_str());
    out.push(':');
    push_decimal(&mut out, cfg.port as u64);
    assert(out@ == proxy_text(cfg@));
    string_of(&out)
}

/// Whether `info` is what is reported about a decided flow.
pub open spec fn reports(shared: Shared, f: FlowModel, d: Decision, info: ConnectionInfo) -> bool {
    &&& info.process_name@ == f.process_name
    &&& info.pid == match f.pid {
        Some(pid) => pid,
        None => 0,
    }
    &&& info.dest_ip == f.dest.ip
    &&& info.dest_port == f.dest.port
    &&& info.action == decision_action(d)
    &&& info.proxy_info@ == decision_text(shared, d)
}

/// What is reported about a decided flow.
pub fn report(shared: &Shared, facts: &FlowFacts<'_>, d: Decision) -> (r: ConnectionInfo)
    ensures
        reports(*shared, facts@, d, r),
{
    let (action, proxy_info): (RuleAction, String) = match d {
        Decision::Direct => (RuleAction::Direct, "Direct".to_string()),
        Decision::Block => (RuleAction::Block, "Blocked".to_string()),
        Decision::Proxy(id) => (
            RuleAction::Proxy,
            match shared.find_proxy_config(id) {
                Some(cfg) => describe_proxy(cfg),
                None => "Proxy (unconfigured)".to_string(),
            },
        ),
    };
    ConnectionInfo {
        process_name: facts.process_name.to_string(),
        pid: facts.pid.unwrap_or(0),
        dest_ip: facts.dest.ip,
        dest_port: facts.dest.port,
        action,
        proxy_info,
    }
}

// ── Serving flows ───────────────────────────────────────────────────────────

/// A flow that was accepted.
#[derive(Debug, Clone, Copy)]
pub struct Flow<'a> {
    /// Original destination.
    pub dest: SocketAddr,
    /// PID that owns the local endpoint, if it could be resolved.
    pub pid: Option<u32>,
    /// Executable file name of that process, if it could be resolved.
    pub process: Option<&'a str>,
}

impl<'a> Flow<'a> {
    /// What is known about the flow at time `now`.
    pub open spec fn facts(
        self,
        shared: Shared,
        names: Hostnames,
        is_udp: bool,
        now: u64,
    ) -> FlowModel {
        FlowModel {
            dest: self.dest,
            is_udp,
            pid: self.pid,
            process_name: name_for_rules(rule::text_of(self.process)),
            domain: domain_known(shared.rules@, names, self.dest.ip, now),
        }
    }

    /// What is known about a TCP flow when it is handed to a proxy. The proxy
    /// needs a name to issue a certificate for, so the hostname is looked up
    /// even if no rule speaks of hostnames.
    pub open spec fn proxied_facts(self, shared: Shared, names: Hostnames, now: u64) -> FlowModel {
        FlowModel {
            domain: dns::hostname_of(names, self.dest.ip, now),
            ..self.facts(shared, names, false, now)
        }
    }
}

/// Decides on a TCP flow: how to serve it, and what to report about it. A flow
/// that is proxied is handed over under its hostname where one is known.
pub fn handle_tcp(
    shared: &Shared,
    cache: &DnsCache,
    stats: &mut Stats,
    flow: &Flow<'_>,
    now: u64,
) -> (r: (TcpAction, ConnectionInfo))
    ensures
        ({
            let f = flow.facts(*shared, cache@, false, now);
            let d = decision(*shared, f);
            &&& serves_tcp(*shared, flow.proxied_facts(*shared, cache@, now), d, r.0)
            &&& reports(*shared, f, d, r.1)
            &&& final(stats)@ == tcp_counts(*shared, f, d, old(stats)@)
        }),
{
    let process_name = attributed_name(flow.process);
    let domain = domain_for(shared, cache, flow.dest.ip, now);
    let facts = FlowFacts {
        dest: flow.dest,
        is_udp: false,
        pid: flow.pid,
        process_name: process_name.as_str(),
        domain: match &domain {
            Some(name) => Some(name.as_str()),
            None => None,
        },
    };
    assert(facts@ == flow.facts(*shared, cache@, false, now));
    let d = decide(shared, &facts);
    let info = report(shared, &facts, d);
    let hostname: Option<String> = match d {
        Decision::Proxy(_) => cache.lookup(flow.dest.ip, now),
        _ => None,
    };
    let proxied = FlowFacts {
        dest: flow.dest,
        is_udp: false,
        pid: flow.pid,
        process_name: process_name.as_str(),
        domain: match &hostname {
            Some(name) => Some(name.as_str()),
            None => None,
        },
    };
    assert(d is Proxy ==> proxied@ == flow.proxied_facts(*shared, cache@, now));
    (open_tcp(shared, &proxied, d, stats), info)
}

/// Decides on a UDP flow: how to serve it, and what to report about it.
pub fn handle_udp(
    shared: &Shared,
    cache: &DnsCache,
    stats: &mut Stats,
    flow: &Flow<'_>,
    now: u64,
) -> (r: (UdpAction, ConnectionInfo))
    ensures
        ({
            let f = flow.facts(*shared, cache@, true, now);
            let d = decision(*shared, f);
            &&& r.0 == udp_action(flow.dest, d)
            &&& reports(*shared, f, d, r.1)
            &&& final(stats)@ == udp_counts(*shared, f, d, old(stats)@)
        }),
{
    let process_name = attributed_name(flow.process);
    let domain = domain_for(shared, cache, flow.dest.ip, now);
    let facts = FlowFacts {
        dest: flow.dest,
        is_udp: true,
        pid: flow.pid,
        process_name: process_name.as_str(),
        domain: match &domain {
            Some(name) => Some(name.as_str()),
            None => None,
        },
    };
    assert(facts@ == flow.facts(*shared, cache@, true, now));
    let d = decide(shared, &facts);
    let info = report(shared, &facts, d);
    (open_udp(shared, &facts, d, stats), info)
}

// ── Laws ────────────────────────────────────────────────────────────────────

/// Our own traffic is never proxied, whatever the rules say; it is dropped only
/// where there is no interface to send it out of.
pub proof fn law_own_traffic_is_never_proxied(shared: Shared, f: FlowModel)
    requires
        f.pid == Some(shared.current_pid),
    ensures
        decision(shared, f) == Decision::Direct || decision(shared, f) == Decision::Block,
        decision(shared, f) == Decision::Block <==> !f.dest.ip.loopback()
            && shared.iface_spec().index_spec(f.dest.ip) is None,
{
}

/// QUIC is dropped whichever process owns it and whatever the rules say.
pub proof fn law_quic_is_dropped_for_every_process(
    shared: Shared,
    f: FlowModel,
    pid: Option<u32>,
    name: Seq<char>,
)
    requires
        is_unwanted_quic(shared, f),
        pid != Some(shared.current_pid),
        !is_kept_local(shared, f),
    ensures
        decision(shared, (FlowModel { pid, process_name: name, ..f })) == Decision::Block,
{
}

/// Traffic to a group of hosts is dropped whatever the rules say.
pub proof fn law_group_traffic_is_dropped(shared: Shared, f: FlowModel)
    requires
        group_address(f.dest.ip),
        f.pid != Some(shared.current_pid),
    ensures
        decision(shared, f) == Decision::Block,
{
}

/// Loopback stays local whatever the rules say, unless configured otherwise.
pub proof fn law_loopback_goes_direct(shared: Shared, f: FlowModel)
    requires
        f.dest.ip.loopback(),
        !shared.localhost_via_proxy,
    ensures
        decision(shared, f) == Decision::Direct,
{
}

/// Without rules every flow goes direct, save for our own without an interface,
/// groups, and QUIC.
pub proof fn law_no_rules_fail_open(shared: Shared, f: FlowModel)
    requires
        shared.rules@.len() == 0,
        f.pid != Some(shared.current_pid),
        !group_address(f.dest.ip),
        !is_unwanted_quic(shared, f),
    ensures
        decision(shared, f) == Decision::Direct,
{
    assert(shared.rules@ == Seq::<crate::rule::CompiledModel>::empty());
    rule::law_no_rules_is_direct(f.connection());
}

/// A flow whose process is not known still flows, save for groups and QUIC, unless
/// a rule blocks every process.
pub proof fn law_unattributed_flow_fails_open(shared: Shared, f: FlowModel)
    requires
        f.pid is None,
        f.process_name.len() == 0,
        !group_address(f.dest.ip),
        !is_unwanted_quic(shared, f),
        forall|i: int|
            0 <= i < shared.rules@.len() && (#[trigger] shared.rules@[i]).outcome.action
                == RuleAction::Block ==> !shared.rules@[i].covers_process(Seq::empty()),
    ensures
        decision(shared, f) != Decision::Block,
{
    rule::law_unknown_process_is_not_blocked(shared.rules@, f.connection());
}

/// A flow is dropped for one of four reasons only.
pub proof fn law_dropped_flows_have_a_reason(shared: Shared, f: FlowModel)
    requires
        decision(shared, f) == Decision::Block,
    ensures
        (f.pid == Some(shared.current_pid) && shared.iface_spec().index_spec(f.dest.ip) is None)
            || group_address(f.dest.ip) || is_unwanted_quic(shared, f) || rule::decided(
            shared.rules@,
            f.connection(),
        ).action == RuleAction::Block,
{
}

/// QUIC that the policy allows is let through untouched, whatever the rules say.
pub proof fn law_allowed_quic_is_let_through(shared: Shared, f: FlowModel)
    requires
        is_quic(shared, f),
        shared.quic_policy == QuicPolicy::Allow,
        f.pid != Some(shared.current_pid),
        !group_address(f.dest.ip),
    ensures
        decision(shared, f) == Decision::Direct,
{
}

/// A dropped flow of another process is counted by what it was dropped for: its
/// group address, the QUIC policy, or a rule that blocks it.
pub proof fn law_drops_are_counted_by_reason(shared: Shared, f: FlowModel)
    requires
        decision(shared, f) == Decision::Block,
        f.pid != Some(shared.current_pid),
    ensures
        drop_counter(shared, f) == Counter::GroupDropped <==> group_address(f.dest.ip),
        drop_counter(shared, f) == Counter::QuicDropped <==> !group_address(f.dest.ip)
            && is_unwanted_quic(shared, f),
        drop_counter(shared, f) == Counter::Blocked <==> !group_address(f.dest.ip) && !is_quic(
            shared,
            f,
        ) && rule::decided(shared.rules@, f.connection()).action == RuleAction::Block,
{
}

/// A proxied flow is handed over under its hostname whenever the cache knows one
/// and the proxy is to resolve names, and under its address otherwise.
pub proof fn law_proxied_flows_are_named(
    shared: Shared,
    names: Hostnames,
    flow: Flow<'_>,
    now: u64,
    id: u32,
    action: TcpAction,
)
    requires
        shared.proxy_spec(id) is Some,
        serves_tcp(shared, flow.proxied_facts(shared, names, now), Decision::Proxy(id), action),
    ensures
        action matches TcpAction::Proxy(cfg, target) && cfg@ == shared.proxy_spec(id)->Some_0
            && match dns::hostname_of(names, flow.dest.ip, now) {
            Some(name) if cfg.send_domain_to_proxy => target matches Target::Domain(host, port)
                && host@ == name && port == flow.dest.port,
            _ => target == Target::Ip(flow.dest.ip, flow.dest.port),
        },
{
}

/// Which addresses name a group of hosts: `224.0.0.0` to `239.255.255.255`,
/// `255.255.255.255`, and the IPv6 addresses whose first octet is all ones.
pub proof fn law_group_addresses(ip: IpAddr)
    ensures
        ip matches IpAddr::V4(v4) ==> (group_address(ip) <==> 0xe000_0000 <= v4.bits
            <= 0xefff_ffff || v4.bits == 0xffff_ffff),
        ip matches IpAddr::V6(v6) ==> (group_address(ip) <==> v6.bits
            / 0x100_0000_0000_0000_0000_0000_0000_0000 == 0xff),
{
}

/// Our own flow is dropped where its destination is not the host itself and no
/// interface of the destination's family is known, and goes direct otherwise.
pub proof fn law_own_flow_needs_an_interface(shared: Shared, f: FlowModel)
    requires
        f.pid == Some(shared.current_pid),
    ensures
        f.dest.ip.loopback() ==> decision(shared, f) == Decision::Direct,
        !f.dest.ip.loopback() && shared.iface is None ==> decision(shared, f) == Decision::Block,
        !f.dest.ip.loopback() && shared.iface is Some && f.dest.ip is V4 ==> decision(shared, f)
            == if shared.iface->Some_0.v4_index is None {
            Decision::Block
        } else {
            Decision::Direct
        },
        !f.dest.ip.loopback() && shared.iface is Some && f.dest.ip is V6 ==> decision(shared, f)
            == if shared.iface->Some_0.v6_index is None {
            Decision::Block
        } else {
            Decision::Direct
        },
{
}

/// UDP to the QUIC port is dropped or let through as the policy says, whatever the
/// rules say: of every process but our own, and to every address but a group and
/// a loopback address that is kept local.
pub proof fn law_policy_decides_on_quic(shared: Shared, f: FlowModel)
    requires
        f.pid != Some(shared.current_pid),
        !f.dest.ip.loopback() || shared.localhost_via_proxy,
        !group_address(f.dest.ip),
        f.is_udp,
        f.dest.port == shared.quic_port,
    ensures
        shared.quic_policy == QuicPolicy::Drop ==> decision(shared, f) == Decision::Block,
        shared.quic_policy == QuicPolicy::Allow ==> decision(shared, f) == Decision::Direct,
{
}

/// The QUIC policy makes no difference to TCP, nor to UDP to another port.
pub proof fn law_quic_policy_concerns_quic_only(shared: Shared, f: FlowModel, policy: QuicPolicy)
    requires
        !f.is_udp || f.dest.port != shared.quic_port,
    ensures
        decision((Shared { quic_policy: policy, ..shared }), f) == decision(shared, f),
{
}

/// Whether loopback may be proxied makes no difference to any other destination,
/// and the interface none to the flows of other processes.
pub proof fn law_settings_concern_their_flows_only(
    shared: Shared,
    f: FlowModel,
    localhost_via_proxy: bool,
    iface: Option<crate::platform::PhysicalInterface>,
)
    ensures
        !f.dest.ip.loopback() ==> decision((Shared { localhost_via_proxy, ..shared }), f)
            == decision(shared, f),
        f.pid != Some(shared.current_pid) ==> decision((Shared { iface, ..shared }), f)
            == decision(shared, f),
{
}

/// The rules decide on every flow of another process that is not kept local, not
/// for a group and not QUIC. What they decide is what happens: where they say
/// proxy, it is the proxy with the id that they name.
pub proof fn law_rules_decide(shared: Shared, f: FlowModel)
    requires
        f.pid != Some(shared.current_pid),
        !f.dest.ip.loopback() || shared.localhost_via_proxy,
        !group_address(f.dest.ip),
        !f.is_udp || f.dest.port != shared.quic_port,
    ensures
        ({
            let m = rule::decided(
                shared.rules@,
                (Connection {
                    process_name: f.process_name,
                    dest: f.dest.ip,
                    port: f.dest.port,
                    is_udp: f.is_udp,
                    domain: f.domain,
                }),
            );
            &&& m.action == RuleAction::Direct ==> decision(shared, f) == Decision::Direct
            &&& m.action == RuleAction::Block ==> decision(shared, f) == Decision::Block
            &&& m.action == RuleAction::Proxy ==> decision(shared, f) == Decision::Proxy(
                m.proxy_config_id,
            )
        }),
{
}

/// What the rules are asked about a flow: its process as it is called, and its
/// destination under the name that the cache has for it.
pub open spec fn asked_of_rules(
    names: Hostnames,
    flow: Flow<'_>,
    is_udp: bool,
    now: u64,
) -> Connection {
    Connection {
        process_name: match flow.process {
            Some(name) => name@,
            None => Seq::empty(),
        },
        dest: flow.dest.ip,
        port: flow.dest.port,
        is_udp,
        domain: dns::hostname_of(names, flow.dest.ip, now),
    }
}

/// The rules decide on a flow as they would on its process under the name it
/// goes by and on its destination under its cached hostname: neither the small
/// letters that they see nor the lookup that is left out where no rule speaks of
/// hostnames changes anything.
pub proof fn law_facts_are_decided_as_asked(
    shared: Shared,
    names: Hostnames,
    flow: Flow<'_>,
    is_udp: bool,
    now: u64,
)
    ensures
        rule::decided(shared.rules@, flow.facts(shared, names, is_udp, now).connection())
            == rule::decided(shared.rules@, asked_of_rules(names, flow, is_udp, now)),
{
    let seen = flow.facts(shared, names, is_udp, now).connection();
    let asked = asked_of_rules(names, flow, is_udp, now);
    let named = Connection { process_name: seen.process_name, ..asked };
    text::lemma_lowered_twice(asked.process_name);
    if flow.process is None {
        assert(seen.process_name == asked.process_name);
    }
    rule::law_letter_case_of_process_is_ignored(shared.rules@, asked, seen.process_name);
    if rule::any_domain_rule(shared.rules@) {
        assert(seen == named);
    } else {
        rule::law_hostname_matters_to_domain_rules_only(shared.rules@, named, seen.domain);
        assert(seen == (Connection { domain: seen.domain, ..named }));
    }
}

/// A TCP flow of another process that is not kept local and not for a group is
/// served as the rules say: reset, sent direct, or handed to a configured proxy.
/// It is the proxy whose config id the rules name whenever there is one.
pub proof fn law_tcp_flow_is_served_as_the_rules_say(
    shared: Shared,
    names: Hostnames,
    flow: Flow<'_>,
    now: u64,
    action: TcpAction,
)
    requires
        flow.pid != Some(shared.current_pid),
        !flow.dest.ip.loopback() || shared.localhost_via_proxy,
        !group_address(flow.dest.ip),
        serves_tcp(
            shared,
            flow.proxied_facts(shared, names, now),
            decision(shared, flow.facts(shared, names, false, now)),
            action,
        ),
    ensures
        ({
            let m = rule::decided(shared.rules@, asked_of_rules(names, flow, false, now));
            let configs = shared.proxy_configs@;
            &&& m.action == RuleAction::Direct ==> action is Direct
            &&& m.action == RuleAction::Block ==> action is Drop
            &&& m.action == RuleAction::Proxy && configs.len() == 0 ==> action is Direct
            &&& m.action == RuleAction::Proxy && configs.len() > 0 ==> action is Proxy && exists|
                i: int,
            |
                0 <= i < configs.len() && (#[trigger] configs[i])@ == action->Proxy_0@
            &&& m.action == RuleAction::Proxy && (exists|i: int|
                0 <= i < configs.len() && (#[trigger] configs[i]).config_id == m.proxy_config_id)
                ==> action is Proxy && action->Proxy_0.config_id == m.proxy_config_id
        }),
{
    let f = flow.facts(shared, names, false, now);
    law_rules_decide(shared, f);
    law_facts_are_decided_as_asked(shared, names, flow, false, now);
    let m = rule::decided(shared.rules@, asked_of_rules(names, flow, false, now));
    let configs = shared.proxy_configs@;
    let models = state::proxy_models(configs);
    state::law_found_proxy_is_configured(models, m.proxy_config_id);
    if m.action == RuleAction::Proxy && configs.len() > 0 {
        let found = shared.proxy_spec(m.proxy_config_id)->Some_0;
        let i = choose|i: int| 0 <= i < models.len() && models[i] == found;
        assert(configs[i]@ == found);
        if exists|i: int|
            0 <= i < configs.len() && (#[trigger] configs[i]).config_id == m.proxy_config_id {
            let j = choose|j: int|
                0 <= j < configs.len() && (#[trigger] configs[j]).config_id == m.proxy_config_id;
            assert(models[j].config_id == m.proxy_config_id);
        }
    }
}

/// A UDP flow of another process that is not kept local, not for a group and not
/// QUIC is dropped where the rules block it and relayed otherwise, even where
/// they say proxy. Responses are snooped on port 53 alone.
pub proof fn law_udp_flow_is_served_as_the_rules_say(
    shared: Shared,
    names: Hostnames,
    flow: Flow<'_>,
    now: u64,
)
    requires
        flow.pid != Some(shared.current_pid),
        !flow.dest.ip.loopback() || shared.localhost_via_proxy,
        !group_address(flow.dest.ip),
        flow.dest.port != shared.quic_port,
    ensures
        ({
            let m = rule::decided(shared.rules@, asked_of_rules(names, flow, true, now));
            let action = udp_action(
                flow.dest,
                decision(shared, flow.facts(shared, names, true, now)),
            );
            &&& action == UdpAction::Drop <==> m.action == RuleAction::Block
            &&& m.action != RuleAction::Block ==> action == UdpAction::Relay(flow.dest.port == 53)
        }),
{
    law_rules_decide(shared, flow.facts(shared, names, true, now));
    law_facts_are_decided_as_asked(shared, names, flow, true, now);
}

/// A flow that is dropped raises one counter by one, that of its reason; one that
/// is to be proxied without any proxy raises that of the fallbacks; any other
/// leaves the counters alone.
pub proof fn law_flows_are_counted_once(
    shared: Shared,
    f: FlowModel,
    d: Decision,
    s: StatsSnapshot,
    c: Counter,
)
    ensures
        ({
            let reason = if group_address(f.dest.ip) {
                Counter::GroupDropped
            } else if f.is_udp && f.dest.port == shared.quic_port {
                Counter::QuicDropped
            } else {
                Counter::Blocked
            };
            let after = state::count_of(tcp_counts(shared, f, d, s), c);
            let udp_after = state::count_of(udp_counts(shared, f, d, s), c);
            let before = state::count_of(s, c);
            let next = if before == u64::MAX {
                0int
            } else {
                before + 1
            };
            &&& d == Decision::Block && c == reason ==> after == next && udp_after == next
            &&& d == Decision::Block && c != reason ==> after == before && udp_after == before
            &&& d == Decision::Direct ==> after == before && udp_after == before
            &&& d is Proxy ==> udp_after == before
            &&& d is Proxy && shared.proxy_configs@.len() > 0 ==> after == before
            &&& d is Proxy && shared.proxy_configs@.len() == 0 ==> after == if c
                == Counter::ProxyFallbacks {
                next
            } else {
                before as int
            }
        }),
{
    if let Decision::Proxy(id) = d {
        state::law_found_proxy_is_configured(state::proxy_models(shared.proxy_configs@), id);
    }
}

/// A proxied flow is asked for under the port that it was going to, and under its
/// own address unless the proxy resolves names.
pub proof fn law_proxy_is_asked_for_the_destination(
    cfg: ProxyModel,
    f: FlowModel,
    target: Target,
)
    requires
        is_target(cfg, f, target),
    ensures
        target matches Target::Ip(ip, port) ==> ip == f.dest.ip && port == f.dest.port && (
        !cfg.send_domain_to_proxy || f.domain is None),
        target matches Target::Domain(host, port) ==> cfg.send_domain_to_proxy && f.domain == Some(
            host@,
        ) && port == f.dest.port,
{
}

/// A datagram from the client is sent on unless it is empty, one from the server
/// is delivered even if it is, a failed send leaves the flow open, and nothing
/// else does.
pub proof fn law_udp_relay_carries_datagrams(event: UdpEvent, n: usize)
    ensures
        udp_next(UdpEvent::FromClient(Some(n))) == UdpStep::Send <==> n > 0,
        udp_next(UdpEvent::FromServer(Some(n))) == UdpStep::Deliver,
        udp_next(event) == UdpStep::Wait <==> event == UdpEvent::SendFailed,
        udp_next(event) == UdpStep::Send ==> event is FromClient,
        udp_next(event) == UdpStep::Deliver ==> event is FromServer,
        event == UdpEvent::FromClient(None) || event == UdpEvent::FromServer(None) || event
            == UdpEvent::Idle || event == UdpEvent::DeliverFailed ==> udp_next(event)
            == UdpStep::Stop,
{
}

/// What is reported about a flow is its process, its owner (0 where that is not
/// known), its destination, and the action that was decided.
pub proof fn law_report_tells_what_was_decided(
    shared: Shared,
    f: FlowModel,
    d: Decision,
    info: ConnectionInfo,
)
    requires
        reports(shared, f, d, info),
    ensures
        info.process_name@ == f.process_name,
        f.pid is Some ==> info.pid == f.pid->Some_0,
        f.pid is None ==> info.pid == 0,
        info.dest_ip == f.dest.ip && info.dest_port == f.dest.port,
        info.action == RuleAction::Direct <==> d == Decision::Direct,
        info.action == RuleAction::Block <==> d == Decision::Block,
        info.action == RuleAction::Proxy <==> d is Proxy,
        d == Decision::Direct ==> info.proxy_info@ == "Direct"@,
        d == Decision::Block ==> info.proxy_info@ == "Blocked"@,
        d is Proxy && shared.proxy_configs@.len() == 0 ==> info.proxy_info@
            == "Proxy (unconfigured)"@,
        d matches Decision::Proxy(id) ==> shared.proxy_configs@.len() > 0 ==> info.proxy_info@
            == proxy_text(shared.proxy_spec(id)->Some_0),
{
    if let Decision::Proxy(id) = d {
        state::law_found_proxy_is_configured(state::proxy_models(shared.proxy_configs@), id);
    }
}

/// A proxy is described by its kind, its host and its port: the description ends
/// with a colon and a number that reads back as the port, before which stands the
/// host.
pub proof fn law_proxy_description_reads_back(cfg: ProxyModel) -> (port: Seq<char>)
    ensures
        cfg.proxy_type == ProxyType::Http ==> proxy_text(cfg) == ("Proxy HTTP://"@ + cfg.host).push(
            ':',
        ) + port,
        cfg.proxy_type == ProxyType::Socks5 ==> proxy_text(cfg) == ("Proxy SOCKS5://"@
            + cfg.host).push(':') + port,
        text::unsigned_value(port, 65535) == Some(cfg.port as nat),
{
    let port = text::decimal(cfg.port as nat);
    text::lemma_decimal_reads_back(cfg.port as nat);
    assert(text::is_digit(port[0]));
    reveal_strlit("Proxy ");
    reveal_strlit("HTTP");
    reveal_strlit("SOCKS5");
    reveal_strlit("://");
    reveal_strlit("Proxy HTTP://");
    reveal_strlit("Proxy SOCKS5://");
    assert("Proxy "@ + "HTTP"@ + "://"@ =~= "Proxy HTTP://"@);
    assert("Proxy "@ + "SOCKS5"@ + "://"@ =~= "Proxy SOCKS5://"@);
    port
}

/// The line about a proxy that is not available tells the destination and the
/// reason.
pub proof fn law_fallback_line_tells_why(dest: Seq<char>, reason: Seq<char>)
    ensures
        text::contains_text(fallback_line(dest, reason), dest),
        text::contains_text(fallback_line(dest, reason), reason),
{
    let line = fallback_line(dest, reason);
    let a = "proxy unavailable for "@.len() as int;
    let b = a + dest.len() + " ("@.len();
    assert(line.subrange(a, a + dest.len()) == dest);
    assert(text::stands_at(line, dest, a));
    assert(line.subrange(b, b + reason.len()) == reason);
    assert(text::stands_at(line, reason, b));
}

/// The rules see a process under its own name, in small ASCII letters; a process
/// that is not known has none.
pub proof fn law_rules_see_small_letters(name: Seq<char>, i: int)
    requires
        0 <= i < name.len(),
    ensures
        name_for_rules(Some(name)).len() == name.len(),
        !('A' <= name_for_rules(Some(name))[i] <= 'Z'),
        !('A' <= name[i] <= 'Z') ==> name_for_rules(Some(name))[i] == name[i],
        text::eq_ignore_case(name_for_rules(Some(name)), name),
        name_for_rules(None).len() == 0,
{
    text::lemma_lowered_twice(name);
    assert(text::lowered(name)[i] == text::ascii_lower(name[i]));
}

} // verus!
