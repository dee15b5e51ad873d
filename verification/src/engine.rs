//! Configuring a redirect, and its life from start to stop.

use vstd::prelude::*;

use crate::addr::SocketAddr;
use crate::addr_text;
use crate::addr_text::{format_ip, parse_socket_addr};
use crate::config::{ProxyConfig, ProxyModel, ProxyType};
use crate::dns::{DnsCache, Hostnames, DNS_CACHE_TTL};
use crate::error::{Error, IoFailure, IoKind, Result};
use crate::platform::{check_privileged, PhysicalInterface};
use crate::rule;
use crate::rule::{CompiledModel, Rule, RuleModel, RuleSet};
use crate::state;
use crate::state::{QuicPolicy, Shared, Stats, StatsSnapshot};
use crate::text;

verus! {

/// Default UDP port treated as QUIC.
pub const DEFAULT_QUIC_PORT: u16 = 443;

/// Idle time (seconds) before an established TCP connection is closed: long
/// enough for long-polls and websockets.
pub const TCP_SESSION_TIMEOUT_SECS: u64 = 900;

/// Builder for a [`TunRedirect`].
pub struct TunRedirectBuilder {
    proxy_addr: SocketAddr,
    rules: Vec<Rule>,
    proxy_configs: Vec<ProxyConfig>,
    quic_port: u16,
    quic_policy: QuicPolicy,
    ipv6: bool,
    localhost_via_proxy: bool,
}

/// What a builder was told.
#[verifier::ext_equal]
pub struct BuilderModel {
    /// Address of the proxy that is used where none is registered.
    pub proxy_addr: SocketAddr,
    /// The rules, in order.
    pub rules: Seq<RuleModel>,
    /// The registered proxies, in order.
    pub proxy_configs: Seq<ProxyModel>,
    /// UDP port treated as QUIC.
    pub quic_port: u16,
    /// What to do with QUIC.
    pub quic_policy: QuicPolicy,
    /// Whether IPv6 is intercepted.
    pub ipv6: bool,
    /// Whether loopback destinations may be proxied.
    pub localhost_via_proxy: bool,
}

/// The criteria and outcomes behind a sequence of rules.
pub open spec fn rule_models(rules: Seq<Rule>) -> Seq<RuleModel> {
    rules.map_values(|r: Rule| r@)
}

impl View for TunRedirectBuilder {
    type V = BuilderModel;

    closed spec fn view(&self) -> BuilderModel {
        BuilderModel {
            proxy_addr: self.proxy_addr,
            rules: rule_models(self.rules@),
            proxy_configs: state::proxy_models(self.proxy_configs@),
            quic_port: self.quic_port,
            quic_policy: self.quic_policy,
            ipv6: self.ipv6,
            localhost_via_proxy: self.localhost_via_proxy,
        }
    }
}

impl BuilderModel {
    /// What a builder is told to begin with.
    pub open spec fn initial(proxy_addr: SocketAddr) -> BuilderModel {
        BuilderModel {
            proxy_addr,
            rules: Seq::empty(),
            proxy_configs: Seq::empty(),
            quic_port: DEFAULT_QUIC_PORT,
            quic_policy: QuicPolicy::Drop,
            ipv6: true,
            localhost_via_proxy: false,
        }
    }

    /// The proxies in use: those registered, or else an HTTP proxy at the
    /// builder's address.
    pub open spec fn effective_configs(self) -> Seq<ProxyModel> {
        if self.proxy_configs.len() == 0 {
            seq![
                ProxyModel::plain(
                    ProxyType::Http,
                    addr_text::write_ip(self.proxy_addr.ip),
                    self.proxy_addr.port,
                ),
            ]
        } else {
            self.proxy_configs
        }
    }
}

/// The id of the config at position `i`: counted from 1.
pub open spec fn config_id_at(i: int) -> u32 {
    ((i + 1) % 0x1_0000_0000) as u32
}

/// The configs with their ids assigned.
pub open spec fn numbered(configs: Seq<ProxyModel>) -> Seq<ProxyModel> {
    Seq::new(
        configs.len(),
        |i: int| ProxyModel { config_id: config_id_at(i), ..configs[i] },
    )
}

/// The position of the first config that cannot be used, or their number.
pub open spec fn first_unusable(configs: Seq<ProxyModel>) -> int
    decreases configs.len(),
{
    if configs.len() == 0 || !configs[0].usable() {
        0
    } else {
        1 + first_unusable(configs.drop_first())
    }
}

/// Why a config cannot be used.
pub open spec fn config_fault(cfg: ProxyModel) -> Seq<char> {
    if text::trim(cfg.host).len() == 0 {
        "proxy host must not be empty"@
    } else {
        "proxy port must not be zero"@
    }
}

proof fn lemma_first_unusable(configs: Seq<ProxyModel>, n: int)
    requires
        0 <= n <= configs.len(),
        forall|i: int| 0 <= i < n ==> (#[trigger] configs[i]).usable(),
        n < configs.len() ==> !configs[n].usable(),
    ensures
        first_unusable(configs) == n,
    decreases n,
{
    if n > 0 {
        assert(configs[0].usable());
        assert forall|i: int| 0 <= i < n - 1 implies (
        #[trigger] configs.drop_first()[i]).usable() by {
            assert(configs.drop_first()[i] == configs[i + 1]);
        }
        lemma_first_unusable(configs.drop_first(), n - 1);
    }
}

impl TunRedirectBuilder {
    fn new(proxy_addr: SocketAddr) -> (r: TunRedirectBuilder)
        ensures
            r@ == BuilderModel::initial(proxy_addr),
    {
        let r: TunRedirectBuilder = TunRedirectBuilder {
            proxy_addr,
            rules: Vec::new(),
            proxy_configs: Vec::new(),
            quic_port: DEFAULT_QUIC_PORT,
            quic_policy: QuicPolicy::Drop,
            ipv6: true,
            localhost_via_proxy: false,
        };
        assert(r@ == BuilderModel::initial(proxy_addr));
        r
    }

    /// Appends a routing rule. Rules are evaluated in insertion order.
    pub fn add_rule(self, rule: Rule) -> (r: TunRedirectBuilder)
        ensures
            r@ == (BuilderModel { rules: self@.rules.push(rule@), ..self@ }),
    {
        let mut b: TunRedirectBuilder = self;
        b.rules.push(rule);
        assert(b@ == BuilderModel { rules: self@.rules.push(rule@), ..self@ });
        b
    }

    /// Appends several rules at once.
    pub fn add_rules(self, rules: Vec<Rule>) -> (r: TunRedirectBuilder)
        ensures
            r@ == (BuilderModel { rules: self@.rules + rule_models(rules@), ..self@ }),
    {
        let mut b: TunRedirectBuilder = self;
        let mut more: Vec<Rule> = rules;
        b.rules.append(&mut more);
        assert(b@ == BuilderModel { rules: self@.rules + rule_models(rules@), ..self@ });
        b
    }

    /// Registers an upstream proxy. The first one registered is the default
    /// used by `Proxy` rules that don't name a specific config.
    ///
    /// If none is registered, an HTTP proxy at the builder's address is used.
    pub fn proxy_config(self, config: ProxyConfig) -> (r: TunRedirectBuilder)
        ensures
            r@ == (BuilderModel { proxy_configs: self@.proxy_configs.push(config@), ..self@ }),
    {
        let mut b: TunRedirectBuilder = self;
        b.proxy_configs.push(config);
        assert(b@ == BuilderModel { proxy_configs: self@.proxy_configs.push(config@), ..self@ });
        b
    }

    /// Sets the UDP port treated as QUIC (default 443).
    pub fn quic_port(self, port: u16) -> (r: TunRedirectBuilder)
        ensures
            r@ == (BuilderModel { quic_port: port, ..self@ }),
    {
        TunRedirectBuilder { quic_port: port, ..self }
    }

    /// Chooses whether QUIC is dropped (default) or allowed through.
    ///
    /// Dropping is strongly recommended: it forces clients onto TCP, which the
    /// proxy inspects. [`QuicPolicy::Allow`] means that HTTP/3 traffic is not
    /// inspected at all, and block rules will not apply to it.
    pub fn quic_policy(self, policy: QuicPolicy) -> (r: TunRedirectBuilder)
        ensures
            r@ == (BuilderModel { quic_policy: policy, ..self@ }),
    {
        TunRedirectBuilder { quic_policy: policy, ..self }
    }

    /// Enables or disables IPv6 interception (default enabled). When disabled,
    /// IPv6 traffic keeps using the physical interface uninspected.
    pub fn ipv6(self, enable: bool) -> (r: TunRedirectBuilder)
        ensures
            r@ == (BuilderModel { ipv6: enable, ..self@ }),
    {
        TunRedirectBuilder { ipv6: enable, ..self }
    }

    /// Allows loopback destinations to be routed through the proxy. Disabled by
    /// default.
    pub fn localhost_via_proxy(self, enable: bool) -> (r: TunRedirectBuilder)
        ensures
            r@ == (BuilderModel { localhost_via_proxy: enable, ..self@ }),
    {
        TunRedirectBuilder { localhost_via_proxy: enable, ..self }
    }

    /// Validates the configuration and builds a ready-to-start [`TunRedirect`]
    /// for the process with the id `current_pid`.
    pub fn build(self, current_pid: u32) -> (r: Result<TunRedirect>)
        ensures
            r is Ok <==> first_unusable(self@.effective_configs())
                == self@.effective_configs().len(),
            r is Err ==> r->Err_0 is Config && r->Err_0->Config_0@ == config_fault(
                self@.effective_configs()[first_unusable(self@.effective_configs())],
            ),
            r is Ok ==> is_built_from(r->Ok_0, self@, current_pid),
    {
        let ghost configs = self@.effective_configs();
        let mut proxy_configs: Vec<ProxyConfig> = self.proxy_configs;
        if proxy_configs.len() == 0 {
            let host: String = format_ip(self.proxy_addr.ip);
            proxy_configs.push(ProxyConfig::http(host.as_str(), self.proxy_addr.port));
        }
        assert(state::proxy_models(proxy_configs@) == configs);
        let n: usize = proxy_configs.len();
        let mut out: Vec<ProxyConfig> = Vec::new();
        let mut i: usize = 0;
        while i < n
            invariant
                i <= n,
                n == proxy_configs@.len(),
                configs == state::proxy_models(proxy_configs@),
                configs == self@.effective_configs(),
                out@.len() == i,
                forall|j: int|
                    0 <= j < i ==> (#[trigger] out@[j])@ == (ProxyModel {
                        config_id: config_id_at(j),
                        ..configs[j]
                    }) && configs[j].usable(),
            decreases n - i,
        {
            let mut cfg: ProxyConfig = proxy_configs[i].clone();
            cfg.config_id = ((i as u64 + 1) % 0x1_0000_0000) as u32;
            assert(cfg@ == ProxyModel { config_id: config_id_at(i as int), ..configs[i as int] });
            match cfg.validate() {
                Ok(()) => {},
                Err(e) => {
                    proof {
                        assert forall|j: int| 0 <= j < i implies (
                        #[trigger] configs[j]).usable() by {
                            assert(out@[j]@ == ProxyModel {
                                config_id: config_id_at(j),
                                ..configs[j]
                            });
                        }
                        lemma_first_unusable(configs, i as int);
                    }
                    return Err(e);
                },
            }
            out.push(cfg);
            i = i + 1;
        }
        proof {
            assert forall|j: int| 0 <= j < n implies (#[trigger] configs[j]).usable() by {
                assert(out@[j]@ == ProxyModel { config_id: config_id_at(j), ..configs[j] });
            }
            lemma_first_unusable(configs, n as int);
            assert(state::proxy_models(out@) == numbered(configs));
        }
        let rules: RuleSet = RuleSet::new(self.rules.as_slice());
        assert(rules@ == compiled_models(self@.rules));
        Ok(
            TunRedirect {
                shared: Shared {
                    rules,
                    proxy_configs: out,
                    localhost_via_proxy: self.localhost_via_proxy,
                    quic_port: self.quic_port,
                    quic_policy: self.quic_policy,
                    current_pid,
                    iface: None,
                },
                ipv6: self.ipv6,
                dns_cache: DnsCache::default(),
                stats: Stats::new(),
                phase: Phase::Idle,
            },
        )
    }
}

/// The compiled forms of a sequence of rules.
pub open spec fn compiled_models(rules: Seq<RuleModel>) -> Seq<CompiledModel> {
    rules.map_values(|r: RuleModel| rule::compiled(r))
}

/// Whether a redirect is what the builder was told to build: idle, with nothing
/// learned and nothing counted.
pub open spec fn is_built_from(r: TunRedirect, b: BuilderModel, current_pid: u32) -> bool {
    &&& r.shared.rules@ == compiled_models(b.rules)
    &&& state::proxy_models(r.shared.proxy_configs@) == numbered(b.effective_configs())
    &&& r.shared.localhost_via_proxy == b.localhost_via_proxy
    &&& r.shared.quic_port == b.quic_port
    &&& r.shared.quic_policy == b.quic_policy
    &&& r.shared.current_pid == current_pid
    &&& r.shared.iface is None
    &&& r.ipv6 == b.ipv6
    &&& r.dns_cache@ == Hostnames::empty()
    &&& r.dns_cache.ttl() == DNS_CACHE_TTL
    &&& r.stats@ == state::zero_counts()
    &&& r.phase == Phase::Idle
}

/// Where a redirect is in its life.
#[derive(Debug, Clone, Copy, PartialEq, Eq, Structural)]
pub enum Phase {
    /// Not running.
    Idle,
    /// On the way from idle to running.
    Starting,
    /// Running.
    Running,
}

/// A configured (and startable) transparent redirect engine.
pub struct TunRedirect {
    /// What all flows share.
    pub shared: Shared,
    /// Whether IPv6 is intercepted.
    pub ipv6: bool,
    /// The hostnames learned from DNS.
    pub dns_cache: DnsCache,
    /// The flow counters.
    pub stats: Stats,
    /// Where the engine is in its life.
    pub phase: Phase,
}

impl TunRedirect {
    /// Begins building a redirect that sends matched traffic to `proxy_addr`
    /// (e.g. `"127.0.0.1:8080"`), the address of the local proxy.
    pub fn builder(proxy_addr: &str) -> (r: Result<TunRedirectBuilder>)
        ensures
            r is Ok <==> addr_text::socket_text(proxy_addr@) is Some,
            r is Ok ==> r->Ok_0@ == BuilderModel::initial(
                addr_text::socket_text(proxy_addr@)->Some_0,
            ),
            r is Err ==> r->Err_0 is InvalidAddress && r->Err_0->input@ == proxy_addr@,
    {
        match parse_socket_addr(proxy_addr) {
            Some(addr) => Ok(TunRedirectBuilder::new(addr)),
            None => Err(Error::InvalidAddress { input: proxy_addr.to_string() }),
        }
    }

    /// The DNS snoop cache.
    pub fn dns_cache(&self) -> (r: &DnsCache)
        ensures
            *r == self.dns_cache,
    {
        &self.dns_cache
    }

    /// Current flow counters.
    pub fn stats(&self) -> (r: StatsSnapshot)
        ensures
            r == self.stats@,
    {
        self.stats.snapshot()
    }

    /// Whether the engine is currently running.
    pub fn is_running(&self) -> (r: bool)
        ensures
            r == (self.phase == Phase::Running),
    {
        self.phase == Phase::Running
    }

    /// Claims the engine for a start. Only one start is possible at a time.
    ///
    /// Requires administrator privileges: without them nothing is touched, and a
    /// later start is not refused.
    pub fn start(&mut self, privileged: bool) -> (r: Result<()>)
        ensures
            r is Ok <==> old(self).phase == Phase::Idle && privileged,
            r is Err ==> *final(self) == *old(self),
            r is Err && old(self).phase == Phase::Idle ==> r->Err_0 is NotElevated,
            r is Err && old(self).phase != Phase::Idle ==> r->Err_0 is AlreadyRunning,
            r is Ok ==> *final(self) == (TunRedirect { phase: Phase::Starting, ..*old(self) }),
    {
        match self.phase {
            Phase::Idle => match check_privileged(privileged) {
                Ok(()) => {
                    self.phase = Phase::Starting;
                    Ok(())
                },
                Err(e) => Err(e),
            },
            _ => Err(Error::AlreadyRunning),
        }
    }

    /// Takes the interface that was discovered before the tunnel's routes exist.
    /// Without one there is no connectivity to divert, and the start fails. The
    /// interface of the first start stays the one that sockets are pinned to.
    pub fn choose_interface(&mut self, iface: PhysicalInterface) -> (r: Result<()>)
        ensures
            r is Ok <==> !(iface.v4_index is None && iface.v6_index is None),
            r is Err ==> *final(self) == *old(self) && is_no_interface(r->Err_0),
            r is Ok ==> *final(self) == (TunRedirect {
                shared: Shared {
                    iface: match old(self).shared.iface {
                        Some(known) => Some(known),
                        None => Some(iface),
                    },
                    ..old(self).shared
                },
                ..*old(self)
            }),
    {
        if iface.is_empty() {
            return Err(
                Error::netcfg(
                    "discover_physical_interface",
                    IoFailure::new(IoKind::NotConnected, "no internet-facing interface found"),
                ),
            );
        }
        if self.shared.iface.is_none() {
            self.shared.iface = Some(iface);
        }
        Ok(())
    }

    /// Notes how the start went: the engine runs, or is idle again.
    pub fn finish_start(&mut self, outcome: Result<()>) -> (r: Result<()>)
        requires
            old(self).phase == Phase::Starting,
        ensures
            r == outcome,
            *final(self) == (TunRedirect {
                phase: if outcome is Ok {
                    Phase::Running
                } else {
                    Phase::Idle
                },
                ..*old(self)
            }),
    {
        self.phase = if outcome.is_ok() {
            Phase::Running
        } else {
            Phase::Idle
        };
        outcome
    }

    /// Claims a running engine for a stop.
    pub fn stop(&mut self) -> (r: Result<()>)
        ensures
            r is Ok <==> old(self).phase == Phase::Running,
            r is Err ==> r->Err_0 is NotRunning && *final(self) == *old(self),
            r is Ok ==> *final(self) == (TunRedirect { phase: Phase::Idle, ..*old(self) }),
    {
        match self.phase {
            Phase::Running => {
                self.phase = Phase::Idle;
                Ok(())
            },
            _ => Err(Error::NotRunning),
        }
    }
}

/// Whether an error says that no interface was found.
pub open spec fn is_no_interface(e: Error) -> bool {
    e matches Error::NetConfig { op, source } && op@ == "discover_physical_interface"@
        && source.kind == IoKind::NotConnected && source.message@
        == "no internet-facing interface found"@
}

// ── Laws ────────────────────────────────────────────────────────────────────

/// The id of a registered proxy is its position counted from 1, and looking it
/// up by that id finds it.
pub proof fn law_config_ids_are_stable(configs: Seq<ProxyModel>, i: int)
    requires
        0 <= i < configs.len() <= u32::MAX,
    ensures
        config_id_at(i) == i + 1,
        state::proxy_for(numbered(configs), config_id_at(i)) == Some(numbered(configs)[i]),
{
    lemma_numbered_position(numbered(configs), 0, i);
}

proof fn lemma_numbered_position(configs: Seq<ProxyModel>, first: int, i: int)
    requires
        0 <= i < configs.len(),
        0 <= first,
        first + configs.len() <= u32::MAX,
        forall|j: int|
            0 <= j < configs.len() ==> (#[trigger] configs[j]).config_id == config_id_at(first + j),
    ensures
        state::config_position(configs, config_id_at(first + i)) == i,
    decreases i,
{
    if i > 0 {
        assert(configs[0].config_id == config_id_at(first + 0));
        let rest = configs.drop_first();
        assert forall|j: int| 0 <= j < rest.len() implies (#[trigger] rest[j]).config_id
            == config_id_at((first + 1) + j) by {
            assert(rest[j] == configs[j + 1]);
        }
        lemma_numbered_position(rest, first + 1, i - 1);
    } else {
        assert(configs[0].config_id == config_id_at(first + 0));
    }
}

/// An id that no proxy has stands for the first proxy.
pub proof fn law_unknown_config_id_means_the_first(configs: Seq<ProxyModel>, id: u32)
    requires
        configs.len() > 0,
        forall|j: int| 0 <= j < configs.len() ==> (#[trigger] configs[j]).config_id != id,
    ensures
        state::proxy_for(configs, id) == Some(configs[0]),
{
    assert(state::config_position(configs, id) == configs.len()) by {
        lemma_absent_position(configs, id);
    }
}

proof fn lemma_absent_position(configs: Seq<ProxyModel>, id: u32)
    requires
        forall|j: int| 0 <= j < configs.len() ==> (#[trigger] configs[j]).config_id != id,
    ensures
        state::config_position(configs, id) == configs.len(),
    decreases configs.len(),
{
    if configs.len() > 0 {
        assert(configs[0].config_id != id);
        assert forall|j: int| 0 <= j < configs.len() - 1 implies (
        #[trigger] configs.drop_first()[j]).config_id != id by {
            assert(configs.drop_first()[j] == configs[j + 1]);
        }
        lemma_absent_position(configs.drop_first(), id);
    }
}

/// A redirect is refused for the first proxy without a host or without a port,
/// and is built where there is none.
pub proof fn law_first_unusable_proxy_is_reported(configs: Seq<ProxyModel>, n: int)
    requires
        0 <= n <= configs.len(),
        forall|i: int|
            0 <= i < n ==> !text::is_blank((#[trigger] configs[i]).host) && configs[i].port != 0,
        n < configs.len() ==> text::is_blank(configs[n].host) || configs[n].port == 0,
    ensures
        first_unusable(configs) == n,
        n < configs.len() && text::is_blank(configs[n].host) ==> config_fault(configs[n])
            == "proxy host must not be empty"@,
        n < configs.len() && !text::is_blank(configs[n].host) ==> config_fault(configs[n])
            == "proxy port must not be zero"@,
{
    assert forall|i: int| 0 <= i < n implies (#[trigger] configs[i]).usable() by {
        lemma_blank_is_empty(configs[i].host);
    }
    if n < configs.len() {
        lemma_blank_is_empty(configs[n].host);
    }
    lemma_first_unusable(configs, n);
}

proof fn lemma_blank_is_empty(s: Seq<char>)
    ensures
        text::trim(s).len() == 0 <==> text::is_blank(s),
{
    if text::is_blank(s) {
        let none = Seq::<char>::empty();
        assert(s == s + none + none);
        text::law_trim_cuts_blanks_only(s, none, none);
    } else {
        let i = choose|i: int| 0 <= i < s.len() && !text::is_space(#[trigger] s[i]);
        assert(s.contains(s[i]));
        text::law_trim_keeps_what_is_no_blank(s, s[i]);
    }
}

/// A built redirect follows its builder: its rules are the builder's, in order,
/// and so are its proxies, each under its position counted from 1.
pub proof fn law_redirect_follows_its_builder(
    r: TunRedirect,
    b: BuilderModel,
    current_pid: u32,
    i: int,
)
    requires
        is_built_from(r, b, current_pid),
        b.proxy_configs.len() <= u32::MAX,
    ensures
        r.shared.rules@.len() == b.rules.len(),
        0 <= i < b.rules.len() ==> r.shared.rules@[i] == rule::compiled(b.rules[i]),
        0 <= i < b.proxy_configs.len() ==> ({
            let found = r.shared.proxy_spec((i + 1) as u32);
            &&& found is Some
            &&& found->Some_0.host == b.proxy_configs[i].host
            &&& found->Some_0.port == b.proxy_configs[i].port
            &&& found->Some_0.proxy_type == b.proxy_configs[i].proxy_type
            &&& found->Some_0.username == b.proxy_configs[i].username
            &&& found->Some_0.password == b.proxy_configs[i].password
            &&& found->Some_0.send_domain_to_proxy == b.proxy_configs[i].send_domain_to_proxy
        }),
        r.shared.quic_port == b.quic_port && r.shared.quic_policy == b.quic_policy,
        r.shared.localhost_via_proxy == b.localhost_via_proxy && r.ipv6 == b.ipv6,
        r.shared.current_pid == current_pid && r.shared.iface is None,
        r.phase == Phase::Idle,
{
    if 0 <= i < b.proxy_configs.len() {
        law_config_ids_are_stable(b.proxy_configs, i);
    }
}

/// A redirect without registered proxies hands every proxied flow to an HTTP proxy
/// at the builder's address: without credentials, and with hostnames for it to
/// resolve.
pub proof fn law_default_proxy_is_at_the_builders_address(
    r: TunRedirect,
    b: BuilderModel,
    current_pid: u32,
    id: u32,
)
    requires
        is_built_from(r, b, current_pid),
        b.proxy_configs.len() == 0,
    ensures
        r.shared.proxy_spec(id) matches Some(cfg) && cfg.proxy_type == ProxyType::Http
            && addr_text::ip_text(cfg.host) == Some(b.proxy_addr.ip) && cfg.port
            == b.proxy_addr.port && cfg.username is None && cfg.password is None
            && cfg.send_domain_to_proxy,
{
    let configs = numbered(b.effective_configs());
    assert(configs.len() == 1);
    state::law_found_proxy_is_configured(configs, id);
    assert(r.shared.proxy_spec(id)->Some_0 == configs[0]);
    addr_text::law_ip_text_round_trip(b.proxy_addr.ip);
}

/// Whoever does not say otherwise drops QUIC on UDP port 443, intercepts IPv6, and
/// keeps loopback local; a proxy resolves hostnames and has no credentials.
pub proof fn law_defaults(
    proxy_addr: SocketAddr,
    proxy_type: ProxyType,
    host: Seq<char>,
    port: u16,
)
    ensures
        ({
            let b = BuilderModel::initial(proxy_addr);
            &&& b.proxy_addr == proxy_addr
            &&& b.rules.len() == 0 && b.proxy_configs.len() == 0
            &&& b.quic_port == 443 && b.quic_policy == QuicPolicy::Drop
            &&& b.ipv6 && !b.localhost_via_proxy
        }),
        ({
            let cfg = ProxyModel::plain(proxy_type, host, port);
            &&& cfg.proxy_type == proxy_type && cfg.host == host && cfg.port == port
            &&& cfg.username is None && cfg.password is None
            &&& cfg.send_domain_to_proxy
        }),
{
}

} // verus!
