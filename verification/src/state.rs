//! Engine state shared by all flows.

use vstd::prelude::*;

use crate::config::{ProxyConfig, ProxyModel};
use crate::platform::PhysicalInterface;
use crate::rule::RuleSet;

verus! {

/// What to do with QUIC (UDP on [`Shared::quic_port`]).
#[derive(Debug, Clone, Copy, PartialEq, Eq, Structural)]
pub enum QuicPolicy {
    /// Drop QUIC datagrams so that clients fall back to TCP. This is the
    /// default and the recommended setting.
    Drop,
    /// Let QUIC through untouched. It is then not inspected at all, and block
    /// rules do not apply to it.
    Allow,
}

/// The flow counters at one moment.
#[derive(Debug, Clone, Copy, PartialEq, Eq, Structural)]
pub struct StatsSnapshot {
    /// TCP flows accepted from the tunnel.
    pub tcp_flows: u64,
    /// UDP flows accepted from the tunnel.
    pub udp_flows: u64,
    /// Flows dropped because a `Block` rule matched.
    pub blocked: u64,
    /// QUIC datagrams dropped to force a TCP fallback.
    pub quic_dropped: u64,
    /// Flows that could not reach their proxy and went direct, uninspected.
    pub proxy_fallbacks: u64,
    /// Multicast and broadcast flows dropped rather than relayed.
    pub group_dropped: u64,
    /// Individual datagrams lost to a send error.
    pub udp_send_errors: u64,
}

impl Default for StatsSnapshot {
    fn default() -> (r: StatsSnapshot)
        ensures
            r == zero_counts(),
    {
        StatsSnapshot {
            tcp_flows: 0,
            udp_flows: 0,
            blocked: 0,
            quic_dropped: 0,
            proxy_fallbacks: 0,
            group_dropped: 0,
            udp_send_errors: 0,
        }
    }
}

/// One of the counters.
#[derive(Debug, Clone, Copy, PartialEq, Eq, Structural)]
pub enum Counter {
    /// [`StatsSnapshot::tcp_flows`].
    TcpFlows,
    /// [`StatsSnapshot::udp_flows`].
    UdpFlows,
    /// [`StatsSnapshot::blocked`].
    Blocked,
    /// [`StatsSnapshot::quic_dropped`].
    QuicDropped,
    /// [`StatsSnapshot::proxy_fallbacks`].
    ProxyFallbacks,
    /// [`StatsSnapshot::group_dropped`].
    GroupDropped,
    /// [`StatsSnapshot::udp_send_errors`].
    UdpSendErrors,
}

/// No flow counted.
pub open spec fn zero_counts() -> StatsSnapshot {
    StatsSnapshot {
        tcp_flows: 0,
        udp_flows: 0,
        blocked: 0,
        quic_dropped: 0,
        proxy_fallbacks: 0,
        group_dropped: 0,
        udp_send_errors: 0,
    }
}

/// One more, starting over at the end of the range.
pub open spec fn one_more(x: u64) -> u64 {
    if x == u64::MAX {
        0
    } else {
        (x + 1) as u64
    }
}

/// `s` with one of its counters raised by one.
pub open spec fn counted(s: StatsSnapshot, c: Counter) -> StatsSnapshot {
    match c {
        Counter::TcpFlows => StatsSnapshot { tcp_flows: one_more(s.tcp_flows), ..s },
        Counter::UdpFlows => StatsSnapshot { udp_flows: one_more(s.udp_flows), ..s },
        Counter::Blocked => StatsSnapshot { blocked: one_more(s.blocked), ..s },
        Counter::QuicDropped => StatsSnapshot { quic_dropped: one_more(s.quic_dropped), ..s },
        Counter::ProxyFallbacks => StatsSnapshot {
            proxy_fallbacks: one_more(s.proxy_fallbacks),
            ..s
        },
        Counter::GroupDropped => StatsSnapshot { group_dropped: one_more(s.group_dropped), ..s },
        Counter::UdpSendErrors => StatsSnapshot {
            udp_send_errors: one_more(s.udp_send_errors),
            ..s
        },
    }
}

/// The running flow counters.
#[derive(Debug)]
pub struct Stats {
    counts: StatsSnapshot,
}

impl View for Stats {
    type V = StatsSnapshot;

    closed spec fn view(&self) -> StatsSnapshot {
        self.counts
    }
}

impl Stats {
    /// Counters that start at zero.
    pub fn new() -> (r: Stats)
        ensures
            r@ == zero_counts(),
    {
        Stats { counts: StatsSnapshot::default() }
    }

    /// Raises a counter by one.
    pub fn count(&mut self, c: Counter)
        ensures
            final(self)@ == counted(old(self)@, c),
    {
        let s: StatsSnapshot = self.counts;
        self.counts = match c {
            Counter::TcpFlows => StatsSnapshot { tcp_flows: s.tcp_flows.wrapping_add(1), ..s },
            Counter::UdpFlows => StatsSnapshot { udp_flows: s.udp_flows.wrapping_add(1), ..s },
            Counter::Blocked => StatsSnapshot { blocked: s.blocked.wrapping_add(1), ..s },
            Counter::QuicDropped => StatsSnapshot {
                quic_dropped: s.quic_dropped.wrapping_add(1),
                ..s
            },
            Counter::ProxyFallbacks => StatsSnapshot {
                proxy_fallbacks: s.proxy_fallbacks.wrapping_add(1),
                ..s
            },
            Counter::GroupDropped => StatsSnapshot {
                group_dropped: s.group_dropped.wrapping_add(1),
                ..s
            },
            Counter::UdpSendErrors => StatsSnapshot {
                udp_send_errors: s.udp_send_errors.wrapping_add(1),
                ..s
            },
        };
    }

    /// The counters as they are now.
    pub fn snapshot(&self) -> (r: StatsSnapshot)
        ensures
            r == self@,
    {
        self.counts
    }
}

/// What is decided before the first flow and stays as it is.
pub struct Shared {
    /// The routing rules.
    pub rules: RuleSet,
    /// The upstream proxies.
    pub proxy_configs: Vec<ProxyConfig>,
    /// Whether loopback destinations may be proxied.
    pub localhost_via_proxy: bool,
    /// UDP port treated as QUIC, normally 443.
    pub quic_port: u16,
    /// What to do with QUIC.
    pub quic_policy: QuicPolicy,
    /// Our own PID. Flows owned by it are never proxied, which keeps our
    /// upstream traffic from re-entering the tunnel.
    pub current_pid: u32,
    /// The interface that outbound sockets are pinned to, once it is known.
    pub iface: Option<PhysicalInterface>,
}

/// The configurations behind a sequence of proxies.
pub open spec fn proxy_models(configs: Seq<ProxyConfig>) -> Seq<ProxyModel> {
    configs.map_values(|c: ProxyConfig| c@)
}

/// The position of the first of `configs` with the id `id`, or their number.
pub open spec fn config_position(configs: Seq<ProxyModel>, id: u32) -> int
    decreases configs.len(),
{
    if configs.len() == 0 || configs[0].config_id == id {
        0
    } else {
        1 + config_position(configs.drop_first(), id)
    }
}

/// The proxy with the id `id`, or else the first one.
pub open spec fn proxy_for(configs: Seq<ProxyModel>, id: u32) -> Option<ProxyModel> {
    let i = config_position(configs, id);
    if configs.len() == 0 {
        None
    } else if i < configs.len() {
        Some(configs[i])
    } else {
        Some(configs[0])
    }
}

proof fn lemma_config_position(configs: Seq<ProxyModel>, id: u32, n: int)
    requires
        0 <= n <= configs.len(),
        forall|i: int| 0 <= i < n ==> (#[trigger] configs[i]).config_id != id,
        n < configs.len() ==> configs[n].config_id == id,
    ensures
        config_position(configs, id) == n,
    decreases n,
{
    if n > 0 {
        assert(configs[0].config_id != id);
        assert forall|i: int| 0 <= i < n - 1 implies (
        #[trigger] configs.drop_first()[i]).config_id != id by {
            assert(configs.drop_first()[i] == configs[i + 1]);
        }
        lemma_config_position(configs.drop_first(), id, n - 1);
    }
}

impl Shared {
    /// The interface that outbound sockets are pinned to; none before it is
    /// known.
    pub open spec fn iface_spec(self) -> PhysicalInterface {
        match self.iface {
            Some(iface) => iface,
            None => PhysicalInterface { v4_index: None, v6_index: None },
        }
    }

    /// The interface that outbound sockets are pinned to; none before it is
    /// known.
    pub fn iface(&self) -> (r: PhysicalInterface)
        ensures
            r == self.iface_spec(),
    {
        match self.iface {
            Some(iface) => iface,
            None => PhysicalInterface::default(),
        }
    }

    /// The proxy that a rule with this config id uses.
    pub open spec fn proxy_spec(self, id: u32) -> Option<ProxyModel> {
        proxy_for(proxy_models(self.proxy_configs@), id)
    }

    /// Looks up a registered proxy by id, falling back to the first registered
    /// one.
    pub fn find_proxy_config(&self, id: u32) -> (r: Option<&ProxyConfig>)
        ensures
            r is Some <==> self.proxy_spec(id) is Some,
            r is Some ==> r->Some_0@ == self.proxy_spec(id)->Some_0,
    {
        let ghost models = proxy_models(self.proxy_configs@);
        let mut i: usize = 0;
        while i < self.proxy_configs.len()
            invariant
                i <= self.proxy_configs.len(),
                models == proxy_models(self.proxy_configs@),
                forall|j: int| 0 <= j < i ==> (#[trigger] models[j]).config_id != id,
            decreases self.proxy_configs.len() - i,
        {
            assert(models[i as int] == self.proxy_configs@[i as int]@);
            if self.proxy_configs[i].config_id == id {
                proof {
                    lemma_config_position(models, id, i as int);
                }
                return Some(&self.proxy_configs[i]);
            }
            i = i + 1;
        }
        proof {
            lemma_config_position(models, id, i as int);
        }
        if self.proxy_configs.len() == 0 {
            None
        } else {
            Some(&self.proxy_configs[0])
        }
    }
}

// ── Laws ────────────────────────────────────────────────────────────────────

/// What a counter stands at.
pub open spec fn count_of(s: StatsSnapshot, c: Counter) -> u64 {
    match c {
        Counter::TcpFlows => s.tcp_flows,
        Counter::UdpFlows => s.udp_flows,
        Counter::Blocked => s.blocked,
        Counter::QuicDropped => s.quic_dropped,
        Counter::ProxyFallbacks => s.proxy_fallbacks,
        Counter::GroupDropped => s.group_dropped,
        Counter::UdpSendErrors => s.udp_send_errors,
    }
}

/// Counting raises one counter by one, starting over at the end of its range, and
/// leaves every other counter as it is; all of them start at zero.
pub proof fn law_counting_raises_one_counter(s: StatsSnapshot, c: Counter, other: Counter)
    requires
        other != c,
    ensures
        count_of(s, c) < u64::MAX ==> count_of(counted(s, c), c) == count_of(s, c) + 1,
        count_of(s, c) == u64::MAX ==> count_of(counted(s, c), c) == 0,
        count_of(counted(s, c), other) == count_of(s, other),
        count_of(zero_counts(), c) == 0,
{
}

/// The proxy found for an id is the first one that has it.
pub proof fn law_proxy_is_found_by_its_id(configs: Seq<ProxyModel>, id: u32, i: int)
    requires
        0 <= i < configs.len(),
        configs[i].config_id == id,
        forall|j: int| 0 <= j < i ==> (#[trigger] configs[j]).config_id != id,
    ensures
        proxy_for(configs, id) == Some(configs[i]),
{
    lemma_config_position(configs, id, i);
}

/// A proxy is found whenever there is one, it is one of those configured, and it
/// has the id that was asked for whenever one of them has it.
pub proof fn law_found_proxy_is_configured(configs: Seq<ProxyModel>, id: u32)
    ensures
        proxy_for(configs, id) is Some <==> configs.len() > 0,
        configs.len() > 0 ==> configs.contains(proxy_for(configs, id)->Some_0),
        (exists|i: int| 0 <= i < configs.len() && (#[trigger] configs[i]).config_id == id)
            ==> proxy_for(configs, id)->Some_0.config_id == id,
    decreases configs.len(),
{
    lemma_config_position_bounds(configs, id);
    if configs.len() > 0 {
        assert(configs.contains(configs[0]));
        let p = config_position(configs, id);
        if p < configs.len() {
            assert(configs.contains(configs[p]));
        }
    }
}

proof fn lemma_config_position_bounds(configs: Seq<ProxyModel>, id: u32)
    ensures
        0 <= config_position(configs, id) <= configs.len(),
        config_position(configs, id) < configs.len() ==> configs[config_position(
            configs,
            id,
        )].config_id == id,
        config_position(configs, id) == configs.len() ==> forall|i: int|
            0 <= i < configs.len() ==> (#[trigger] configs[i]).config_id != id,
    decreases configs.len(),
{
    if configs.len() > 0 && configs[0].config_id != id {
        let rest = configs.drop_first();
        lemma_config_position_bounds(rest, id);
        if config_position(configs, id) == configs.len() {
            assert forall|i: int| 0 <= i < configs.len() implies (
            #[trigger] configs[i]).config_id != id by {
                if i > 0 {
                    assert(configs[i] == rest[i - 1]);
                }
            }
        }
    }
}

/// Outbound sockets are pinned to no interface before one is known, and then to
/// the one of the destination's family.
pub proof fn law_pinned_to_the_interface_of_the_family(
    shared: Shared,
    dest: crate::addr::IpAddr,
)
    ensures
        shared.iface is None ==> shared.iface_spec().index_spec(dest) is None,
        shared.iface is Some && dest is V4 ==> shared.iface_spec().index_spec(dest)
            == shared.iface->Some_0.v4_index,
        shared.iface is Some && dest is V6 ==> shared.iface_spec().index_spec(dest)
            == shared.iface->Some_0.v6_index,
{
}

} // verus!
