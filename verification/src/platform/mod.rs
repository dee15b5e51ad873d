//! What is common to the backends: addressing, routing and interface choice.
//!
//! The system's default route is never touched. Instead the two halves of the
//! address space are routed into the tunnel: both are more specific than a
//! default route, so traffic enters the tunnel, and deleting them (or losing
//! the interface they point at) restores what was there before.

pub mod attribution;
pub mod linux;
pub mod macos;
pub mod windows;

use vstd::prelude::*;

use crate::addr;
use crate::addr::{IpAddr, Ipv4Addr, Ipv6Addr};
use crate::addr_text;
use crate::addr_text::push_ip;
use crate::bytes;
use crate::error::{Error, IoFailure, IoKind, Result};
use crate::text;
use crate::text::{push_decimal, push_str, string_of};

verus! {

/// Address of our end of the tunnel, `10.63.7.1`: private space that is
/// unlikely to collide with a corporate LAN or a container bridge.
pub const TUN_IPV4: u32 = 0x0a3f_0701;

/// Prefix length for [`TUN_IPV4`].
pub const TUN_IPV4_PREFIX: u8 = 24;

/// IPv6 counterpart of [`TUN_IPV4`], `fd00:ace:7::1`, from the unique-local
/// range.
pub const TUN_IPV6: u128 = 0xfd00_0ace_0007_0000_0000_0000_0000_0001;

/// Prefix length for [`TUN_IPV6`].
pub const TUN_IPV6_PREFIX: u8 = 64;

/// MTU for the tunnel.
pub const TUN_MTU: u16 = 1500;

/// The two IPv4 prefixes that together cover the whole address space while
/// still being more specific than a default route.
pub const V4_SPLIT_DEFAULT: [(u32, u8); 2] = [(0, 1), (0x8000_0000, 1)];

/// The IPv6 equivalent of [`V4_SPLIT_DEFAULT`].
pub const V6_SPLIT_DEFAULT: [(u128, u8); 2] = [
    (0, 1),
    (0x8000_0000_0000_0000_0000_0000_0000_0000, 1),
];

/// A public IPv4 address whose route shows the interface that carries internet
/// traffic: `8.8.8.8`.
pub const V4_PROBE: u32 = 0x0808_0808;

/// A public IPv6 address for the same purpose: `2001:4860:4860::8888`.
pub const V6_PROBE: u128 = 0x2001_4860_4860_0000_0000_0000_0000_8888;

/// The IPv4 multicast prefix, `224.0.0.0/4`.
pub const MULTICAST_V4: u32 = 0xe000_0000;

/// Prefix length for [`MULTICAST_V4`].
pub const MULTICAST_V4_PREFIX: u8 = 4;

/// The IPv6 multicast prefix, `ff00::/8`.
pub const MULTICAST_V6: u128 = 0xff00_0000_0000_0000_0000_0000_0000_0000;

/// Prefix length for [`MULTICAST_V6`].
pub const MULTICAST_V6_PREFIX: u8 = 8;

/// The interface that internet traffic used before the tunnel existed. Outbound
/// sockets get pinned to it.
#[derive(Debug, Clone, Copy, PartialEq, Eq, Structural)]
pub struct PhysicalInterface {
    /// Interface index for IPv4 traffic, if a v4 default route exists.
    pub v4_index: Option<u32>,
    /// Interface index for IPv6 traffic, if a v6 default route exists.
    pub v6_index: Option<u32>,
}

/// An interface index as the routing table reported it; 0 is no interface.
pub open spec fn real_index(index: Option<u32>) -> Option<u32> {
    if index == Some(0u32) {
        None
    } else {
        index
    }
}

fn keep_real_index(index: Option<u32>) -> (r: Option<u32>)
    ensures
        r == real_index(index),
{
    match index {
        Some(i) => if i == 0 {
            None
        } else {
            Some(i)
        },
        None => None,
    }
}

impl PhysicalInterface {
    /// The interface index to pin an outbound socket to for `dest`.
    pub open spec fn index_spec(self, dest: IpAddr) -> Option<u32> {
        match dest {
            IpAddr::V4(_) => self.v4_index,
            IpAddr::V6(_) => self.v6_index,
        }
    }

    /// The interface that the routes to [`V4_PROBE`] and [`V6_PROBE`] lead to. A
    /// family without a route yields no index, and neither does an index of 0.
    pub fn discover(v4_route: Option<u32>, v6_route: Option<u32>) -> (r: PhysicalInterface)
        ensures
            r.v4_index == real_index(v4_route),
            r.v6_index == real_index(v6_route),
    {
        PhysicalInterface {
            v4_index: keep_real_index(v4_route),
            v6_index: keep_real_index(v6_route),
        }
    }

    /// The interface index to pin an outbound socket to for `dest`.
    pub fn index_for(&self, dest: IpAddr) -> (r: Option<u32>)
        ensures
            r == self.index_spec(dest),
    {
        match dest {
            IpAddr::V4(_) => self.v4_index,
            IpAddr::V6(_) => self.v6_index,
        }
    }

    /// Whether no usable outbound interface was found.
    pub fn is_empty(&self) -> (r: bool)
        ensures
            r == (self.v4_index is None && self.v6_index is None),
    {
        self.v4_index.is_none() && self.v6_index.is_none()
    }

    /// The interface to pin a socket to on systems that reject a pinned
    /// loopback socket: none for loopback, which never enters the tunnel.
    pub fn pin_for(&self, dest: IpAddr) -> (r: Option<u32>)
        ensures
            r == if dest.loopback() {
                None
            } else {
                self.index_spec(dest)
            },
    {
        if dest.is_loopback() {
            None
        } else {
            self.index_for(dest)
        }
    }
}

impl Default for PhysicalInterface {
    fn default() -> (r: PhysicalInterface)
        ensures
            r.v4_index is None,
            r.v6_index is None,
    {
        PhysicalInterface { v4_index: None, v6_index: None }
    }
}

/// A socket option whose value is a number.
#[derive(Debug, Clone, Copy, PartialEq, Eq, Structural)]
pub struct NumberOption {
    /// The protocol level of the option.
    pub level: i32,
    /// The option.
    pub option: i32,
    /// Its value, four octets in the order of the host.
    pub value: u32,
}

// ── Interface names ─────────────────────────────────────────────────────────

/// Size of the field that holds an interface's name.
pub const IFNAMSIZ: usize = 16;

/// A name in a field of [`IFNAMSIZ`] octets: filled up with zeros, or cut off.
pub open spec fn name_field(name: Seq<u8>) -> Seq<u8> {
    Seq::new(
        IFNAMSIZ as nat,
        |i: int|
            if i < name.len() {
                name[i]
            } else {
                0
            },
    )
}

/// The field that holds an interface's name.
pub fn fill_if_name(name: &str) -> (r: Vec<u8>)
    ensures
        r@ == name_field(vstd::utf8::encode_utf8(name@)),
{
    let octets = name.as_bytes();
    let mut r: Vec<u8> = Vec::new();
    let mut i: usize = 0;
    while i < IFNAMSIZ
        invariant
            i <= IFNAMSIZ,
            r@.len() == i,
            forall|j: int| 0 <= j < i ==> r@[j] == name_field(octets@)[j],
        decreases IFNAMSIZ - i,
    {
        if i < octets.len() {
            r.push(octets[i]);
        } else {
            r.push(0);
        }
        i += 1;
    }
    r
}

// ── Adapter setup ───────────────────────────────────────────────────────────

/// Where a route leads.
#[derive(Debug, Clone, Copy, PartialEq, Eq, Structural)]
pub enum Via {
    /// Into the tunnel.
    Tunnel,
    /// Out of the physical interface with this index.
    Physical(u32),
}

/// A route of ours: on-link, without a gateway.
#[derive(Debug, Clone, Copy, PartialEq, Eq, Structural)]
pub struct Route {
    /// The network's address.
    pub dest: IpAddr,
    /// The network's prefix length.
    pub prefix_len: u8,
    /// Where the route leads.
    pub via: Via,
}

/// One step of setting up the adapter.
#[derive(Debug, Clone, Copy, PartialEq, Eq, Structural)]
pub enum SetupStep {
    /// Assign an address with this on-link prefix length.
    AddAddress(IpAddr, u8),
    /// Set the MTU.
    SetMtu(u16),
    /// Set the MTU and bring the link up.
    LinkUp(u16),
    /// Force the interface metric of a family.
    SetMetric(bool, u32),
    /// Start carrying packets.
    StartSession,
    /// Install a route.
    AddRoute(Route),
}

/// The tunnel's address in one family.
pub open spec fn tunnel_ip(v6: bool) -> IpAddr {
    if v6 {
        IpAddr::V6(Ipv6Addr { bits: TUN_IPV6 })
    } else {
        IpAddr::V4(Ipv4Addr { bits: TUN_IPV4 })
    }
}

/// Assigning the tunnel's address of one family.
pub open spec fn address_step(v6: bool) -> SetupStep {
    SetupStep::AddAddress(
        tunnel_ip(v6),
        if v6 {
            TUN_IPV6_PREFIX
        } else {
            TUN_IPV4_PREFIX
        },
    )
}

/// Routing an IPv4 network.
pub open spec fn v4_route(net: u32, prefix_len: u8, via: Via) -> SetupStep {
    SetupStep::AddRoute(Route { dest: IpAddr::V4(Ipv4Addr { bits: net }), prefix_len, via })
}

/// Routing an IPv6 network.
pub open spec fn v6_route(net: u128, prefix_len: u8, via: Via) -> SetupStep {
    SetupStep::AddRoute(Route { dest: IpAddr::V6(Ipv6Addr { bits: net }), prefix_len, via })
}

/// Routing both halves of the address space into the tunnel.
pub open spec fn split_default_steps(ipv6: bool) -> Seq<SetupStep> {
    let v4 = seq![v4_route(0, 1, Via::Tunnel), v4_route(0x8000_0000, 1, Via::Tunnel)];
    if ipv6 {
        v4 + seq![
            v6_route(0, 1, Via::Tunnel),
            v6_route(0x8000_0000_0000_0000_0000_0000_0000_0000, 1, Via::Tunnel),
        ]
    } else {
        v4
    }
}

/// Keeping multicast on the physical interface.
pub open spec fn multicast_steps(ipv6: bool, iface: PhysicalInterface) -> Seq<SetupStep> {
    let v4 = match iface.v4_index {
        Some(i) => seq![v4_route(MULTICAST_V4, MULTICAST_V4_PREFIX, Via::Physical(i))],
        None => Seq::empty(),
    };
    match iface.v6_index {
        Some(i) => if ipv6 {
            v4.push(v6_route(MULTICAST_V6, MULTICAST_V6_PREFIX, Via::Physical(i)))
        } else {
            v4
        },
        None => v4,
    }
}

/// Addressing the tunnel and bringing it up on Linux and macOS.
pub open spec fn unix_link_steps(ipv6: bool) -> Seq<SetupStep> {
    if ipv6 {
        seq![address_step(false), address_step(true), SetupStep::LinkUp(TUN_MTU)]
    } else {
        seq![address_step(false), SetupStep::LinkUp(TUN_MTU)]
    }
}

/// The steps that set up an adapter on Linux and macOS. Routes come last: until
/// they exist no traffic is diverted.
pub open spec fn unix_steps(ipv6: bool, iface: PhysicalInterface) -> Seq<SetupStep> {
    unix_link_steps(ipv6) + multicast_steps(ipv6, iface) + split_default_steps(ipv6)
}

/// Addressing the tunnel and starting it on Windows.
pub open spec fn windows_link_steps(ipv6: bool, metric: u32) -> Seq<SetupStep> {
    if ipv6 {
        seq![
            SetupStep::SetMtu(TUN_MTU),
            address_step(false),
            SetupStep::SetMetric(false, metric),
            address_step(true),
            SetupStep::SetMetric(true, metric),
            SetupStep::StartSession,
        ]
    } else {
        seq![
            SetupStep::SetMtu(TUN_MTU),
            address_step(false),
            SetupStep::SetMetric(false, metric),
            SetupStep::StartSession,
        ]
    }
}

/// The steps that set up an adapter on Windows. Routes come last: once they
/// exist the session can carry the packets.
pub open spec fn windows_steps(ipv6: bool, metric: u32) -> Seq<SetupStep> {
    windows_link_steps(ipv6, metric) + split_default_steps(ipv6)
}

fn v4_route_step(net: u32, prefix_len: u8, via: Via) -> (r: SetupStep)
    ensures
        r == v4_route(net, prefix_len, via),
{
    SetupStep::AddRoute(Route { dest: IpAddr::V4(Ipv4Addr { bits: net }), prefix_len, via })
}

fn v6_route_step(net: u128, prefix_len: u8, via: Via) -> (r: SetupStep)
    ensures
        r == v6_route(net, prefix_len, via),
{
    SetupStep::AddRoute(Route { dest: IpAddr::V6(Ipv6Addr { bits: net }), prefix_len, via })
}

fn push_split_default(steps: &mut Vec<SetupStep>, ipv6: bool)
    ensures
        final(steps)@ == old(steps)@ + split_default_steps(ipv6),
{
    let v4: [(u32, u8); 2] = V4_SPLIT_DEFAULT;
    steps.push(v4_route_step(v4[0].0, v4[0].1, Via::Tunnel));
    steps.push(v4_route_step(v4[1].0, v4[1].1, Via::Tunnel));
    if ipv6 {
        let v6: [(u128, u8); 2] = V6_SPLIT_DEFAULT;
        steps.push(v6_route_step(v6[0].0, v6[0].1, Via::Tunnel));
        steps.push(v6_route_step(v6[1].0, v6[1].1, Via::Tunnel));
    }
    assert(steps@ == old(steps)@ + split_default_steps(ipv6));
}

fn v4_address_step() -> (r: SetupStep)
    ensures
        r == address_step(false),
{
    SetupStep::AddAddress(IpAddr::V4(Ipv4Addr { bits: TUN_IPV4 }), TUN_IPV4_PREFIX)
}

fn v6_address_step() -> (r: SetupStep)
    ensures
        r == address_step(true),
{
    SetupStep::AddAddress(IpAddr::V6(Ipv6Addr { bits: TUN_IPV6 }), TUN_IPV6_PREFIX)
}

/// The routes that `steps` install, in order.
pub open spec fn routes_of(steps: Seq<SetupStep>) -> Seq<Route>
    decreases steps.len(),
{
    if steps.len() == 0 {
        Seq::empty()
    } else {
        let front = routes_of(steps.drop_last());
        match steps.last() {
            SetupStep::AddRoute(route) => front.push(route),
            _ => front,
        }
    }
}

/// The order in which routes are removed.
#[derive(Debug, Clone, Copy, PartialEq, Eq, Structural)]
pub enum Removal {
    /// The route installed last is removed first.
    NewestFirst,
    /// The route installed first is removed first.
    OldestFirst,
}

/// The setup of an adapter as it proceeds, and the routes it has to take back.
pub struct Setup {
    steps: Vec<SetupStep>,
    done: usize,
    routes: Vec<Route>,
    removal: Removal,
}

impl Setup {
    /// All steps of the setup.
    pub closed spec fn steps(self) -> Seq<SetupStep> {
        self.steps@
    }

    /// How many steps are done.
    pub closed spec fn done(self) -> nat {
        self.done as nat
    }

    /// The routes that are in place.
    pub closed spec fn routes(self) -> Seq<Route> {
        self.routes@
    }

    /// The order in which the routes are removed.
    pub closed spec fn removal(self) -> Removal {
        self.removal
    }

    /// The routes in place are those of the steps done.
    pub open spec fn wf(self) -> bool {
        self.done() <= self.steps().len() && self.routes() == routes_of(
            self.steps().take(self.done() as int),
        )
    }

    /// The setup of an adapter on Linux and macOS.
    pub fn unix(ipv6: bool, iface: &PhysicalInterface) -> (r: Setup)
        ensures
            r.steps() == unix_steps(ipv6, *iface),
            r.done() == 0,
            r.routes() == Seq::<Route>::empty(),
            r.removal() == Removal::NewestFirst,
            r.wf(),
    {
        let mut steps: Vec<SetupStep> = Vec::new();
        steps.push(v4_address_step());
        if ipv6 {
            steps.push(v6_address_step());
        }
        steps.push(SetupStep::LinkUp(TUN_MTU));
        assert(steps@ == unix_link_steps(ipv6));
        match iface.v4_index {
            Some(i) => {
                steps.push(v4_route_step(MULTICAST_V4, MULTICAST_V4_PREFIX, Via::Physical(i)));
            },
            None => {},
        }
        match iface.v6_index {
            Some(i) => {
                if ipv6 {
                    steps.push(
                        v6_route_step(MULTICAST_V6, MULTICAST_V6_PREFIX, Via::Physical(i)),
                    );
                }
            },
            None => {},
        }
        assert(steps@ == unix_link_steps(ipv6) + multicast_steps(ipv6, *iface));
        push_split_default(&mut steps, ipv6);
        assert(steps@.take(0) == Seq::<SetupStep>::empty());
        Setup { steps, done: 0, routes: Vec::new(), removal: Removal::NewestFirst }
    }

    /// The setup of an adapter on Windows.
    pub fn windows(ipv6: bool, metric: u32) -> (r: Setup)
        ensures
            r.steps() == windows_steps(ipv6, metric),
            r.done() == 0,
            r.routes() == Seq::<Route>::empty(),
            r.removal() == Removal::OldestFirst,
            r.wf(),
    {
        let mut steps: Vec<SetupStep> = Vec::new();
        steps.push(SetupStep::SetMtu(TUN_MTU));
        steps.push(v4_address_step());
        steps.push(SetupStep::SetMetric(false, metric));
        if ipv6 {
            steps.push(v6_address_step());
            steps.push(SetupStep::SetMetric(true, metric));
        }
        steps.push(SetupStep::StartSession);
        assert(steps@ == windows_link_steps(ipv6, metric));
        push_split_default(&mut steps, ipv6);
        assert(steps@.take(0) == Seq::<SetupStep>::empty());
        Setup { steps, done: 0, routes: Vec::new(), removal: Removal::OldestFirst }
    }

    /// The step to carry out next; `None` once the adapter is set up.
    pub fn next(&self) -> (r: Option<SetupStep>)
        ensures
            r == if self.done() < self.steps().len() {
                Some(self.steps()[self.done() as int])
            } else {
                None
            },
    {
        if self.done < self.steps.len() {
            Some(self.steps[self.done])
        } else {
            None
        }
    }

    /// Notes that the current step succeeded.
    pub fn succeeded(&mut self)
        requires
            old(self).done() < old(self).steps().len(),
        ensures
            final(self).steps() == old(self).steps(),
            final(self).removal() == old(self).removal(),
            final(self).done() == old(self).done() + 1,
            final(self).routes() == match old(self).steps()[old(self).done() as int] {
                SetupStep::AddRoute(route) => old(self).routes().push(route),
                _ => old(self).routes(),
            },
            old(self).wf() ==> final(self).wf(),
    {
        let n: usize = self.steps.len();
        assert(self.done < n);
        let step: SetupStep = self.steps[self.done];
        match step {
            SetupStep::AddRoute(route) => {
                self.routes.push(route);
            },
            _ => {},
        }
        self.done = self.done + 1;
        proof {
            let before = old(self).steps().take(old(self).done() as int);
            assert(self.steps().take(self.done() as int).drop_last() == before);
            assert(self.steps().take(self.done() as int).last() == step);
        }
    }

    /// The error with which the setup ends because the current step failed.
    pub fn failed(&self, failure: IoFailure) -> (r: Error)
        requires
            self.done() < self.steps().len(),
        ensures
            step_failure(self.steps()[self.done() as int], failure, r),
    {
        step_error(self.steps[self.done], failure)
    }

    /// The routes to remove, in the order of removal: exactly those that the setup
    /// has installed. None is left afterwards.
    pub fn remove_routes(&mut self) -> (r: Vec<Route>)
        ensures
            old(self).wf() ==> r@ == match old(self).removal() {
                Removal::NewestFirst => routes_of(
                    old(self).steps().take(old(self).done() as int),
                ).reverse(),
                Removal::OldestFirst => routes_of(old(self).steps().take(old(self).done() as int)),
            },
            r@ == match old(self).removal() {
                Removal::NewestFirst => old(self).routes().reverse(),
                Removal::OldestFirst => old(self).routes(),
            },
            final(self).routes() == Seq::<Route>::empty(),
            final(self).steps() == old(self).steps(),
            final(self).done() == old(self).done(),
            final(self).removal() == old(self).removal(),
    {
        let ghost before = self.routes@;
        let mut out: Vec<Route> = Vec::new();
        let n: usize = self.routes.len();
        let mut i: usize = 0;
        while i < n
            invariant
                i <= n,
                n == before.len(),
                self.routes@ == before,
                self == old(self),
                out@.len() == i,
                forall|j: int|
                    0 <= j < i ==> #[trigger] out@[j] == match self.removal {
                        Removal::NewestFirst => before[n - 1 - j],
                        Removal::OldestFirst => before[j],
                    },
            decreases n - i,
        {
            let at: usize = match self.removal {
                Removal::NewestFirst => n - 1 - i,
                Removal::OldestFirst => i,
            };
            out.push(self.routes[at]);
            i = i + 1;
        }
        self.routes = Vec::new();
        assert(self.routes@ == Seq::<Route>::empty());
        out
    }
}

/// What a failed step is called.
pub open spec fn step_name(step: SetupStep) -> Seq<char> {
    match step {
        SetupStep::AddAddress(IpAddr::V4(_), _) => "add_address(v4)"@,
        SetupStep::AddAddress(IpAddr::V6(_), _) => "add_address(v6)"@,
        SetupStep::SetMtu(_) => "set_mtu"@,
        SetupStep::LinkUp(_) => "set_link_mtu_and_up"@,
        SetupStep::SetMetric(v6, _) => if v6 {
            "set_interface_metric(v6)"@
        } else {
            "set_interface_metric(v4)"@
        },
        SetupStep::StartSession => "start_session"@,
        SetupStep::AddRoute(route) => ("add_route("@ + addr_text::write_ip(route.dest)).push('/')
            + text::decimal(route.prefix_len as nat) + ")"@,
    }
}

/// Whether `error` is what a failed step is reported as.
pub open spec fn step_failure(step: SetupStep, failure: IoFailure, error: Error) -> bool {
    if step == SetupStep::StartSession {
        error matches Error::SessionStart(msg) && msg == failure.message
    } else {
        error matches Error::NetConfig { op, source } && op@ == step_name(step) && source
            == failure
    }
}

fn step_error(step: SetupStep, failure: IoFailure) -> (r: Error)
    ensures
        step_failure(step, failure, r),
{
    let mut op: Vec<char> = Vec::new();
    match step {
        SetupStep::AddAddress(IpAddr::V4(_), _) => push_str(&mut op, "add_address(v4)"),
        SetupStep::AddAddress(IpAddr::V6(_), _) => push_str(&mut op, "add_address(v6)"),
        SetupStep::SetMtu(_) => push_str(&mut op, "set_mtu"),
        SetupStep::LinkUp(_) => push_str(&mut op, "set_link_mtu_and_up"),
        SetupStep::SetMetric(v6, _) => {
            if v6 {
                push_str(&mut op, "set_interface_metric(v6)");
            } else {
                push_str(&mut op, "set_interface_metric(v4)");
            }
        },
        SetupStep::StartSession => {
            return Error::SessionStart(failure.message);
        },
        SetupStep::AddRoute(route) => {
            push_str(&mut op, "add_route(");
            push_ip(&mut op, route.dest);
            op.push('/');
            push_decimal(&mut op, route.prefix_len as u64);
            push_str(&mut op, ")");
        },
    }
    assert(op@ == step_name(step));
    Error::NetConfig { op: string_of(&op), source: failure }
}

/// The error that a failed step of opening a device means: lacking privileges,
/// or that the step failed.
pub(crate) fn open_failure(op: &str, source: IoFailure) -> (r: Error)
    ensures
        source.kind is PermissionDenied ==> r is NotElevated,
        !(source.kind is PermissionDenied) ==> (r matches Error::NetConfig { op: o, source: s }
            && o@ == op@ && s == source),
{
    if source.kind == IoKind::PermissionDenied {
        Error::NotElevated
    } else {
        Error::netcfg(op, source)
    }
}

/// Whether an adapter may be created at all: without the privileges it takes,
/// the machine's networking is left untouched.
pub fn check_privileged(privileged: bool) -> (r: Result<()>)
    ensures
        r is Ok <==> privileged,
        r is Err ==> r->Err_0 is NotElevated,
{
    if privileged {
        Ok(())
    } else {
        Err(Error::NotElevated)
    }
}

// ── Laws ────────────────────────────────────────────────────────────────────

/// Every IPv4 address lies in exactly one of the two halves that are routed
/// into the tunnel.
pub proof fn law_split_default_covers_v4(ip: u32)
    ensures
        addr::same_prefix(ip as nat, V4_SPLIT_DEFAULT[0].0 as nat, 32, 1) != addr::same_prefix(
            ip as nat,
            V4_SPLIT_DEFAULT[1].0 as nat,
            32,
            1,
        ),
{
    vstd::arithmetic::power2::lemma2_to64();
    let half = vstd::arithmetic::power2::pow2(31);
    assert(half == 0x8000_0000);
    assert(V4_SPLIT_DEFAULT[0].0 == 0 && V4_SPLIT_DEFAULT[1].0 == 0x8000_0000);
    assert(ip as nat / half == ip as nat / 0x8000_0000);
    assert(0x8000_0000nat / half == 1);
    assert(0nat / half == 0);
}

/// Every IPv6 address lies in exactly one of the two halves that are routed
/// into the tunnel.
pub proof fn law_split_default_covers_v6(ip: u128)
    ensures
        addr::same_prefix(ip as nat, V6_SPLIT_DEFAULT[0].0 as nat, 128, 1) != addr::same_prefix(
            ip as nat,
            V6_SPLIT_DEFAULT[1].0 as nat,
            128,
            1,
        ),
{
    vstd::arithmetic::power2::lemma_pow2_adds(64, 63);
    vstd::arithmetic::power2::lemma2_to64();
    vstd::arithmetic::power2::lemma2_to64_rest();
    assert(0x1_0000_0000_0000_0000int * 0x8000_0000_0000_0000int
        == 0x8000_0000_0000_0000_0000_0000_0000_0000int) by (nonlinear_arith);
    let half = vstd::arithmetic::power2::pow2(127);
    assert(half == 0x8000_0000_0000_0000_0000_0000_0000_0000);
    assert(V6_SPLIT_DEFAULT[0].0 == 0 && V6_SPLIT_DEFAULT[1].0
        == 0x8000_0000_0000_0000_0000_0000_0000_0000);
    assert(ip as nat / half == ip as nat / 0x8000_0000_0000_0000_0000_0000_0000_0000);
    assert(0x8000_0000_0000_0000_0000_0000_0000_0000nat / half == 1);
    assert(0nat / half == 0);
}

/// Every IPv4 multicast address lies in the network that stays on the physical
/// interface, and that network is more specific than the halves.
pub proof fn law_multicast_stays_out_of_the_tunnel_v4(ip: Ipv4Addr)
    ensures
        ip.multicast() == addr::same_prefix(
            ip.bits as nat,
            MULTICAST_V4 as nat,
            32,
            MULTICAST_V4_PREFIX as nat,
        ),
        MULTICAST_V4_PREFIX > V4_SPLIT_DEFAULT[0].1,
        MULTICAST_V4_PREFIX > V4_SPLIT_DEFAULT[1].1,
{
    vstd::arithmetic::power2::lemma2_to64();
    let block = vstd::arithmetic::power2::pow2(28);
    assert(block == 0x1000_0000);
    assert(ip.bits as nat / block == ip.bits as nat / 0x1000_0000);
    assert(0xe000_0000nat / block == 14);
}

/// The IPv6 counterpart of [`law_multicast_stays_out_of_the_tunnel_v4`].
pub proof fn law_multicast_stays_out_of_the_tunnel_v6(ip: Ipv6Addr)
    ensures
        ip.multicast() == addr::same_prefix(
            ip.bits as nat,
            MULTICAST_V6 as nat,
            128,
            MULTICAST_V6_PREFIX as nat,
        ),
        MULTICAST_V6_PREFIX > V6_SPLIT_DEFAULT[0].1,
        MULTICAST_V6_PREFIX > V6_SPLIT_DEFAULT[1].1,
{
    vstd::arithmetic::power2::lemma_pow2_adds(64, 56);
    vstd::arithmetic::power2::lemma2_to64();
    vstd::arithmetic::power2::lemma2_to64_rest();
    assert(0x1_0000_0000_0000_0000int * 0x100_0000_0000_0000int
        == 0x100_0000_0000_0000_0000_0000_0000_0000int) by (nonlinear_arith);
    let block = vstd::arithmetic::power2::pow2(120);
    assert(block == 0x100_0000_0000_0000_0000_0000_0000_0000);
    assert(ip.bits as nat / block == ip.bits as nat / 0x100_0000_0000_0000_0000_0000_0000_0000);
    assert(0xff00_0000_0000_0000_0000_0000_0000_0000nat / block == 255);
}

/// A route is installed only after everything else is in place.
pub proof fn law_routes_come_last(ipv6: bool, iface: PhysicalInterface, metric: u32, i: int)
    ensures
        0 <= i < unix_steps(ipv6, iface).len() ==> (unix_steps(ipv6, iface)[i] is AddRoute <==> i
            >= unix_link_steps(ipv6).len()),
        0 <= i < windows_steps(ipv6, metric).len() ==> (windows_steps(ipv6, metric)[i] is AddRoute
            <==> i >= windows_link_steps(ipv6, metric).len()),
{
}

/// Without IPv6 no step concerns an IPv6 address.
pub proof fn law_no_ipv6_steps_without_ipv6(iface: PhysicalInterface, metric: u32, i: int)
    ensures
        0 <= i < unix_steps(false, iface).len() ==> !concerns_ipv6(unix_steps(false, iface)[i]),
        0 <= i < windows_steps(false, metric).len() ==> !concerns_ipv6(
            windows_steps(false, metric)[i],
        ),
{
}

/// Whether a step assigns, routes or ranks IPv6.
pub open spec fn concerns_ipv6(step: SetupStep) -> bool {
    match step {
        SetupStep::AddAddress(ip, _) => ip is V6,
        SetupStep::SetMetric(v6, _) => v6,
        SetupStep::AddRoute(route) => route.dest is V6,
        _ => false,
    }
}

/// Whether a route is for `ip`: of its family, and with its leading bits.
pub open spec fn route_holds(route: Route, ip: IpAddr) -> bool {
    match (route.dest, ip) {
        (IpAddr::V4(net), IpAddr::V4(v4)) => addr::same_prefix(
            net.bits as nat,
            v4.bits as nat,
            32,
            route.prefix_len as nat,
        ),
        (IpAddr::V6(net), IpAddr::V6(v6)) => addr::same_prefix(
            net.bits as nat,
            v6.bits as nat,
            128,
            route.prefix_len as nat,
        ),
        _ => false,
    }
}

/// Whether the step installs a route for `ip`.
pub open spec fn routes(step: SetupStep, ip: IpAddr) -> bool {
    step matches SetupStep::AddRoute(route) && route_holds(route, ip)
}

/// Whether the routes that `steps` install send `ip` there: the most specific one
/// for it, and each that is as specific.
pub open spec fn leads_to(steps: Seq<SetupStep>, ip: IpAddr, via: Via) -> bool {
    exists|i: int|
        {
            &&& 0 <= i < steps.len()
            &&& #[trigger] routes(steps[i], ip)
            &&& steps[i]->AddRoute_0.via == via
            &&& forall|j: int|
                0 <= j < steps.len() && #[trigger] routes(steps[j], ip) && steps[j] != steps[i]
                    ==> steps[j]->AddRoute_0.prefix_len < steps[i]->AddRoute_0.prefix_len
        }
}

/// Once the adapter is set up on Linux or macOS, every IPv4 address is routed into
/// the tunnel, save for multicast, which leaves by the physical interface where
/// there is one.
pub proof fn law_ipv4_is_routed_into_the_tunnel(
    ipv6: bool,
    iface: PhysicalInterface,
    ip: Ipv4Addr,
)
    ensures
        !ip.multicast() || iface.v4_index is None ==> leads_to(
            unix_steps(ipv6, iface),
            IpAddr::V4(ip),
            Via::Tunnel,
        ),
        ip.multicast() && iface.v4_index is Some ==> leads_to(
            unix_steps(ipv6, iface),
            IpAddr::V4(ip),
            Via::Physical(iface.v4_index->Some_0),
        ),
{
    let steps = unix_steps(ipv6, iface);
    let link = unix_link_steps(ipv6).len() as int;
    let halves = link + multicast_steps(ipv6, iface).len();
    let low = steps[halves];
    let high = steps[halves + 1];
    law_split_default_covers_v4(ip.bits);
    law_multicast_stays_out_of_the_tunnel_v4(ip);
    assert(low == v4_route(0, 1, Via::Tunnel));
    assert(high == v4_route(0x8000_0000, 1, Via::Tunnel));
    assert(V4_SPLIT_DEFAULT[0].0 == 0 && V4_SPLIT_DEFAULT[1].0 == 0x8000_0000);
    let half = if addr::same_prefix(ip.bits as nat, 0, 32, 1) {
        halves
    } else {
        halves + 1
    };
    assert(routes(steps[half], IpAddr::V4(ip)));
    if let Some(index) = iface.v4_index {
        let multicast = v4_route(MULTICAST_V4, MULTICAST_V4_PREFIX, Via::Physical(index));
        assert(steps[link] == multicast);
        assert(routes(multicast, IpAddr::V4(ip)) == ip.multicast());
        if ip.multicast() {
            assert(routes(steps[link], IpAddr::V4(ip)));
        }
    }
    assert forall|j: int|
        0 <= j < steps.len() && #[trigger] routes(steps[j], IpAddr::V4(ip)) implies steps[j]
        == steps[half] || (ip.multicast() && iface.v4_index is Some && j == link) by {}
}

/// With IPv6, every IPv6 address is routed likewise; without it, none is.
pub proof fn law_ipv6_is_routed_into_the_tunnel(
    ipv6: bool,
    iface: PhysicalInterface,
    ip: Ipv6Addr,
    metric: u32,
)
    ensures
        ipv6 && (!ip.multicast() || iface.v6_index is None) ==> leads_to(
            unix_steps(ipv6, iface),
            IpAddr::V6(ip),
            Via::Tunnel,
        ),
        ipv6 && ip.multicast() && iface.v6_index is Some ==> leads_to(
            unix_steps(ipv6, iface),
            IpAddr::V6(ip),
            Via::Physical(iface.v6_index->Some_0),
        ),
        ipv6 ==> leads_to(windows_steps(ipv6, metric), IpAddr::V6(ip), Via::Tunnel),
        !ipv6 ==> forall|i: int|
            0 <= i < unix_steps(ipv6, iface).len() ==> !#[trigger] routes(
                unix_steps(ipv6, iface)[i],
                IpAddr::V6(ip),
            ),
        !ipv6 ==> forall|i: int|
            0 <= i < windows_steps(ipv6, metric).len() ==> !#[trigger] routes(
                windows_steps(ipv6, metric)[i],
                IpAddr::V6(ip),
            ),
{
    if ipv6 {
        let steps = unix_steps(ipv6, iface);
        let other = windows_steps(ipv6, metric);
        let link = unix_link_steps(ipv6).len() as int;
        let first = link + multicast_steps(ipv6, iface).len();
        let started = windows_link_steps(ipv6, metric).len() as int;
        law_split_default_covers_v6(ip.bits);
        law_multicast_stays_out_of_the_tunnel_v6(ip);
        assert(steps[first + 2] == v6_route(0, 1, Via::Tunnel));
        assert(steps[first + 3] == v6_route(
            0x8000_0000_0000_0000_0000_0000_0000_0000,
            1,
            Via::Tunnel,
        ));
        assert(other[started + 2] == steps[first + 2] && other[started + 3] == steps[first + 3]);
        assert(V6_SPLIT_DEFAULT[0].0 == 0 && V6_SPLIT_DEFAULT[1].0
            == 0x8000_0000_0000_0000_0000_0000_0000_0000);
        let offset: int = if addr::same_prefix(ip.bits as nat, 0, 128, 1) {
            2
        } else {
            3
        };
        let half = first + offset;
        assert(routes(steps[half], IpAddr::V6(ip)));
        assert(routes(other[started + offset], IpAddr::V6(ip)));
        if let Some(index) = iface.v6_index {
            let multicast = v6_route(MULTICAST_V6, MULTICAST_V6_PREFIX, Via::Physical(index));
            assert(steps[first - 1] == multicast);
            assert(routes(multicast, IpAddr::V6(ip)) == ip.multicast());
            if ip.multicast() {
                assert(routes(steps[first - 1], IpAddr::V6(ip)));
            }
        }
        assert forall|j: int|
            0 <= j < steps.len() && #[trigger] routes(steps[j], IpAddr::V6(ip)) implies steps[j]
            == steps[half] || (ip.multicast() && iface.v6_index is Some && j == first - 1) by {}
        assert forall|j: int|
            0 <= j < other.len() && #[trigger] routes(other[j], IpAddr::V6(ip)) implies other[j]
            == steps[half] by {}
    }
}

/// On Windows every IPv4 address is routed into the tunnel.
pub proof fn law_windows_routes_ipv4_into_the_tunnel(ipv6: bool, metric: u32, ip: Ipv4Addr)
    ensures
        leads_to(windows_steps(ipv6, metric), IpAddr::V4(ip), Via::Tunnel),
{
    let steps = windows_steps(ipv6, metric);
    let first = windows_link_steps(ipv6, metric).len() as int;
    law_split_default_covers_v4(ip.bits);
    assert(steps[first] == v4_route(0, 1, Via::Tunnel));
    assert(steps[first + 1] == v4_route(0x8000_0000, 1, Via::Tunnel));
    assert(V4_SPLIT_DEFAULT[0].0 == 0 && V4_SPLIT_DEFAULT[1].0 == 0x8000_0000);
    let half = if addr::same_prefix(ip.bits as nat, 0, 32, 1) {
        first
    } else {
        first + 1
    };
    assert(routes(steps[half], IpAddr::V4(ip)));
    assert forall|j: int|
        0 <= j < steps.len() && #[trigger] routes(steps[j], IpAddr::V4(ip)) implies steps[j]
        == steps[half] by {}
}

/// The routes that steps install are those of the steps that add one, in their
/// order: each of them is taken back, and no other.
pub proof fn law_every_route_is_taken_back(steps: Seq<SetupStep>, route: Route)
    ensures
        routes_of(steps).contains(route) <==> steps.contains(SetupStep::AddRoute(route)),
        routes_of(steps).len() == steps.filter(|s: SetupStep| s is AddRoute).len(),
    decreases steps.len(),
{
    reveal(Seq::filter);
    let p = |s: SetupStep| s is AddRoute;
    if steps.len() > 0 {
        let front = steps.drop_last();
        law_every_route_is_taken_back(front, route);
        assert(steps =~= front.push(steps.last()));
        let step = SetupStep::AddRoute(route);
        assert(steps.contains(step) <==> front.contains(step) || steps.last() == step) by {
            if steps.contains(step) {
                let i = choose|i: int| 0 <= i < steps.len() && steps[i] == step;
                if i < front.len() {
                    assert(front[i] == step);
                }
            }
            if front.contains(step) {
                let i = choose|i: int| 0 <= i < front.len() && front[i] == step;
                assert(steps[i] == step);
            }
            assert(steps[steps.len() - 1] == steps.last());
        }
        if let SetupStep::AddRoute(last) = steps.last() {
            let before = routes_of(front);
            let after = before.push(last);
            assert(after.contains(route) <==> before.contains(route) || last == route) by {
                if after.contains(route) {
                    let i = choose|i: int| 0 <= i < after.len() && after[i] == route;
                    if i < before.len() {
                        assert(before[i] == route);
                    }
                }
                if before.contains(route) {
                    let i = choose|i: int| 0 <= i < before.len() && before[i] == route;
                    assert(after[i] == route);
                }
                assert(after[before.len() as int] == last);
            }
        }
    }
}

/// An index of 0 stands for no interface; every other is kept.
pub proof fn law_index_zero_is_no_interface(index: u32)
    ensures
        real_index(None) is None,
        real_index(Some(0u32)) is None,
        index != 0 ==> real_index(Some(index)) == Some(index),
{
}

/// A name fills the front of its field and zeros the rest; one that is too long is
/// cut off.
pub proof fn law_name_field_holds_the_name(name: Seq<u8>)
    ensures
        name_field(name).len() == 16,
        name.len() <= 16 ==> name_field(name) == name + bytes::zeros((16 - name.len()) as nat),
        name.len() > 16 ==> name_field(name) == name.take(16),
{
    if name.len() <= 16 {
        assert(name_field(name) =~= name + bytes::zeros((16 - name.len()) as nat));
    } else {
        assert(name_field(name) =~= name.take(16));
    }
}

/// What a failed route is called tells the network: between `add_route(` and `)`
/// stand its address, a slash and its prefix length.
pub proof fn law_failed_route_is_named(route: Route) -> (network: (Seq<char>, Seq<char>))
    ensures
        step_name(SetupStep::AddRoute(route)) == "add_route("@ + (network.0.push('/') + network.1)
            + ")"@,
        addr_text::ip_text(network.0) == Some(route.dest),
        text::unsigned_value(network.1, 255) == Some(route.prefix_len as nat),
{
    let ip = addr_text::write_ip(route.dest);
    let len = text::decimal(route.prefix_len as nat);
    addr_text::law_ip_text_round_trip(route.dest);
    text::lemma_decimal_reads_back(route.prefix_len as nat);
    assert(text::is_digit(len[0]));
    assert(("add_route("@ + ip).push('/') + len =~= "add_route("@ + (ip.push('/') + len));
    (ip, len)
}

} // verus!
