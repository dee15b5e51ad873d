//! Linux: addressing and routing over rtnetlink, and process attribution over
//! sock_diag.

pub mod netcfg;
pub mod process;
pub mod wire;

use vstd::prelude::*;

use self::process::{InodeTable, Next};
use super::attribution;
use super::attribution::{Endpoint, EndpointCache, Owner, Owners};
use super::{open_failure, PhysicalInterface};
use crate::addr::SocketAddr;
use crate::error::{Error, IoFailure};

verus! {

/// Interface name template. The kernel replaces `%d` by the first free number,
/// so that a leftover interface can never block startup.
pub const ADAPTER_NAME: &'static str = "ace%d";

/// Attaches a descriptor to a TUN interface: `_IOW('T', 202, int)`.
pub const TUNSETIFF: u64 = 0x4004_54ca;

/// Sets a TUN interface's offload mask: `_IOW('T', 208, int)`.
pub const TUNSETOFFLOAD: u64 = 0x4004_54d0;

/// One step of opening the device.
#[derive(Debug, Clone, Copy, PartialEq, Eq, Structural)]
pub enum OpenStep {
    /// Create the device node, which containers often lack.
    CreateNode,
    /// Open the device node.
    Open,
    /// Attach the descriptor to an interface, [`TUNSETIFF`].
    Attach,
    /// Clear the offload mask, [`TUNSETOFFLOAD`]: a leftover one would make reads
    /// return several packets as one.
    ClearOffload,
    /// Make the descriptor nonblocking.
    SetNonblocking,
    /// Find the index of the interface.
    FindIndex,
}

/// What follows a step of opening the device.
#[derive(Debug, Clone, Copy, PartialEq, Eq, Structural)]
pub enum OpenNext {
    /// Carry this step out.
    Do(OpenStep),
    /// The device is open, as the interface with this index.
    Opened(u32),
}

/// The first step of opening the device.
pub fn open_start(node_exists: bool) -> (r: OpenStep)
    ensures
        r == if node_exists {
            OpenStep::Open
        } else {
            OpenStep::CreateNode
        },
{
    if node_exists {
        OpenStep::Open
    } else {
        OpenStep::CreateNode
    }
}

/// The step that follows `step`; after the last one there is none.
pub open spec fn following_step(step: OpenStep) -> Option<OpenStep> {
    match step {
        OpenStep::CreateNode => Some(OpenStep::Open),
        OpenStep::Open => Some(OpenStep::Attach),
        OpenStep::Attach => Some(OpenStep::ClearOffload),
        OpenStep::ClearOffload => Some(OpenStep::SetNonblocking),
        OpenStep::SetNonblocking => Some(OpenStep::FindIndex),
        OpenStep::FindIndex => None,
    }
}

/// Whether opening goes on where `step` fails: without the node opening it fails,
/// and a fresh device has no offload mask.
pub open spec fn may_fail(step: OpenStep) -> bool {
    step == OpenStep::CreateNode || step == OpenStep::ClearOffload
}

/// Whether `step` fails for want of privileges.
pub open spec fn needs_privileges(step: OpenStep) -> bool {
    step == OpenStep::Open || step == OpenStep::Attach
}

/// What a step is called in errors.
pub open spec fn step_name(step: OpenStep) -> Seq<char> {
    match step {
        OpenStep::Open => "open(/dev/net/tun)"@,
        OpenStep::Attach => "TUNSETIFF"@,
        OpenStep::SetNonblocking => "fcntl(O_NONBLOCK)"@,
        OpenStep::FindIndex => "if_nametoindex"@,
        OpenStep::CreateNode => "mknod(/dev/net/tun)"@,
        OpenStep::ClearOffload => "TUNSETOFFLOAD"@,
    }
}

/// What follows `step`. A step that succeeded returned a number, which is the
/// interface's index for the last one.
pub fn open_next(step: OpenStep, outcome: core::result::Result<u32, IoFailure>) -> (r:
    core::result::Result<OpenNext, Error>)
    ensures
        r is Ok == (outcome is Ok || may_fail(step)),
        r is Ok ==> r->Ok_0 == match following_step(step) {
            Some(next) => OpenNext::Do(next),
            None => OpenNext::Opened(outcome->Ok_0),
        },
        r is Err && needs_privileges(step) && outcome->Err_0.kind is PermissionDenied
            ==> r->Err_0 is NotElevated,
        r is Err && !(needs_privileges(step) && outcome->Err_0.kind is PermissionDenied) ==> (
        r->Err_0 matches Error::NetConfig { op, source } && op@ == step_name(step) && source
            == outcome->Err_0),
{
    match step {
        OpenStep::CreateNode => Ok(OpenNext::Do(OpenStep::Open)),
        OpenStep::Open => match outcome {
            Ok(_) => Ok(OpenNext::Do(OpenStep::Attach)),
            Err(source) => Err(open_failure("open(/dev/net/tun)", source)),
        },
        OpenStep::Attach => match outcome {
            Ok(_) => Ok(OpenNext::Do(OpenStep::ClearOffload)),
            Err(source) => Err(open_failure("TUNSETIFF", source)),
        },
        OpenStep::ClearOffload => Ok(OpenNext::Do(OpenStep::SetNonblocking)),
        OpenStep::SetNonblocking => match outcome {
            Ok(_) => Ok(OpenNext::Do(OpenStep::FindIndex)),
            Err(source) => Err(Error::netcfg("fcntl(O_NONBLOCK)", source)),
        },
        OpenStep::FindIndex => match outcome {
            Ok(index) => Ok(OpenNext::Opened(index)),
            Err(source) => Err(Error::netcfg("if_nametoindex", source)),
        },
    }
}

/// The level of socket options that concern the socket itself.
pub const SOL_SOCKET: i32 = 1;

/// Binds a socket to an interface. Unlike `IP_UNICAST_IF`, which applies only once
/// the route is chosen, it governs where a connection's first packet goes.
pub const SO_BINDTODEVICE: i32 = 25;

/// The value of [`SO_BINDTODEVICE`] that pins a socket to an interface: the
/// interface's name, ended by a NUL.
pub fn pin_socket(interface: &str) -> (r: Vec<u8>)
    ensures
        r@ == vstd::utf8::encode_utf8(interface@).push(0),
{
    let mut value: Vec<u8> = Vec::new();
    value.extend_from_slice(interface.as_bytes());
    value.push(0);
    assert(value@ =~= vstd::utf8::encode_utf8(interface@).push(0));
    value
}

/// The Linux backend.
pub struct LinuxBackend;

impl LinuxBackend {
    /// The internet-facing interface, from the routes to the two probe addresses.
    pub fn discover_physical_interface(v4_route: Option<u32>, v6_route: Option<u32>) -> (r:
        PhysicalInterface)
        ensures
            r.v4_index == super::real_index(v4_route),
            r.v6_index == super::real_index(v6_route),
    {
        PhysicalInterface::discover(v4_route, v6_route)
    }

    /// Whether the process may create and run the tunnel.
    pub fn is_privileged(effective: Option<[u32; 2]>, euid: u32) -> (r: bool)
        ensures
            r == match effective {
                Some(set) => process::capable(set, process::CAP_NET_ADMIN) && process::capable(
                    set,
                    process::CAP_NET_RAW,
                ),
                None => euid == 0,
            },
    {
        process::is_privileged(effective, euid)
    }
}

/// A flow whose process is looked for.
#[derive(Debug, Clone, Copy, PartialEq, Eq, Structural)]
pub struct Flow {
    /// The flow's local endpoint.
    pub local: SocketAddr,
    /// The flow's destination.
    pub remote: SocketAddr,
    /// Whether the flow is UDP.
    pub is_udp: bool,
}

impl Flow {
    /// The endpoint that a process is remembered for.
    pub open spec fn endpoint(self) -> Endpoint {
        Endpoint { ip: self.local.ip, port: self.local.port, is_udp: self.is_udp }
    }
}

/// The next step of looking for a flow's process.
#[derive(Debug)]
pub enum ResolveStep {
    /// The search is over.
    Done(Option<u32>),
    /// Send this query, the one of the given attempt.
    Ask(usize, Vec<u8>),
    /// Walk the process file system for the socket with this inode.
    Walk(u64),
}

/// The next step of looking for a flow's process, seen from outside.
#[verifier::ext_equal]
pub enum ResolveModel {
    /// The search is over.
    Done(Option<u32>),
    /// Send a query.
    Ask(usize, Seq<u8>),
    /// Walk the process file system.
    Walk(u64),
}

impl View for ResolveStep {
    type V = ResolveModel;

    open spec fn view(&self) -> ResolveModel {
        match *self {
            ResolveStep::Done(pid) => ResolveModel::Done(pid),
            ResolveStep::Ask(attempt, query) => ResolveModel::Ask(attempt, query@),
            ResolveStep::Walk(inode) => ResolveModel::Walk(inode),
        }
    }
}

/// The step that makes attempt `attempt`, or ends the search where the attempts
/// are used up.
pub open spec fn attempt_step(flow: Flow, attempt: usize) -> ResolveModel {
    if attempt < process::ATTEMPTS {
        ResolveModel::Ask(
            attempt,
            process::query_octets(flow.local, flow.remote, flow.is_udp, attempt),
        )
    } else {
        ResolveModel::Done(None)
    }
}

fn make_attempt(flow: Flow, attempt: usize) -> (r: ResolveStep)
    ensures
        r@ == attempt_step(flow, attempt),
{
    match process::query_socket_inode(flow.local, flow.remote, flow.is_udp, attempt) {
        Some(query) => ResolveStep::Ask(attempt, query),
        None => ResolveStep::Done(None),
    }
}

/// Which process a flow belongs to.
///
/// An attribution asks what is remembered; then, with up to
/// [`process::ATTEMPTS`] queries, for the socket's inode; then what the last walk
/// of the process file system knows of the inode; and then a fresh walk.
pub struct LinuxProcessTable {
    endpoints: EndpointCache,
    inodes: InodeTable,
}

/// `owners` once an inode was looked for: the process is remembered where there
/// is one.
pub open spec fn attributed(
    owners: Owners,
    endpoint: Endpoint,
    pid: Option<u32>,
    now: u64,
) -> Owners {
    match pid {
        Some(pid) => owners.insert(endpoint, Owner { pid, resolved: now }),
        None => owners,
    }
}

/// The process that a socket belongs to, where that is known.
pub open spec fn known_owner(inodes: Map<u64, u32>, inode: u64) -> Option<u32> {
    if inodes.contains_key(inode) {
        Some(inodes[inode])
    } else {
        None
    }
}

impl LinuxProcessTable {
    /// The owners that are remembered, by endpoint.
    pub closed spec fn owners(&self) -> Owners {
        self.endpoints@
    }

    /// The owners that the last walk found, by inode.
    pub closed spec fn sockets(&self) -> Map<u64, u32> {
        self.inodes@
    }

    /// A table that knows nothing.
    pub fn new() -> (r: LinuxProcessTable)
        ensures
            r.owners() == Owners::empty(),
            r.sockets() == Map::<u64, u32>::empty(),
    {
        LinuxProcessTable { endpoints: EndpointCache::new(), inodes: InodeTable::new() }
    }

    /// Starts looking for the process of a flow: it may be remembered.
    pub fn resolve_pid(&self, flow: Flow, now: u64) -> (r: ResolveStep)
        ensures
            r@ == match attribution::owner_at(self.owners(), flow.endpoint(), now) {
                Some(pid) => ResolveModel::Done(Some(pid)),
                None => attempt_step(flow, 0),
            },
    {
        let endpoint = Endpoint { ip: flow.local.ip, port: flow.local.port, is_udp: flow.is_udp };
        match self.endpoints.lookup(endpoint, now) {
            Some(pid) => ResolveStep::Done(Some(pid)),
            None => make_attempt(flow, 0),
        }
    }

    /// Goes on once attempt `attempt` found an inode or nothing. The process that
    /// the last walk found for an inode is remembered; where it found none, a fresh
    /// walk does.
    pub fn resolve_answered(
        &mut self,
        flow: Flow,
        attempt: usize,
        inode: Option<u64>,
        now: u64,
    ) -> (r: ResolveStep)
        requires
            attempt < process::ATTEMPTS,
        ensures
            r@ == match inode {
                Some(inode) => match known_owner(old(self).sockets(), inode) {
                    Some(pid) => ResolveModel::Done(Some(pid)),
                    None => ResolveModel::Walk(inode),
                },
                None => attempt_step(flow, (attempt + 1) as usize),
            },
            final(self).sockets() == old(self).sockets(),
            final(self).owners() == match inode {
                Some(inode) => attributed(
                    old(self).owners(),
                    flow.endpoint(),
                    known_owner(old(self).sockets(), inode),
                    now,
                ),
                None => old(self).owners(),
            },
    {
        match process::next_attempt(attempt, inode) {
            Next::Ask(next) => make_attempt(flow, next),
            Next::Stop(None) => ResolveStep::Done(None),
            Next::Stop(Some(inode)) => match self.inode_to_pid(flow, inode, now) {
                Some(pid) => ResolveStep::Done(Some(pid)),
                None => ResolveStep::Walk(inode),
            },
        }
    }

    /// Ends with a fresh walk that came across these descriptors.
    pub fn resolve_walked(
        &mut self,
        flow: Flow,
        inode: u64,
        links: &Vec<(u32, String)>,
        now: u64,
    ) -> (r: Option<u32>)
        ensures
            r == known_owner(process::owners_of(links@), inode),
            final(self).sockets() == process::owners_of(links@),
            final(self).owners() == attributed(old(self).owners(), flow.endpoint(), r, now),
    {
        self.inodes.scan_socket_inodes(links);
        self.inode_to_pid(flow, inode, now)
    }

    fn inode_to_pid(&mut self, flow: Flow, inode: u64, now: u64) -> (r: Option<u32>)
        ensures
            r == known_owner(old(self).sockets(), inode),
            final(self).sockets() == old(self).sockets(),
            final(self).owners() == attributed(old(self).owners(), flow.endpoint(), r, now),
    {
        let pid = self.inodes.inode_to_pid(inode);
        if let Some(pid) = pid {
            self.endpoints.remember(
                Endpoint { ip: flow.local.ip, port: flow.local.port, is_udp: flow.is_udp },
                pid,
                now,
            );
        }
        pid
    }

    /// What a process is called, from the name that the system keeps and the path
    /// of its executable, each where it can be read.
    pub fn process_name(comm: Option<&str>, exe: Option<&str>) -> (r: Option<String>)
        ensures
            crate::config::optional_text(r) == process::called(
                crate::rule::text_of(comm),
                crate::rule::text_of(exe),
            ),
    {
        process::process_name(comm, exe)
    }
}

// ── Laws ────────────────────────────────────────────────────────────────────

/// A process that was found for a flow is remembered for the flow's local
/// endpoint, and for no other; where none was found, nothing changes.
pub proof fn law_found_process_is_remembered(
    owners: Owners,
    flow: Flow,
    other: Endpoint,
    pid: u32,
    now: u64,
)
    ensures
        attribution::owner_at(
            attributed(owners, flow.endpoint(), Some(pid), now),
            Endpoint { ip: flow.local.ip, port: flow.local.port, is_udp: flow.is_udp },
            now,
        ) == Some(pid),
        other != flow.endpoint() ==> attribution::owner_at(
            attributed(owners, flow.endpoint(), Some(pid), now),
            other,
            now,
        ) == attribution::owner_at(owners, other, now),
        attributed(owners, flow.endpoint(), None, now) == owners,
{
}

/// A socket is looked for with three queries, one after the other, and no more.
pub proof fn law_three_queries_are_made(flow: Flow, attempt: usize)
    ensures
        attempt < 3 ==> attempt_step(flow, attempt) == ResolveModel::Ask(
            attempt,
            process::query_octets(flow.local, flow.remote, flow.is_udp, attempt),
        ),
        attempt >= 3 ==> attempt_step(flow, attempt) == ResolveModel::Done(None),
{
}

/// The process of a socket is the one that the last walk found for its inode.
pub proof fn law_owner_of_an_inode(inodes: Map<u64, u32>, inode: u64, pid: u32)
    ensures
        known_owner(inodes.insert(inode, pid), inode) == Some(pid),
        known_owner(inodes.remove(inode), inode) is None,
{
}

} // verus!
