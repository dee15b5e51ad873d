//! Process attribution, over sock_diag and the process file system.
//!
//! A query for one socket returns the socket's inode. The inode leads to the
//! process whose file descriptors link to `socket:[<inode>]`.

use std::collections::HashMap;
use vstd::prelude::*;
use vstd::slice::slice_subrange;

use super::netcfg::{AF_INET, AF_INET6, NLM_F_REQUEST};
use super::wire;
use super::wire::{decode_diag, encode_diag, DiagBody, DiagReply, SocketName};
use crate::addr::{IpAddr, Ipv4Addr, Ipv6Addr, SocketAddr};
use crate::text;

verus! {

// ── Socket queries ──────────────────────────────────────────────────────────

/// The IP protocol number of TCP.
pub const IPPROTO_TCP: u8 = 6;

/// The IP protocol number of UDP.
pub const IPPROTO_UDP: u8 = 17;

/// Every TCP state.
pub const ALL_STATES: u32 = 0xffe;

/// A socket query's sequence number: each has a socket of its own.
pub const QUERY_SEQUENCE: u32 = 1;

/// How many queries a socket is looked for with.
pub const ATTEMPTS: usize = 3;

/// The wildcard address of the same family as `ip`.
pub open spec fn wildcard_of(ip: IpAddr) -> IpAddr {
    match ip {
        IpAddr::V4(_) => IpAddr::V4(Ipv4Addr { bits: 0 }),
        IpAddr::V6(_) => IpAddr::V6(Ipv6Addr { bits: 0 }),
    }
}

/// The wildcard address of the same family as `ip`.
pub fn wildcard(ip: IpAddr) -> (r: IpAddr)
    ensures
        r == wildcard_of(ip),
{
    match ip {
        IpAddr::V4(_) => IpAddr::V4(Ipv4Addr { bits: 0 }),
        IpAddr::V6(_) => IpAddr::V6(Ipv6Addr { bits: 0 }),
    }
}

/// The socket that attempt `attempt` asks about.
///
/// TCP names the local endpoint as the source. Established sockets are found by
/// both endpoints, so the first attempt names both; listeners are found by the
/// local address and port, so the others drop the remote endpoint, and then the
/// address.
///
/// UDP names the local port as the destination: the kernel reads a query as if
/// it were a received packet. Connected sockets are found by the remote address
/// and the local port, others by the local address and port or, where they are
/// bound to no address, by the port.
pub open spec fn socket_named(
    local: SocketAddr,
    remote: SocketAddr,
    is_udp: bool,
    attempt: usize,
) -> SocketName {
    if is_udp {
        SocketName {
            source_port: if attempt == 0 {
                remote.port
            } else {
                0
            },
            destination_port: local.port,
            source_address: if attempt <= 1 {
                local.ip
            } else {
                wildcard_of(local.ip)
            },
            destination_address: if attempt == 0 {
                remote.ip
            } else if attempt == 1 {
                local.ip
            } else {
                wildcard_of(local.ip)
            },
        }
    } else {
        SocketName {
            source_port: local.port,
            destination_port: if attempt == 0 {
                remote.port
            } else {
                0
            },
            source_address: if attempt <= 1 {
                local.ip
            } else {
                wildcard_of(local.ip)
            },
            destination_address: if attempt == 0 {
                remote.ip
            } else {
                wildcard_of(local.ip)
            },
        }
    }
}

/// The socket that attempt `attempt` asks about.
pub fn socket_name(local: SocketAddr, remote: SocketAddr, is_udp: bool, attempt: usize) -> (r:
    SocketName)
    ensures
        r == socket_named(local, remote, is_udp, attempt),
{
    let any = wildcard(local.ip);
    let other_port = if attempt == 0 {
        remote.port
    } else {
        0
    };
    let source_address = if attempt <= 1 {
        local.ip
    } else {
        any
    };
    if is_udp {
        SocketName {
            source_port: other_port,
            destination_port: local.port,
            source_address,
            destination_address: if attempt == 0 {
                remote.ip
            } else if attempt == 1 {
                local.ip
            } else {
                any
            },
        }
    } else {
        SocketName {
            source_port: local.port,
            destination_port: other_port,
            source_address,
            destination_address: if attempt == 0 {
                remote.ip
            } else {
                any
            },
        }
    }
}

/// A cookie that matches any socket.
pub open spec fn any_cookie() -> Seq<u8> {
    seq![0xffu8, 0xffu8, 0xffu8, 0xffu8, 0xffu8, 0xffu8, 0xffu8, 0xffu8]
}

/// The octets of the query of attempt `attempt` for the socket behind a flow's
/// endpoints.
pub open spec fn query_octets(
    local: SocketAddr,
    remote: SocketAddr,
    is_udp: bool,
    attempt: usize,
) -> Seq<u8> {
    wire::message(
        20,
        NLM_F_REQUEST as nat,
        QUERY_SEQUENCE as nat,
        wire::diag_payload(
            if local.ip is V4 {
                AF_INET
            } else {
                AF_INET6
            },
            if is_udp {
                IPPROTO_UDP
            } else {
                IPPROTO_TCP
            },
            ALL_STATES,
            socket_named(local, remote, is_udp, attempt),
            0,
            any_cookie(),
        ),
    )
}

/// The query of attempt `attempt` for the socket behind a flow's endpoints, or
/// nothing where the attempts are used up.
pub fn query_socket_inode(
    local: SocketAddr,
    remote: SocketAddr,
    is_udp: bool,
    attempt: usize,
) -> (r: Option<Vec<u8>>)
    ensures
        r is Some == (attempt < ATTEMPTS),
        r matches Some(octets) ==> octets@ == query_octets(local, remote, is_udp, attempt),
{
    if attempt >= ATTEMPTS {
        return None;
    }
    let family = if local.ip.is_ipv6() {
        AF_INET6
    } else {
        AF_INET
    };
    let protocol = if is_udp {
        IPPROTO_UDP
    } else {
        IPPROTO_TCP
    };
    let name = socket_name(local, remote, is_udp, attempt);
    let cookie: [u8; 8] = [0xff, 0xff, 0xff, 0xff, 0xff, 0xff, 0xff, 0xff];
    assert(cookie@ =~= any_cookie());
    Some(
        encode_diag(family, protocol, ALL_STATES, name, 0, cookie, NLM_F_REQUEST, QUERY_SEQUENCE),
    )
}

/// What a message says about a socket query.
#[derive(Debug, Clone, Copy, PartialEq, Eq, Structural)]
pub enum QueryStep {
    /// Nothing: read on.
    Wait,
    /// The socket has this inode.
    Found(u64),
    /// There is no such socket.
    NotFound,
}

/// What a message says about a socket query. A message that cannot be read, an
/// error and the inode 0 say that there is no such socket.
pub open spec fn query_of(message: Option<DiagReply>) -> QueryStep {
    match message {
        None => QueryStep::NotFound,
        Some(reply) => if reply.sequence != QUERY_SEQUENCE {
            QueryStep::Wait
        } else {
            match reply.body {
                DiagBody::Socket(inode) => if inode == 0 {
                    QueryStep::NotFound
                } else {
                    QueryStep::Found(inode as u64)
                },
                DiagBody::Error => QueryStep::NotFound,
                DiagBody::Other => QueryStep::Wait,
            }
        },
    }
}

/// What a message says about a socket query.
pub fn query_step(message: Option<DiagReply>) -> (r: QueryStep)
    ensures
        r == query_of(message),
{
    match message {
        None => QueryStep::NotFound,
        Some(reply) => if reply.sequence != QUERY_SEQUENCE {
            QueryStep::Wait
        } else {
            match reply.body {
                DiagBody::Socket(inode) => if inode == 0 {
                    QueryStep::NotFound
                } else {
                    QueryStep::Found(inode as u64)
                },
                DiagBody::Error => QueryStep::NotFound,
                DiagBody::Other => QueryStep::Wait,
            }
        },
    }
}

/// Whether `s` is the fixed part of a socket, and nothing else, in answer to a
/// query.
pub open spec fn bare_socket(s: Seq<u8>) -> bool {
    &&& wire::framed(s)
    &&& wire::message_type(s) == 20
    &&& wire::sequence_of(s) == QUERY_SEQUENCE
    &&& wire::payload_of(s).len() == 72
    &&& wire::payload_of(s)[0] == AF_INET || wire::payload_of(s)[0] == AF_INET6
}

/// Reads a message while waiting for the answer to a socket query.
pub fn query_one(s: &[u8]) -> (r: QueryStep)
    ensures
        r == query_of(wire::diag_message(wire::little_endian(), s@)),
        !wire::framed(s@) ==> r is NotFound,
        bare_socket(s@) ==> ({
            let inode = wire::ne_value(wire::payload_of(s@).subrange(68, 72));
            r == if inode == 0 {
                QueryStep::NotFound
            } else {
                QueryStep::Found(inode as u64)
            }
        }),
{
    query_step(decode_diag(s))
}

/// What to do once an attempt has been answered.
#[derive(Debug, Clone, Copy, PartialEq, Eq, Structural)]
pub enum Next {
    /// Make this attempt.
    Ask(usize),
    /// Stop: the socket has this inode, or was not found.
    Stop(Option<u64>),
}

/// What to do once attempt `attempt` has found `inode` or nothing: the first
/// inode found counts, and after the last attempt there is none.
pub fn next_attempt(attempt: usize, inode: Option<u64>) -> (r: Next)
    requires
        attempt < ATTEMPTS,
    ensures
        r == if inode is Some || attempt + 1 == ATTEMPTS {
            Next::Stop(inode)
        } else {
            Next::Ask((attempt + 1) as usize)
        },
{
    if inode.is_some() || attempt + 1 == ATTEMPTS {
        Next::Stop(inode)
    } else {
        Next::Ask(attempt + 1)
    }
}

/// Whatever the attempt, a query carries the flow's local port: as the source of
/// a TCP query and as the destination of a UDP one.
pub proof fn law_queries_carry_the_local_port(
    local: SocketAddr,
    remote: SocketAddr,
    is_udp: bool,
    attempt: usize,
)
    ensures
        is_udp ==> socket_named(local, remote, is_udp, attempt).destination_port == local.port,
        !is_udp ==> socket_named(local, remote, is_udp, attempt).source_port == local.port,
{
}

// ── From inode to process ───────────────────────────────────────────────────

/// The inode in a descriptor's link target, `socket:[<inode>]`.
pub open spec fn inode_in(target: Seq<char>) -> Option<nat> {
    let prefix = "socket:["@;
    if text::starts_with(target, prefix) && target.len() > prefix.len() && target.last() == ']' {
        text::unsigned_value(
            target.subrange(prefix.len() as int, target.len() - 1),
            u64::MAX as nat,
        )
    } else {
        None
    }
}

/// Parses `socket:[<inode>]` out of a descriptor's link target.
pub fn socket_inode_of(link_target: &str) -> (r: Option<u64>)
    ensures
        r is Some == inode_in(link_target@) is Some,
        r is Some ==> r->0 == inode_in(link_target@)->0,
{
    proof {
        reveal_strlit("socket:[");
    }
    let target = text::chars_of(link_target);
    let prefix = text::chars_of("socket:[");
    if text::has_prefix(&target, &prefix) && target.len() > prefix.len() && target[target.len() - 1]
        == ']' {
        text::parse_unsigned(slice_subrange(&target, prefix.len(), target.len() - 1), u64::MAX)
    } else {
        None
    }
}

/// The process that an entry of the process file system belongs to: the entry is
/// its number.
pub fn pid_of_entry(name: &str) -> (r: Option<u32>)
    ensures
        r is Some == text::unsigned_value(name@, u32::MAX as nat) is Some,
        r is Some ==> r->0 == text::unsigned_value(name@, u32::MAX as nat)->0,
{
    match text::parse_unsigned(&text::chars_of(name), u32::MAX as u64) {
        Some(pid) => Some(pid as u32),
        None => None,
    }
}

/// The processes that sockets belong to, by inode, after a walk that came across
/// these descriptors: a process and a link target each. Of processes that share a
/// socket the first counts.
pub open spec fn owners_of(links: Seq<(u32, String)>) -> Map<u64, u32>
    decreases links.len(),
{
    if links.len() == 0 {
        Map::empty()
    } else {
        let before = owners_of(links.drop_last());
        let (pid, target) = links.last();
        match inode_in(target@) {
            Some(inode) => if before.contains_key(inode as u64) {
                before
            } else {
                before.insert(inode as u64, pid)
            },
            None => before,
        }
    }
}

/// The processes that sockets belong to, as the last walk found them.
pub struct InodeTable {
    owners: HashMap<u64, u32>,
}

impl View for InodeTable {
    type V = Map<u64, u32>;

    closed spec fn view(&self) -> Map<u64, u32> {
        self.owners@
    }
}

impl InodeTable {
    /// What is known before the first walk.
    pub fn new() -> (r: InodeTable)
        ensures
            r@ == Map::<u64, u32>::empty(),
    {
        broadcast use vstd::std_specs::hash::group_hash_axioms;

        InodeTable { owners: HashMap::new() }
    }

    /// The process that the socket with this inode belongs to. Where none is
    /// known, a fresh walk finds any socket that exists.
    pub fn inode_to_pid(&self, inode: u64) -> (r: Option<u32>)
        ensures
            r == if self@.contains_key(inode) {
                Some(self@[inode])
            } else {
                None
            },
    {
        broadcast use vstd::std_specs::hash::group_hash_axioms;

        match self.owners.get(&inode) {
            Some(pid) => Some(*pid),
            None => None,
        }
    }

    /// Replaces what is known by what a walk came across.
    pub fn scan_socket_inodes(&mut self, links: &Vec<(u32, String)>)
        ensures
            final(self)@ == owners_of(links@),
    {
        broadcast use vstd::std_specs::hash::group_hash_axioms;

        let mut owners: HashMap<u64, u32> = HashMap::new();
        let mut i: usize = 0;
        assert(links@.take(0) =~= Seq::empty());
        while i < links.len()
            invariant
                i <= links@.len(),
                owners@ == owners_of(links@.take(i as int)),
            decreases links@.len() - i,
        {
            assert(links@.take(i + 1).drop_last() =~= links@.take(i as int));
            assert(links@.take(i + 1).last() == links@[i as int]);
            if let Some(inode) = socket_inode_of(&links[i].1) {
                if !owners.contains_key(&inode) {
                    owners.insert(inode, links[i].0);
                }
            }
            i += 1;
        }
        assert(links@.take(i as int) =~= links@);
        self.owners = owners;
    }
}

/// A walk misses no socket that it came across, and finds no other.
pub proof fn law_walk_finds_every_socket(links: Seq<(u32, String)>, inode: u64)
    ensures
        owners_of(links).contains_key(inode) <==> exists|i: int|
            0 <= i < links.len() && inode_in(#[trigger] links[i].1@) == Some(inode as nat),
    decreases links.len(),
{
    if links.len() > 0 {
        let before = links.drop_last();
        law_walk_finds_every_socket(before, inode);
        assert forall|i: int| 0 <= i < before.len() implies links[i] == before[i] by {}
        let last = links.len() - 1;
        if owners_of(links).contains_key(inode) {
            if owners_of(before).contains_key(inode) {
                let i = choose|i: int|
                    0 <= i < before.len() && inode_in(#[trigger] before[i].1@) == Some(
                        inode as nat,
                    );
                assert(links[i].1@ == before[i].1@);
            } else {
                lemma_inode_bound(links[last].1@);
                assert(inode_in(links[last].1@) == Some(inode as nat));
            }
        }
        if exists|i: int|
            0 <= i < links.len() && inode_in(#[trigger] links[i].1@) == Some(inode as nat) {
            let i = choose|i: int|
                0 <= i < links.len() && inode_in(#[trigger] links[i].1@) == Some(inode as nat);
            if i < last {
                assert(before[i].1@ == links[i].1@);
            }
        }
    }
}

proof fn lemma_inode_bound(target: Seq<char>)
    ensures
        inode_in(target) matches Some(inode) ==> inode <= u64::MAX,
{
}

/// Of processes that share a socket, the walk keeps the one it met first.
pub proof fn law_first_process_keeps_the_socket(
    links: Seq<(u32, String)>,
    link: (u32, String),
    inode: u64,
)
    requires
        owners_of(links).contains_key(inode),
    ensures
        owners_of(links.push(link)).contains_key(inode),
        owners_of(links.push(link))[inode] == owners_of(links)[inode],
{
    assert(links.push(link).drop_last() =~= links);
}

/// A process name as the system keeps it, without the white space around it, or
/// nothing where it is empty.
pub fn comm_name(comm: &str) -> (r: Option<String>)
    ensures
        r is Some == (text::trim(comm@).len() > 0),
        r is Some ==> r->0@ == text::trim(comm@),
{
    let chars = text::chars_of(comm);
    let name = text::trimmed(&chars);
    if name.len() == 0 {
        None
    } else {
        Some(text::string_of(name))
    }
}

/// The position behind the last `/`.
pub open spec fn component_start(path: Seq<char>) -> int
    decreases path.len(),
{
    if path.len() == 0 || path.last() == '/' {
        path.len() as int
    } else {
        component_start(path.drop_last())
    }
}

/// The last component of a path, not counting `.`; none where there is no
/// component or the last one is `..`.
pub open spec fn last_component(path: Seq<char>) -> Option<Seq<char>>
    decreases path.len(),
{
    let name = path.skip(component_start(path));
    if path.len() == 0 {
        None
    } else if name == Seq::<char>::empty() || name == seq!['.'] {
        last_component(path.drop_last())
    } else if name == seq!['.', '.'] {
        None
    } else {
        Some(name)
    }
}

proof fn lemma_component_start(path: Seq<char>, n: int)
    requires
        0 <= n <= path.len(),
        n > 0 ==> path[n - 1] == '/',
        forall|i: int| n <= i < path.len() ==> path[i] != '/',
    ensures
        component_start(path) == n,
    decreases path.len() - n,
{
    if n < path.len() {
        lemma_component_start(path.drop_last(), n);
    }
}

/// The file name of an executable's path.
pub fn exe_name(path: &str) -> (r: Option<String>)
    ensures
        r is Some == last_component(path@) is Some,
        r is Some ==> r->0@ == last_component(path@)->0,
{
    let chars = text::chars_of(path);
    let mut end: usize = chars.len();
    assert(chars@.take(end as int) =~= path@);
    while end > 0
        invariant
            end <= chars@.len(),
            chars@ == path@,
            last_component(path@) == last_component(chars@.take(end as int)),
        decreases end,
    {
        let ghost whole = chars@.take(end as int);
        let mut start: usize = end;
        while start > 0 && chars[start - 1] != '/'
            invariant
                start <= end <= chars@.len(),
                forall|i: int| start <= i < end ==> chars@[i] != '/',
            decreases start,
        {
            start -= 1;
        }
        let name: &[char] = slice_subrange(&chars, start, end);
        proof {
            lemma_component_start(whole, start as int);
            assert(whole.skip(start as int) =~= name@);
            assert(whole.drop_last() =~= chars@.take(end - 1));
        }
        if name.len() == 0 || (name.len() == 1 && name[0] == '.') {
            assert(name@ =~= Seq::empty() || name@ =~= seq!['.']);
            end -= 1;
        } else if name.len() == 2 && name[0] == '.' && name[1] == '.' {
            assert(name@ =~= seq!['.', '.']);
            return None;
        } else {
            return Some(text::string_of(name));
        }
    }
    None
}

/// What a process is called: the name that the system keeps, or the file name of
/// its executable where that is empty or cannot be read.
pub open spec fn called(comm: Option<Seq<char>>, exe: Option<Seq<char>>) -> Option<Seq<char>> {
    if comm is Some && text::trim(comm->0).len() > 0 {
        Some(text::trim(comm->0))
    } else {
        match exe {
            Some(path) => last_component(path),
            None => None,
        }
    }
}

/// What a process is called, from the name that the system keeps and the path of
/// its executable, each where it can be read.
pub fn process_name(comm: Option<&str>, exe: Option<&str>) -> (r: Option<String>)
    ensures
        crate::config::optional_text(r) == called(
            crate::rule::text_of(comm),
            crate::rule::text_of(exe),
        ),
{
    let kept: Option<String> = match comm {
        Some(comm) => comm_name(comm),
        None => None,
    };
    match kept {
        Some(name) => Some(name),
        None => match exe {
            Some(path) => exe_name(path),
            None => None,
        },
    }
}

// ── Privileges ──────────────────────────────────────────────────────────────

/// The capability to configure networking, for the device.
pub const CAP_NET_ADMIN: u32 = 12;

/// The capability to use raw sockets, for pinning sockets to an interface.
pub const CAP_NET_RAW: u32 = 13;

/// Whether a capability is in an effective set: two words of bits.
pub open spec fn capable(effective: [u32; 2], cap: u32) -> bool {
    (effective@[(cap / 32) as int] >> (cap % 32)) % 2 == 1
}

/// Whether a capability is in an effective set.
pub fn has_capability(effective: [u32; 2], cap: u32) -> (r: bool)
    requires
        cap < 64,
    ensures
        r == capable(effective, cap),
{
    let word: u32 = effective[(cap / 32) as usize];
    (word >> (cap % 32)) % 2 == 1
}

/// Whether the process may create and run the tunnel. A process that is not
/// root's can hold the capabilities, so they are what counts; where they cannot
/// be read, root may.
pub fn is_privileged(effective: Option<[u32; 2]>, euid: u32) -> (r: bool)
    ensures
        r == match effective {
            Some(set) => capable(set, CAP_NET_ADMIN) && capable(set, CAP_NET_RAW),
            None => euid == 0,
        },
        effective matches Some(set) ==> (r <==> capable(set, 12) && capable(set, 13)),
{
    match effective {
        Some(set) => has_capability(set, CAP_NET_ADMIN) && has_capability(set, CAP_NET_RAW),
        None => euid == 0,
    }
}

// ── Laws ────────────────────────────────────────────────────────────────────

/// The first TCP query names both endpoints, the second the local one alone, and
/// the third its port alone.
pub proof fn law_tcp_queries_drop_what_may_differ(local: SocketAddr, remote: SocketAddr)
    ensures
        ({
            let first = socket_named(local, remote, false, 0);
            let second = socket_named(local, remote, false, 1);
            let third = socket_named(local, remote, false, 2);
            &&& first.source_address == local.ip && first.source_port == local.port
            &&& first.destination_address == remote.ip && first.destination_port == remote.port
            &&& second.source_address == local.ip && second.source_port == local.port
            &&& second.destination_address.unspecified() && second.destination_port == 0
            &&& third.source_address.unspecified() && third.source_port == local.port
            &&& third.destination_address.unspecified() && third.destination_port == 0
            &&& second.destination_address is V6 == local.ip is V6
            &&& third.source_address is V6 == local.ip is V6
            &&& third.destination_address is V6 == local.ip is V6
        }),
{
}

/// The first UDP query names the remote endpoint as the sender, the second the
/// local address on both sides, and the third no address; each names the local
/// port as the destination.
pub proof fn law_udp_queries_drop_what_may_differ(local: SocketAddr, remote: SocketAddr)
    ensures
        ({
            let first = socket_named(local, remote, true, 0);
            let second = socket_named(local, remote, true, 1);
            let third = socket_named(local, remote, true, 2);
            &&& first.source_address == local.ip && first.source_port == remote.port
            &&& first.destination_address == remote.ip && first.destination_port == local.port
            &&& second.source_address == local.ip && second.source_port == 0
            &&& second.destination_address == local.ip && second.destination_port == local.port
            &&& third.source_address.unspecified() && third.source_port == 0
            &&& third.destination_address.unspecified() && third.destination_port == local.port
            &&& third.source_address is V6 == local.ip is V6
            &&& third.destination_address is V6 == local.ip is V6
        }),
{
}

/// A query's octets carry the socket that it asks about, of any state: the family
/// of the local address, the protocol, the ports and the addresses.
pub proof fn law_query_octets_carry_the_socket(
    local: SocketAddr,
    remote: SocketAddr,
    is_udp: bool,
    attempt: usize,
)
    ensures
        ({
            let s = query_octets(local, remote, is_udp, attempt);
            let p = wire::payload_of(s);
            let name = socket_named(local, remote, is_udp, attempt);
            let source = name.source_address.octets_spec();
            let destination = name.destination_address.octets_spec();
            &&& wire::framed(s) && wire::message_type(s) == 20 && wire::sequence_of(s) == 1
            &&& p[0] == if local.ip is V4 {
                2u8
            } else {
                10u8
            }
            &&& p[1] == if is_udp {
                17u8
            } else {
                6u8
            }
            &&& p[8] * 256 + p[9] == name.source_port
            &&& p[10] * 256 + p[11] == name.destination_port
            &&& p.subrange(12, 12 + source.len() as int) == source
            &&& p.subrange(28, 28 + destination.len() as int) == destination
            &&& p.skip(48) == any_cookie()
        }),
{
    let name = socket_named(local, remote, is_udp, attempt);
    let family = if local.ip is V4 {
        AF_INET
    } else {
        AF_INET6
    };
    let protocol = if is_udp {
        IPPROTO_UDP
    } else {
        IPPROTO_TCP
    };
    let payload = wire::diag_payload(family, protocol, ALL_STATES, name, 0, any_cookie());
    wire::law_query_payload_names_the_socket(family, protocol, ALL_STATES, name, 0, any_cookie());
    wire::law_messages_read_back(20, NLM_F_REQUEST as nat, QUERY_SEQUENCE as nat, payload);
}

/// The link of a socket's descriptor gives its inode back.
pub proof fn law_socket_link_names_its_inode(inode: u64)
    ensures
        inode_in("socket:["@ + text::decimal(inode as nat) + "]"@) == Some(inode as nat),
{
    let digits = text::decimal(inode as nat);
    let prefix = "socket:["@;
    reveal_strlit("socket:[");
    reveal_strlit("]");
    let s = prefix + digits + "]"@;
    text::lemma_decimal_reads_back(inode as nat);
    assert(text::is_digit(digits[0]));
    assert(s.take(prefix.len() as int) =~= prefix);
    assert(s.last() == ']');
    assert(s.subrange(prefix.len() as int, s.len() - 1) =~= digits);
}

/// A link that does not begin with `socket:[` and end with `]` names no inode.
pub proof fn law_other_links_name_no_inode(target: Seq<char>)
    requires
        inode_in(target) is Some,
    ensures
        target.len() > 9,
        target.take(8) == "socket:["@,
        target.last() == ']',
{
    reveal_strlit("socket:[");
}

/// The file name of a path is what stands behind its last slash; slashes and
/// `.` components behind it make no difference.
pub proof fn law_file_name_is_the_last_component(dir: Seq<char>, name: Seq<char>)
    requires
        dir.len() == 0 || dir.last() == '/',
        name.len() > 0,
        !name.contains('/'),
        name != seq!['.'],
        name != seq!['.', '.'],
    ensures
        last_component(dir + name) == Some(name),
        last_component((dir + name).push('/')) == Some(name),
        last_component((dir + name).push('/').push('.')) == Some(name),
{
    let path = dir + name;
    let n = dir.len() as int;
    if n > 0 {
        assert(path[n - 1] == dir.last());
    }
    assert forall|i: int| n <= i < path.len() implies path[i] != '/' by {
        assert(path[i] == name[i - n]);
        assert(name.contains(name[i - n]));
    }
    lemma_component_start(path, n);
    assert(path.skip(n) =~= name);
    let slashed = path.push('/');
    lemma_component_start(slashed, slashed.len() as int);
    assert(slashed.skip(slashed.len() as int) =~= Seq::<char>::empty());
    assert(slashed.drop_last() =~= path);
    let dotted = slashed.push('.');
    lemma_component_start(dotted, dotted.len() - 1);
    assert(dotted.skip(dotted.len() - 1) =~= seq!['.']);
    assert(dotted.drop_last() =~= slashed);
}

/// A path that ends in `..` has no file name, and neither has one without any
/// component.
pub proof fn law_parent_has_no_file_name(dir: Seq<char>)
    requires
        dir.len() == 0 || dir.last() == '/',
    ensures
        last_component(dir + seq!['.', '.']) is None,
        last_component(Seq::empty()) is None,
        last_component(seq!['/']) is None,
{
    let path = dir + seq!['.', '.'];
    let n = dir.len() as int;
    if n > 0 {
        assert(path[n - 1] == dir.last());
    }
    lemma_component_start(path, n);
    assert(path.skip(n) =~= seq!['.', '.']);
    let root = seq!['/'];
    lemma_component_start(root, 1);
    assert(root.skip(1) =~= Seq::<char>::empty());
    assert(root.drop_last() =~= Seq::<char>::empty());
}

/// A process goes by the name that the system keeps, without the white space
/// around it, and by the file name of its executable only where there is none.
pub proof fn law_kept_name_comes_first(comm: Seq<char>, exe: Option<Seq<char>>)
    ensures
        !text::is_blank(comm) ==> called(Some(comm), exe) == Some(text::trim(comm)),
        text::is_blank(comm) ==> called(Some(comm), exe) == called(None, exe),
        exe is Some ==> called(None, exe) == last_component(exe->Some_0),
        called(None, None) is None,
{
    if text::is_blank(comm) {
        let none = Seq::<char>::empty();
        assert(comm == comm + none + none);
        text::law_trim_cuts_blanks_only(comm, none, none);
    } else {
        let i = choose|i: int| 0 <= i < comm.len() && !text::is_space(#[trigger] comm[i]);
        assert(comm.contains(comm[i]));
        text::law_trim_keeps_what_is_no_blank(comm, comm[i]);
    }
}

/// A capability is the bit with its number: bit 0 is the lowest of the first
/// word, bit 32 the lowest of the second.
pub proof fn law_capability_is_a_bit(effective: [u32; 2], cap: u32)
    requires
        cap < 64,
    ensures
        cap < 32 ==> (capable(effective, cap) <==> effective@[0] as nat
            / vstd::arithmetic::power2::pow2(cap as nat) % 2 == 1),
        cap >= 32 ==> (capable(effective, cap) <==> effective@[1] as nat
            / vstd::arithmetic::power2::pow2((cap - 32) as nat) % 2 == 1),
{
    if cap < 32 {
        vstd::bits::lemma_u32_shr_is_div(effective@[0], cap);
    } else {
        vstd::bits::lemma_u32_shr_is_div(effective@[1], (cap - 32) as u32);
    }
}

/// The answer to a socket query is its inode, where that is not 0; an answer to
/// another query is waited out.
pub proof fn law_query_answer_is_the_inode(sequence: u32, inode: u32)
    ensures
        ({
            let reply = Some(DiagReply { sequence, body: DiagBody::Socket(inode) });
            &&& sequence != 1 ==> query_of(reply) is Wait
            &&& sequence == 1 && inode != 0 ==> query_of(reply) == QueryStep::Found(inode as u64)
            &&& sequence == 1 && inode == 0 ==> query_of(reply) is NotFound
        }),
        query_of(None) is NotFound,
        query_of(Some(DiagReply { sequence: 1, body: DiagBody::Error })) is NotFound,
{
}

} // verus!
