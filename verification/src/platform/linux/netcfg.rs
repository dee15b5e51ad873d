//! Interface addressing and routing, over rtnetlink.
//!
//! Each operation is a request and the answers to it: a function that writes the
//! request, and one that says of each message that comes in whether it settles
//! the matter.

use vstd::prelude::*;

use super::wire;
use super::wire::{
    encode_address, encode_link, encode_lookup, encode_route, read_route, Incoming, IncomingModel,
    RouteBody, RouteBodyModel, RouteChange, RouteFields,
};
use crate::addr::IpAddr;
use crate::bytes;

verus! {

/// How long to wait for an answer before giving up, in seconds. A wedged kernel
/// must not hang startup forever.
pub const NETLINK_TIMEOUT_SECS: u64 = 2;

/// Size of the buffer for one incoming message.
pub const RECEIVE_BUFFER: usize = 0x1_0000;

/// Address family of IPv4.
pub const AF_INET: u8 = 2;

/// Address family of IPv6.
pub const AF_INET6: u8 = 10;

/// Marks a request.
pub const NLM_F_REQUEST: u16 = 1;

/// Asks for an acknowledgement. Without it the kernel answers failures only.
pub const NLM_F_ACK: u16 = 4;

/// Creates what is not there.
pub const NLM_F_CREATE: u16 = 0x400;

/// Fails where it is there.
pub const NLM_F_EXCL: u16 = 0x200;

/// The main routing table.
pub const RT_TABLE_MAIN: u8 = 254;

/// A route that an administrator installed.
pub const RTPROT_STATIC: u8 = 4;

/// A destination on the directly attached network.
pub const RT_SCOPE_LINK: u8 = 253;

/// A route to one destination.
pub const RTN_UNICAST: u8 = 1;

/// Answer a lookup with the table that the winning route came from.
pub const RTM_F_LOOKUP_TABLE: u32 = 0x1000;

/// No duplicate address detection.
pub const IFA_F_NODAD: u8 = 2;

/// The link is up.
pub const IFF_UP: u32 = 1;

/// No such file.
pub const ENOENT: i32 = 2;

/// No such process; of routes, no such route.
pub const ESRCH: i32 = 3;

/// It exists.
pub const EEXIST: i32 = 17;

/// Not connected.
pub const ENOTCONN: i32 = 107;

// ── Requests ────────────────────────────────────────────────────────────────

/// The sequence numbers of a socket's requests.
#[derive(Debug)]
pub struct Sequence {
    /// The next number.
    pub next: u32,
}

impl Sequence {
    /// A new socket's numbers start at 0.
    pub fn new() -> (r: Sequence)
        ensures
            r.next == 0,
    {
        Sequence { next: 0 }
    }

    /// Takes the next number. After the last comes 0 again.
    pub fn next_sequence(&mut self) -> (r: u32)
        ensures
            r == old(self).next,
            final(self).next == (old(self).next + 1) % 0x1_0000_0000,
    {
        let r = self.next;
        self.next = self.next.wrapping_add(1);
        r
    }
}

/// The address family of an address.
pub open spec fn family_of(addr: IpAddr) -> u8 {
    match addr {
        IpAddr::V4(_) => AF_INET,
        IpAddr::V6(_) => AF_INET6,
    }
}

/// The address family of an address.
pub fn family(addr: IpAddr) -> (r: u8)
    ensures
        r == family_of(addr),
{
    match addr {
        IpAddr::V4(_) => AF_INET,
        IpAddr::V6(_) => AF_INET6,
    }
}

/// The request for the route that traffic to `dest` takes.
pub fn route_lookup(sequence: u32, dest: IpAddr) -> (octets: Vec<u8>)
    ensures
        octets@ == wire::message(
            26,
            NLM_F_REQUEST as nat,
            sequence as nat,
            wire::lookup_payload(family_of(dest), RTM_F_LOOKUP_TABLE, dest.octets_spec()),
        ),
{
    encode_lookup(
        family(dest),
        RTM_F_LOOKUP_TABLE,
        address_octets(dest),
        NLM_F_REQUEST,
        sequence,
    )
}

fn address_octets(ip: IpAddr) -> (r: Vec<u8>)
    ensures
        r@ == ip.octets_spec(),
        r@.len() == 4 || r@.len() == 16,
{
    proof {
        match ip {
            IpAddr::V4(a) => bytes::lemma_be_bytes(a.bits as nat, 4),
            IpAddr::V6(a) => bytes::lemma_be_bytes(a.bits as nat, 16),
        }
    }
    ip.octets()
}

/// The flags of an address of ours. IPv6 addresses get no duplicate address
/// detection: it is meaningless on a point-to-point tunnel, and waiting for it
/// would delay startup.
pub open spec fn address_flags(addr: IpAddr) -> u8 {
    if addr is V6 {
        IFA_F_NODAD
    } else {
        0
    }
}

/// The request that assigns a unicast address with the given on-link prefix
/// length to an interface. An IPv4 address is its own peer; IPv6 has no peer.
pub fn add_address(sequence: u32, ifindex: u32, addr: IpAddr, prefix_len: u8) -> (octets: Vec<u8>)
    ensures
        octets@ == wire::message(
            20,
            (NLM_F_REQUEST + NLM_F_ACK + NLM_F_CREATE + NLM_F_EXCL) as nat,
            sequence as nat,
            wire::address_payload(
                family_of(addr),
                prefix_len,
                address_flags(addr),
                ifindex,
                addr,
                if addr is V4 {
                    Some(addr)
                } else {
                    None
                },
            ),
        ),
{
    let (kept, local): (u8, Option<IpAddr>) = match addr {
        IpAddr::V4(_) => (0, Some(addr)),
        IpAddr::V6(_) => (IFA_F_NODAD, None),
    };
    encode_address(
        family(addr),
        prefix_len,
        kept,
        ifindex,
        addr,
        local,
        NLM_F_REQUEST + NLM_F_ACK + NLM_F_CREATE + NLM_F_EXCL,
        sequence,
    )
}

/// The request that sets an interface's MTU and brings it up. No other flag of
/// the interface changes.
pub fn set_link_mtu_and_up(sequence: u32, ifindex: u32, mtu: u16) -> (octets: Vec<u8>)
    ensures
        octets@ == wire::message(
            16,
            (NLM_F_REQUEST + NLM_F_ACK) as nat,
            sequence as nat,
            wire::link_payload(ifindex, IFF_UP, IFF_UP, mtu as u32),
        ),
{
    encode_link(ifindex, IFF_UP, IFF_UP, mtu as u32, NLM_F_REQUEST + NLM_F_ACK, sequence)
}

/// A route that we added and are responsible for removing.
#[derive(Debug, Clone, Copy, PartialEq, Eq, Structural)]
pub struct RouteHandle {
    /// Address family of the destination.
    pub family: u8,
    /// The network's address.
    pub dest: IpAddr,
    /// The network's prefix length.
    pub prefix_len: u8,
    /// The interface that it leads out of.
    pub ifindex: u32,
}

/// The payload that names a route of ours: unicast and on-link (an interface, no
/// gateway), in the main table.
pub open spec fn route_request(handle: RouteHandle) -> Seq<u8> {
    wire::route_payload(
        RouteFields {
            family: handle.family,
            prefix_len: handle.prefix_len,
            table: RT_TABLE_MAIN,
            protocol: RTPROT_STATIC,
            scope: RT_SCOPE_LINK,
            kind: RTN_UNICAST,
        },
        handle.dest.octets_spec(),
        handle.ifindex,
    )
}

fn route_message(
    change: RouteChange,
    handle: &RouteHandle,
    flags: u16,
    sequence: u32,
) -> (octets: Vec<u8>)
    ensures
        octets@ == wire::message(
            change.message_type(),
            flags as nat,
            sequence as nat,
            route_request(*handle),
        ),
{
    let fields = RouteFields {
        family: handle.family,
        prefix_len: handle.prefix_len,
        table: RT_TABLE_MAIN,
        protocol: RTPROT_STATIC,
        scope: RT_SCOPE_LINK,
        kind: RTN_UNICAST,
    };
    encode_route(
        change,
        fields,
        address_octets(handle.dest),
        handle.ifindex,
        flags,
        sequence,
    )
}

/// The request that adds a route for `dest/prefix_len` out of `ifindex`, and the
/// handle by which to remove it.
pub fn add_route(sequence: u32, ifindex: u32, dest: IpAddr, prefix_len: u8) -> (r: (
    Vec<u8>,
    RouteHandle,
))
    ensures
        r.1 == (RouteHandle { family: family_of(dest), dest, prefix_len, ifindex }),
        r.0@ == wire::message(
            24,
            (NLM_F_REQUEST + NLM_F_ACK + NLM_F_CREATE + NLM_F_EXCL) as nat,
            sequence as nat,
            route_request(r.1),
        ),
{
    let handle = RouteHandle { family: family(dest), dest, prefix_len, ifindex };
    let octets = route_message(
        RouteChange::Add,
        &handle,
        NLM_F_REQUEST + NLM_F_ACK + NLM_F_CREATE + NLM_F_EXCL,
        sequence,
    );
    (octets, handle)
}

/// The request that removes a route. It names the route by the same payload as
/// the request that added it.
pub fn delete_route(sequence: u32, handle: &RouteHandle) -> (octets: Vec<u8>)
    ensures
        octets@ == wire::message(
            25,
            (NLM_F_REQUEST + NLM_F_ACK) as nat,
            sequence as nat,
            route_request(*handle),
        ),
{
    route_message(RouteChange::Delete, handle, NLM_F_REQUEST + NLM_F_ACK, sequence)
}

// ── Answers ─────────────────────────────────────────────────────────────────

/// What a message says about a request that asked for an acknowledgement.
#[derive(Debug, Clone, Copy, PartialEq, Eq, Structural)]
pub enum AckStep {
    /// Nothing: read on.
    Wait,
    /// It was carried out.
    Accepted,
    /// It failed, with this error number.
    Refused(i32),
    /// The message cannot be read.
    Malformed,
}

/// The error number of an answer's code. The kernel sends it negated.
pub open spec fn errno_of(code: i32) -> int {
    if code == i32::MIN {
        code as int
    } else {
        -code
    }
}

/// What a message says about request `sequence`: the acknowledgement is an error
/// without a code, and the end of a series is one too. Messages for other
/// requests, and messages that are neither, say nothing.
pub open spec fn ack_of(message: IncomingModel, sequence: u32) -> AckStep {
    match message {
        IncomingModel::Malformed => AckStep::Malformed,
        IncomingModel::Foreign => AckStep::Wait,
        IncomingModel::Reply(number, body) => if number != sequence {
            AckStep::Wait
        } else {
            match body {
                RouteBodyModel::Error(code) => if code == 0 {
                    AckStep::Accepted
                } else {
                    AckStep::Refused(errno_of(code) as i32)
                },
                RouteBodyModel::Done => AckStep::Accepted,
                RouteBodyModel::Route(_) => AckStep::Wait,
                RouteBodyModel::Other => AckStep::Wait,
            }
        },
    }
}

/// What a message says about request `sequence`.
pub fn ack_step(message: &Incoming, sequence: u32) -> (r: AckStep)
    ensures
        r == ack_of(message@, sequence),
{
    match message {
        Incoming::Malformed => AckStep::Malformed,
        Incoming::Foreign => AckStep::Wait,
        Incoming::Reply(reply) => if reply.sequence != sequence {
            AckStep::Wait
        } else {
            match reply.body {
                RouteBody::Error(code) => if code == 0 {
                    AckStep::Accepted
                } else if code == i32::MIN {
                    AckStep::Refused(code)
                } else {
                    AckStep::Refused(-code)
                },
                RouteBody::Done => AckStep::Accepted,
                RouteBody::Route(_) => AckStep::Wait,
                RouteBody::Other => AckStep::Wait,
            }
        },
    }
}

/// Whether `s` is an error message, or an acknowledgement, for request `sequence`.
pub open spec fn answers(s: Seq<u8>, sequence: u32) -> bool {
    &&& wire::framed(s)
    &&& wire::message_type(s) == wire::NLMSG_ERROR
    &&& wire::sequence_of(s) == sequence
    &&& wire::payload_of(s).len() >= 4
}

/// The code that an error message carries.
pub open spec fn code_of(s: Seq<u8>) -> int {
    wire::signed(wire::ne_value(wire::payload_of(s).subrange(0, 4)))
}

/// Reads a message while waiting for the acknowledgement of request `sequence`.
pub fn wait_for_ack(s: &[u8], sequence: u32) -> (r: AckStep)
    ensures
        r == ack_of(wire::incoming(s@), sequence),
        answers(s@, sequence) ==> r == if code_of(s@) == 0 {
            AckStep::Accepted
        } else {
            AckStep::Refused(errno_of(code_of(s@) as i32) as i32)
        },
        !wire::framed(s@) ==> r is Malformed,
        wire::framed(s@) && wire::sequence_of(s@) != sequence ==> r is Wait || r is Malformed,
{
    ack_step(&read_route(s), sequence)
}

/// An error message for request `sequence` answers it, with the code that it
/// carries: 0 in an acknowledgement.
pub proof fn law_error_messages_answer(sequence: u32, flags: nat, code: Seq<u8>, rest: Seq<u8>)
    requires
        code.len() == 4,
        20 + rest.len() < 0x1_0000_0000,
    ensures
        ({
            let s = wire::message(wire::NLMSG_ERROR as nat, flags, sequence as nat, code + rest);
            answers(s, sequence) && code_of(s) == wire::signed(wire::ne_value(code))
        }),
{
    wire::law_messages_read_back(wire::NLMSG_ERROR as nat, flags, sequence as nat, code + rest);
    assert((code + rest).subrange(0, 4) =~= code);
}

/// What deletes a route names it by the same octets as what added it.
pub proof fn law_deletion_names_what_was_added(handle: RouteHandle, first: u32, second: u32)
    ensures
        ({
            let added = wire::message(
                24,
                (NLM_F_REQUEST + NLM_F_ACK + NLM_F_CREATE + NLM_F_EXCL) as nat,
                first as nat,
                route_request(handle),
            );
            let deleted = wire::message(
                25,
                (NLM_F_REQUEST + NLM_F_ACK) as nat,
                second as nat,
                route_request(handle),
            );
            wire::payload_of(added) == wire::payload_of(deleted)
        }),
{
    let h = RouteFields {
        family: handle.family,
        prefix_len: handle.prefix_len,
        table: RT_TABLE_MAIN,
        protocol: RTPROT_STATIC,
        scope: RT_SCOPE_LINK,
        kind: RTN_UNICAST,
    };
    match handle.dest {
        IpAddr::V4(a) => bytes::lemma_be_bytes(a.bits as nat, 4),
        IpAddr::V6(a) => bytes::lemma_be_bytes(a.bits as nat, 16),
    }
    wire::lemma_route_payload_len(h, handle.dest.octets_spec(), handle.ifindex);
    wire::law_messages_read_back(
        24,
        (NLM_F_REQUEST + NLM_F_ACK + NLM_F_CREATE + NLM_F_EXCL) as nat,
        first as nat,
        route_request(handle),
    );
    wire::law_messages_read_back(
        25,
        (NLM_F_REQUEST + NLM_F_ACK) as nat,
        second as nat,
        route_request(handle),
    );
}

/// What became of a request to add something. That it exists is no failure.
pub fn idempotent_already_exists(outcome: AckStep) -> (r: AckStep)
    ensures
        r == if outcome == AckStep::Refused(EEXIST) {
            AckStep::Accepted
        } else {
            outcome
        },
        r is Accepted <==> outcome is Accepted || outcome == AckStep::Refused(17),
{
    match outcome {
        AckStep::Refused(errno) => if errno == EEXIST {
            AckStep::Accepted
        } else {
            outcome
        },
        _ => outcome,
    }
}

/// What became of a request to delete a route. That it is gone, because the
/// interface went first or a network manager swept it up, is the desired end
/// state and no failure.
pub fn idempotent_already_gone(outcome: AckStep) -> (r: AckStep)
    ensures
        r == if outcome == AckStep::Refused(ESRCH) || outcome == AckStep::Refused(ENOENT)
            || outcome == AckStep::Refused(ENOTCONN) {
            AckStep::Accepted
        } else {
            outcome
        },
        r is Accepted <==> outcome is Accepted || outcome == AckStep::Refused(3) || outcome
            == AckStep::Refused(2) || outcome == AckStep::Refused(107),
{
    match outcome {
        AckStep::Refused(errno) => if errno == ESRCH || errno == ENOENT || errno == ENOTCONN {
            AckStep::Accepted
        } else {
            outcome
        },
        _ => outcome,
    }
}

/// What a message says about a lookup.
#[derive(Debug, Clone, Copy, PartialEq, Eq, Structural)]
pub enum LookupStep {
    /// Nothing: read on.
    Wait,
    /// The route leads out of this interface.
    Found(u32),
    /// There is no route.
    NoRoute,
}

/// The first interface that a route's attributes name.
pub open spec fn first_interface(attributes: Seq<Option<u32>>) -> Option<u32>
    decreases attributes.len(),
{
    if attributes.len() == 0 {
        None
    } else if attributes[0] is Some {
        attributes[0]
    } else {
        first_interface(attributes.skip(1))
    }
}

fn first_interface_in(attributes: &Vec<Option<u32>>) -> (r: Option<u32>)
    ensures
        r == first_interface(attributes@),
{
    let mut i: usize = 0;
    assert(attributes@.skip(0) =~= attributes@);
    while i < attributes.len()
        invariant
            i <= attributes@.len(),
            first_interface(attributes@) == first_interface(attributes@.skip(i as int)),
        decreases attributes@.len() - i,
    {
        assert(attributes@.skip(i as int)[0] == attributes@[i as int]);
        if attributes[i].is_some() {
            return attributes[i];
        }
        assert(attributes@.skip(i as int).skip(1) =~= attributes@.skip(i + 1));
        i += 1;
    }
    assert(attributes@.skip(i as int) =~= Seq::empty());
    None
}

/// What a message says about lookup `sequence`. A route without an interface says
/// nothing yet; an error, the end of a series and a message that cannot be read
/// say that there is no route.
pub open spec fn lookup_of(message: IncomingModel, sequence: u32) -> LookupStep {
    match message {
        IncomingModel::Malformed => LookupStep::NoRoute,
        IncomingModel::Foreign => LookupStep::Wait,
        IncomingModel::Reply(number, body) => if number != sequence {
            LookupStep::Wait
        } else {
            match body {
                RouteBodyModel::Route(attributes) => match first_interface(attributes) {
                    Some(ifindex) => LookupStep::Found(ifindex),
                    None => LookupStep::Wait,
                },
                RouteBodyModel::Error(_) => LookupStep::NoRoute,
                RouteBodyModel::Done => LookupStep::NoRoute,
                RouteBodyModel::Other => LookupStep::Wait,
            }
        },
    }
}

/// What a message says about lookup `sequence`.
pub fn lookup_step(message: &Incoming, sequence: u32) -> (r: LookupStep)
    ensures
        r == lookup_of(message@, sequence),
{
    match message {
        Incoming::Malformed => LookupStep::NoRoute,
        Incoming::Foreign => LookupStep::Wait,
        Incoming::Reply(reply) => if reply.sequence != sequence {
            LookupStep::Wait
        } else {
            match &reply.body {
                RouteBody::Route(attributes) => match first_interface_in(attributes) {
                    Some(ifindex) => LookupStep::Found(ifindex),
                    None => LookupStep::Wait,
                },
                RouteBody::Error(_) => LookupStep::NoRoute,
                RouteBody::Done => LookupStep::NoRoute,
                RouteBody::Other => LookupStep::Wait,
            }
        },
    }
}

/// Whether `s` is a message on a route that is there, or is asked for.
pub open spec fn is_route_message(s: Seq<u8>) -> bool {
    wire::framed(s) && (wire::message_type(s) == 24 || wire::message_type(s) == 26)
}

/// The attributes of the route in `s`, if it has a header and they fit.
pub open spec fn route_attributes(s: Seq<u8>) -> Option<Seq<(nat, Seq<u8>)>> {
    let payload = wire::payload_of(s);
    if payload.len() < 12 {
        None
    } else {
        wire::attributes_in(payload.skip(12))
    }
}

/// The interface that the route in `s` leads out of: the first that it names.
pub open spec fn route_interface(s: Seq<u8>) -> Option<u32> {
    match route_attributes(s) {
        Some(attributes) => first_interface(wire::interfaces(attributes)),
        None => None,
    }
}

/// Whether `s` is a message on a route with nothing but plain attributes.
pub open spec fn is_plain_route(s: Seq<u8>) -> bool {
    &&& is_route_message(s)
    &&& route_attributes(s) is Some
    &&& wire::are_plain(route_attributes(s)->0, wire::payload_of(s)[0])
}

/// Reads a message while waiting for the answer to lookup `sequence`: the
/// interface that would carry traffic to its destination. An interface is found in
/// no message but a route that names it and answers the lookup.
pub fn best_route_index(s: &[u8], sequence: u32) -> (r: LookupStep)
    ensures
        r == lookup_of(wire::incoming(s@), sequence),
        !wire::framed(s@) ==> r is NoRoute,
        r matches LookupStep::Found(ifindex) ==> is_route_message(s@) && wire::sequence_of(s@)
            == sequence && route_interface(s@) == Some(ifindex),
        is_plain_route(s@) && wire::sequence_of(s@) == sequence ==> r == match route_interface(s@) {
            Some(ifindex) => LookupStep::Found(ifindex),
            None => LookupStep::Wait,
        },
{
    let message = read_route(s);
    proof {
        if is_plain_route(s@) {
            wire::lemma_plain_attributes_are_sound(
                wire::payload_of(s@).skip(12),
                wire::payload_of(s@)[0],
            );
        }
    }
    lookup_step(&message, sequence)
}

/// A message with the payload that is written for a route out of an interface is
/// read as a route out of that interface.
pub proof fn law_written_route_names_its_interface(
    s: Seq<u8>,
    h: wire::RouteFields,
    dest: Seq<u8>,
    oif: u32,
)
    requires
        is_route_message(s),
        wire::payload_of(s) == wire::route_payload(h, dest, oif),
        (h.family == 2 && dest.len() == 4) || (h.family == 10 && dest.len() == 16),
    ensures
        is_plain_route(s),
        route_interface(s) == Some(oif),
{
    wire::lemma_route_payload_len(h, dest, oif);
    wire::lemma_route_payload_attributes(h, dest, oif);
    lemma_destination_and_interface(
        s,
        seq![(1nat, dest), (wire::RTA_OIF as nat, wire::ne_bytes(oif as nat, 4))],
        oif,
    );
}

proof fn lemma_destination_and_interface(s: Seq<u8>, list: Seq<(nat, Seq<u8>)>, oif: u32)
    requires
        is_route_message(s),
        route_attributes(s) == Some(list),
        list.len() == 2,
        list[0].0 == 1,
        (wire::payload_of(s)[0] == 2 && list[0].1.len() == 4) || (wire::payload_of(s)[0] == 10
            && list[0].1.len() == 16),
        list[1].0 == wire::RTA_OIF,
        list[1].1.len() == 4,
        wire::ne_value(list[1].1) == oif,
    ensures
        is_plain_route(s),
        route_interface(s) == Some(oif),
{
    let found = wire::interfaces(list);
    assert(found[0] is None && found[1] == Some(oif));
    assert(found.skip(1)[0] == found[1]);
    assert(first_interface(found.skip(1)) == Some(oif));
}

/// A request for a route of ours names it: its family is that of its destination
/// (2 for IPv4, 10 for IPv6), and it is a unicast route in the main table, set by
/// hand, on the link of its interface.
pub proof fn law_route_request_names_the_route(dest: IpAddr, prefix_len: u8, ifindex: u32)
    ensures
        ({
            let p = route_request(RouteHandle { family: family_of(dest), dest, prefix_len, ifindex });
            let octets = dest.octets_spec();
            &&& p[0] == if dest is V4 {
                2u8
            } else {
                10u8
            }
            &&& p[1] == prefix_len
            &&& p[4] == 254 && p[5] == 4 && p[6] == 253 && p[7] == 1
            &&& p.subrange(16, 16 + octets.len() as int) == octets
            &&& wire::ne_value(p.skip(20 + octets.len() as int)) == ifindex
        }),
{
    let h = RouteFields {
        family: family_of(dest),
        prefix_len,
        table: RT_TABLE_MAIN,
        protocol: RTPROT_STATIC,
        scope: RT_SCOPE_LINK,
        kind: RTN_UNICAST,
    };
    wire::law_route_payload_names_the_route(h, dest.octets_spec(), ifindex);
}

/// An answer to a request: no code means that it was carried out, any other code
/// is the negated error number; an answer to another request says nothing.
pub proof fn law_answer_carries_the_error_number(number: u32, sequence: u32, code: i32)
    ensures
        number != sequence ==> ack_of(
            IncomingModel::Reply(number, RouteBodyModel::Error(code)),
            sequence,
        ) is Wait,
        number == sequence && code == 0 ==> ack_of(
            IncomingModel::Reply(number, RouteBodyModel::Error(code)),
            sequence,
        ) is Accepted,
        number == sequence && code != 0 && code != i32::MIN ==> (ack_of(
            IncomingModel::Reply(number, RouteBodyModel::Error(code)),
            sequence,
        ) matches AckStep::Refused(errno) && errno + code == 0),
        number == sequence ==> !(ack_of(
            IncomingModel::Reply(number, RouteBodyModel::Error(i32::MIN)),
            sequence,
        ) is Accepted),
        number == sequence ==> ack_of(
            IncomingModel::Reply(number, RouteBodyModel::Done),
            sequence,
        ) is Accepted,
{
}

/// A lookup finds the first interface that the route in its answer names, and
/// none in the answer to another lookup.
pub proof fn law_lookup_finds_the_first_interface(
    number: u32,
    sequence: u32,
    attributes: Seq<Option<u32>>,
    i: int,
)
    requires
        0 <= i < attributes.len(),
        attributes[i] is Some,
        forall|j: int| 0 <= j < i ==> (#[trigger] attributes[j]) is None,
    ensures
        number == sequence ==> lookup_of(
            IncomingModel::Reply(number, RouteBodyModel::Route(attributes)),
            sequence,
        ) == LookupStep::Found(attributes[i]->Some_0),
        number != sequence ==> lookup_of(
            IncomingModel::Reply(number, RouteBodyModel::Route(attributes)),
            sequence,
        ) is Wait,
{
    lemma_first_interface_at(attributes, i);
}

proof fn lemma_first_interface_at(attributes: Seq<Option<u32>>, i: int)
    requires
        0 <= i < attributes.len(),
        attributes[i] is Some,
        forall|j: int| 0 <= j < i ==> (#[trigger] attributes[j]) is None,
    ensures
        first_interface(attributes) == attributes[i],
    decreases i,
{
    if i > 0 {
        assert(attributes[0] is None);
        let rest = attributes.skip(1);
        assert forall|j: int| 0 <= j < i - 1 implies (#[trigger] rest[j]) is None by {
            assert(rest[j] == attributes[j + 1]);
        }
        lemma_first_interface_at(rest, i - 1);
    }
}

/// IPv6 addresses get no duplicate address detection, and IPv4 addresses no flag.
pub proof fn law_address_flags(addr: IpAddr)
    ensures
        addr is V6 ==> address_flags(addr) == 2 && family_of(addr) == 10,
        addr is V4 ==> address_flags(addr) == 0 && family_of(addr) == 2,
{
}

} // verus!
