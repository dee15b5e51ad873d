//! The netlink messages that are sent and received, as octets.
//!
//! A message is a header of sixteen octets and a payload. The payload is a
//! header of its own, followed by attributes: a length, a kind and a value each.
//! Numbers are written in the byte order of the machine, except where the
//! network's is named.

use netlink_packet_core::{NetlinkMessage, NetlinkPayload};
use netlink_packet_route::address::{AddressAttribute, AddressHeader, AddressMessage};
use netlink_packet_route::link::{LinkAttribute, LinkMessage};
use netlink_packet_route::route::{
    RouteAddress, RouteAttribute, RouteFlag, RouteHeader, RouteMessage,
};
use netlink_packet_route::RouteNetlinkMessage;
use netlink_packet_sock_diag::inet::{ExtensionFlags, InetRequest, SocketId, StateFlags};
use netlink_packet_sock_diag::SockDiagMessage;
use vstd::prelude::*;
use vstd::slice::slice_subrange;

use crate::addr::IpAddr;
use crate::bytes;

verus! {

// ── The byte order of the machine ───────────────────────────────────────────

/// Whether the machine writes the least significant octet of a number first.
pub open spec fn little_endian() -> bool {
    vstd::endian::endianness() is Little
}

/// The number that `s` writes in the byte order of the machine.
pub open spec fn ne_value(s: Seq<u8>) -> nat {
    if little_endian() {
        bytes::le_value(s)
    } else {
        bytes::be_value(s)
    }
}

/// The last `n` base 256 digits of `x`, in the byte order of the machine.
pub open spec fn ne_bytes(x: nat, n: nat) -> Seq<u8> {
    if little_endian() {
        bytes::le_bytes(x, n)
    } else {
        bytes::be_bytes(x, n)
    }
}

/// `u16::from_ne_bytes`: the number that two octets write in the byte order of
/// the machine.
#[verifier::external_body]
fn u16_of(octets: [u8; 2]) -> (x: u16)
    ensures
        x == ne_value(octets@),
{
    u16::from_ne_bytes(octets)
}

/// `u32::from_ne_bytes`: the number that four octets write in the byte order of
/// the machine.
#[verifier::external_body]
fn u32_of(octets: [u8; 4]) -> (x: u32)
    ensures
        x == ne_value(octets@),
{
    u32::from_ne_bytes(octets)
}

fn u16_at(s: &[u8], pos: usize) -> (x: u16)
    requires
        pos + 2 <= s@.len(),
    ensures
        x == ne_value(s@.subrange(pos as int, pos + 2)),
{
    let octets = [s[pos], s[pos + 1]];
    assert(octets@ =~= s@.subrange(pos as int, pos + 2));
    u16_of(octets)
}

fn u32_at(s: &[u8], pos: usize) -> (x: u32)
    requires
        pos + 4 <= s@.len(),
    ensures
        x == ne_value(s@.subrange(pos as int, pos + 4)),
{
    let octets = [s[pos], s[pos + 1], s[pos + 2], s[pos + 3]];
    assert(octets@ =~= s@.subrange(pos as int, pos + 4));
    u32_of(octets)
}

// ── Framing ─────────────────────────────────────────────────────────────────

/// Nothing to do.
pub const NLMSG_NOOP: u16 = 1;

/// An error, or an acknowledgement: an error whose code is 0.
pub const NLMSG_ERROR: u16 = 2;

/// The end of a series of messages.
pub const NLMSG_DONE: u16 = 3;

/// Data was lost.
pub const NLMSG_OVERRUN: u16 = 4;

/// An attribute whose value is a whole number of four octets long.
pub open spec fn attribute(kind: nat, value: Seq<u8>) -> Seq<u8> {
    ne_bytes(4 + value.len(), 2) + ne_bytes(kind, 2) + value
}

/// A message.
pub open spec fn message(kind: nat, flags: nat, sequence: nat, payload: Seq<u8>) -> Seq<u8> {
    ne_bytes(16 + payload.len(), 4) + ne_bytes(kind, 2) + ne_bytes(flags, 2) + ne_bytes(
        sequence,
        4,
    ) + ne_bytes(0, 4) + payload
}

/// Whether `s` starts with a header whose length stays within `s`.
pub open spec fn framed(s: Seq<u8>) -> bool {
    s.len() >= 16 && 16 <= ne_value(s.subrange(0, 4)) <= s.len()
}

/// The message type in the header.
pub open spec fn message_type(s: Seq<u8>) -> nat {
    ne_value(s.subrange(4, 6))
}

/// The sequence number in the header.
pub open spec fn sequence_of(s: Seq<u8>) -> nat {
    ne_value(s.subrange(8, 12))
}

/// What follows the header.
pub open spec fn payload_of(s: Seq<u8>) -> Seq<u8> {
    s.subrange(16, ne_value(s.subrange(0, 4)) as int)
}

/// The value of a 32-bit two's complement number.
pub open spec fn signed(x: nat) -> int {
    if x < 0x8000_0000 {
        x as int
    } else {
        x - 0x1_0000_0000
    }
}

/// `ne_bytes` yields `n` octets, and reading them back gives the number where it
/// fits.
proof fn lemma_ne_bytes(x: nat, n: nat)
    ensures
        ne_bytes(x, n).len() == n,
        x < bytes::be_limit(n) ==> ne_value(ne_bytes(x, n)) == x,
{
    bytes::lemma_be_bytes(x, n);
    if x < bytes::be_limit(n) {
        bytes::lemma_be_bytes_value(x, n);
    }
    assert(bytes::be_bytes(x, n).reverse().reverse() =~= bytes::be_bytes(x, n));
}

/// Reading a message gives its type, its sequence number and its payload back.
pub proof fn law_messages_read_back(kind: nat, flags: nat, sequence: nat, payload: Seq<u8>)
    requires
        kind < 0x1_0000,
        sequence < 0x1_0000_0000,
        16 + payload.len() < 0x1_0000_0000,
    ensures
        framed(message(kind, flags, sequence, payload)),
        message_type(message(kind, flags, sequence, payload)) == kind,
        sequence_of(message(kind, flags, sequence, payload)) == sequence,
        payload_of(message(kind, flags, sequence, payload)) == payload,
{
    let s = message(kind, flags, sequence, payload);
    reveal_with_fuel(bytes::be_limit, 5);
    lemma_ne_bytes(16 + payload.len(), 4);
    lemma_ne_bytes(kind, 2);
    lemma_ne_bytes(flags, 2);
    lemma_ne_bytes(sequence, 4);
    lemma_ne_bytes(0, 4);
    assert(s.subrange(0, 4) =~= ne_bytes(16 + payload.len(), 4));
    assert(s.subrange(4, 6) =~= ne_bytes(kind, 2));
    assert(s.subrange(8, 12) =~= ne_bytes(sequence, 4));
    assert(payload_of(s) =~= payload);
}

// ── Route messages: encoding ────────────────────────────────────────────────

/// What a route request asks for.
#[derive(Debug, Clone, Copy, PartialEq, Eq, Structural)]
pub enum RouteChange {
    /// Add the route.
    Add,
    /// Delete the route.
    Delete,
}

impl RouteChange {
    /// The message type.
    pub open spec fn message_type(self) -> nat {
        match self {
            RouteChange::Add => 24,
            RouteChange::Delete => 25,
        }
    }
}

/// The header of a route message.
#[derive(Debug, Clone, Copy, PartialEq, Eq, Structural)]
pub struct RouteFields {
    /// Address family.
    pub family: u8,
    /// Prefix length of the destination.
    pub prefix_len: u8,
    /// Routing table.
    pub table: u8,
    /// Who installed the route.
    pub protocol: u8,
    /// How far away the destination is.
    pub scope: u8,
    /// What the route does with a packet.
    pub kind: u8,
}

/// The header of a route message as octets: the source prefix length and the type
/// of service are 0.
pub open spec fn route_header(h: RouteFields, flags: u32) -> Seq<u8> {
    seq![h.family, h.prefix_len, 0u8, 0u8, h.table, h.protocol, h.scope, h.kind] + ne_bytes(
        flags as nat,
        4,
    )
}

/// The payload of a message on a route out of an interface.
pub open spec fn route_payload(h: RouteFields, dest: Seq<u8>, oif: u32) -> Seq<u8> {
    route_header(h, 0) + attribute(1, dest) + attribute(4, ne_bytes(oif as nat, 4))
}

/// How long the payload of a message on a route is.
pub proof fn lemma_route_payload_len(h: RouteFields, dest: Seq<u8>, oif: u32)
    ensures
        route_payload(h, dest, oif).len() == 24 + dest.len(),
{
    lemma_ne_bytes(0, 4);
    lemma_ne_bytes(4 + dest.len(), 2);
    lemma_ne_bytes(1, 2);
    lemma_ne_bytes(oif as nat, 4);
    lemma_ne_bytes(8, 2);
    lemma_ne_bytes(4, 2);
}

/// `NetlinkMessage::serialize` of a finalized `RTM_NEWROUTE` or `RTM_DELROUTE`
/// message: the octets are the message with this header, whose attributes are
/// `RTA_DST` with these octets and `RTA_OIF`.
#[verifier::external_body]
pub(crate) fn encode_route(
    change: RouteChange,
    h: RouteFields,
    dest: Vec<u8>,
    oif: u32,
    flags: u16,
    sequence: u32,
) -> (octets: Vec<u8>)
    requires
        dest@.len() == 4 || dest@.len() == 16,
    ensures
        octets@ == message(
            change.message_type(),
            flags as nat,
            sequence as nat,
            route_payload(h, dest@, oif),
        ),
{
    let mut route = RouteMessage::default();
    route.header = RouteHeader { address_family: h.family.into(), table: h.table,
        destination_prefix_length: h.prefix_len, protocol: h.protocol.into(),
        scope: h.scope.into(), kind: h.kind.into(), ..Default::default() };
    let destination = RouteAttribute::Destination(RouteAddress::Other(dest));
    route.attributes = vec![destination, RouteAttribute::Oif(oif)];
    let mut message = NetlinkMessage::from(match change {
        RouteChange::Add => RouteNetlinkMessage::NewRoute(route),
        RouteChange::Delete => RouteNetlinkMessage::DelRoute(route),
    });
    (message.header.flags, message.header.sequence_number) = (flags, sequence);
    message.finalize();
    let mut octets = vec![0; message.buffer_len()];
    message.serialize(&mut octets);
    octets
}

/// The payload of a lookup: nothing but the family, the flags and the
/// destination.
pub open spec fn lookup_payload(family: u8, flags: u32, dest: Seq<u8>) -> Seq<u8> {
    let h = RouteFields { family, prefix_len: 0, table: 0, protocol: 0, scope: 0, kind: 0 };
    route_header(h, flags) + attribute(1, dest)
}

/// `NetlinkMessage::serialize` of a finalized `RTM_GETROUTE` message: the octets
/// are the message with this family and these flags, whose attribute is `RTA_DST`
/// with these octets.
#[verifier::external_body]
pub(crate) fn encode_lookup(
    family: u8,
    route_flags: u32,
    dest: Vec<u8>,
    flags: u16,
    sequence: u32,
) -> (octets: Vec<u8>)
    requires
        dest@.len() == 4 || dest@.len() == 16,
    ensures
        octets@ == message(
            26,
            flags as nat,
            sequence as nat,
            lookup_payload(family, route_flags, dest@),
        ),
{
    let mut route = RouteMessage::default();
    route.header.address_family = family.into();
    route.header.flags = vec![RouteFlag::Other(route_flags)];
    route.attributes = vec![RouteAttribute::Destination(RouteAddress::Other(dest))];
    let mut message = NetlinkMessage::from(RouteNetlinkMessage::GetRoute(route));
    message.header.flags = flags;
    message.header.sequence_number = sequence;
    message.finalize();
    let mut octets = vec![0; message.buffer_len()];
    message.serialize(&mut octets);
    octets
}

// ── Address and link messages: encoding ─────────────────────────────────────

/// The payload of an address message. The scope is 0: the address is valid
/// everywhere. The attributes are the address and, where there is one, the local
/// address.
pub open spec fn address_payload(
    family: u8,
    prefix_len: u8,
    address_flags: u8,
    index: u32,
    addr: IpAddr,
    local: Option<IpAddr>,
) -> Seq<u8> {
    seq![family, prefix_len, address_flags, 0u8] + ne_bytes(index as nat, 4) + attribute(
        1,
        addr.octets_spec(),
    ) + match local {
        Some(ip) => attribute(2, ip.octets_spec()),
        None => Seq::empty(),
    }
}

/// `NetlinkMessage::serialize` of a finalized `RTM_NEWADDR` message: the octets
/// are the message with this header, whose attributes are `IFA_ADDRESS` and, where
/// there is a local address, `IFA_LOCAL`.
#[verifier::external_body]
pub(crate) fn encode_address(
    family: u8,
    prefix_len: u8,
    address_flags: u8,
    index: u32,
    addr: IpAddr,
    local: Option<IpAddr>,
    flags: u16,
    sequence: u32,
) -> (octets: Vec<u8>)
    ensures
        octets@ == message(
            20,
            flags as nat,
            sequence as nat,
            address_payload(family, prefix_len, address_flags, index, addr, local),
        ),
{
    let mut new = AddressMessage::default();
    new.header = AddressHeader { family: family.into(), prefix_len, index,
        flags: vec![address_flags.into()], ..Default::default() };
    let ip = |a| match a {
        IpAddr::V4(a) => a.bits.to_be_bytes().into(),
        IpAddr::V6(a) => a.bits.to_be_bytes().into() };
    new.attributes.push(AddressAttribute::Address(ip(addr)));
    new.attributes.extend(local.map(ip).map(AddressAttribute::Local));
    let mut message = NetlinkMessage::from(RouteNetlinkMessage::NewAddress(new));
    message.header.flags = flags;
    message.header.sequence_number = sequence;
    message.finalize();
    let mut octets = vec![0; message.buffer_len()];
    message.serialize(&mut octets);
    octets
}

/// The payload of a link message: the family and the link layer type are 0; the
/// attribute is the MTU.
pub open spec fn link_payload(index: u32, flags: u32, change: u32, mtu: u32) -> Seq<u8> {
    seq![0u8, 0u8] + ne_bytes(0, 2) + ne_bytes(index as nat, 4) + ne_bytes(flags as nat, 4)
        + ne_bytes(change as nat, 4) + attribute(4, ne_bytes(mtu as nat, 4))
}

/// `NetlinkMessage::serialize` of a finalized `RTM_NEWLINK` message: the octets
/// are the message for this interface, whose attribute is `IFLA_MTU`.
#[verifier::external_body]
pub(crate) fn encode_link(
    index: u32,
    up: u32,
    change: u32,
    mtu: u32,
    flags: u16,
    sequence: u32,
) -> (octets: Vec<u8>)
    ensures
        octets@ == message(
            16,
            flags as nat,
            sequence as nat,
            link_payload(index, up, change, mtu),
        ),
{
    let mut link = LinkMessage::default();
    link.header.index = index;
    link.header.flags = vec![up.into()];
    link.header.change_mask = vec![change.into()];
    link.attributes.push(LinkAttribute::Mtu(mtu));
    let mut message = NetlinkMessage::from(RouteNetlinkMessage::NewLink(link));
    message.header.flags = flags;
    message.header.sequence_number = sequence;
    message.finalize();
    let mut octets = vec![0; message.buffer_len()];
    message.serialize(&mut octets);
    octets
}

// ── Socket queries: encoding ────────────────────────────────────────────────

/// The socket that a query asks about.
#[derive(Debug, Clone, Copy, PartialEq, Eq, Structural)]
pub struct SocketName {
    /// The port in the query's source field.
    pub source_port: u16,
    /// The port in the query's destination field.
    pub destination_port: u16,
    /// The address in the query's source field.
    pub source_address: IpAddr,
    /// The address in the query's destination field.
    pub destination_address: IpAddr,
}

/// An address in a field of sixteen octets: an IPv4 address fills the first four.
pub open spec fn wide_octets(ip: IpAddr) -> Seq<u8> {
    ip.octets_spec() + match ip {
        IpAddr::V4(_) => seq![0u8, 0u8, 0u8, 0u8, 0u8, 0u8, 0u8, 0u8, 0u8, 0u8, 0u8, 0u8],
        IpAddr::V6(_) => Seq::empty(),
    }
}

/// The payload of a socket query: no extensions. Ports are in the order of the
/// network.
pub open spec fn diag_payload(
    family: u8,
    protocol: u8,
    states: u32,
    name: SocketName,
    interface: u32,
    cookie: Seq<u8>,
) -> Seq<u8> {
    seq![family, protocol, 0u8, 0u8] + ne_bytes(states as nat, 4) + bytes::be_bytes(
        name.source_port as nat,
        2,
    ) + bytes::be_bytes(name.destination_port as nat, 2) + wide_octets(name.source_address)
        + wide_octets(name.destination_address) + ne_bytes(interface as nat, 4) + cookie
}

/// `NetlinkMessage::serialize` of a finalized `InetRequest` without extensions:
/// the octets are the query for this socket. The states are the bits of TCP
/// states, 1 to 11; others have no name in the crate.
#[verifier::external_body]
pub(crate) fn encode_diag(
    family: u8,
    protocol: u8,
    states: u32,
    name: SocketName,
    interface: u32,
    cookie: [u8; 8],
    flags: u16,
    sequence: u32,
) -> (octets: Vec<u8>)
    requires
        states < 0x1000,
        states % 2 == 0,
    ensures
        octets@ == message(
            20,
            flags as nat,
            sequence as nat,
            diag_payload(family, protocol, states, name, interface, cookie@),
        ),
{
    let ip = |a: IpAddr| match a {
        IpAddr::V4(a) => a.bits.to_be_bytes().into(),
        IpAddr::V6(a) => a.bits.to_be_bytes().into() };
    let socket_id = SocketId { source_port: name.source_port,
        destination_port: name.destination_port, source_address: ip(name.source_address),
        destination_address: ip(name.destination_address), interface_id: interface, cookie };
    let request = InetRequest { family, protocol, extensions: ExtensionFlags::empty(),
        states: StateFlags::from_bits_truncate(states), socket_id };
    let mut message = NetlinkMessage::from(SockDiagMessage::InetRequest(request));
    message.header.flags = flags;
    message.header.sequence_number = sequence;
    message.finalize();
    let mut octets = vec![0; message.buffer_len()];
    message.serialize(&mut octets);
    octets
}

// ── Route messages: decoding ────────────────────────────────────────────────

/// The attribute of a route that names the interface it leads out of.
pub const RTA_OIF: u16 = 4;

/// Whether `kind` is the type of a route message.
pub open spec fn is_route(kind: nat) -> bool {
    24 <= kind <= 26
}

/// How long the header is in an rtnetlink message on anything else: links,
/// addresses, neighbours, rules, traffic control, prefixes, neighbour tables or
/// namespaces.
pub open spec fn foreign_header(kind: nat) -> Option<nat> {
    if 16 <= kind <= 19 {
        Some(16)
    } else if 20 <= kind <= 22 {
        Some(8)
    } else if 28 <= kind <= 30 || 32 <= kind <= 34 || kind == 52 {
        Some(12)
    } else if 36 <= kind <= 38 || 40 <= kind <= 42 || 44 <= kind <= 46 || 100 <= kind <= 102 {
        Some(20)
    } else if kind == 64 || kind == 66 || kind == 67 || 88 <= kind <= 90 {
        Some(4)
    } else {
        None
    }
}

fn foreign_header_len(kind: u16) -> (r: Option<usize>)
    ensures
        r is Some == foreign_header(kind as nat) is Some,
        r is Some ==> r->0 == foreign_header(kind as nat)->0,
{
    if 16 <= kind && kind <= 19 {
        Some(16)
    } else if 20 <= kind && kind <= 22 {
        Some(8)
    } else if (28 <= kind && kind <= 30) || (32 <= kind && kind <= 34) || kind == 52 {
        Some(12)
    } else if (36 <= kind && kind <= 38) || (40 <= kind && kind <= 42) || (44 <= kind && kind <= 46)
        || (100 <= kind && kind <= 102) {
        Some(20)
    } else if kind == 64 || kind == 66 || kind == 67 || (88 <= kind && kind <= 90) {
        Some(4)
    } else {
        None
    }
}

/// Whether `kind` is the type of an rtnetlink message on anything but routes.
pub open spec fn is_foreign(kind: nat) -> bool {
    foreign_header(kind) is Some
}

/// The attributes in `s`, each as its kind and its value; `None` where the length
/// of one of them does not fit.
pub open spec fn attributes_in(s: Seq<u8>) -> Option<Seq<(nat, Seq<u8>)>>
    decreases s.len(),
{
    if s.len() == 0 {
        Some(Seq::empty())
    } else if s.len() < 4 {
        None
    } else {
        let len = ne_value(s.subrange(0, 2)) as int;
        if len < 4 || len > s.len() {
            None
        } else {
            let first = (ne_value(s.subrange(2, 4)) % 0x4000, s.subrange(4, len));
            let next = (len + 3) / 4 * 4;
            if next >= s.len() {
                Some(seq![first])
            } else {
                match attributes_in(s.skip(next)) {
                    Some(rest) => Some(seq![first] + rest),
                    None => None,
                }
            }
        }
    }
}

/// Whether the attributes in `s` fit.
fn attributes_fit(s: &[u8]) -> (r: bool)
    ensures
        r == attributes_in(s@) is Some,
    decreases s@.len(),
{
    if s.len() == 0 {
        return true;
    }
    if s.len() < 4 {
        return false;
    }
    let len = u16_at(s, 0) as usize;
    if len < 4 || len > s.len() {
        return false;
    }
    let next: usize = (len + 3) / 4 * 4;
    if next < s.len() {
        let rest = slice_subrange(s, next, s.len());
        assert(rest@ =~= s@.skip(next as int));
        attributes_fit(rest)
    } else {
        true
    }
}

/// Whether the header and the attributes of a message on something other than
/// routes fit. A request for links or addresses may be cut short to four octets.
pub open spec fn foreign_fits(kind: nat, payload: Seq<u8>) -> bool {
    let n = foreign_header(kind)->0 as int;
    if payload.len() < n {
        payload.len() == 4 && (kind == 18 || kind == 22)
    } else {
        attributes_in(payload.skip(n)) is Some
    }
}

/// Whether no attribute in `s` is shorter than what it must hold: a realm of at
/// least four octets, and next hops that are sound. Reading stops at the first
/// attribute whose length does not fit.
pub open spec fn sound_attributes(s: Seq<u8>) -> bool
    decreases s.len(),
{
    if s.len() < 4 {
        true
    } else {
        let len = ne_value(s.subrange(0, 2)) as int;
        if len < 4 || len > s.len() {
            true
        } else {
            let kind = ne_value(s.subrange(2, 4)) % 0x4000;
            let value = s.subrange(4, len);
            let next = (len + 3) / 4 * 4;
            &&& kind == 11 ==> value.len() >= 4
            &&& kind == 9 ==> sound_hops(value)
            &&& next < s.len() ==> sound_attributes(s.skip(next))
        }
    }
}

/// Whether the next hops in `s` are sound: each is as long as its own header, at
/// least, and its attributes are sound. Reading stops at the first hop that does
/// not fit, whose length must leave room for a header.
pub open spec fn sound_hops(s: Seq<u8>) -> bool
    decreases s.len(),
{
    if s.len() < 8 {
        true
    } else {
        let len = ne_value(s.subrange(0, 2)) as int;
        if s.len() < len {
            len + 8 <= 0xffff
        } else {
            &&& len >= 8
            &&& sound_attributes(s.subrange(8, len))
            &&& len < s.len() ==> sound_hops(s.skip(len))
        }
    }
}

/// Whether a message can be handed to the decoder.
pub open spec fn decodable(s: Seq<u8>) -> bool {
    framed(s) ==> {
        &&& !is_foreign(message_type(s))
        &&& is_route(message_type(s)) && payload_of(s).len() >= 12 ==> sound_attributes(
            payload_of(s).skip(12),
        )
    }
}

/// Whether no attribute in `s` is shorter than what it must hold.
fn check_attributes(s: &[u8]) -> (r: bool)
    ensures
        r == sound_attributes(s@),
    decreases s@.len(),
{
    if s.len() < 4 {
        return true;
    }
    let len = u16_at(s, 0) as usize;
    if len < 4 || len > s.len() {
        return true;
    }
    let kind: u16 = u16_at(s, 2) % 0x4000;
    let value = slice_subrange(s, 4, len);
    let next: usize = (len + 3) / 4 * 4;
    if kind == 11 && value.len() < 4 {
        return false;
    }
    if kind == 9 && !check_hops(value) {
        return false;
    }
    if next < s.len() {
        let rest = slice_subrange(s, next, s.len());
        assert(rest@ =~= s@.skip(next as int));
        check_attributes(rest)
    } else {
        true
    }
}

/// Whether the next hops in `s` are sound.
fn check_hops(s: &[u8]) -> (r: bool)
    ensures
        r == sound_hops(s@),
    decreases s@.len(),
{
    if s.len() < 8 {
        return true;
    }
    let len = u16_at(s, 0) as usize;
    if s.len() < len {
        return len + 8 <= 0xffff;
    }
    if len < 8 || !check_attributes(slice_subrange(s, 8, len)) {
        return false;
    }
    if len < s.len() {
        let rest = slice_subrange(s, len, s.len());
        assert(rest@ =~= s@.skip(len as int));
        check_hops(rest)
    } else {
        true
    }
}

/// What a route socket answered.
#[derive(Debug)]
pub enum RouteBody {
    /// An error with its code, 0 for an acknowledgement.
    Error(i32),
    /// The end of a series of messages.
    Done,
    /// A route. For each of its attributes, the interface that it names, if it
    /// is the attribute that names one.
    Route(Vec<Option<u32>>),
    /// Anything else.
    Other,
}

/// The mathematical value of a [`RouteBody`].
pub enum RouteBodyModel {
    /// An error with its code.
    Error(i32),
    /// The end of a series of messages.
    Done,
    /// A route's attributes.
    Route(Seq<Option<u32>>),
    /// Anything else.
    Other,
}

impl View for RouteBody {
    type V = RouteBodyModel;

    open spec fn view(&self) -> RouteBodyModel {
        match *self {
            RouteBody::Error(code) => RouteBodyModel::Error(code),
            RouteBody::Done => RouteBodyModel::Done,
            RouteBody::Route(attributes) => RouteBodyModel::Route(attributes@),
            RouteBody::Other => RouteBodyModel::Other,
        }
    }
}

/// A decoded message of a route socket.
#[derive(Debug)]
pub struct RouteReply {
    /// The sequence number of the request that it answers.
    pub sequence: u32,
    /// What it says.
    pub body: RouteBody,
}

/// The message that `NetlinkMessage::<RouteNetlinkMessage>::deserialize` reads
/// from octets, on a machine of the given byte order, or nothing.
pub uninterp spec fn route_message(little: bool, octets: Seq<u8>) -> Option<(u32, RouteBodyModel)>;

/// The value of an optional reply.
pub open spec fn reply_value(r: Option<RouteReply>) -> Option<(u32, RouteBodyModel)> {
    match r {
        Some(reply) => Some((reply.sequence, reply.body@)),
        None => None,
    }
}

/// What the message in `s` says if it is a control message: an error, the end of
/// a series, a message without content, or one of a type that rtnetlink does not
/// have.
pub open spec fn control_message(s: Seq<u8>, r: Option<(u32, RouteBodyModel)>) -> bool {
    let kind = message_type(s);
    let payload = payload_of(s);
    if kind == NLMSG_ERROR {
        if payload.len() < 4 {
            r is None
        } else {
            r matches Some((_, RouteBodyModel::Error(code))) && code == signed(
                ne_value(payload.subrange(0, 4)),
            )
        }
    } else if kind == NLMSG_DONE {
        if payload.len() < 4 {
            r is None
        } else {
            r matches Some((_, RouteBodyModel::Done))
        }
    } else if kind == NLMSG_NOOP || kind == NLMSG_OVERRUN {
        r matches Some((_, RouteBodyModel::Other))
    } else {
        !is_route(kind) && !is_foreign(kind) ==> r is None
    }
}

/// For each attribute of a route, the interface that it names, if it is the
/// attribute that names one.
pub open spec fn interfaces(attributes: Seq<(nat, Seq<u8>)>) -> Seq<Option<u32>> {
    attributes.map_values(
        |a: (nat, Seq<u8>)|
            if a.0 == RTA_OIF {
                Some(ne_value(a.1) as u32)
            } else {
                None
            },
    )
}

/// Whether an attribute of a route of this address family is one of those that the
/// kernel answers a lookup with, and holds what it should: a number, an address, a
/// preference or the state of a cache entry.
pub open spec fn is_plain_attribute(a: (nat, Seq<u8>), family: u8) -> bool {
    ||| (a.0 == 3 || a.0 == RTA_OIF || a.0 == 6 || a.0 == 15 || a.0 == 16 || a.0 == 25)
        && a.1.len() == 4
    ||| (a.0 == 1 || a.0 == 2 || a.0 == 5 || a.0 == 7) && ((family == 2 && a.1.len() == 4) || (
    family == 10 && a.1.len() == 16))
    ||| a.0 == 12 && a.1.len() == 32
    ||| a.0 == 20 && a.1.len() == 1
}

/// Whether all attributes of a route are plain ones.
pub open spec fn are_plain(attributes: Seq<(nat, Seq<u8>)>, family: u8) -> bool {
    forall|i: int|
        0 <= i < attributes.len() ==> is_plain_attribute(#[trigger] attributes[i], family)
}

/// Plain attributes are sound.
pub proof fn lemma_plain_attributes_are_sound(s: Seq<u8>, family: u8)
    requires
        attributes_in(s) is Some,
        are_plain(attributes_in(s)->0, family),
    ensures
        sound_attributes(s),
    decreases s.len(),
{
    if s.len() >= 4 {
        let list = attributes_in(s)->0;
        let len = ne_value(s.subrange(0, 2)) as int;
        let next = (len + 3) / 4 * 4;
        assert(is_plain_attribute(list[0], family));
        if next < s.len() {
            let rest = attributes_in(s.skip(next))->0;
            assert forall|i: int| 0 <= i < rest.len() implies is_plain_attribute(
                #[trigger] rest[i],
                family,
            ) by {
                assert(rest[i] == list[i + 1]);
            }
            lemma_plain_attributes_are_sound(s.skip(next), family);
        }
    }
}

/// An attribute in front of others is the first of them.
proof fn lemma_attribute_first(kind: nat, value: Seq<u8>, rest: Seq<u8>)
    requires
        kind < 0x4000,
        value.len() % 4 == 0,
        4 + value.len() < 0x1_0000,
        attributes_in(rest) is Some,
    ensures
        attributes_in(attribute(kind, value) + rest) == Some(
            seq![(kind, value)] + attributes_in(rest)->0,
        ),
{
    let s = attribute(kind, value) + rest;
    let n = value.len() as int;
    reveal_with_fuel(bytes::be_limit, 3);
    lemma_ne_bytes(4 + value.len(), 2);
    lemma_ne_bytes(kind, 2);
    assert(s.subrange(0, 2) =~= ne_bytes(4 + value.len(), 2));
    assert(s.subrange(2, 4) =~= ne_bytes(kind, 2));
    assert(s.subrange(4, 4 + n) =~= value);
    assert((4 + n + 3) / 4 * 4 == 4 + n);
    assert(s.skip(4 + n) =~= rest);
    if rest.len() == 0 {
        assert(seq![(kind, value)] + attributes_in(rest)->0 =~= seq![(kind, value)]);
    }
}

/// The attributes of a route out of an interface: its destination and the
/// interface.
pub proof fn lemma_route_payload_attributes(h: RouteFields, dest: Seq<u8>, oif: u32)
    requires
        dest.len() == 4 || dest.len() == 16,
    ensures
        attributes_in(route_payload(h, dest, oif).skip(12)) == Some(
            seq![(1nat, dest), (RTA_OIF as nat, ne_bytes(oif as nat, 4))],
        ),
        ne_bytes(oif as nat, 4).len() == 4,
        ne_value(ne_bytes(oif as nat, 4)) == oif,
        route_payload(h, dest, oif)[0] == h.family,
{
    let value = ne_bytes(oif as nat, 4);
    let none = Seq::<u8>::empty();
    reveal_with_fuel(bytes::be_limit, 5);
    lemma_ne_bytes(0, 4);
    lemma_ne_bytes(oif as nat, 4);
    lemma_attribute_first(4, value, none);
    assert(attribute(4, value) + none =~= attribute(4, value));
    assert(seq![(4nat, value)] + attributes_in(none)->0 =~= seq![(4nat, value)]);
    lemma_attribute_first(1, dest, attribute(4, value));
    assert(route_payload(h, dest, oif).skip(12) =~= attribute(1, dest) + attribute(4, value));
    assert(seq![(1nat, dest)] + seq![(4nat, value)] =~= seq![(1nat, dest), (4nat, value)]);
}

/// What the route message in `s` says. A deleted route is no route. A request for
/// routes may be cut short to one octet or four.
pub open spec fn route_in(s: Seq<u8>, r: Option<(u32, RouteBodyModel)>) -> bool {
    let kind = message_type(s);
    let payload = payload_of(s);
    if payload.len() < 12 {
        if kind == 26 && (payload.len() == 1 || payload.len() == 4) {
            r matches Some((_, body)) && body == RouteBodyModel::Route(Seq::empty())
        } else {
            r is None
        }
    } else {
        let attributes = attributes_in(payload.skip(12));
        &&& r matches Some((_, body)) ==> attributes is Some && body == if kind == 25 {
            RouteBodyModel::Other
        } else {
            RouteBodyModel::Route(interfaces(attributes->0))
        }
        &&& attributes is Some && are_plain(attributes->0, payload[0]) ==> r is Some
    }
}

/// `NetlinkMessage::<RouteNetlinkMessage>::deserialize`: nothing where the octets
/// are no message. A message keeps the sequence number of its header, and a
/// control message says what its payload starts with. A route message that can be
/// read says of each of its attributes whether it names the interface, and which;
/// one whose attributes are plain can be read. Which others can be read is named,
/// not stated.
#[verifier::external_body]
fn decode_route(octets: &[u8]) -> (r: Option<RouteReply>)
    requires
        decodable(octets@),
    ensures
        reply_value(r) == route_message(little_endian(), octets@),
        !framed(octets@) ==> r is None,
        r is Some ==> r->0.sequence == sequence_of(octets@),
        framed(octets@) ==> control_message(octets@, reply_value(r)),
        framed(octets@) && is_route(message_type(octets@)) ==> route_in(octets@, reply_value(r)),
{
    let message = NetlinkMessage::<RouteNetlinkMessage>::deserialize(octets).ok()?;
    let oif = |attribute| match attribute { RouteAttribute::Oif(index) => Some(index), _ => None };
    let body = match message.payload {
        NetlinkPayload::Error(error) => RouteBody::Error(error.raw_code()),
        NetlinkPayload::Done(_) => RouteBody::Done,
        NetlinkPayload::InnerMessage(
            RouteNetlinkMessage::NewRoute(route) | RouteNetlinkMessage::GetRoute(route),
        ) => RouteBody::Route(route.attributes.into_iter().map(oif).collect()),
        _ => RouteBody::Other,
    };
    Some(RouteReply { sequence: message.header.sequence_number, body })
}

/// A message of a route socket.
#[derive(Debug)]
pub enum Incoming {
    /// The octets are no message.
    Malformed,
    /// A message on something other than routes, which is not decoded.
    Foreign,
    /// A message that was decoded.
    Reply(RouteReply),
}

/// The mathematical value of an [`Incoming`].
pub enum IncomingModel {
    /// The octets are no message.
    Malformed,
    /// A message on something other than routes.
    Foreign,
    /// A decoded message: its sequence number and what it says.
    Reply(u32, RouteBodyModel),
}

impl View for Incoming {
    type V = IncomingModel;

    open spec fn view(&self) -> IncomingModel {
        match *self {
            Incoming::Malformed => IncomingModel::Malformed,
            Incoming::Foreign => IncomingModel::Foreign,
            Incoming::Reply(reply) => IncomingModel::Reply(reply.sequence, reply.body@),
        }
    }
}

/// The message that a route socket delivered as `s`.
pub open spec fn incoming(s: Seq<u8>) -> IncomingModel {
    if framed(s) && is_foreign(message_type(s)) {
        if foreign_fits(message_type(s), payload_of(s)) {
            IncomingModel::Foreign
        } else {
            IncomingModel::Malformed
        }
    } else if framed(s) && !decodable(s) {
        IncomingModel::Malformed
    } else {
        match route_message(little_endian(), s) {
            Some((sequence, body)) => IncomingModel::Reply(sequence, body),
            None => IncomingModel::Malformed,
        }
    }
}

/// The value of what was decoded, if anything was.
pub open spec fn decoded(r: Incoming) -> Option<(u32, RouteBodyModel)> {
    match r {
        Incoming::Reply(reply) => reply_value(Some(reply)),
        _ => None,
    }
}

/// Reads a message that a route socket delivered. Of a message on something other
/// than routes only the header and the lengths of the attributes are looked at: it
/// answers no request that is sent here, and the decoder would end the program on
/// some attributes that are too short for what they must hold. A route with such
/// an attribute is malformed.
pub fn read_route(s: &[u8]) -> (r: Incoming)
    ensures
        r@ == incoming(s@),
        !framed(s@) ==> r is Malformed,
        r matches Incoming::Reply(reply) ==> reply.sequence == sequence_of(s@),
        framed(s@) && !is_foreign(message_type(s@)) && !is_route(message_type(s@))
            ==> control_message(s@, decoded(r)),
        framed(s@) && is_route(message_type(s@)) && decodable(s@) ==> route_in(s@, decoded(r)),
{
    if s.len() >= 16 {
        let len = u32_at(s, 0) as usize;
        if 16 <= len && len <= s.len() {
            let kind: u16 = u16_at(s, 4);
            if let Some(header) = foreign_header_len(kind) {
                let payload = slice_subrange(s, 16, len);
                assert(payload@ =~= payload_of(s@));
                let fits: bool = if payload.len() < header {
                    payload.len() == 4 && (kind == 18 || kind == 22)
                } else {
                    let attributes = slice_subrange(payload, header, payload.len());
                    assert(attributes@ =~= payload@.skip(header as int));
                    attributes_fit(attributes)
                };
                return if fits {
                    Incoming::Foreign
                } else {
                    Incoming::Malformed
                };
            }
            if 24 <= kind && kind <= 26 && len >= 28 {
                let attributes = slice_subrange(s, 28, len);
                assert(attributes@ =~= payload_of(s@).skip(12));
                if !check_attributes(attributes) {
                    return Incoming::Malformed;
                }
            }
        }
    }
    match decode_route(s) {
        Some(reply) => Incoming::Reply(reply),
        None => Incoming::Malformed,
    }
}

// ── Socket queries: decoding ────────────────────────────────────────────────

/// What a socket query was answered.
#[derive(Debug, Clone, Copy, PartialEq, Eq, Structural)]
pub enum DiagBody {
    /// A socket, with its inode.
    Socket(u32),
    /// An error.
    Error,
    /// Anything else.
    Other,
}

/// A decoded answer to a socket query.
#[derive(Debug, Clone, Copy, PartialEq, Eq, Structural)]
pub struct DiagReply {
    /// The sequence number of the query that it answers.
    pub sequence: u32,
    /// What it says.
    pub body: DiagBody,
}

/// The message that `NetlinkMessage::<SockDiagMessage>::deserialize` reads from
/// octets, on a machine of the given byte order, or nothing.
pub uninterp spec fn diag_message(little: bool, octets: Seq<u8>) -> Option<DiagReply>;

/// What the message in `s` says, but for the attributes that may follow a socket:
/// where those cannot be read, there is no message.
pub open spec fn diag_facts(s: Seq<u8>, r: Option<DiagReply>) -> bool {
    let kind = message_type(s);
    let payload = payload_of(s);
    if kind == NLMSG_ERROR {
        if payload.len() < 4 {
            r is None
        } else {
            r is Some && r->0.body is Error
        }
    } else if kind == NLMSG_DONE {
        if payload.len() < 4 {
            r is None
        } else {
            r is Some && r->0.body is Other
        }
    } else if kind == NLMSG_NOOP || kind == NLMSG_OVERRUN {
        r is Some && r->0.body is Other
    } else if kind == 20 && payload.len() >= 72 && (payload[0] == 2 || payload[0] == 10) {
        &&& payload.len() == 72 ==> r is Some
        &&& r is Some ==> (r->0.body matches DiagBody::Socket(inode) && inode == ne_value(
            payload.subrange(68, 72),
        ))
    } else {
        r is Some ==> kind == 20 && r->0.body is Other
    }
}

/// `NetlinkMessage::<SockDiagMessage>::deserialize`: nothing where the octets are
/// no message. A message keeps the sequence number of its header, a control
/// message says what its type says, and an IPv4 or IPv6 socket has the inode at
/// the end of its fixed part. Whether attributes that follow it can be read is
/// named, not stated.
#[verifier::external_body]
pub(crate) fn decode_diag(octets: &[u8]) -> (r: Option<DiagReply>)
    ensures
        r == diag_message(little_endian(), octets@),
        !framed(octets@) ==> r is None,
        r is Some ==> r->0.sequence == sequence_of(octets@),
        framed(octets@) ==> diag_facts(octets@, r),
{
    let message = NetlinkMessage::<SockDiagMessage>::deserialize(octets).ok()?;
    let body = match message.payload {
        NetlinkPayload::InnerMessage(SockDiagMessage::InetResponse(response)) => {
            DiagBody::Socket(response.header.inode)
        },
        NetlinkPayload::Error(_) => DiagBody::Error,
        _ => DiagBody::Other,
    };
    Some(DiagReply { sequence: message.header.sequence_number, body })
}

/// A route payload says which network the route is for and where it leads: family
/// and prefix length first, then table, origin, scope and kind, the destination
/// behind its attribute header, and the interface in the last four octets.
pub proof fn law_route_payload_names_the_route(h: RouteFields, dest: Seq<u8>, oif: u32)
    ensures
        ({
            let p = route_payload(h, dest, oif);
            let n = dest.len() as int;
            &&& p.len() == 24 + n
            &&& p[0] == h.family && p[1] == h.prefix_len && p[2] == 0 && p[3] == 0
            &&& p[4] == h.table && p[5] == h.protocol && p[6] == h.scope && p[7] == h.kind
            &&& p.subrange(16, 16 + n) == dest
            &&& ne_value(p.skip(20 + n)) == oif
        }),
{
    let p = route_payload(h, dest, oif);
    let n = dest.len() as int;
    reveal_with_fuel(bytes::be_limit, 5);
    lemma_ne_bytes(0, 4);
    lemma_ne_bytes(4 + dest.len(), 2);
    lemma_ne_bytes(1, 2);
    lemma_ne_bytes(oif as nat, 4);
    lemma_ne_bytes(8, 2);
    lemma_ne_bytes(4, 2);
    assert(p.subrange(16, 16 + n) =~= dest);
    assert(p.skip(20 + n) =~= ne_bytes(oif as nat, 4));
}

/// A lookup payload asks for the route to its destination.
pub proof fn law_lookup_payload_names_the_destination(family: u8, flags: u32, dest: Seq<u8>)
    ensures
        ({
            let p = lookup_payload(family, flags, dest);
            &&& p.len() == 16 + dest.len()
            &&& p[0] == family && p[1] == 0
            &&& ne_value(p.subrange(8, 12)) == flags
            &&& p.skip(16) == dest
        }),
{
    let p = lookup_payload(family, flags, dest);
    reveal_with_fuel(bytes::be_limit, 5);
    lemma_ne_bytes(flags as nat, 4);
    lemma_ne_bytes(4 + dest.len(), 2);
    lemma_ne_bytes(1, 2);
    assert(p.subrange(8, 12) =~= ne_bytes(flags as nat, 4));
    assert(p.skip(16) =~= dest);
}

/// A socket query carries its family and protocol, its ports, high octet first,
/// and its two addresses, each in a field of sixteen octets.
pub proof fn law_query_payload_names_the_socket(
    family: u8,
    protocol: u8,
    states: u32,
    name: SocketName,
    interface: u32,
    cookie: Seq<u8>,
)
    requires
        cookie.len() == 8,
    ensures
        ({
            let p = diag_payload(family, protocol, states, name, interface, cookie);
            let source = name.source_address.octets_spec();
            let destination = name.destination_address.octets_spec();
            &&& p.len() == 56
            &&& p[0] == family && p[1] == protocol
            &&& ne_value(p.subrange(4, 8)) == states
            &&& p[8] * 256 + p[9] == name.source_port
            &&& p[10] * 256 + p[11] == name.destination_port
            &&& p.subrange(12, 12 + source.len() as int) == source
            &&& p.subrange(28, 28 + destination.len() as int) == destination
            &&& ne_value(p.subrange(44, 48)) == interface
            &&& p.skip(48) == cookie
        }),
{
    let p = diag_payload(family, protocol, states, name, interface, cookie);
    let source = name.source_address.octets_spec();
    let destination = name.destination_address.octets_spec();
    reveal_with_fuel(bytes::be_limit, 5);
    lemma_ne_bytes(states as nat, 4);
    lemma_ne_bytes(interface as nat, 4);
    lemma_port_octets(name.source_port);
    lemma_port_octets(name.destination_port);
    lemma_wide_octets(name.source_address);
    lemma_wide_octets(name.destination_address);
    assert(p.subrange(4, 8) =~= ne_bytes(states as nat, 4));
    assert(p[8] == bytes::be_bytes(name.source_port as nat, 2)[0]);
    assert(p[9] == bytes::be_bytes(name.source_port as nat, 2)[1]);
    assert(p[10] == bytes::be_bytes(name.destination_port as nat, 2)[0]);
    assert(p[11] == bytes::be_bytes(name.destination_port as nat, 2)[1]);
    assert(p.subrange(12, 12 + source.len() as int) =~= source);
    assert(p.subrange(28, 28 + destination.len() as int) =~= destination);
    assert(p.subrange(44, 48) =~= ne_bytes(interface as nat, 4));
    assert(p.skip(48) =~= cookie);
}

proof fn lemma_port_octets(port: u16)
    ensures
        bytes::be_bytes(port as nat, 2).len() == 2,
        bytes::be_bytes(port as nat, 2)[0] * 256 + bytes::be_bytes(port as nat, 2)[1] == port,
{
    reveal_with_fuel(bytes::be_bytes, 3);
    assert(bytes::be_bytes(port as nat, 2)[0] == port / 256);
    assert(bytes::be_bytes(port as nat, 2)[1] == port % 256);
}

proof fn lemma_wide_octets(ip: IpAddr)
    ensures
        wide_octets(ip).len() == 16,
        ip.octets_spec().len() <= 16,
        wide_octets(ip).take(ip.octets_spec().len() as int) == ip.octets_spec(),
{
    match ip {
        IpAddr::V4(a) => bytes::lemma_be_bytes(a.bits as nat, 4),
        IpAddr::V6(a) => bytes::lemma_be_bytes(a.bits as nat, 16),
    }
    assert(wide_octets(ip).take(ip.octets_spec().len() as int) =~= ip.octets_spec());
}

/// An attribute is read with its kind and its value, whatever the length of the
/// value: the next one starts at a multiple of four octets behind it.
pub proof fn law_attributes_are_read_in_turn(kind: nat, value: Seq<u8>, pad: Seq<u8>, rest: Seq<u8>)
    requires
        kind < 0x4000,
        4 + value.len() < 0x1_0000,
        pad.len() < 4,
        (value.len() + pad.len()) % 4 == 0,
        attributes_in(rest) is Some,
    ensures
        attributes_in(attribute(kind, value) + pad + rest) == Some(
            seq![(kind, value)] + attributes_in(rest)->0,
        ),
{
    let s = attribute(kind, value) + pad + rest;
    let n = value.len() as int;
    let m = pad.len() as int;
    reveal_with_fuel(bytes::be_limit, 3);
    lemma_ne_bytes(4 + value.len(), 2);
    lemma_ne_bytes(kind, 2);
    assert(s.subrange(0, 2) =~= ne_bytes(4 + value.len(), 2));
    assert(s.subrange(2, 4) =~= ne_bytes(kind, 2));
    assert(s.subrange(4, 4 + n) =~= value);
    assert((4 + n + 3) / 4 * 4 == 4 + n + m);
    assert(s.skip(4 + n + m) =~= rest);
    if rest.len() == 0 {
        assert(seq![(kind, value)] + attributes_in(rest)->0 =~= seq![(kind, value)]);
    }
}

/// A message on a link or an address is passed over where its header is complete
/// and its attributes fit.
pub proof fn law_links_and_addresses_are_passed_over(s: Seq<u8>)
    requires
        framed(s),
    ensures
        16 <= message_type(s) <= 19 && payload_of(s).len() >= 16 && attributes_in(
            payload_of(s).skip(16),
        ) is Some ==> incoming(s) is Foreign,
        20 <= message_type(s) <= 22 && payload_of(s).len() >= 8 && attributes_in(
            payload_of(s).skip(8),
        ) is Some ==> incoming(s) is Foreign,
        24 <= message_type(s) <= 26 ==> !(incoming(s) is Foreign),
        message_type(s) < 16 ==> !(incoming(s) is Foreign),
{
}

/// The other messages that are passed over, by their types and the lengths of their
/// headers: neighbours, rules and prefixes with twelve octets, traffic control with
/// twenty, neighbour tables and namespaces with four.
pub proof fn law_other_foreign_messages_are_passed_over(s: Seq<u8>, header: int)
    requires
        framed(s),
        payload_of(s).len() >= header,
        ({
            let kind = message_type(s);
            ||| header == 12 && (28 <= kind <= 30 || 32 <= kind <= 34 || kind == 52)
            ||| header == 20 && (36 <= kind <= 38 || 40 <= kind <= 42 || 44 <= kind <= 46 || 100
                <= kind <= 102)
            ||| header == 4 && (kind == 64 || kind == 66 || kind == 67 || 88 <= kind <= 90)
        }),
    ensures
        attributes_in(payload_of(s).skip(header)) is Some ==> incoming(s) is Foreign,
        attributes_in(payload_of(s).skip(header)) is None ==> incoming(s) is Malformed,
{
}

/// Attributes that fit are sound unless one of them is a realm of less than four
/// octets, as long as there are no next hops among them.
pub proof fn law_only_short_realms_are_unsound(s: Seq<u8>)
    requires
        attributes_in(s) is Some,
        forall|i: int|
            0 <= i < attributes_in(s)->0.len() ==> (#[trigger] attributes_in(s)->0[i]).0 != 9,
    ensures
        sound_attributes(s) <==> forall|i: int|
            0 <= i < attributes_in(s)->0.len() && (#[trigger] attributes_in(s)->0[i]).0 == 11
                ==> attributes_in(s)->0[i].1.len() >= 4,
    decreases s.len(),
{
    let list = attributes_in(s)->0;
    if s.len() >= 4 {
        let len = ne_value(s.subrange(0, 2)) as int;
        let next = (len + 3) / 4 * 4;
        assert(list[0].0 != 9);
        if next < s.len() {
            let rest = attributes_in(s.skip(next))->0;
            assert(list == seq![list[0]] + rest);
            assert forall|i: int| 0 <= i < rest.len() implies (#[trigger] rest[i]).0 != 9 by {
                assert(rest[i] == list[i + 1]);
            }
            law_only_short_realms_are_unsound(s.skip(next));
            if sound_attributes(s) {
                assert forall|i: int| 0 <= i < list.len() && (#[trigger] list[i]).0 == 11 implies
                    list[i].1.len() >= 4 by {
                    if i > 0 {
                        assert(list[i] == rest[i - 1]);
                    }
                }
            } else if forall|i: int|
                0 <= i < list.len() && (#[trigger] list[i]).0 == 11 ==> list[i].1.len() >= 4 {
                assert forall|i: int| 0 <= i < rest.len() && (#[trigger] rest[i]).0 == 11 implies
                    rest[i].1.len() >= 4 by {
                    assert(rest[i] == list[i + 1]);
                }
            }
        } else {
            assert(list.len() == 1);
        }
    }
}

/// A route with a realm that is too short is malformed.
pub proof fn law_route_with_a_short_realm_is_malformed(s: Seq<u8>, i: int)
    requires
        framed(s),
        24 <= message_type(s) <= 26,
        payload_of(s).len() >= 12,
        attributes_in(payload_of(s).skip(12)) is Some,
        0 <= i < attributes_in(payload_of(s).skip(12))->0.len(),
        attributes_in(payload_of(s).skip(12))->0[i].0 == 11,
        attributes_in(payload_of(s).skip(12))->0[i].1.len() < 4,
    ensures
        incoming(s) is Malformed,
{
    lemma_short_realm_is_unsound(payload_of(s).skip(12), i);
}

proof fn lemma_short_realm_is_unsound(s: Seq<u8>, i: int)
    requires
        attributes_in(s) is Some,
        0 <= i < attributes_in(s)->0.len(),
        attributes_in(s)->0[i].0 == 11,
        attributes_in(s)->0[i].1.len() < 4,
    ensures
        !sound_attributes(s),
    decreases s.len(),
{
    let list = attributes_in(s)->0;
    let len = ne_value(s.subrange(0, 2)) as int;
    let next = (len + 3) / 4 * 4;
    if i > 0 {
        let rest = attributes_in(s.skip(next))->0;
        assert(rest[i - 1] == list[i]);
        lemma_short_realm_is_unsound(s.skip(next), i - 1);
    }
}

} // verus!
