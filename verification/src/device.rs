//! Packet framing of the tunnel device: one IP packet per read and write.

use vstd::prelude::*;
use vstd::slice::slice_subrange;

use crate::bytes;

verus! {

/// Largest possible IP packet.
pub const MAX_PACKET: usize = 65_535;

/// How many packets may wait between a reader thread and the stack.
pub const READ_QUEUE_DEPTH: usize = 1024;

/// What to do with a packet that was read.
#[derive(Debug, Clone, Copy, PartialEq, Eq, Structural)]
pub enum ReadAction {
    /// Hand the packet over.
    Deliver,
    /// Drop the packet: the reader's buffer cannot hold it.
    Drop,
}

/// What to do with a packet that is to be written.
#[derive(Debug, Clone, Copy, PartialEq, Eq, Structural)]
pub enum WriteAction {
    /// There is nothing to write.
    Nothing,
    /// Write the packet.
    Send,
    /// Refuse the packet: it exceeds 65535 bytes.
    Refuse,
}

/// What to do with a packet of `received` octets when the reader's buffer holds
/// `room` more.
pub fn on_read(received: usize, room: usize) -> (r: ReadAction)
    ensures
        r == if received > room {
            ReadAction::Drop
        } else {
            ReadAction::Deliver
        },
        r is Deliver <==> received <= room,
{
    if received > room {
        ReadAction::Drop
    } else {
        ReadAction::Deliver
    }
}

/// What to do with a packet of `len` octets that is to be written.
pub fn on_write(len: usize) -> (r: WriteAction)
    ensures
        r == if len == 0 {
            WriteAction::Nothing
        } else if len > MAX_PACKET {
            WriteAction::Refuse
        } else {
            WriteAction::Send
        },
        r is Nothing <==> len == 0,
        r is Refuse <==> len > 65_535,
{
    if len == 0 {
        WriteAction::Nothing
    } else if len > MAX_PACKET {
        WriteAction::Refuse
    } else {
        WriteAction::Send
    }
}

// ── utun framing ────────────────────────────────────────────────────────────

/// Octets of the protocol family header in front of every utun packet.
pub const UTUN_HEADER: usize = 4;

/// The protocol family of an IP packet on macOS: 30 for version 6, 2 for any
/// other.
pub open spec fn packet_family(packet: Seq<u8>) -> nat {
    if packet.len() > 0 && packet[0] / 16 == 6 {
        30
    } else {
        2
    }
}

/// A packet as utun carries it: behind its protocol family, most significant
/// octet first.
pub open spec fn utun_frame(packet: Seq<u8>) -> Seq<u8> {
    bytes::be_bytes(packet_family(packet), 4) + packet
}

/// The packet as utun carries it.
pub fn frame_packet(packet: &[u8]) -> (r: Vec<u8>)
    ensures
        r@ == utun_frame(packet@),
{
    let family: u8 = if packet.len() > 0 && packet[0] / 16 == 6 {
        30
    } else {
        2
    };
    let mut out: Vec<u8> = vec![0u8, 0u8, 0u8, family];
    proof {
        reveal_with_fuel(bytes::be_bytes, 5);
        assert(out@ == bytes::be_bytes(packet_family(packet@), 4));
    }
    out.extend_from_slice(packet);
    assert(out@ == utun_frame(packet@));
    out
}

/// The packet that utun carries in `frame`; `None` where it is shorter than its
/// header.
pub fn unframe_packet(frame: &[u8]) -> (r: Option<&[u8]>)
    ensures
        r is Some <==> frame@.len() >= UTUN_HEADER,
        r is Some ==> r->Some_0@ == frame@.skip(4),
{
    if frame.len() < UTUN_HEADER {
        return None;
    }
    let packet: &[u8] = slice_subrange(frame, 4, frame.len());
    assert(packet@ == frame@.skip(4));
    Some(packet)
}

/// Taking the header off gives the packet back.
pub proof fn law_unframing_undoes_framing(packet: Seq<u8>)
    ensures
        utun_frame(packet).len() == packet.len() + UTUN_HEADER,
        utun_frame(packet).skip(4) == packet,
{
    crate::bytes::lemma_be_bytes(packet_family(packet), 4);
    assert(utun_frame(packet).skip(4) == packet);
}

/// The header tells the version of the packet: three zeros, and then 30 for a
/// packet that begins with a 6 in its high half, 2 for any other.
pub proof fn law_header_tells_the_version(packet: Seq<u8>)
    ensures
        utun_frame(packet)[0] == 0,
        utun_frame(packet)[1] == 0,
        utun_frame(packet)[2] == 0,
        utun_frame(packet)[3] == 30 <==> packet.len() > 0 && 0x60 <= packet[0] <= 0x6f,
        utun_frame(packet)[3] == 30 || utun_frame(packet)[3] == 2,
{
    reveal_with_fuel(bytes::be_bytes, 5);
    let header = bytes::be_bytes(packet_family(packet), 4);
    assert(header[0] == 0 && header[1] == 0 && header[2] == 0);
    assert(header[3] == packet_family(packet));
}

} // verus!
