//! The datagrams of the game.
//!
//! Every packet starts with the three bytes `uth`, the protocol version and
//! the packet type, both big-endian u16. The packet's data follows.

pub mod packets;
pub mod server;

use crate::wire::{be_u16, be_u16_bytes, lemma_be_u16_round_trip, read_u16_be_at};
use vstd::prelude::*;
use vstd::slice::{slice_subrange, slice_to_vec};

verus! {

/// The bytes that every packet starts with: `uth`.
pub const PACKET_HEADER: [u8; 3] = [0x75, 0x74, 0x68];

/// The protocol version that this library speaks.
pub const VERSION: u16 = 0;

/// The length of what stands before a packet's data.
pub const HEADER_LEN: usize = 7;

/// A packet as it came in.
#[derive(Debug)]
pub struct Packet {
    pub version: u16,
    pub packet_type: u16,
    pub data: Vec<u8>,
}

/// A packet as mathematical values.
pub struct PacketModel {
    pub version: u16,
    pub packet_type: u16,
    pub data: Seq<u8>,
}

impl View for Packet {
    type V = PacketModel;

    open spec fn view(&self) -> PacketModel {
        PacketModel { version: self.version, packet_type: self.packet_type, data: self.data@ }
    }
}

/// Why a datagram is dropped.
#[derive(Debug, Copy, Clone, PartialEq, Eq, Structural)]
pub enum Rejection {
    /// It is shorter than a header.
    TooShort,
    /// It does not start with the magic bytes.
    WrongHeader,
}

/// The magic bytes as a sequence.
pub open spec fn magic() -> Seq<u8> {
    seq![0x75u8, 0x74u8, 0x68u8]
}

/// What a datagram holds, or why it is dropped.
pub open spec fn spec_packet(s: Seq<u8>) -> Result<PacketModel, Rejection> {
    if s.len() < 7 {
        Err(Rejection::TooShort)
    } else if s.take(3) != magic() {
        Err(Rejection::WrongHeader)
    } else {
        Ok(
            PacketModel {
                version: be_u16(s.subrange(3, 5)),
                packet_type: be_u16(s.subrange(5, 7)),
                data: s.skip(7),
            },
        )
    }
}

/// The datagram that carries `p`.
pub open spec fn packet_bytes(p: PacketModel) -> Seq<u8> {
    magic() + be_u16_bytes(p.version) + be_u16_bytes(p.packet_type) + p.data
}

/// Reads the header of a datagram and cuts off its data.
pub fn read_packet(datagram: &[u8]) -> (r: Result<Packet, Rejection>)
    ensures
        match spec_packet(datagram@) {
            Ok(p) => r is Ok && r->Ok_0@ == p,
            Err(e) => r == Err::<Packet, Rejection>(e),
        },
{
    if datagram.len() < HEADER_LEN {
        return Err(Rejection::TooShort);
    }
    if datagram[0] != 0x75 || datagram[1] != 0x74 || datagram[2] != 0x68 {
        assert(datagram@.take(3)[0] == datagram@[0] && datagram@.take(3)[1] == datagram@[1]
            && datagram@.take(3)[2] == datagram@[2]);
        return Err(Rejection::WrongHeader);
    }
    assert(datagram@.take(3) =~= magic());
    let version = read_u16_be_at(datagram, 3).unwrap();
    let packet_type = read_u16_be_at(datagram, 5).unwrap();
    let data = slice_to_vec(slice_subrange(datagram, HEADER_LEN, datagram.len()));
    assert(data@ =~= datagram@.skip(7));
    Ok(Packet { version, packet_type, data })
}

/// A packet that was sent arrives as it was, whatever it carries.
pub proof fn lemma_packet_round_trip(p: PacketModel)
    ensures
        spec_packet(packet_bytes(p)) == Ok::<PacketModel, Rejection>(p),
{
    let s = packet_bytes(p);
    lemma_be_u16_round_trip(p.version);
    lemma_be_u16_round_trip(p.packet_type);
    assert(s.take(3) =~= magic());
    assert(s.subrange(3, 5) =~= be_u16_bytes(p.version));
    assert(s.subrange(5, 7) =~= be_u16_bytes(p.packet_type));
    assert(s.skip(7) =~= p.data);
}

/// A datagram that is short or does not start with the magic bytes holds
/// no packet.
pub proof fn lemma_packet_rejection(s: Seq<u8>)
    ensures
        s.len() < HEADER_LEN ==> spec_packet(s) == Err::<PacketModel, Rejection>(
            Rejection::TooShort,
        ),
        s.len() >= 3 && s.take(3) != magic() ==> spec_packet(s) is Err,
{
}

} // verus!
