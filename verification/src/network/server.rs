//! Who a datagram is from, and what the server does with it.

use super::packets;
use super::{read_packet, spec_packet, Packet, PacketModel, Rejection};
use std::collections::HashMap;
use vstd::prelude::*;
use vstd::std_specs::hash::group_hash_axioms;

verus! {

/// Where a peer sits: an IPv4 address and a port.
#[derive(Debug, Copy, Clone, PartialEq, Eq, Structural)]
pub struct PeerAddr {
    pub ip: u32,
    pub port: u16,
}

impl PeerAddr {
    /// The number under which the connection table knows the peer.
    pub open spec fn spec_key(self) -> u64 {
        (self.ip as int * 0x1_0000 + self.port as int) as u64
    }

    #[verifier::when_used_as_spec(spec_key)]
    pub fn key(self) -> (r: u64)
        ensures
            r == self.spec_key(),
    {
        (self.ip as u64) * 0x1_0000 + (self.port as u64)
    }
}

/// Two peers with one key are one peer.
pub proof fn lemma_key_is_injective(a: PeerAddr, b: PeerAddr)
    requires
        a.spec_key() == b.spec_key(),
    ensures
        a == b,
{
}

/// How far a client has come.
#[derive(Debug, Copy, Clone, PartialEq, Eq, Structural)]
pub enum ClientState {
    /// It has sent its first connect packet and was given this token.
    Connecting(u8),
    Idle,
    InRoom,
    Gaming,
    Unknown,
}

/// A client that the server knows.
#[derive(Debug, Copy, Clone, PartialEq, Eq, Structural)]
pub struct ConnectedClient {
    pub address: PeerAddr,
    pub state: ClientState,
    pub id: usize,
    /// When its last packet came, in nanoseconds of the server's clock.
    pub last_packet_time: u64,
}

impl ConnectedClient {
    /// A client that has just sent its first connect packet.
    pub fn new(address: PeerAddr, id: usize, token: u8, now: u64) -> (r: ConnectedClient)
        ensures
            r == (ConnectedClient {
                address,
                state: ClientState::Connecting(token),
                id,
                last_packet_time: now,
            }),
    {
        ConnectedClient { address, state: ClientState::Connecting(token), id, last_packet_time: now }
    }
}

/// What becomes of a datagram.
#[derive(Debug)]
pub enum Dispatch {
    /// It holds no packet and is dropped.
    Rejected(Rejection),
    /// It is from a known client.
    FromClient(ConnectedClient, Packet),
    /// It is a connect packet from a peer that is not known: the handshake
    /// begins.
    Handshake(Packet),
    /// It is another packet from a peer that is not known, and is dropped.
    NotConnected(Packet),
}

/// What becomes of the datagram `s` from the peer with the key `from`, where
/// the table of known clients is `known`.
pub open spec fn spec_dispatch(
    known: Map<u64, ConnectedClient>,
    from: u64,
    s: Seq<u8>,
) -> DispatchModel {
    match spec_packet(s) {
        Err(e) => DispatchModel::Rejected(e),
        Ok(p) => if known.dom().contains(from) {
            DispatchModel::FromClient(known[from], p)
        } else if p.packet_type == packets::CONNECT {
            DispatchModel::Handshake(p)
        } else {
            DispatchModel::NotConnected(p)
        },
    }
}

/// `Dispatch` as mathematical values.
pub enum DispatchModel {
    Rejected(Rejection),
    FromClient(ConnectedClient, PacketModel),
    Handshake(PacketModel),
    NotConnected(PacketModel),
}

impl View for Dispatch {
    type V = DispatchModel;

    open spec fn view(&self) -> DispatchModel {
        match self {
            Dispatch::Rejected(e) => DispatchModel::Rejected(*e),
            Dispatch::FromClient(c, p) => DispatchModel::FromClient(*c, p@),
            Dispatch::Handshake(p) => DispatchModel::Handshake(p@),
            Dispatch::NotConnected(p) => DispatchModel::NotConnected(p@),
        }
    }
}

/// The clients that the server knows, by where they sit.
pub struct Connections {
    connected: HashMap<u64, ConnectedClient>,
}

impl View for Connections {
    type V = Map<u64, ConnectedClient>;

    closed spec fn view(&self) -> Map<u64, ConnectedClient> {
        self.connected@
    }
}

impl Connections {
    /// No client is known.
    pub fn new() -> (r: Connections)
        ensures
            r@ == Map::<u64, ConnectedClient>::empty(),
    {
        Connections { connected: HashMap::new() }
    }

    /// Takes `client` into the table, in place of whoever sat there.
    pub fn connect(&mut self, client: ConnectedClient)
        ensures
            final(self)@ == old(self)@.insert(client.address.spec_key(), client),
    {
        broadcast use group_hash_axioms;

        self.connected.insert(client.address.key(), client);
    }

    /// The client that sits at `from`, if one is known.
    pub fn get(&self, from: PeerAddr) -> (r: Option<ConnectedClient>)
        ensures
            r == (if self@.dom().contains(from.spec_key()) {
                Some(self@[from.spec_key()])
            } else {
                None
            }),
    {
        broadcast use group_hash_axioms;

        let key = from.key();
        match self.connected.get(&key) {
            Some(client) => Some(*client),
            None => None,
        }
    }

    /// Decides what becomes of a datagram from `from`. The table stays as it
    /// is.
    pub fn dispatch(&self, from: PeerAddr, datagram: &[u8]) -> (r: Dispatch)
        ensures
            r@ == spec_dispatch(self@, from.spec_key(), datagram@),
    {
        match read_packet(datagram) {
            Err(e) => Dispatch::Rejected(e),
            Ok(packet) => match self.get(from) {
                Some(client) => Dispatch::FromClient(client, packet),
                None => if packet.packet_type == packets::CONNECT {
                    Dispatch::Handshake(packet)
                } else {
                    Dispatch::NotConnected(packet)
                },
            },
        }
    }
}

} // verus!
