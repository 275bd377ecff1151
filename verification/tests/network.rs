use untitled_th::network::packets::{CONNECT, PING, PONG};
use untitled_th::network::server::{
    ClientState, ConnectedClient, Connections, Dispatch, PeerAddr,
};
use untitled_th::network::{read_packet, Rejection, HEADER_LEN, PACKET_HEADER, VERSION};

fn datagram(version: u16, packet_type: u16, data: &[u8]) -> Vec<u8> {
    let mut out = PACKET_HEADER.to_vec();
    out.extend_from_slice(&version.to_be_bytes());
    out.extend_from_slice(&packet_type.to_be_bytes());
    out.extend_from_slice(data);
    out
}

#[test]
fn the_constants_of_the_protocol() {
    assert_eq!(&PACKET_HEADER, b"uth");
    assert_eq!(VERSION, 0);
    assert_eq!(HEADER_LEN, 7);
    assert_eq!((PING, PONG, CONNECT), (0, 1, 2));
}

#[test]
fn a_packet_is_read_from_its_datagram() {
    let p = read_packet(&datagram(0x0102, 0x0304, &[9, 8, 7])).unwrap();
    assert_eq!(p.version, 0x0102);
    assert_eq!(p.packet_type, 0x0304);
    assert_eq!(p.data, vec![9, 8, 7]);
    let p = read_packet(&datagram(VERSION, CONNECT, &[])).unwrap();
    assert_eq!((p.version, p.packet_type), (0, 2));
    assert!(p.data.is_empty());
    let p = read_packet(&datagram(0xffff, 0xff00, &[0])).unwrap();
    assert_eq!((p.version, p.packet_type), (0xffff, 0xff00));
}

#[test]
fn a_short_datagram_is_rejected() {
    let full = datagram(0, PING, &[]);
    for n in 0..HEADER_LEN {
        assert_eq!(read_packet(&full[..n]).err(), Some(Rejection::TooShort));
    }
    assert_eq!(read_packet(b"xyz").err(), Some(Rejection::TooShort));
}

#[test]
fn a_datagram_without_the_magic_is_rejected() {
    for i in 0..3 {
        let mut d = datagram(0, PING, &[1]);
        d[i] ^= 0x20;
        assert_eq!(read_packet(&d).err(), Some(Rejection::WrongHeader));
    }
}

fn peer(ip: u32, port: u16) -> PeerAddr {
    PeerAddr { ip, port }
}

#[test]
fn the_key_of_a_peer() {
    assert_eq!(peer(0, 0).key(), 0);
    assert_eq!(peer(0x7f00_0001, 8080).key(), 0x7f00_0001_1f90);
    assert_eq!(peer(u32::MAX, u16::MAX).key(), 0xffff_ffff_ffff);
    assert_ne!(peer(1, 0).key(), peer(0, 1).key());
}

#[test]
fn a_new_client_is_connecting() {
    let c = ConnectedClient::new(peer(1, 2), 7, 42, 1000);
    assert_eq!(c.address, peer(1, 2));
    assert_eq!(c.state, ClientState::Connecting(42));
    assert_eq!(c.id, 7);
    assert_eq!(c.last_packet_time, 1000);
}

#[test]
fn rejected_datagrams_reach_no_handler() {
    let mut table = Connections::new();
    table.connect(ConnectedClient::new(peer(1, 2), 0, 0, 0));
    assert!(matches!(table.dispatch(peer(1, 2), b"uth"), Dispatch::Rejected(Rejection::TooShort)));
    assert!(matches!(
        table.dispatch(peer(1, 2), b"htu\0\0\0\x02rest"),
        Dispatch::Rejected(Rejection::WrongHeader)
    ));
    assert!(matches!(table.dispatch(peer(9, 9), b""), Dispatch::Rejected(Rejection::TooShort)));
    assert_eq!(table.get(peer(1, 2)), Some(ConnectedClient::new(peer(1, 2), 0, 0, 0)));
    assert_eq!(table.get(peer(9, 9)), None);
}

#[test]
fn an_unknown_peer_may_only_connect() {
    let table = Connections::new();
    match table.dispatch(peer(5, 6), &datagram(0, CONNECT, &[0, b'm', b'e'])) {
        Dispatch::Handshake(p) => assert_eq!(p.data, vec![0, b'm', b'e']),
        other => panic!("{:?}", other),
    }
    assert!(matches!(table.dispatch(peer(5, 6), &datagram(0, PING, &[1])), Dispatch::NotConnected(_)));
    assert!(matches!(table.dispatch(peer(5, 6), &datagram(0, PONG, &[1])), Dispatch::NotConnected(_)));
    assert!(matches!(table.dispatch(peer(5, 6), &datagram(0, 77, &[])), Dispatch::NotConnected(_)));
}

#[test]
fn a_known_peer_is_found_by_its_address() {
    let mut table = Connections::new();
    let client = ConnectedClient::new(peer(5, 6), 3, 9, 50);
    table.connect(client);
    match table.dispatch(peer(5, 6), &datagram(0, PING, &[4])) {
        Dispatch::FromClient(c, p) => {
            assert_eq!(c, client);
            assert_eq!((p.packet_type, p.data), (PING, vec![4]));
        }
        other => panic!("{:?}", other),
    }
    assert!(matches!(table.dispatch(peer(5, 6), &datagram(0, CONNECT, &[1])), Dispatch::FromClient(..)));
    assert!(matches!(table.dispatch(peer(5, 7), &datagram(0, PING, &[4])), Dispatch::NotConnected(_)));
    let again = ConnectedClient::new(peer(5, 6), 4, 1, 60);
    table.connect(again);
    assert_eq!(table.get(peer(5, 6)), Some(again));
}
