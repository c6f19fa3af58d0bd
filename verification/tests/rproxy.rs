use n3::errors::{N3Error, PacketType};
use n3::reactor::Event;
use n3::rproxy::{handle_quiche_packet, handlers, Handler, QuichePacket};
use n3::token::Token;

#[test]
fn events_are_routed_by_token() {
    let event = Event { readable: true, writable: true, read_closed: false, write_closed: false };
    assert_eq!(handlers(Token(0), event), vec![Handler::UdpReadable, Handler::UdpWritable]);
    assert_eq!(
        handlers(Token(3), event),
        vec![Handler::TcpReadable(Token(3)), Handler::TcpWritable(Token(3))]
    );
    let closed = Event { readable: false, writable: false, read_closed: true, write_closed: true };
    assert_eq!(handlers(Token(3), closed), vec![]);
}

#[test]
fn packets_are_classified() {
    assert!(matches!(handle_quiche_packet(1, PacketType::Initial), Ok(QuichePacket::Initial)));
    assert!(matches!(handle_quiche_packet(1, PacketType::Short), Ok(QuichePacket::Short)));
    assert!(matches!(
        handle_quiche_packet(1, PacketType::Retry),
        Err(N3Error::UnsupportQuicPacket(PacketType::Retry))
    ));
    assert!(matches!(
        handle_quiche_packet(2, PacketType::Initial),
        Err(N3Error::UnsupportQuicVersion(2))
    ));
}
