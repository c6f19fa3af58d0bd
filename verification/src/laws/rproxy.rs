//! Where the proxy sends an event.

use crate::errors::{N3Error, PacketType};
use crate::reactor::Event;
use crate::rproxy::{spec_handle_quiche_packet, spec_handlers, Handler, QuichePacket};
use crate::token::Token;
use vstd::prelude::*;

verus! {

/// An event runs a reading handler if and only if it is readable, and a writing one if and only if
/// it is writable, the reading one first. Those of token zero serve the udp socket, and those of any
/// other token the tcp socket with this token.
pub proof fn lemma_handlers_of_an_event(token: Token, event: Event)
    ensures
        ({
            let handlers = spec_handlers(token, event);
            let (read, write) = if token.0 == 0 {
                (Handler::UdpReadable, Handler::UdpWritable)
            } else {
                (Handler::TcpReadable(token), Handler::TcpWritable(token))
            };
            &&& handlers.contains(read) <==> event.readable
            &&& handlers.contains(write) <==> event.writable
            &&& forall|i: int|
                0 <= i < handlers.len() ==> (#[trigger] handlers[i] == read || handlers[i] == write)
            &&& handlers.len() == (if event.readable {
                1int
            } else {
                0
            }) + (if event.writable {
                1int
            } else {
                0
            })
            &&& event.readable ==> handlers[0] == read
            &&& event.writable ==> handlers.last() == write
        }),
{
    let handlers = spec_handlers(token, event);
    if event.readable {
        assert(handlers[0] == handlers.first());
    }
    if event.writable {
        assert(handlers[handlers.len() - 1] == handlers.last());
    }
}

/// A packet is handled if and only if it speaks the first version and asks for a connection or belongs
/// to an established one. Another version is refused first, and any other packet is refused by its
/// type.
pub proof fn lemma_handled_packets(version: u32, ty: PacketType)
    ensures
        spec_handle_quiche_packet(version, ty) == Ok::<QuichePacket, N3Error>(QuichePacket::Initial)
            <==> version == 1 && ty == PacketType::Initial,
        spec_handle_quiche_packet(version, ty) == Ok::<QuichePacket, N3Error>(QuichePacket::Short)
            <==> version == 1 && ty == PacketType::Short,
        version != 1 ==> spec_handle_quiche_packet(version, ty) == Err::<QuichePacket, N3Error>(
            N3Error::UnsupportQuicVersion(version),
        ),
        version == 1 && ty != PacketType::Initial && ty != PacketType::Short
            ==> spec_handle_quiche_packet(version, ty) == Err::<QuichePacket, N3Error>(
            N3Error::UnsupportQuicPacket(ty),
        ),
{
}

} // verus!
