//! n3 reverse proxy implementation.

use crate::errors::{N3Error, PacketType};
use crate::reactor::Event;
use crate::server::version_is_supported;
use crate::token::Token;
use vstd::prelude::*;

verus! {

/// What an event asks for.
#[derive(Clone, Copy, Debug, PartialEq, Eq, Structural)]
pub enum Handler {
    /// Read from the udp socket.
    UdpReadable,
    /// Write to the udp socket.
    UdpWritable,
    /// Read from the tcp socket with this token.
    TcpReadable(Token),
    /// Write to the tcp socket with this token.
    TcpWritable(Token),
}

/// The token of the udp socket.
pub const UDP_TOKEN: usize = 0;

/// The handlers of an event for `token`, in the order in which they run.
pub open spec fn spec_handlers(token: Token, event: Event) -> Seq<Handler> {
    (if event.readable {
        seq![
            if token.0 == UDP_TOKEN {
                Handler::UdpReadable
            } else {
                Handler::TcpReadable(token)
            },
        ]
    } else {
        Seq::empty()
    }) + (if event.writable {
        seq![
            if token.0 == UDP_TOKEN {
                Handler::UdpWritable
            } else {
                Handler::TcpWritable(token)
            },
        ]
    } else {
        Seq::empty()
    })
}

/// Returns the handlers of an event for `token`, in the order in which they have to run.
pub fn handlers(token: Token, event: Event) -> (handlers: Vec<Handler>)
    ensures
        handlers@ == spec_handlers(token, event),
{
    let mut handlers: Vec<Handler> = Vec::new();
    // udp socket.
    if token.0 == UDP_TOKEN {
        if event.readable {
            handlers.push(Handler::UdpReadable);
        }
        if event.writable {
            handlers.push(Handler::UdpWritable);
        }
    } else {
        if event.readable {
            handlers.push(Handler::TcpReadable(token));
        }
        if event.writable {
            handlers.push(Handler::TcpWritable(token));
        }
    }
    assert(handlers@ =~= spec_handlers(token, event));
    handlers
}

/// A packet that the proxy handles.
#[derive(Clone, Copy, Debug, PartialEq, Eq, Structural)]
pub enum QuichePacket {
    /// A packet that asks for a new connection.
    Initial,
    /// A packet of an established connection.
    Short,
}

/// How a packet of type `ty` and of the protocol version `version` is handled.
pub open spec fn spec_handle_quiche_packet(version: u32, ty: PacketType) -> Result<
    QuichePacket,
    N3Error,
> {
    if version == 1 && ty == PacketType::Initial {
        Ok(QuichePacket::Initial)
    } else if version == 1 && ty == PacketType::Short {
        Ok(QuichePacket::Short)
    } else if version == 1 {
        Err(N3Error::UnsupportQuicPacket(ty))
    } else {
        Err(N3Error::UnsupportQuicVersion(version))
    }
}

/// Decides how a packet of type `ty` and of the protocol version `version` is handled.
pub fn handle_quiche_packet(version: u32, ty: PacketType) -> (res: Result<QuichePacket, N3Error>)
    ensures
        res == spec_handle_quiche_packet(version, ty),
        res == (if version != 1 {
            Err::<QuichePacket, N3Error>(N3Error::UnsupportQuicVersion(version))
        } else {
            match ty {
                PacketType::Initial => Ok(QuichePacket::Initial),
                PacketType::Short => Ok(QuichePacket::Short),
                ty => Err(N3Error::UnsupportQuicPacket(ty)),
            }
        }),
{
    if !version_is_supported(version) {
        return Err(N3Error::UnsupportQuicVersion(version));
    }
    match ty {
        PacketType::Initial => Ok(QuichePacket::Initial),
        PacketType::Short => Ok(QuichePacket::Short),
        ty => Err(N3Error::UnsupportQuicPacket(ty)),
    }
}

} // verus!
