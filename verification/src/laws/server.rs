//! What a listener does with packets and connections.

use crate::errors::{ErrorKind, PacketType, QuicheError};
use crate::server::{
    spec_accept, spec_delivered, spec_initial, spec_initial_next, Dispatch, InitialAction,
    InitialEvent, InitialStep, QuicListenerView, QuicServer, QuicServerConfig, TrySendError,
};
use vstd::prelude::*;

verus! {

/// Every packet for an active connection goes to this connection, whatever its type is and however
/// many connections there are.
pub proof fn lemma_known_connection_gets_every_packet(
    listener: QuicListenerView,
    ty: PacketType,
    dcid: Seq<u8>,
)
    requires
        listener.conns.contains_key(dcid),
    ensures
        listener.dispatch(ty, dcid) == Dispatch::Connection(listener.conns[dcid]),
{
}

/// A packet for no active connection asks for a new one if and only if it is an initial packet and
/// fewer connections are active than may be; any other one is dropped.
pub proof fn lemma_unknown_connection_needs_initial_packet(
    listener: QuicListenerView,
    ty: PacketType,
    dcid: Seq<u8>,
)
    requires
        !listener.conns.contains_key(dcid),
    ensures
        listener.dispatch(ty, dcid) == Dispatch::Initial <==> ty == PacketType::Initial && (
        listener.max_active is None || listener.conns.dom().len() < listener.max_active->0),
        listener.dispatch(ty, dcid) == Dispatch::Initial || listener.dispatch(ty, dcid)
            == Dispatch::Ignore,
{
}

/// From the moment a connection is accepted, all its packets go to it, and it is handed out once
/// its handshake is complete, unless it was already. No other connection is touched.
pub proof fn lemma_accepted_connection_gets_its_packets(
    listener: QuicListenerView,
    dcid: Seq<u8>,
    number: u64,
    is_established: bool,
    ty: PacketType,
    other: Seq<u8>,
)
    ensures
        ({
            let after = listener.accepted(dcid, number, is_established);
            &&& after.dispatch(ty, dcid) == Dispatch::Connection(number)
            &&& after.conns.dom() == listener.conns.dom().insert(dcid)
            &&& after.handshaking.contains(dcid) <==> !is_established
                || listener.handshaking.contains(dcid)
            &&& other != dcid ==> {
                &&& after.conns.contains_key(other) == listener.conns.contains_key(other)
                &&& after.conns[other] == listener.conns[other]
                &&& after.handshaking.contains(other) == listener.handshaking.contains(other)
            }
            &&& after.max_active == listener.max_active
        }),
{
    assert(listener.accepted(dcid, number, is_established).conns.dom() =~= listener.conns.dom().insert(
        dcid,
    ));
}

/// A packet that a connection has processed changes nothing but that an established connection has
/// no incomplete handshake: packets go where they went.
pub proof fn lemma_received_packet_completes_a_handshake(
    listener: QuicListenerView,
    dcid: Seq<u8>,
    is_established: bool,
    other: Seq<u8>,
    ty: PacketType,
)
    ensures
        ({
            let after = listener.received(dcid, is_established);
            &&& after.conns == listener.conns
            &&& after.max_active == listener.max_active
            &&& after.handshaking.contains(other) <==> listener.handshaking.contains(other) && !(
            other == dcid && is_established)
            &&& after.dispatch(ty, other) == listener.dispatch(ty, other)
        }),
{
}

/// A connection that has come to its end gets no packet any more, and is not handed out any more. No
/// other connection is touched.
pub proof fn lemma_closed_connection_is_forgotten(
    listener: QuicListenerView,
    scid: Seq<u8>,
    number: u64,
    other: Seq<u8>,
    ty: PacketType,
)
    ensures
        ({
            let after = listener.closed(scid);
            &&& after.dispatch(ty, scid) != Dispatch::Connection(number)
            &&& !after.conns.contains_key(scid)
            &&& !after.handshaking.contains(scid)
            &&& other != scid ==> {
                &&& after.conns.contains_key(other) == listener.conns.contains_key(other)
                &&& after.conns[other] == listener.conns[other]
                &&& after.handshaking.contains(other) == listener.handshaking.contains(other)
                &&& listener.conns.contains_key(other) ==> after.dispatch(ty, other)
                    == Dispatch::Connection(listener.conns[other])
            }
            &&& after.max_active == listener.max_active
        }),
{
}

/// A client that speaks another version than the first one is told so; one that speaks it is sent
/// a retry packet until it comes with a token, which is then validated.
pub proof fn lemma_initial_packet_by_version_and_token(version: u32, token: Seq<u8>)
    ensures
        spec_initial(version, token) == InitialStep::NegotiateVersion <==> version != 1,
        spec_initial(version, token) == InitialStep::Retry <==> version == 1 && token.len() == 0,
        spec_initial(version, token) == InitialStep::Validate <==> version == 1 && token.len() > 0,
{
}

/// The way of an initial packet: each action is taken after one event only, and with what the event
/// brings. The listener stops if and only if a token cannot be minted or an answer cannot be sent,
/// with the very error; whatever else is refused only ends the way of the packet.
pub proof fn lemma_way_of_an_initial_packet(
    event: InitialEvent,
    bytes: Vec<u8>,
    flag: bool,
    size: usize,
    err: ErrorKind,
    stack_err: QuicheError,
)
    ensures
        spec_initial_next(event) == InitialAction::Accept(bytes) <==> event
            == InitialEvent::Validated(Some(bytes)),
        spec_initial_next(event) is Receive <==> event matches InitialEvent::Accepted(Ok(_)),
        spec_initial_next(event) == InitialAction::Keep(flag) <==> event == InitialEvent::Received(
            Ok(flag),
        ),
        spec_initial_next(event) == InitialAction::WriteRetry(bytes) <==> event
            == InitialEvent::Minted(Ok(bytes)),
        spec_initial_next(event) == InitialAction::Answer(size) <==> event == InitialEvent::Written(
            Ok(size),
        ),
        spec_initial_next(event) == InitialAction::Done(Err::<(), ErrorKind>(err)) <==> event
            == InitialEvent::Minted(Err(err)) || event == InitialEvent::Sent(Err(err)),
        spec_initial_next(event) == InitialAction::Done(Ok::<(), ErrorKind>(())) <==> (event
            == InitialEvent::Validated(None) || event matches InitialEvent::Accepted(Err(_)) || event
            matches InitialEvent::Received(Err(_)) || event matches InitialEvent::Written(Err(_))
            || event matches InitialEvent::Sent(Ok(_))),
        spec_initial_next(InitialEvent::Accepted(Err(stack_err))) == InitialAction::Done(
            Ok::<(), ErrorKind>(()),
        ),
        spec_initial_next(InitialEvent::Received(Err(stack_err))) == InitialAction::Done(
            Ok::<(), ErrorKind>(()),
        ),
        spec_initial_next(InitialEvent::Written(Err(stack_err))) == InitialAction::Done(
            Ok::<(), ErrorKind>(()),
        ),
        spec_initial_next(InitialEvent::Sent(Ok(size))) == InitialAction::Done(
            Ok::<(), ErrorKind>(()),
        ),
{
}

/// A listener that is not configured otherwise lets tokens live for a minute, queues a hundred
/// connections, validates addresses by its own means and has no limit, whatever the protocol stack
/// is configured with.
pub proof fn lemma_default_configuration<C, V>(config: C)
    ensures
        ({
            let initial = QuicServerConfig::<C, V>::initial(config);
            &&& initial.config == config
            &&& initial.validator is None
            &&& initial.retry_token_timeout == 60 * 1_000_000_000
            &&& initial.incoming_queue_size == 100
            &&& initial.max_active_conn_size is None
        }),
{
}

/// A listener is within its limit if and only if it has none, or no more connections are active than
/// it says; and of a listener in order every connection with an incomplete handshake is active.
pub proof fn lemma_listener_in_order(listener: QuicListenerView, dcid: Seq<u8>)
    ensures
        listener.within_limit() <==> listener.max_active is None || listener.conns.dom().len()
            <= listener.max_active->0,
        listener.wf() && listener.handshaking.contains(dcid) ==> listener.conns.contains_key(dcid),
        listener.wf() ==> listener.conns.dom().finite(),
{
}

/// A server that is configured has room for a connection in its queue.
pub proof fn lemma_queue_of_a_server<C, V, E>(server: QuicServer<C, V, E>)
    ensures
        server.wf() <==> server.0 is Err || server.0->Ok_0.incoming_queue_size >= 1,
{
}

/// A listener that is gone stops the driver; a queue that is full does not.
pub proof fn lemma_driver_goes_on(sent: Result<(), TrySendError>)
    ensures
        spec_delivered(sent) is Err <==> sent == Err::<(), TrySendError>(TrySendError::Disconnected),
        spec_delivered(sent) is Err ==> spec_delivered(sent) == Err::<(), ErrorKind>(
            ErrorKind::Other,
        ),
{
}

/// Accepting gives the next connection, and a broken pipe when there is none any more.
pub proof fn lemma_accepting_a_connection<T>(conn: T)
    ensures
        spec_accept(Some(conn)) == Ok::<T, ErrorKind>(conn),
        spec_accept(None::<T>) == Err::<T, ErrorKind>(ErrorKind::BrokenPipe),
{
}

/// A connection is handed out with the packet that completes its handshake, and with no later one.
pub proof fn lemma_handed_out_once(
    listener: QuicListenerView,
    dcid: Seq<u8>,
    is_established: bool,
    later: bool,
)
    ensures
        listener.delivers(dcid, is_established) <==> is_established && listener.handshaking.contains(
            dcid,
        ),
        listener.delivers(dcid, is_established) ==> !listener.received(
            dcid,
            is_established,
        ).delivers(dcid, later),
        !is_established ==> listener.received(dcid, is_established).delivers(dcid, true)
            == listener.handshaking.contains(dcid),
{
}

} // verus!
