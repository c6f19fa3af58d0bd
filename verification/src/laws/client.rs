//! What a client does during a handshake.

use crate::client::{
    spec_handshake, spec_unspecified_laddr, HandshakeAction, HandshakeEvent, QuicConnectConfig, QuicConnector,
};
use crate::errors::ErrorKind;
use crate::net::{IpAddr, SocketAddr};
use vstd::prelude::*;

verus! {

/// Each action of a handshake is taken after certain events only, and with what the event brings.
/// The handshake fails if and only if sending, receiving or processing has failed, with the very
/// error, and the error is not the timeout that a timed wait may end with.
pub proof fn lemma_way_of_a_handshake(event: HandshakeEvent, timeout: Option<u128>, err: ErrorKind)
    ensures
        spec_handshake(event) == HandshakeAction::Send <==> event == HandshakeEvent::Started || event
            == HandshakeEvent::TimedOut || event == HandshakeEvent::Processed(Ok(false)),
        spec_handshake(event) == HandshakeAction::Receive(timeout) <==> event
            == HandshakeEvent::Sent(Ok(timeout)),
        spec_handshake(event) == HandshakeAction::Process <==> (event
            matches HandshakeEvent::Received { outcome, .. } && outcome is Ok),
        spec_handshake(event) == HandshakeAction::Established <==> event
            == HandshakeEvent::Processed(Ok(true)),
        spec_handshake(event) == HandshakeAction::OnTimeout <==> (event
            == HandshakeEvent::Received { timed: true, outcome: Err(ErrorKind::TimedOut) }),
        spec_handshake(event) == HandshakeAction::Failed(err) <==> {
            ||| event == HandshakeEvent::Sent(Err(err))
            ||| event == HandshakeEvent::Processed(Err(err))
            ||| event == (HandshakeEvent::Received { timed: false, outcome: Err(err) })
            ||| event == (HandshakeEvent::Received { timed: true, outcome: Err(err) }) && err
                != ErrorKind::TimedOut
        },
{
}

/// A client binds to any address of the family of the server, and to any port.
pub proof fn lemma_local_address(raddr: SocketAddr)
    ensures
        ({
            let laddr = spec_unspecified_laddr(raddr);
            &&& raddr.ip is V4 ==> laddr.ip == IpAddr::V4(0)
            &&& raddr.ip is V6 ==> laddr.ip == IpAddr::V6(0)
            &&& laddr.port == 0
            &&& laddr.flowinfo == 0
            &&& laddr.scope_id == 0
        }),
{
}

/// A connector keeps its addresses and its configuration, and asks for no server name, if and only
/// if both were given; otherwise it keeps the error, that of the addresses first.
pub proof fn lemma_new_connector<C, E>(
    raddrs: Result<Vec<SocketAddr>, E>,
    quiche_config: Result<C, E>,
)
    ensures
        ({
            let connector = QuicConnector::spec_new(raddrs, quiche_config);
            &&& connector.0 is Ok <==> raddrs is Ok && quiche_config is Ok
            &&& connector.0 matches Ok(config) ==> raddrs == Ok::<Vec<SocketAddr>, E>(config.raddrs)
                && quiche_config == Ok::<C, E>(config.quiche_config) && config.server_name is None
            &&& raddrs matches Err(err) ==> connector.0 == Err::<QuicConnectConfig<C>, E>(err)
            &&& raddrs is Ok ==> (quiche_config matches Err(err) ==> connector.0 == Err::<
                QuicConnectConfig<C>,
                E,
            >(err))
        }),
{
}

} // verus!
