//! The decisions of a QUIC client: its configuration, the address to connect to, and the handshake.

use rand::seq::SliceRandom;

use crate::errors::ErrorKind;
use crate::net::{IpAddr, SocketAddr};
use vstd::prelude::*;

verus! {

/// Calls `SliceRandom::shuffle` with the generator of the thread, `rand::rng`, which puts the
/// elements of a slice into a random order: it takes none away and adds none. Which order comes out
/// is left to chance, and nothing is said of it.
#[verifier::external_body]
fn shuffle(addrs: &mut Vec<SocketAddr>)
    ensures
        final(addrs)@.to_multiset() == old(addrs)@.to_multiset(),
{
    addrs.shuffle(&mut rand::rng());
}

/// The configuration of a client, with the configuration `C` of the protocol stack.
pub struct QuicConnectConfig<C> {
    /// quic client-side config.
    pub quiche_config: C,
    /// The name that the certificate of the server is verified against.
    pub server_name: Option<String>,
    /// The addresses of the server.
    pub raddrs: Vec<SocketAddr>,
}

/// A builder for quic client sockets. The first error of a configuration step, of type `E`, is kept.
pub struct QuicConnector<C, E>(pub Result<QuicConnectConfig<C>, E>);

impl<C, E> QuicConnector<C, E> {
    /// The connector to `raddrs` with `quiche_config`.
    pub open spec fn spec_new(
        raddrs: Result<Vec<SocketAddr>, E>,
        quiche_config: Result<C, E>,
    ) -> Self {
        match (raddrs, quiche_config) {
            (Ok(raddrs), Ok(quiche_config)) => QuicConnector(
                Ok(QuicConnectConfig { quiche_config, server_name: None, raddrs }),
            ),
            (Ok(_), Err(err)) => QuicConnector(Err(err)),
            (Err(err), _) => QuicConnector(Err(err)),
        }
    }

    /// Create a new `QuicConnector` instance from the outcome of the name resolution and of the
    /// configuration of the protocol stack.
    pub fn new(raddrs: Result<Vec<SocketAddr>, E>, quiche_config: Result<C, E>) -> (connector: Self)
        ensures
            connector == Self::spec_new(raddrs, quiche_config),
            match (raddrs, quiche_config) {
                (Ok(raddrs), Ok(quiche_config)) => connector.0 == Ok::<QuicConnectConfig<C>, E>(
                    QuicConnectConfig { quiche_config, server_name: None, raddrs },
                ),
                (Ok(_), Err(err)) => connector.0 == Err::<QuicConnectConfig<C>, E>(err),
                (Err(err), _) => connector.0 == Err::<QuicConnectConfig<C>, E>(err),
            },
    {
        match raddrs {
            Ok(raddrs) => match quiche_config {
                Ok(quiche_config) => QuicConnector(
                    Ok(QuicConnectConfig { quiche_config, server_name: None, raddrs }),
                ),
                Err(err) => QuicConnector(Err(err)),
            },
            Err(err) => QuicConnector(Err(err)),
        }
    }

    /// Create a new `QuicConnector` instance.
    pub fn new_with_config(raddrs: Result<Vec<SocketAddr>, E>, quiche_config: C) -> (connector: Self)
        ensures
            connector.0 == match raddrs {
                Ok(raddrs) => Ok::<QuicConnectConfig<C>, E>(
                    QuicConnectConfig { quiche_config, server_name: None, raddrs },
                ),
                Err(err) => Err(err),
            },
    {
        Self::new(raddrs, Ok(quiche_config))
    }

    /// Configure the `server_name` parameter, which is used to verify the peer's
    /// certificate.
    pub fn server_name(self, name: &str) -> (connector: Self)
        ensures
            match (self.0, connector.0) {
                (Ok(before), Ok(after)) => {
                    &&& after.server_name is Some
                    &&& after.server_name->0@ == name@
                    &&& after.quiche_config == before.quiche_config
                    &&& after.raddrs == before.raddrs
                },
                (Err(before), Err(after)) => before == after,
                _ => false,
            },
    {
        match self.0 {
            Ok(config) => {
                let mut config = config;
                config.server_name = Some(name.to_owned());
                QuicConnector(Ok(config))
            },
            Err(err) => QuicConnector(Err(err)),
        }
    }

    /// Update the configuration of the protocol stack by `f`, unless an earlier step has failed.
    pub fn quiche_config<F: FnOnce(&mut C) -> Result<(), E>>(self, f: F) -> (connector: Self)
        requires
            self.0 matches Ok(config) ==> forall|c: &mut C|
                *c == config.quiche_config ==> #[trigger] call_requires(f, (c,)),
        ensures
            match self.0 {
                Ok(config) => exists|c: &mut C, outcome: Result<(), E>|
                    {
                        &&& *c == config.quiche_config
                        &&& #[trigger] call_ensures(f, (c,), outcome)
                        &&& match outcome {
                            Ok(_) => connector.0 == Ok::<QuicConnectConfig<C>, E>(
                                QuicConnectConfig { quiche_config: *final(c), ..config },
                            ),
                            Err(err) => connector.0 == Err::<QuicConnectConfig<C>, E>(err),
                        }
                    },
                Err(_) => connector == self,
            },
    {
        match self.0 {
            Ok(config) => {
                let mut config = config;
                match f(&mut config.quiche_config) {
                    Ok(_) => QuicConnector(Ok(config)),
                    Err(err) => QuicConnector(Err(err)),
                }
            },
            Err(err) => QuicConnector(Err(err)),
        }
    }

    /// Picks a random address in the address pool to connect to.
    ///
    /// A configuration that has failed is reported as [`ErrorKind::Other`].
    pub fn pick_raddr(&mut self) -> (res: Result<SocketAddr, ErrorKind>)
        requires
            old(self).0 matches Ok(config) ==> config.raddrs@.len() > 0,
        ensures
            match (old(self).0, final(self).0) {
                (Ok(before), Ok(after)) => {
                    &&& after.raddrs@.to_multiset() == before.raddrs@.to_multiset()
                    &&& after.server_name == before.server_name
                    &&& after.quiche_config == before.quiche_config
                    &&& after.raddrs@.len() > 0
                    &&& res == Ok::<SocketAddr, ErrorKind>(after.raddrs@[0])
                    &&& before.raddrs@.contains(after.raddrs@[0])
                },
                (Err(before), Err(after)) => {
                    &&& before == after
                    &&& res == Err::<SocketAddr, ErrorKind>(ErrorKind::Other)
                },
                _ => false,
            },
    {
        match &mut self.0 {
            Ok(config) => {
                let ghost before = config.raddrs@;
                shuffle(&mut config.raddrs);
                proof {
                    vstd::seq_lib::to_multiset_len(before);
                    vstd::seq_lib::to_multiset_len(config.raddrs@);
                    let picked = config.raddrs@[0];
                    assert(config.raddrs@.contains(picked));
                    vstd::seq_lib::to_multiset_contains(config.raddrs@, picked);
                    vstd::seq_lib::to_multiset_contains(before, picked);
                }
                Ok(config.raddrs[0])
            },
            Err(_) => Err(ErrorKind::Other),
        }
    }
}

/// The local address to bind to when connecting to `raddr`.
pub open spec fn spec_unspecified_laddr(raddr: SocketAddr) -> SocketAddr {
    match raddr.ip {
        IpAddr::V4(_) => SocketAddr::new(IpAddr::V4(0), 0),
        IpAddr::V6(_) => SocketAddr::new(IpAddr::V6(0), 0),
    }
}

/// Returns the local address to bind to when connecting to `raddr`: any address of the same family,
/// and any port.
pub fn unspecified_laddr(raddr: SocketAddr) -> (laddr: SocketAddr)
    ensures
        laddr == spec_unspecified_laddr(raddr),
        laddr == SocketAddr::new(
            if raddr.ip is V4 {
                IpAddr::V4(0)
            } else {
                IpAddr::V6(0)
            },
            0,
        ),
{
    match raddr.ip {
        IpAddr::V4(_) => SocketAddr::new(IpAddr::V4(0), 0),
        IpAddr::V6(_) => SocketAddr::new(IpAddr::V6(0), 0),
    }
}

/// What has happened during a handshake.
#[derive(Clone, Copy, Debug, PartialEq, Eq)]
pub enum HandshakeEvent {
    /// The handshake begins.
    Started,
    /// A packet was sent, and this is the timeout of the connection; or none could be sent.
    Sent(Result<Option<u128>, ErrorKind>),
    /// A packet has come in, or an error, while waiting with or without a timeout.
    Received { timed: bool, outcome: Result<(), ErrorKind> },
    /// The protocol stack was told of the timeout.
    TimedOut,
    /// The packet was processed, and this says whether the connection is established.
    Processed(Result<bool, ErrorKind>),
}

/// What to do next during a handshake.
#[derive(Clone, Copy, Debug, PartialEq, Eq, Structural)]
pub enum HandshakeAction {
    /// Send the next packet.
    Send,
    /// Wait for a packet, with or without a timeout.
    Receive(Option<u128>),
    /// Tell the protocol stack of the timeout.
    OnTimeout,
    /// Process the packet.
    Process,
    /// The connection is established.
    Established,
    /// The handshake has failed.
    Failed(ErrorKind),
}

/// What to do after an event.
pub open spec fn spec_handshake(event: HandshakeEvent) -> HandshakeAction {
    match event {
        HandshakeEvent::Started => HandshakeAction::Send,
        HandshakeEvent::Sent(Ok(timeout)) => HandshakeAction::Receive(timeout),
        HandshakeEvent::Sent(Err(err)) => HandshakeAction::Failed(err),
        HandshakeEvent::Received { outcome: Ok(_), .. } => HandshakeAction::Process,
        HandshakeEvent::Received { timed, outcome: Err(err) } => if timed && err
            == ErrorKind::TimedOut {
            HandshakeAction::OnTimeout
        } else {
            HandshakeAction::Failed(err)
        },
        HandshakeEvent::TimedOut => HandshakeAction::Send,
        HandshakeEvent::Processed(Ok(is_established)) => if is_established {
            HandshakeAction::Established
        } else {
            HandshakeAction::Send
        },
        HandshakeEvent::Processed(Err(err)) => HandshakeAction::Failed(err),
    }
}

/// Decides what to do after an event of a handshake.
pub fn handshake(event: HandshakeEvent) -> (action: HandshakeAction)
    ensures
        action == spec_handshake(event),
{
    match event {
        HandshakeEvent::Started => HandshakeAction::Send,
        HandshakeEvent::Sent(sent) => match sent {
            Ok(timeout) => HandshakeAction::Receive(timeout),
            Err(err) => HandshakeAction::Failed(err),
        },
        HandshakeEvent::Received { timed, outcome } => match outcome {
            Ok(_) => HandshakeAction::Process,
            Err(err) => {
                if timed && err == ErrorKind::TimedOut {
                    HandshakeAction::OnTimeout
                } else {
                    HandshakeAction::Failed(err)
                }
            },
        },
        HandshakeEvent::TimedOut => HandshakeAction::Send,
        HandshakeEvent::Processed(processed) => match processed {
            Ok(is_established) => {
                if is_established {
                    HandshakeAction::Established
                } else {
                    HandshakeAction::Send
                }
            },
            Err(err) => HandshakeAction::Failed(err),
        },
    }
}

/// A timeout while the client waits for the server is not the end of the handshake: another packet
/// is sent.
pub proof fn lemma_handshake_survives_timeout()
    ensures
        spec_handshake(
            HandshakeEvent::Received { timed: true, outcome: Err(ErrorKind::TimedOut) },
        ) == HandshakeAction::OnTimeout,
        spec_handshake(HandshakeEvent::TimedOut) == HandshakeAction::Send,
{
}

/// A handshake succeeds only when the protocol stack says so.
pub proof fn lemma_handshake_is_established(event: HandshakeEvent)
    ensures
        spec_handshake(event) == HandshakeAction::Established <==> event
            == HandshakeEvent::Processed(Ok(true)),
{
}

} // verus!
