//! The decisions of a QUIC listener: its configuration, and what becomes of each packet.

use dashmap::{DashMap, DashSet};

use crate::errors::{ErrorKind, PacketType, QuicheError};
use crate::net::SocketAddr;
use vstd::prelude::*;

verus! {

/// A concurrent hash set. What it holds is the view of the functions below.
#[verifier::external_type_specification]
#[verifier::external_body]
#[verifier::reject_recursive_types(K)]
#[verifier::reject_recursive_types(S)]
pub struct ExDashSet<K, S>(DashSet<K, S>);

/// The number that `conns` holds for each connection identifier.
pub uninterp spec fn conn_numbers(conns: DashMap<Vec<u8>, u64>) -> Map<Seq<u8>, u64>;

/// The connection identifiers that `conns` holds.
pub uninterp spec fn conn_ids(conns: DashSet<Vec<u8>>) -> Set<Seq<u8>>;

/// Calls `DashMap::new`, which returns an empty map.
#[verifier::external_body]
fn conns_new() -> (res: DashMap<Vec<u8>, u64>)
    ensures
        conn_numbers(res).dom() == Set::<Seq<u8>>::empty(),
{
    DashMap::new()
}

/// Calls `DashMap::get`, which looks up the value of a key.
#[verifier::external_body]
fn conns_get(conns: &DashMap<Vec<u8>, u64>, id: &[u8]) -> (res: Option<u64>)
    ensures
        res == if conn_numbers(*conns).contains_key(id@) {
            Some(conn_numbers(*conns)[id@])
        } else {
            None
        },
{
    conns.get(id).map(|entry| *entry.value())
}

/// Calls `DashMap::insert`, which sets the value of a key. Nobody else holds the map, so no other
/// change comes between.
#[verifier::external_body]
fn conns_insert(conns: &mut DashMap<Vec<u8>, u64>, id: Vec<u8>, number: u64)
    ensures
        conn_numbers(*final(conns)) == conn_numbers(*old(conns)).insert(id@, number),
{
    conns.insert(id, number);
}

/// Calls `DashMap::remove`, which takes the entry of a key out of the map. Nobody else holds the
/// map, so no other change comes between.
#[verifier::external_body]
fn conns_remove(conns: &mut DashMap<Vec<u8>, u64>, id: &[u8])
    ensures
        conn_numbers(*final(conns)) == conn_numbers(*old(conns)).remove(id@),
{
    conns.remove(id);
}

/// Calls `DashMap::len`, which counts the entries.
#[verifier::external_body]
fn conns_len(conns: &DashMap<Vec<u8>, u64>) -> (res: usize)
    ensures
        res == conn_numbers(*conns).dom().len(),
{
    conns.len()
}

/// Calls `DashSet::new`, which returns an empty set.
#[verifier::external_body]
fn handshakes_new() -> (res: DashSet<Vec<u8>>)
    ensures
        conn_ids(res) == Set::<Seq<u8>>::empty(),
{
    DashSet::new()
}

/// Calls `DashSet::contains`, which tells whether the set holds a key.
#[verifier::external_body]
fn handshakes_contains(conns: &DashSet<Vec<u8>>, id: &[u8]) -> (res: bool)
    ensures
        res == conn_ids(*conns).contains(id@),
{
    conns.contains(id)
}

/// Calls `DashSet::insert`, which adds a key. Nobody else holds the set, so no other change comes
/// between.
#[verifier::external_body]
fn handshakes_insert(conns: &mut DashSet<Vec<u8>>, id: Vec<u8>)
    ensures
        conn_ids(*final(conns)) == conn_ids(*old(conns)).insert(id@),
{
    conns.insert(id);
}

/// Calls `DashSet::remove`, which takes a key out. Nobody else holds the set, so no other change
/// comes between.
#[verifier::external_body]
fn handshakes_remove(conns: &mut DashSet<Vec<u8>>, id: &[u8])
    ensures
        conn_ids(*final(conns)) == conn_ids(*old(conns)).remove(id@),
{
    conns.remove(id);
}

/// The only version of the protocol that is supported.
pub const PROTOCOL_VERSION_V1: u32 = 0x0000_0001;

/// Returns true if the given protocol version is supported.
pub fn version_is_supported(version: u32) -> (res: bool)
    ensures
        res == (version == PROTOCOL_VERSION_V1),
{
    version == PROTOCOL_VERSION_V1
}

/// Nanoseconds after which a retry token expires, unless configured otherwise: a minute.
pub const RETRY_TOKEN_TIMEOUT: u128 = 60_000_000_000;

/// How many connections wait to be accepted at most, unless configured otherwise.
pub const INCOMING_QUEUE_SIZE: usize = 100;

/// The configuration of a listener, with the configuration `C` of the protocol stack and the
/// validator `V` of addresses.
pub struct QuicServerConfig<C, V> {
    /// quic server-side config.
    pub config: C,
    /// validator for retry packet.
    pub validator: Option<V>,
    /// expiration interval for retry token, in nanoseconds.
    pub retry_token_timeout: u128,
    /// The maximun unhandle incoming quic connection length.
    pub incoming_queue_size: usize,
    /// The maximum number of active connections.
    pub max_active_conn_size: Option<usize>,
}

impl<C, V> QuicServerConfig<C, V> {
    /// The default configuration.
    pub open spec fn initial(config: C) -> QuicServerConfig<C, V> {
        QuicServerConfig {
            config,
            validator: None,
            retry_token_timeout: RETRY_TOKEN_TIMEOUT,
            incoming_queue_size: INCOMING_QUEUE_SIZE,
            max_active_conn_size: None,
        }
    }

    /// Returns the capacity of the channel for incoming connections: its sender has one slot
    /// besides.
    pub fn channel_capacity(&self) -> (capacity: usize)
        requires
            self.incoming_queue_size > 0,
        ensures
            capacity == self.incoming_queue_size - 1,
    {
        self.incoming_queue_size - 1
    }
}

/// Builder for quic server sockets. The first error of a configuration step, of type `E`, is kept.
pub struct QuicServer<C, V, E>(pub Result<QuicServerConfig<C, V>, E>);

impl<C, V, E> QuicServer<C, V, E> {
    /// The configuration is usable.
    pub open spec fn wf(self) -> bool {
        self.0 matches Ok(config) ==> config.incoming_queue_size > 0
    }

    /// Start build a quic server with the configuration of the protocol stack.
    pub fn with_quiche_config(config: C) -> (server: Self)
        ensures
            server.wf(),
            server.0 == Ok::<QuicServerConfig<C, V>, E>(QuicServerConfig::initial(config)),
    {
        QuicServer(
            Ok(
                QuicServerConfig {
                    config,
                    validator: None,
                    retry_token_timeout: RETRY_TOKEN_TIMEOUT,
                    incoming_queue_size: INCOMING_QUEUE_SIZE,
                    max_active_conn_size: None,
                },
            ),
        )
    }

    /// Update the configuration of the protocol stack by `f`, unless an earlier step has failed.
    pub fn quiche_config<F: FnOnce(&mut C) -> Result<(), E>>(self, f: F) -> (server: Self)
        requires
            self.wf(),
            self.0 matches Ok(config) ==> forall|c: &mut C|
                *c == config.config ==> #[trigger] call_requires(f, (c,)),
        ensures
            server.wf(),
            match self.0 {
                Ok(config) => exists|c: &mut C, outcome: Result<(), E>|
                    {
                        &&& *c == config.config
                        &&& #[trigger] call_ensures(f, (c,), outcome)
                        &&& match outcome {
                            Ok(_) => server.0 == Ok::<QuicServerConfig<C, V>, E>(
                                QuicServerConfig { config: *final(c), ..config },
                            ),
                            Err(err) => server.0 == Err::<QuicServerConfig<C, V>, E>(err),
                        }
                    },
                Err(_) => server == self,
            },
    {
        match self.0 {
            Ok(config) => {
                let mut config = config;
                match f(&mut config.config) {
                    Ok(_) => QuicServer(Ok(config)),
                    Err(err) => QuicServer(Err(err)),
                }
            },
            Err(err) => QuicServer(Err(err)),
        }
    }

    /// Update the `maximun unhandle incoming connection size`, the default value is `100`.
    pub fn incoming_queue_size(self, value: usize) -> (server: Self)
        requires
            self.wf(),
            value > 0,
        ensures
            server.wf(),
            match self.0 {
                Ok(config) => server.0 == Ok::<QuicServerConfig<C, V>, E>(
                    QuicServerConfig { incoming_queue_size: value, ..config },
                ),
                Err(_) => server == self,
            },
    {
        match self.0 {
            Ok(config) => {
                let mut config = config;
                config.incoming_queue_size = value;
                QuicServer(Ok(config))
            },
            Err(err) => QuicServer(Err(err)),
        }
    }

    /// Update the maximum number of active connections. There is no limit by default.
    pub fn max_active_conn_size(self, value: usize) -> (server: Self)
        requires
            self.wf(),
        ensures
            server.wf(),
            match self.0 {
                Ok(config) => server.0 == Ok::<QuicServerConfig<C, V>, E>(
                    QuicServerConfig { max_active_conn_size: Some(value), ..config },
                ),
                Err(_) => server == self,
            },
    {
        match self.0 {
            Ok(config) => {
                let mut config = config;
                config.max_active_conn_size = Some(value);
                QuicServer(Ok(config))
            },
            Err(err) => QuicServer(Err(err)),
        }
    }

    /// Update expiration interval for retry token, in nanoseconds, the default value `60s`.
    pub fn retry_token_timeout(self, duration: u128) -> (server: Self)
        requires
            self.wf(),
        ensures
            server.wf(),
            match self.0 {
                Ok(config) => server.0 == Ok::<QuicServerConfig<C, V>, E>(
                    QuicServerConfig { retry_token_timeout: duration, ..config },
                ),
                Err(_) => server == self,
            },
    {
        match self.0 {
            Ok(config) => {
                let mut config = config;
                config.retry_token_timeout = duration;
                QuicServer(Ok(config))
            },
            Err(err) => QuicServer(Err(err)),
        }
    }

    /// Update validator provider.
    pub fn validator(self, validator: V) -> (server: Self)
        requires
            self.wf(),
        ensures
            server.wf(),
            match self.0 {
                Ok(config) => server.0 == Ok::<QuicServerConfig<C, V>, E>(
                    QuicServerConfig { validator: Some(validator), ..config },
                ),
                Err(_) => server == self,
            },
    {
        match self.0 {
            Ok(config) => {
                let mut config = config;
                config.validator = Some(validator);
                QuicServer(Ok(config))
            },
            Err(err) => QuicServer(Err(err)),
        }
    }
}

/// What becomes of a packet.
#[derive(Clone, Copy, Debug, PartialEq, Eq, Structural)]
pub enum Dispatch {
    /// The packet belongs to the connection with this number.
    Connection(u64),
    /// The packet asks for a new connection.
    Initial,
    /// The packet is dropped.
    Ignore,
}

/// What becomes of a packet that asks for a new connection.
#[derive(Clone, Copy, Debug, PartialEq, Eq, Structural)]
pub enum InitialStep {
    /// Send a version negotiation packet.
    NegotiateVersion,
    /// Send a retry packet.
    Retry,
    /// Validate the address of the client.
    Validate,
}

/// What a packet that asks for a new connection needs.
pub open spec fn spec_initial(version: u32, token: Seq<u8>) -> InitialStep {
    if version != PROTOCOL_VERSION_V1 {
        InitialStep::NegotiateVersion
    } else if token.len() == 0 {
        InitialStep::Retry
    } else {
        InitialStep::Validate
    }
}

/// Decides what a packet that asks for a new connection needs, by its version and its token.
pub fn initial(version: u32, token: &[u8]) -> (step: InitialStep)
    ensures
        step == spec_initial(version, token@),
{
    // send Version negotiation packet.
    if !version_is_supported(version) {
        return InitialStep::NegotiateVersion;
    }
    // send retry packet.
    if token.len() == 0 {
        return InitialStep::Retry;
    }
    InitialStep::Validate
}

/// What has happened to a packet that asks for a new connection.
pub enum InitialEvent {
    /// The address of the client was validated, which gives the connection identifier that the
    /// client first chose, or was found invalid.
    Validated(Option<Vec<u8>>),
    /// The protocol stack has accepted the connection, or not.
    Accepted(Result<(), QuicheError>),
    /// The new connection has processed the packet, which says whether it is established, or not.
    Received(Result<bool, QuicheError>),
    /// A retry token was minted, or not.
    Minted(Result<Vec<u8>, ErrorKind>),
    /// The packet to answer with was written, which gives its size, or not.
    Written(Result<usize, QuicheError>),
    /// The packet to answer with was sent, or not.
    Sent(Result<usize, ErrorKind>),
}

/// What to do next with a packet that asks for a new connection.
pub enum InitialAction {
    /// Accept the connection with the connection identifier that the client first chose.
    Accept(Vec<u8>),
    /// Let the new connection process the packet.
    Receive,
    /// Keep the new connection, which is established or not.
    Keep(bool),
    /// Write a retry packet with this token.
    WriteRetry(Vec<u8>),
    /// Send as many bytes back to the client.
    Answer(usize),
    /// Nothing is left to do with the packet. An error stops the listener.
    Done(Result<(), ErrorKind>),
}

/// What to do after an event.
pub open spec fn spec_initial_next(event: InitialEvent) -> InitialAction {
    match event {
        InitialEvent::Validated(Some(odcid)) => InitialAction::Accept(odcid),
        InitialEvent::Accepted(Ok(_)) => InitialAction::Receive,
        InitialEvent::Received(Ok(is_established)) => InitialAction::Keep(is_established),
        InitialEvent::Minted(Ok(token)) => InitialAction::WriteRetry(token),
        InitialEvent::Written(Ok(size)) => InitialAction::Answer(size),
        InitialEvent::Minted(Err(err)) => InitialAction::Done(Err(err)),
        InitialEvent::Sent(Err(err)) => InitialAction::Done(Err(err)),
        _ => InitialAction::Done(Ok(())),
    }
}

/// Decides what to do after an event.
///
/// A packet that the validator or the protocol stack refuses is dropped.
pub fn initial_next(event: InitialEvent) -> (action: InitialAction)
    ensures
        action == spec_initial_next(event),
{
    match event {
        InitialEvent::Validated(odcid) => match odcid {
            Some(odcid) => InitialAction::Accept(odcid),
            None => InitialAction::Done(Ok(())),
        },
        InitialEvent::Accepted(accepted) => match accepted {
            Ok(_) => InitialAction::Receive,
            Err(_) => InitialAction::Done(Ok(())),
        },
        InitialEvent::Received(received) => match received {
            Ok(is_established) => InitialAction::Keep(is_established),
            Err(_) => InitialAction::Done(Ok(())),
        },
        InitialEvent::Minted(minted) => match minted {
            Ok(token) => InitialAction::WriteRetry(token),
            Err(err) => InitialAction::Done(Err(err)),
        },
        InitialEvent::Written(written) => match written {
            Ok(size) => InitialAction::Answer(size),
            Err(_) => InitialAction::Done(Ok(())),
        },
        InitialEvent::Sent(sent) => match sent {
            Ok(_) => InitialAction::Done(Ok(())),
            Err(err) => InitialAction::Done(Err(err)),
        },
    }
}

/// Why a connection could not be handed to the listener.
#[derive(Clone, Copy, Debug, PartialEq, Eq, Structural)]
pub enum TrySendError {
    /// The queue of incoming connections is full.
    Full,
    /// The listener is gone.
    Disconnected,
}

/// Whether the driver goes on when a connection was handed to the listener with the outcome `sent`.
pub open spec fn spec_delivered(sent: Result<(), TrySendError>) -> Result<(), ErrorKind> {
    match sent {
        Err(TrySendError::Disconnected) => Err(ErrorKind::Other),
        _ => Ok(()),
    }
}

/// What accepting gives, when `next` is the next connection of the queue.
pub open spec fn spec_accept<T>(next: Option<T>) -> Result<T, ErrorKind> {
    match next {
        None => Err(ErrorKind::BrokenPipe),
        Some(conn) => Ok(conn),
    }
}

/// What is known of a listener.
#[verifier::ext_equal]
pub struct QuicListenerView {
    /// The numbers of the active connections.
    pub conns: Map<Seq<u8>, u64>,
    /// The connections whose handshake is not complete.
    pub handshaking: Set<Seq<u8>>,
    /// The maximum number of active connections.
    pub max_active: Option<usize>,
}

impl QuicListenerView {
    /// Every connection with an incomplete handshake is active.
    pub open spec fn wf(self) -> bool {
        &&& self.conns.dom().finite()
        &&& self.handshaking.subset_of(self.conns.dom())
    }

    /// There are no more active connections than the maximum.
    pub open spec fn within_limit(self) -> bool {
        self.max_active matches Some(max) ==> self.conns.dom().len() <= max
    }

    /// There is room for one more connection.
    pub open spec fn has_room(self) -> bool {
        self.max_active matches Some(max) ==> self.conns.dom().len() < max
    }

    /// What becomes of a packet of type `ty` for the connection `dcid`.
    pub open spec fn dispatch(self, ty: PacketType, dcid: Seq<u8>) -> Dispatch {
        if self.conns.contains_key(dcid) {
            Dispatch::Connection(self.conns[dcid])
        } else if ty == PacketType::Initial && self.has_room() {
            Dispatch::Initial
        } else {
            Dispatch::Ignore
        }
    }

    /// The listener after it has accepted the connection `dcid` under the number `number`.
    pub open spec fn accepted(self, dcid: Seq<u8>, number: u64, is_established: bool) -> Self {
        QuicListenerView {
            conns: self.conns.insert(dcid, number),
            handshaking: if is_established {
                self.handshaking
            } else {
                self.handshaking.insert(dcid)
            },
            ..self
        }
    }

    /// The listener after the connection `dcid` has processed a packet.
    pub open spec fn received(self, dcid: Seq<u8>, is_established: bool) -> Self {
        QuicListenerView {
            handshaking: if is_established {
                self.handshaking.remove(dcid)
            } else {
                self.handshaking
            },
            ..self
        }
    }

    /// The connection `dcid` has completed its handshake with a packet, so that it is handed out.
    pub open spec fn delivers(self, dcid: Seq<u8>, is_established: bool) -> bool {
        self.handshaking.contains(dcid) && is_established
    }

    /// The listener after the connection `scid` has come to its end.
    pub open spec fn closed(self, scid: Seq<u8>) -> Self {
        QuicListenerView {
            conns: self.conns.remove(scid),
            handshaking: self.handshaking.remove(scid),
            ..self
        }
    }
}

/// Listener driver.
pub struct QuicListenerDriver {
    /// handshaking connections.
    handshaking_conn_set: DashSet<Vec<u8>>,
    /// aliving quic streams.
    quiche_conn_set: DashMap<Vec<u8>, u64>,
    /// The maximum number of active connections.
    max_active_conn_size: Option<usize>,
}

impl View for QuicListenerDriver {
    type V = QuicListenerView;

    closed spec fn view(&self) -> QuicListenerView {
        QuicListenerView {
            conns: conn_numbers(self.quiche_conn_set),
            handshaking: conn_ids(self.handshaking_conn_set),
            max_active: self.max_active_conn_size,
        }
    }
}

impl QuicListenerDriver {
    /// Creates a driver without connections.
    pub fn new(max_active_conn_size: Option<usize>) -> (driver: Self)
        ensures
            driver@.wf(),
            driver@.within_limit(),
            driver@ == (QuicListenerView {
                conns: Map::empty(),
                handshaking: Set::empty(),
                max_active: max_active_conn_size,
            }),
    {
        let driver = QuicListenerDriver {
            handshaking_conn_set: handshakes_new(),
            quiche_conn_set: conns_new(),
            max_active_conn_size,
        };
        assert(driver@.conns =~= Map::<Seq<u8>, u64>::empty());
        driver
    }

    /// Returns the count of the active connections.
    pub fn active_conns(&self) -> (count: usize)
        ensures
            count == self@.conns.dom().len(),
    {
        conns_len(&self.quiche_conn_set)
    }

    /// Decides what becomes of a packet of type `ty` for the connection `dcid`.
    ///
    /// A packet that asks for a new connection is dropped when there is no room for one.
    pub fn dispatch(&self, ty: PacketType, dcid: &[u8]) -> (res: Dispatch)
        ensures
            res == self@.dispatch(ty, dcid@),
    {
        if let Some(number) = conns_get(&self.quiche_conn_set, dcid) {
            return Dispatch::Connection(number);
        }
        match ty {
            PacketType::Initial => {
                if let Some(max) = self.max_active_conn_size {
                    if self.active_conns() >= max {
                        return Dispatch::Ignore;
                    }
                }
                Dispatch::Initial
            },
            _ => Dispatch::Ignore,
        }
    }

    /// Adds the connection `dcid`, which the protocol stack has accepted.
    pub fn accepted(&mut self, dcid: &[u8], number: u64, is_established: bool)
        requires
            old(self)@.wf(),
        ensures
            final(self)@.wf(),
            final(self)@ == old(self)@.accepted(dcid@, number, is_established),
            old(self)@.has_room() ==> final(self)@.within_limit(),
    {
        // add to handshaking set.
        if !is_established {
            handshakes_insert(&mut self.handshaking_conn_set, vstd::slice::slice_to_vec(dcid));
        }
        conns_insert(&mut self.quiche_conn_set, vstd::slice::slice_to_vec(dcid), number);
    }

    /// Takes in that the connection `dcid` has processed a packet.
    ///
    /// Returns true if this has completed the handshake, so that the connection has to be handed to
    /// the listener.
    pub fn received(&mut self, dcid: &[u8], is_established: bool) -> (deliver: bool)
        requires
            old(self)@.wf(),
        ensures
            final(self)@.wf(),
            final(self)@ == old(self)@.received(dcid@, is_established),
            old(self)@.within_limit() ==> final(self)@.within_limit(),
            deliver == (is_established && old(self)@.handshaking.contains(dcid@)),
            deliver == old(self)@.delivers(dcid@, is_established),
    {
        if handshakes_contains(&self.handshaking_conn_set, dcid) {
            if is_established {
                handshakes_remove(&mut self.handshaking_conn_set, dcid);
                return true;
            }
        }
        assert(self@ =~= old(self)@.received(dcid@, is_established));
        false
    }

    /// Decides whether the driver goes on when a connection was handed to the listener with the
    /// outcome `sent`: a connection that finds the queue full is dropped.
    pub fn delivered(&self, sent: Result<(), TrySendError>) -> (res: Result<(), ErrorKind>)
        ensures
            res == spec_delivered(sent),
            res == if sent == Err::<(), TrySendError>(TrySendError::Disconnected) {
                Err::<(), ErrorKind>(ErrorKind::Other)
            } else {
                Ok(())
            },
    {
        match sent {
            Ok(_) => Ok(()),
            Err(TrySendError::Full) => Ok(()),
            Err(TrySendError::Disconnected) => Err(ErrorKind::Other),
        }
    }

    /// Removes the connection `scid`, which has come to its end.
    pub fn closed(&mut self, scid: &[u8])
        requires
            old(self)@.wf(),
        ensures
            final(self)@.wf(),
            final(self)@ == old(self)@.closed(scid@),
            old(self)@.within_limit() ==> final(self)@.within_limit(),
    {
        // clearup:
        // - try remove from handshaking set.
        // - try remove from established set.
        handshakes_remove(&mut self.handshaking_conn_set, scid);
        conns_remove(&mut self.quiche_conn_set, scid);
    }
}

/// Server socket for quic.
pub struct QuicListener {
    laddrs: Vec<SocketAddr>,
}

impl QuicListener {
    /// The local bound addresses.
    pub closed spec fn addrs(self) -> Seq<SocketAddr> {
        self.laddrs@
    }

    /// Creates a listener that is bound to `laddrs`.
    pub fn new(laddrs: Vec<SocketAddr>) -> (listener: Self)
        ensures
            listener.addrs() == laddrs@,
    {
        QuicListener { laddrs }
    }

    /// Returns the local bound addresses.
    pub fn local_addrs(&self) -> (laddrs: &Vec<SocketAddr>)
        ensures
            laddrs@ == self.addrs(),
    {
        &self.laddrs
    }

    /// Accepts the `next` connection of the queue. There is none if the listener is shut down.
    pub fn accept<T>(&self, next: Option<T>) -> (res: Result<T, ErrorKind>)
        ensures
            res == spec_accept(next),
            res == match next {
                Some(conn) => Ok::<T, ErrorKind>(conn),
                None => Err(ErrorKind::BrokenPipe),
            },
    {
        if let Some(next) = next {
            Ok(next)
        } else {
            Err(ErrorKind::BrokenPipe)
        }
    }
}

/// A connection that is accepted, completes its handshake and comes to its end is handed to the
/// listener exactly once, and leaves no trace.
pub proof fn lemma_connection_is_delivered_once(
    listener: QuicListenerView,
    dcid: Seq<u8>,
    number: u64,
)
    requires
        listener.wf(),
        !listener.conns.contains_key(dcid),
    ensures
        ({
            let accepted = listener.accepted(dcid, number, false);
            let established = accepted.received(dcid, true);
            &&& accepted.dispatch(PacketType::Initial, dcid) == Dispatch::Connection(number)
            &&& accepted.handshaking.contains(dcid)
            &&& !established.handshaking.contains(dcid)
            &&& established.dispatch(PacketType::Short, dcid) == Dispatch::Connection(number)
            &&& established.closed(dcid) == listener
            &&& accepted.closed(dcid) == listener
        }),
{
    let accepted = listener.accepted(dcid, number, false);
    let established = accepted.received(dcid, true);
    assert(established.closed(dcid) =~= listener);
    assert(accepted.closed(dcid) =~= listener);
}

/// What happens to a listener.
pub enum ListenerStep {
    /// The connection is accepted under the number, with its handshake complete or not.
    Accepted(Seq<u8>, u64, bool),
    /// The connection has processed a packet, and its handshake is complete or not.
    Received(Seq<u8>, bool),
    /// The connection has come to its end.
    Closed(Seq<u8>),
}

impl QuicListenerView {
    /// The listener after `step`.
    pub open spec fn after(self, step: ListenerStep) -> QuicListenerView {
        match step {
            ListenerStep::Accepted(dcid, number, is_established) => self.accepted(
                dcid,
                number,
                is_established,
            ),
            ListenerStep::Received(dcid, is_established) => self.received(dcid, is_established),
            ListenerStep::Closed(scid) => self.closed(scid),
        }
    }

    /// The listener after `steps`.
    pub open spec fn after_all(self, steps: Seq<ListenerStep>) -> QuicListenerView
        decreases steps.len(),
    {
        if steps.len() == 0 {
            self
        } else {
            self.after_all(steps.drop_last()).after(steps.last())
        }
    }

    /// `step` may happen: a connection is accepted only where a packet was dispatched for it.
    pub open spec fn allows(self, step: ListenerStep) -> bool {
        step matches ListenerStep::Accepted(dcid, _, _) ==> self.dispatch(PacketType::Initial, dcid)
            == Dispatch::Initial
    }

    /// Each of `steps` may happen.
    pub open spec fn allows_all(self, steps: Seq<ListenerStep>) -> bool
        decreases steps.len(),
    {
        steps.len() == 0 || {
            &&& self.allows_all(steps.drop_last())
            &&& self.after_all(steps.drop_last()).allows(steps.last())
        }
    }
}

/// A step that may happen keeps the number of active connections within the maximum: a packet that
/// is processed and a connection that comes to its end always do, and a connection that is accepted
/// does where its packet was dispatched as asking for a new connection.
pub proof fn lemma_limit_is_kept(listener: QuicListenerView, step: ListenerStep)
    requires
        listener.wf(),
        listener.within_limit(),
        listener.allows(step),
    ensures
        listener.after(step).wf(),
        listener.after(step).within_limit(),
        listener.after(step).max_active == listener.max_active,
{
}

/// The number of active connections never exceeds the maximum, in whatever state a listener is, if
/// only connections are accepted that a packet was dispatched for.
pub proof fn lemma_active_conns_are_limited(listener: QuicListenerView, steps: Seq<ListenerStep>)
    requires
        listener.wf(),
        listener.within_limit(),
        listener.allows_all(steps),
    ensures
        listener.after_all(steps).wf(),
        listener.after_all(steps).within_limit(),
        listener.after_all(steps).max_active == listener.max_active,
    decreases steps.len(),
{
    if steps.len() > 0 {
        lemma_active_conns_are_limited(listener, steps.drop_last());
        lemma_limit_is_kept(listener.after_all(steps.drop_last()), steps.last());
    }
}

/// The room that a packet was dispatched for lasts until another connection is accepted.
pub proof fn lemma_room_lasts(
    listener: QuicListenerView,
    ty: PacketType,
    dcid: Seq<u8>,
    step: ListenerStep,
)
    requires
        listener.wf(),
        listener.dispatch(ty, dcid) == Dispatch::Initial,
        !(step is Accepted),
    ensures
        listener.after(step).dispatch(ty, dcid) == Dispatch::Initial,
{
}

/// No packet makes a connection unless its address was validated: a connection is accepted only with
/// the connection identifier that the validator has given.
pub proof fn lemma_only_validated_connections(event: InitialEvent)
    ensures
        spec_initial_next(event) is Accept <==> (event matches InitialEvent::Validated(odcid)
            && odcid is Some),
        spec_initial_next(event) matches InitialAction::Accept(odcid) ==> event
            == InitialEvent::Validated(Some(odcid)),
        spec_initial_next(event) is Keep <==> (event matches InitialEvent::Received(received)
            && received is Ok),
{
}

/// When there is no room, a packet for an unknown connection is dropped, whatever it is.
pub proof fn lemma_full_listener_ignores(
    listener: QuicListenerView,
    ty: PacketType,
    dcid: Seq<u8>,
)
    requires
        !listener.has_room(),
        !listener.conns.contains_key(dcid),
    ensures
        listener.dispatch(ty, dcid) == Dispatch::Ignore,
{
}

} // verus!
