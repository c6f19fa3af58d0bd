use n3::errors::{ErrorKind, PacketType, QuicheError};
use n3::net::{IpAddr, SocketAddr};
use n3::server::{
    initial, initial_next, version_is_supported, Dispatch, InitialAction, InitialEvent,
    InitialStep, QuicListener, QuicListenerDriver, QuicServer, TrySendError,
};

type Server = QuicServer<Vec<u8>, u8, &'static str>;

#[test]
fn defaults() {
    let config = Server::with_quiche_config(vec![1]).0.unwrap();
    assert_eq!(config.config, vec![1]);
    assert_eq!(config.retry_token_timeout, 60_000_000_000);
    assert_eq!(config.incoming_queue_size, 100);
    assert_eq!(config.channel_capacity(), 99);
    assert_eq!(config.max_active_conn_size, None);
    assert_eq!(config.validator, None);
}

#[test]
fn server_configuration() {
    let config = Server::with_quiche_config(vec![1])
        .incoming_queue_size(3)
        .max_active_conn_size(10)
        .retry_token_timeout(5)
        .validator(7)
        .quiche_config(|config| {
            config.push(2);
            Ok(())
        })
        .0
        .unwrap();
    assert_eq!(config.config, vec![1, 2]);
    assert_eq!(config.channel_capacity(), 2);
    assert_eq!(config.max_active_conn_size, Some(10));
    assert_eq!(config.retry_token_timeout, 5);
    assert_eq!(config.validator, Some(7));
}

#[test]
fn the_first_server_error_is_kept() {
    let server = Server::with_quiche_config(vec![])
        .quiche_config(|_| Err("first"))
        .quiche_config(|_| Err("second"))
        .incoming_queue_size(1)
        .max_active_conn_size(1)
        .retry_token_timeout(1)
        .validator(1);
    assert_eq!(server.0.err(), Some("first"));
}

#[test]
fn connections_live_and_die() {
    let mut driver = QuicListenerDriver::new(None);
    assert_eq!(driver.dispatch(PacketType::Initial, &[1]), Dispatch::Initial);
    assert_eq!(driver.dispatch(PacketType::Short, &[1]), Dispatch::Ignore);

    driver.accepted(&[1], 10, false);
    driver.accepted(&[2], 20, true);
    assert_eq!(driver.active_conns(), 2);
    assert_eq!(driver.dispatch(PacketType::Initial, &[1]), Dispatch::Connection(10));
    assert_eq!(driver.dispatch(PacketType::Short, &[2]), Dispatch::Connection(20));
    assert_eq!(driver.dispatch(PacketType::Initial, &[3]), Dispatch::Initial);

    assert!(!driver.received(&[1], false));
    assert!(driver.received(&[1], true));
    assert!(!driver.received(&[1], true));
    assert!(!driver.received(&[2], true));

    driver.closed(&[1]);
    assert_eq!(driver.active_conns(), 1);
    assert_eq!(driver.dispatch(PacketType::Handshake, &[1]), Dispatch::Ignore);
    driver.closed(&[1]);
    assert_eq!(driver.active_conns(), 1);
}

#[test]
fn a_full_listener_ignores_handshakes() {
    let mut driver = QuicListenerDriver::new(Some(3));
    for id in 0..3 {
        assert_eq!(driver.dispatch(PacketType::Initial, &[id]), Dispatch::Initial);
        driver.accepted(&[id], id as u64, false);
        assert!(driver.received(&[id], true));
    }
    assert_eq!(driver.dispatch(PacketType::Initial, &[3]), Dispatch::Ignore);
    assert_eq!(driver.dispatch(PacketType::Short, &[2]), Dispatch::Connection(2));
    driver.closed(&[0]);
    assert_eq!(driver.dispatch(PacketType::Initial, &[3]), Dispatch::Initial);
}

#[test]
fn the_limit_holds_in_every_state() {
    let mut driver = QuicListenerDriver::new(Some(2));
    for step in 0..40u8 {
        let id = [step % 5];
        if driver.dispatch(PacketType::Initial, &id) == Dispatch::Initial {
            // what happens to others between the packet and the connection makes no difference
            driver.received(&[(step + 1) % 5], true);
            driver.closed(&[(step + 2) % 5]);
            assert_eq!(driver.dispatch(PacketType::Initial, &id), Dispatch::Initial);
            driver.accepted(&id, step as u64, step % 2 == 0);
        }
        assert!(driver.active_conns() <= 2);
        driver.received(&[step % 3], true);
        if step % 7 == 0 {
            driver.closed(&[step % 5]);
        }
        assert!(driver.active_conns() <= 2);
    }

    let driver = QuicListenerDriver::new(Some(0));
    assert_eq!(driver.dispatch(PacketType::Initial, &[1]), Dispatch::Ignore);
}

#[test]
fn a_full_queue_drops_the_connection() {
    let driver = QuicListenerDriver::new(None);
    assert_eq!(driver.delivered(Ok(())), Ok(()));
    assert_eq!(driver.delivered(Err(TrySendError::Full)), Ok(()));
    assert_eq!(driver.delivered(Err(TrySendError::Disconnected)), Err(ErrorKind::Other));
}

#[test]
fn initial_packets() {
    assert!(version_is_supported(1));
    assert!(!version_is_supported(0xff00_001d));
    assert_eq!(initial(2, &[]), InitialStep::NegotiateVersion);
    assert_eq!(initial(1, &[]), InitialStep::Retry);
    assert_eq!(initial(1, &[0]), InitialStep::Validate);
}

#[test]
fn the_way_of_an_initial_packet() {
    assert!(matches!(
        initial_next(InitialEvent::Validated(Some(vec![4]))),
        InitialAction::Accept(odcid) if odcid == vec![4]
    ));
    assert!(matches!(initial_next(InitialEvent::Validated(None)), InitialAction::Done(Ok(()))));
    assert!(matches!(initial_next(InitialEvent::Accepted(Ok(()))), InitialAction::Receive));
    assert!(matches!(
        initial_next(InitialEvent::Accepted(Err(QuicheError::CryptoFail))),
        InitialAction::Done(Ok(()))
    ));
    assert!(matches!(initial_next(InitialEvent::Received(Ok(false))), InitialAction::Keep(false)));
    assert!(matches!(
        initial_next(InitialEvent::Received(Err(QuicheError::InvalidPacket))),
        InitialAction::Done(Ok(()))
    ));
    assert!(matches!(
        initial_next(InitialEvent::Minted(Ok(vec![5]))),
        InitialAction::WriteRetry(token) if token == vec![5]
    ));
    assert!(matches!(
        initial_next(InitialEvent::Minted(Err(ErrorKind::Other))),
        InitialAction::Done(Err(ErrorKind::Other))
    ));
    assert!(matches!(initial_next(InitialEvent::Written(Ok(9))), InitialAction::Answer(9)));
    assert!(matches!(
        initial_next(InitialEvent::Written(Err(QuicheError::BufferTooShort))),
        InitialAction::Done(Ok(()))
    ));
    assert!(matches!(initial_next(InitialEvent::Sent(Ok(9))), InitialAction::Done(Ok(()))));
    assert!(matches!(
        initial_next(InitialEvent::Sent(Err(ErrorKind::AddrNotAvailable))),
        InitialAction::Done(Err(ErrorKind::AddrNotAvailable))
    ));
}

#[test]
fn listener() {
    let addr = SocketAddr::new(IpAddr::V4(1), 2);
    let listener = QuicListener::new(vec![addr]);
    assert_eq!(listener.local_addrs(), &vec![addr]);
    assert_eq!(listener.accept(Some(3)), Ok(3));
    assert_eq!(listener.accept::<u8>(None), Err(ErrorKind::BrokenPipe));
}
