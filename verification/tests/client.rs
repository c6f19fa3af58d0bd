use n3::client::{
    handshake, unspecified_laddr, HandshakeAction, HandshakeEvent, QuicConnector,
};
use n3::errors::ErrorKind;
use n3::net::{IpAddr, SocketAddr};

type Connector = QuicConnector<Vec<u8>, &'static str>;

fn addrs(n: u16) -> Vec<SocketAddr> {
    (0..n).map(|port| SocketAddr::new(IpAddr::V4(0x7f00_0001), port)).collect()
}

#[test]
fn client_configuration() {
    let config = Connector::new_with_config(Ok(addrs(2)), vec![1])
        .server_name("example.org")
        .quiche_config(|config| {
            config.push(2);
            Ok(())
        })
        .0
        .unwrap();
    assert_eq!(config.server_name.as_deref(), Some("example.org"));
    assert_eq!(config.quiche_config, vec![1, 2]);
    assert_eq!(config.raddrs, addrs(2));
    assert_eq!(Connector::new(Ok(addrs(1)), Ok(vec![])).0.unwrap().server_name, None);
}

#[test]
fn the_first_client_error_is_kept() {
    assert_eq!(Connector::new(Err("dns"), Err("config")).0.err(), Some("dns"));
    assert_eq!(Connector::new(Ok(vec![]), Err("config")).0.err(), Some("config"));
    let connector = Connector::new_with_config(Err("dns"), vec![])
        .server_name("example.org")
        .quiche_config(|_| Err("late"));
    assert_eq!(connector.0.err(), Some("dns"));
    let mut connector =
        Connector::new_with_config(Ok(addrs(1)), vec![]).quiche_config(|_| Err("late"));
    assert_eq!(connector.pick_raddr(), Err(ErrorKind::Other));
    assert_eq!(connector.0.err(), Some("late"));
}

#[test]
fn any_address_is_picked_sometime() {
    let mut connector = Connector::new_with_config(Ok(addrs(4)), vec![]);
    let mut picked = vec![];
    while picked.len() < 4 {
        let addr = connector.pick_raddr().unwrap();
        if !picked.contains(&addr) {
            picked.push(addr);
        }
        let mut left: Vec<u16> =
            connector.0.as_ref().unwrap().raddrs.iter().map(|addr| addr.port).collect();
        left.sort();
        assert_eq!(left, vec![0, 1, 2, 3]);
    }
}

#[test]
fn local_address() {
    let v4 = SocketAddr::new(IpAddr::V4(9), 80);
    assert_eq!(unspecified_laddr(v4), SocketAddr::new(IpAddr::V4(0), 0));
    let v6 = SocketAddr::new(IpAddr::V6(9), 80);
    assert_eq!(unspecified_laddr(v6), SocketAddr::new(IpAddr::V6(0), 0));
}

#[test]
fn handshakes() {
    assert_eq!(handshake(HandshakeEvent::Started), HandshakeAction::Send);
    assert_eq!(handshake(HandshakeEvent::Sent(Ok(Some(5)))), HandshakeAction::Receive(Some(5)));
    assert_eq!(
        handshake(HandshakeEvent::Sent(Err(ErrorKind::BrokenPipe))),
        HandshakeAction::Failed(ErrorKind::BrokenPipe)
    );
    let received = |timed, outcome| handshake(HandshakeEvent::Received { timed, outcome });
    assert_eq!(received(true, Ok(())), HandshakeAction::Process);
    assert_eq!(received(true, Err(ErrorKind::TimedOut)), HandshakeAction::OnTimeout);
    assert_eq!(
        received(false, Err(ErrorKind::TimedOut)),
        HandshakeAction::Failed(ErrorKind::TimedOut)
    );
    assert_eq!(
        received(true, Err(ErrorKind::Other)),
        HandshakeAction::Failed(ErrorKind::Other)
    );
    assert_eq!(handshake(HandshakeEvent::TimedOut), HandshakeAction::Send);
    assert_eq!(handshake(HandshakeEvent::Processed(Ok(false))), HandshakeAction::Send);
    assert_eq!(handshake(HandshakeEvent::Processed(Ok(true))), HandshakeAction::Established);
    assert_eq!(
        handshake(HandshakeEvent::Processed(Err(ErrorKind::Other))),
        HandshakeAction::Failed(ErrorKind::Other)
    );
}
