use n3::errors::ErrorKind;
use n3::net::{IpAddr, SocketAddr};
use n3::udp_group::UdpGroupSender;

fn addr(port: u16) -> SocketAddr {
    SocketAddr::new(IpAddr::V4(0x7f00_0001), port)
}

#[test]
fn sockets_are_found_by_their_address() {
    let mut group = UdpGroupSender::new();
    assert_eq!(group.send(addr(1)), Err(ErrorKind::AddrNotAvailable));
    group.insert(addr(1), 10);
    group.insert(addr(2), 20);
    assert_eq!(group.send(addr(1)), Ok(10));
    assert_eq!(group.send(addr(2)), Ok(20));
    assert_eq!(group.send(addr(3)), Err(ErrorKind::AddrNotAvailable));

    group.insert(addr(1), 30);
    assert_eq!(group.send(addr(1)), Ok(30));
    assert_eq!(group.local_addrs(), vec![addr(1), addr(2)]);
}
