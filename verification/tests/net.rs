use n3::net::{to_be_bytes, u64_from_be_bytes, IpAddr, SocketAddr};

#[test]
fn octets() {
    assert_eq!(IpAddr::V4(0x7f00_0001).octets(), vec![127, 0, 0, 1]);
    let mut loopback = vec![0; 16];
    loopback[15] = 1;
    assert_eq!(IpAddr::V6(1).octets(), loopback);
}

#[test]
fn big_endian_round_trip() {
    assert_eq!(to_be_bytes(0x0102, 8), vec![0, 0, 0, 0, 0, 0, 1, 2]);
    for n in [0, 1, 255, 256, u64::MAX] {
        assert_eq!(u64_from_be_bytes(&to_be_bytes(n as u128, 8)), n);
    }
}

#[test]
fn addresses_with_scopes() {
    let addr = SocketAddr::new(IpAddr::V6(1), 80);
    assert_eq!(addr, SocketAddr { ip: IpAddr::V6(1), port: 80, flowinfo: 0, scope_id: 0 });
    assert_ne!(addr, SocketAddr { scope_id: 2, ..addr });
    assert_ne!(addr, SocketAddr { flowinfo: 2, ..addr });
}
