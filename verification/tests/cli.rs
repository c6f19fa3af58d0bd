use n3::cli::{
    check_n3_addrs, initial_max_data, parse_laddrs, parse_n3_addrs, parse_port, parse_port_range, ParsePortError,
};
use n3::errors::ErrorKind;
use n3::net::{IpAddr, SocketAddr};

#[test]
fn ports() {
    assert_eq!(parse_port("80"), Ok(80));
    assert_eq!(parse_port("+80"), Ok(80));
    assert_eq!(parse_port("00080"), Ok(80));
    assert_eq!(parse_port("65535"), Ok(65535));
    assert_eq!(parse_port(""), Err(ParsePortError::Empty));
    assert_eq!(parse_port("+"), Err(ParsePortError::InvalidDigit));
    assert_eq!(parse_port("-1"), Err(ParsePortError::InvalidDigit));
    assert_eq!(parse_port(" 80"), Err(ParsePortError::InvalidDigit));
    assert_eq!(parse_port("65536"), Err(ParsePortError::PosOverflow));
    assert_eq!(parse_port("99999x"), Err(ParsePortError::PosOverflow));
    assert_eq!(parse_port("8\u{660}"), Err(ParsePortError::InvalidDigit));
}

/// Parsing agrees with the standard library, down to the texts of the errors.
#[test]
fn ports_as_in_std() {
    for arg in [
        "", "+", "-", "++1", "1+", "0", "7", "65535", "65536", "655350", "6553x", "70000x", "x", "é",
        "000000000001", "+65535", "1_000", "0x10",
    ] {
        match (parse_port(arg), arg.parse::<u16>()) {
            (Ok(ours), Ok(theirs)) => assert_eq!(ours, theirs),
            (Err(ours), Err(theirs)) => assert_eq!(ours.text(), theirs.to_string()),
            (ours, theirs) => panic!("{arg}: {ours:?} {theirs:?}"),
        }
    }
}

#[test]
fn port_ranges() {
    assert_eq!(parse_port_range("80"), Ok(80..81));
    assert_eq!(parse_port_range("65534"), Ok(65534..65535));
    assert_eq!(parse_port_range("80:90"), Ok(80..90));
    assert_eq!(parse_port_range("0:65535"), Ok(0..65535));
}

#[test]
fn port_range_errors() {
    let error = |arg: &str| parse_port_range(arg).unwrap_err();
    assert_eq!(error(""), "failed to parse port: cannot parse integer from empty string");
    assert_eq!(error("65535"), "failed to parse port: number too large to fit in target type");
    assert_eq!(error("65536"), "failed to parse port: number too large to fit in target type");
    assert_eq!(error("a"), "failed to parse port: invalid digit found in string");
    assert_eq!(error(":1"), "failed to parse port(from): cannot parse integer from empty string");
    assert_eq!(error("1:"), "failed to parse port(to): cannot parse integer from empty string");
    assert_eq!(error("1:65536"), "failed to parse port(to): number too large to fit in target type");
    assert_eq!(error("a:b"), "failed to parse port(from): invalid digit found in string");
    assert_eq!(error("2:2"), "failed to parse port range: ensure `to > from`");
    assert_eq!(error("3:2"), "failed to parse port range: ensure `to > from`");
    assert_eq!(error("1:2:3"), "Invalid port range, valid syntax: `xxx:xxx` or `xxx`");
    assert_eq!(error("::"), "Invalid port range, valid syntax: `xxx:xxx` or `xxx`");
}

#[test]
fn listening_addresses() {
    let (a, b) = (IpAddr::V4(1), IpAddr::V6(2));
    let at = |ip, port| SocketAddr::new(ip, port);
    assert_eq!(
        parse_laddrs(Some(vec![a, b]), 80..82),
        vec![at(a, 80), at(b, 80), at(a, 81), at(b, 81)]
    );
    assert_eq!(parse_laddrs(None, 80..81), vec![at(IpAddr::V6(0), 80)]);
    assert_eq!(parse_laddrs(Some(vec![]), 80..82), vec![]);
}

#[test]
fn server_addresses() {
    let ip = IpAddr::V4(1);
    assert_eq!(
        parse_n3_addrs(ip, 80..82),
        vec![SocketAddr::new(ip, 80), SocketAddr::new(ip, 81)]
    );
    assert_eq!(parse_n3_addrs(ip, 80..80), vec![]);
    assert_eq!(check_n3_addrs(&parse_n3_addrs(ip, 80..80)), Err(ErrorKind::InvalidInput));
    assert_eq!(check_n3_addrs(&parse_n3_addrs(ip, 80..81)), Ok(()));
}

#[test]
fn max_data() {
    assert_eq!(initial_max_data(1024 * 1024 * 10, 100), 1_048_576_000);
}
