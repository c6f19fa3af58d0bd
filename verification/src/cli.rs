//! The command line of the server and of the agent.

use std::ops::Range;

use crate::errors::ErrorKind;
use crate::net::{IpAddr, SocketAddr};
use vstd::prelude::*;
use vstd::string::{StrSliceExecFns, StringExecFns};

verus! {

/// Why a port number cannot be parsed.
#[derive(Clone, Copy, Debug, PartialEq, Eq, Structural)]
pub enum ParsePortError {
    /// There is nothing to parse.
    Empty,
    /// A character is not a digit.
    InvalidDigit,
    /// The number is too large.
    PosOverflow,
}

impl ParsePortError {
    /// The text of the error.
    pub open spec fn spec_text(self) -> Seq<char> {
        match self {
            ParsePortError::Empty => "cannot parse integer from empty string"@,
            ParsePortError::InvalidDigit => "invalid digit found in string"@,
            ParsePortError::PosOverflow => "number too large to fit in target type"@,
        }
    }

    /// Returns the text of the error.
    pub fn text(&self) -> (text: &'static str)
        ensures
            text@ == self.spec_text(),
    {
        match self {
            ParsePortError::Empty => "cannot parse integer from empty string",
            ParsePortError::InvalidDigit => "invalid digit found in string",
            ParsePortError::PosOverflow => "number too large to fit in target type",
        }
    }
}

/// `c` is a decimal digit.
pub open spec fn is_digit(c: char) -> bool {
    '0' <= c <= '9'
}

/// The number that the digits `s` stand for, or what is wrong with the first of them that does not
/// continue a number that fits.
pub open spec fn digits_value(s: Seq<char>) -> Result<u16, ParsePortError>
    decreases s.len(),
{
    if s.len() == 0 {
        Ok(0)
    } else {
        match digits_value(s.drop_last()) {
            Ok(value) => {
                let next = value * 10 + (s.last() as u32 - '0' as u32);
                if !is_digit(s.last()) {
                    Err(ParsePortError::InvalidDigit)
                } else if next > u16::MAX {
                    Err(ParsePortError::PosOverflow)
                } else {
                    Ok(next as u16)
                }
            },
            Err(err) => Err(err),
        }
    }
}

/// The port number that `s` stands for: digits, with an optional plus sign before them.
pub open spec fn port_value(s: Seq<char>) -> Result<u16, ParsePortError> {
    if s.len() == 0 {
        Err(ParsePortError::Empty)
    } else if s.len() > 1 && s[0] == '+' {
        digits_value(s.skip(1))
    } else {
        digits_value(s)
    }
}

/// An error stays.
proof fn lemma_digits_error(s: Seq<char>, n: int)
    requires
        0 <= n <= s.len(),
        digits_value(s.take(n)) is Err,
    ensures
        digits_value(s) == digits_value(s.take(n)),
    decreases s.len() - n,
{
    if n < s.len() {
        assert(s.take(n + 1).drop_last() =~= s.take(n));
        lemma_digits_error(s, n + 1);
    } else {
        assert(s.take(n) =~= s);
    }
}

/// Parses the port number in the characters of `s` from `from` up to `to`.
fn parse_part(s: &Vec<char>, from: usize, to: usize) -> (res: Result<u16, ParsePortError>)
    requires
        from <= to <= s@.len(),
    ensures
        res == port_value(s@.subrange(from as int, to as int)),
{
    let ghost part = s@.subrange(from as int, to as int);
    if from == to {
        return Err(ParsePortError::Empty);
    }
    let mut start: usize = from;
    if to - from > 1 && s[from] == '+' {
        start = from + 1;
    }
    let ghost digits = s@.subrange(start as int, to as int);
    proof {
        assert(part[0] == s@[from as int]);
        if start > from {
            assert(part.skip(1) =~= digits);
        }
    }
    let mut value: u16 = 0;
    let mut i: usize = start;
    while i < to
        invariant
            start <= i <= to <= s@.len(),
            part == s@.subrange(from as int, to as int),
            digits == s@.subrange(start as int, to as int),
            digits_value(digits.take(i - start)) == Ok::<u16, ParsePortError>(value),
            digits_value(digits) == port_value(part),
        decreases to - i,
    {
        let c: char = s[i];
        let ghost n = i - start;
        proof {
            assert(digits.take(n + 1).drop_last() =~= digits.take(n));
            assert(digits.take(n + 1).last() == c);
        }
        if c < '0' || c > '9' {
            proof {
                lemma_digits_error(digits, n + 1);
            }
            return Err(ParsePortError::InvalidDigit);
        }
        let next: u32 = value as u32 * 10 + (c as u32 - '0' as u32);
        if next > 65535 {
            proof {
                lemma_digits_error(digits, n + 1);
            }
            return Err(ParsePortError::PosOverflow);
        }
        value = next as u16;
        i = i + 1;
    }
    assert(digits.take(to - start) =~= digits);
    Ok(value)
}

/// The characters of `s`.
fn chars(s: &str) -> (chars: Vec<char>)
    ensures
        chars@ == s@,
{
    let mut chars: Vec<char> = Vec::new();
    let len: usize = s.unicode_len();
    let mut i: usize = 0;
    while i < len
        invariant
            i <= len == s@.len(),
            chars@ == s@.take(i as int),
        decreases len - i,
    {
        chars.push(s.get_char(i));
        i = i + 1;
        assert(chars@ =~= s@.take(i as int));
    }
    assert(s@.take(len as int) =~= s@);
    chars
}

/// Parses a port number: digits, with an optional plus sign before them.
pub fn parse_port(arg: &str) -> (res: Result<u16, ParsePortError>)
    ensures
        res == port_value(arg@),
{
    let s = chars(arg);
    assert(s@.subrange(0, s@.len() as int) =~= arg@);
    parse_part(&s, 0, s.len())
}

/// The position of the first colon in `s` from `from` on, or the length of `s`.
pub open spec fn next_colon(s: Seq<char>, from: int) -> int
    decreases s.len() - from,
{
    if from >= s.len() || s[from] == ':' {
        from
    } else {
        next_colon(s, from + 1)
    }
}

/// A port range, or the text that says why there is none.
pub open spec fn port_range(s: Seq<char>) -> Result<(u16, int), Seq<char>> {
    let colon = next_colon(s, 0);
    if colon >= s.len() {
        match port_value(s) {
            Ok(port) => if port < u16::MAX {
                Ok((port, port + 1))
            } else {
                Err("failed to parse port: "@ + ParsePortError::PosOverflow.spec_text())
            },
            Err(err) => Err("failed to parse port: "@ + err.spec_text()),
        }
    } else if next_colon(s, colon + 1) < s.len() {
        Err("Invalid port range, valid syntax: `xxx:xxx` or `xxx`"@)
    } else {
        match (port_value(s.take(colon)), port_value(s.skip(colon + 1))) {
            (Err(err), _) => Err("failed to parse port(from): "@ + err.spec_text()),
            (_, Err(err)) => Err("failed to parse port(to): "@ + err.spec_text()),
            (Ok(from), Ok(to)) => if to > from {
                Ok((from, to as int))
            } else {
                Err("failed to parse port range: ensure `to > from`"@)
            },
        }
    }
}

/// Finds the first colon in `s` from `from` on.
fn find_colon(s: &Vec<char>, from: usize) -> (colon: usize)
    requires
        from <= s@.len(),
    ensures
        from <= colon <= s@.len(),
        colon == next_colon(s@, from as int),
{
    let mut i: usize = from;
    while i < s.len() && s[i] != ':'
        invariant
            from <= i <= s@.len(),
            next_colon(s@, from as int) == next_colon(s@, i as int),
        decreases s.len() - i,
    {
        i = i + 1;
    }
    i
}

fn message(text: &str, err: ParsePortError) -> (message: String)
    ensures
        message@ == text@ + err.spec_text(),
{
    let mut message = text.to_owned();
    message.append(err.text());
    message
}

/// Parses a port range, `from:to` or `port`, where `to` is not in the range.
///
/// The largest port cannot stand alone, as the end of its range is too large for a port.
pub fn parse_port_range(arg: &str) -> (res: Result<Range<u16>, String>)
    ensures
        match (res, port_range(arg@)) {
            (Ok(range), Ok((from, to))) => range.start == from && range.end == to,
            (Err(message), Err(text)) => message@ == text,
            _ => false,
        },
{
    let s = chars(arg);
    let colon: usize = find_colon(&s, 0);
    assert(s@.subrange(0, s@.len() as int) =~= s@);
    if colon == s.len() {
        return match parse_part(&s, 0, colon) {
            Ok(port) => if port < u16::MAX {
                Ok(port..port + 1)
            } else {
                Err(message("failed to parse port: ", ParsePortError::PosOverflow))
            },
            Err(err) => Err(message("failed to parse port: ", err)),
        };
    }
    if find_colon(&s, colon + 1) < s.len() {
        return Err("Invalid port range, valid syntax: `xxx:xxx` or `xxx`".to_owned());
    }
    assert(s@.subrange(0, colon as int) =~= s@.take(colon as int));
    assert(s@.subrange(colon + 1, s@.len() as int) =~= s@.skip(colon + 1));
    let from: u16 = match parse_part(&s, 0, colon) {
        Ok(from) => from,
        Err(err) => {
            return Err(message("failed to parse port(from): ", err));
        },
    };
    let to: u16 = match parse_part(&s, colon + 1, s.len()) {
        Ok(to) => to,
        Err(err) => {
            return Err(message("failed to parse port(to): ", err));
        },
    };
    if !(to > from) {
        return Err("failed to parse port range: ensure `to > from`".to_owned());
    }
    Ok(from..to)
}

/// How many ports `ports` holds.
pub open spec fn port_count(ports: Range<u16>) -> int {
    if ports.end > ports.start {
        ports.end - ports.start
    } else {
        0
    }
}

/// Every port of `ports` at each of the addresses `ips`: first all the addresses with the first
/// port, then all of them with the next one, and so on.
pub open spec fn addrs_with_ports(ips: Seq<IpAddr>, ports: Range<u16>) -> Seq<SocketAddr> {
    Seq::new(
        (port_count(ports) * ips.len()) as nat,
        |k: int|
            SocketAddr::new(
                ips[k % (ips.len() as int)],
                (ports.start + k / (ips.len() as int)) as u16,
            ),
    )
}

/// Returns every port of `ports` at each of the addresses `ips`.
fn with_ports(ips: &Vec<IpAddr>, ports: Range<u16>) -> (addrs: Vec<SocketAddr>)
    ensures
        addrs@ == addrs_with_ports(ips@, ports),
{
    let ghost n = ips@.len() as int;
    let ghost all = addrs_with_ports(ips@, ports);
    let mut addrs: Vec<SocketAddr> = Vec::new();
    let mut port: u16 = ports.start;
    proof {
        assert(addrs@ =~= all.take(0));
        assert(0 * n == 0);
    }
    while port < ports.end
        invariant
            ports.start <= port,
            port > ports.start ==> port <= ports.end,
            n == ips@.len(),
            all == addrs_with_ports(ips@, ports),
            addrs@ == all.take((port - ports.start) * n),
        decreases ports.end - port,
    {
        let ghost done = port - ports.start;
        let mut i: usize = 0;
        proof {
            assert((done + 1) * n == done * n + n) by (nonlinear_arith);
            assert((done + 1) * n <= port_count(ports) * n) by (nonlinear_arith)
                requires
                    done + 1 <= port_count(ports),
                    0 <= n,
            ;
            assert(0 <= done * n) by (nonlinear_arith)
                requires
                    0 <= done,
                    0 <= n,
            ;
        }
        while i < ips.len()
            invariant
                i <= ips@.len(),
                n == ips@.len(),
                ports.start <= port < ports.end,
                done == port - ports.start,
                all == addrs_with_ports(ips@, ports),
                0 <= done * n,
                done * n + n <= all.len(),
                addrs@ == all.take(done * n + i),
            decreases ips.len() - i,
        {
            proof {
                let k = done * n + i;
                vstd::arithmetic::div_mod::lemma_fundamental_div_mod_converse(k, n, done, i as int);
                assert(all[k] == SocketAddr::new(ips@[i as int], port));
            }
            addrs.push(SocketAddr::new(ips[i], port));
            i = i + 1;
            assert(addrs@ =~= all.take(done * n + i));
        }
        port = port + 1;
    }
    proof {
        let done = port - ports.start;
        assert(done == port_count(ports));
        assert(all.take(all.len() as int) =~= all);
    }
    addrs
}

/// The addresses that the server listens on.
pub open spec fn listening_addrs(interfaces: Option<Seq<IpAddr>>, ports: Range<u16>) -> Seq<
    SocketAddr,
> {
    match interfaces {
        None => addrs_with_ports(seq![IpAddr::V6(0)], ports),
        Some(ips) => addrs_with_ports(ips, ports),
    }
}

/// Returns the addresses that the server listens on: each of the ports on each of the interfaces,
/// or on every interface if there are none given.
pub fn parse_laddrs(interfaces: Option<Vec<IpAddr>>, ports: Range<u16>) -> (laddrs: Vec<SocketAddr>)
    ensures
        laddrs@ == listening_addrs(
            match interfaces {
                Some(interfaces) => Some(interfaces@),
                None => None,
            },
            ports,
        ),
        laddrs@ == addrs_with_ports(
            match interfaces {
                Some(interfaces) => interfaces@,
                None => seq![IpAddr::V6(0)],
            },
            ports,
        ),
{
    let interfaces = match interfaces {
        Some(interfaces) => interfaces,
        None => {
            let mut any: Vec<IpAddr> = Vec::new();
            any.push(IpAddr::V6(0));
            assert(any@ =~= seq![IpAddr::V6(0)]);
            any
        },
    };
    with_ports(&interfaces, ports)
}

/// Returns the addresses of the server that an agent connects to: each of the ports at `ip`.
pub fn parse_n3_addrs(ip: IpAddr, ports: Range<u16>) -> (addrs: Vec<SocketAddr>)
    ensures
        addrs@ == addrs_with_ports(seq![ip], ports),
{
    let mut ips: Vec<IpAddr> = Vec::new();
    ips.push(ip);
    assert(ips@ =~= seq![ip]);
    with_ports(&ips, ports)
}

/// The error of a gateway without a server address, if it has none.
pub open spec fn missing_addrs(addrs: Seq<SocketAddr>) -> Option<ErrorKind> {
    if addrs.len() == 0 {
        Some(ErrorKind::InvalidInput)
    } else {
        None
    }
}

/// An agent needs an address of the server: fails with [`ErrorKind::InvalidInput`] if there is none.
pub fn check_n3_addrs(addrs: &Vec<SocketAddr>) -> (res: Result<(), ErrorKind>)
    ensures
        match res {
            Ok(_) => missing_addrs(addrs@) is None,
            Err(err) => missing_addrs(addrs@) == Some(err),
        },
        res == (if addrs@.len() == 0 {
            Err::<(), ErrorKind>(ErrorKind::InvalidInput)
        } else {
            Ok(())
        }),
{
    if addrs.len() == 0 {
        Err(ErrorKind::InvalidInput)
    } else {
        Ok(())
    }
}

/// Returns how many bytes an agent lets the server send: as many as all its streams together.
pub fn initial_max_data(max_stream_data_bidi: u64, max_streams: u64) -> (max_data: u64)
    requires
        max_stream_data_bidi * max_streams <= u64::MAX,
    ensures
        max_data == max_stream_data_bidi * max_streams,
{
    max_stream_data_bidi * max_streams
}

/// Each port at each address is listened on, and nothing else.
pub proof fn lemma_addrs_with_ports(ips: Seq<IpAddr>, ports: Range<u16>, addr: SocketAddr)
    ensures
        addrs_with_ports(ips, ports).contains(addr) <==> ips.contains(addr.ip) && ports.start
            <= addr.port < ports.end && addr == SocketAddr::new(addr.ip, addr.port),
{
    let all = addrs_with_ports(ips, ports);
    let n = ips.len() as int;
    if all.contains(addr) {
        let k = choose|k: int| 0 <= k < all.len() && all[k] == addr;
        assert(n > 0) by (nonlinear_arith)
            requires
                0 <= k < port_count(ports) * n,
                0 <= n,
        ;
        vstd::arithmetic::div_mod::lemma_mod_bound(k, n);
        vstd::arithmetic::div_mod::lemma_div_pos_is_pos(k, n);
        vstd::arithmetic::div_mod::lemma_fundamental_div_mod(k, n);
        assert(k / n < port_count(ports)) by (nonlinear_arith)
            requires
                k == n * (k / n) + k % n,
                0 <= k % n,
                0 <= k < port_count(ports) * n,
                n > 0,
        ;
        assert(ips[k % n] == addr.ip);
    }
    if ips.contains(addr.ip) && ports.start <= addr.port < ports.end && addr == SocketAddr::new(
        addr.ip,
        addr.port,
    ) {
        let i = choose|i: int| 0 <= i < n && ips[i] == addr.ip;
        let done = addr.port - ports.start;
        let k = done * n + i;
        assert(0 <= k < port_count(ports) * n) by (nonlinear_arith)
            requires
                k == done * n + i,
                0 <= i < n,
                0 <= done < port_count(ports),
        ;
        vstd::arithmetic::div_mod::lemma_fundamental_div_mod_converse(k, n, done, i);
        assert(all[k] == addr);
    }
}

/// A port range that is accepted is never empty.
pub proof fn lemma_port_range_not_empty(arg: Seq<char>)
    ensures
        port_range(arg) matches Ok((from, to)) ==> from < to,
{
}

} // verus!
