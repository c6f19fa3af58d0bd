//! What the arguments of the command line mean.

use std::ops::Range;

use crate::cli::{
    addrs_with_ports, digits_value, is_digit, lemma_addrs_with_ports, listening_addrs,
    missing_addrs, next_colon, port_count, port_range, port_value, ParsePortError,
};
use crate::errors::ErrorKind;
use crate::net::{IpAddr, SocketAddr};
use vstd::prelude::*;

verus! {

/// The number that digits stand for, however large it is.
pub open spec fn decimal(digits: Seq<char>) -> int
    decreases digits.len(),
{
    if digits.len() == 0 {
        0
    } else {
        decimal(digits.drop_last()) * 10 + (digits.last() as int - 48)
    }
}

/// Digits stand for a port if and only if the number fits, and then for that number, with or without
/// a plus sign before them.
pub proof fn lemma_port_of_digits(digits: Seq<char>)
    requires
        digits.len() > 0,
        forall|i: int| 0 <= i < digits.len() ==> '0' <= #[trigger] digits[i] <= '9',
    ensures
        decimal(digits) <= u16::MAX ==> port_value(digits) == Ok::<u16, ParsePortError>(
            decimal(digits) as u16,
        ),
        decimal(digits) > u16::MAX ==> port_value(digits) == Err::<u16, ParsePortError>(
            ParsePortError::PosOverflow,
        ),
        port_value(seq!['+'] + digits) == port_value(digits),
{
    lemma_digits(digits);
    assert((seq!['+'] + digits).skip(1) =~= digits);
    assert((seq!['+'] + digits)[0] == '+');
    assert('0' <= digits[0] <= '9');
}

proof fn lemma_digits(digits: Seq<char>)
    requires
        forall|i: int| 0 <= i < digits.len() ==> '0' <= #[trigger] digits[i] <= '9',
    ensures
        decimal(digits) >= 0,
        digits_value(digits) == (if decimal(digits) <= u16::MAX {
            Ok::<u16, ParsePortError>(decimal(digits) as u16)
        } else {
            Err(ParsePortError::PosOverflow)
        }),
    decreases digits.len(),
{
    if digits.len() > 0 {
        let first = digits.drop_last();
        assert forall|i: int| 0 <= i < first.len() implies '0' <= #[trigger] first[i] <= '9' by {
            assert(first[i] == digits[i]);
        }
        lemma_digits(first);
        assert('0' <= digits[digits.len() - 1] <= '9');
        assert(is_digit(digits.last()));
    }
}

/// Nothing stands for no port, a plus sign alone neither, and of a text with a character that is
/// no digit the first such character is refused, unless the number before it is already too large.
pub proof fn lemma_port_with_another_character(text: Seq<char>, i: int)
    requires
        0 <= i < text.len(),
        !('0' <= text[i] <= '9'),
        forall|k: int| 0 <= k < i ==> '0' <= #[trigger] text[k] <= '9',
        i == 0 ==> text[0] != '+' || text.len() == 1,
    ensures
        port_value(Seq::<char>::empty()) == Err::<u16, ParsePortError>(ParsePortError::Empty),
        port_value(text) == Err::<u16, ParsePortError>(
            if decimal(text.take(i)) <= u16::MAX {
                ParsePortError::InvalidDigit
            } else {
                ParsePortError::PosOverflow
            },
        ),
{
    lemma_first_wrong_character(text, i);
    if text.len() > 1 && i > 0 {
        assert('0' <= text[0] <= '9');
    }
}

proof fn lemma_first_wrong_character(text: Seq<char>, i: int)
    requires
        0 <= i < text.len(),
        !('0' <= text[i] <= '9'),
        forall|k: int| 0 <= k < i ==> '0' <= #[trigger] text[k] <= '9',
    ensures
        digits_value(text) == Err::<u16, ParsePortError>(
            if decimal(text.take(i)) <= u16::MAX {
                ParsePortError::InvalidDigit
            } else {
                ParsePortError::PosOverflow
            },
        ),
    decreases text.len(),
{
    let first = text.drop_last();
    if i == text.len() - 1 {
        assert(first =~= text.take(i));
        assert forall|k: int| 0 <= k < first.len() implies '0' <= #[trigger] first[k] <= '9' by {
            assert(first[k] == text[k]);
        }
        lemma_digits(first);
        assert(text.last() == text[i]);
    } else {
        assert forall|k: int| 0 <= k < i implies '0' <= #[trigger] first[k] <= '9' by {
            assert(first[k] == text[k]);
        }
        lemma_first_wrong_character(first, i);
        assert(first.take(i) =~= text.take(i));
    }
}

/// After a plus sign the rest is refused for what is wrong with it.
pub proof fn lemma_port_after_a_plus_sign(text: Seq<char>, i: int)
    requires
        0 <= i < text.len(),
        !('0' <= text[i] <= '9'),
        forall|k: int| 0 <= k < i ==> '0' <= #[trigger] text[k] <= '9',
    ensures
        port_value(seq!['+'] + text) == Err::<u16, ParsePortError>(
            if decimal(text.take(i)) <= u16::MAX {
                ParsePortError::InvalidDigit
            } else {
                ParsePortError::PosOverflow
            },
        ),
{
    lemma_first_wrong_character(text, i);
    assert((seq!['+'] + text).skip(1) =~= text);
    assert((seq!['+'] + text)[0] == '+');
}

/// The next colon is a colon, unless there is none, and no colon comes before it.
pub proof fn lemma_next_colon(text: Seq<char>, from: int)
    requires
        0 <= from <= text.len(),
    ensures
        from <= next_colon(text, from) <= text.len(),
        next_colon(text, from) < text.len() ==> text[next_colon(text, from)] == ':',
        forall|k: int| from <= k < next_colon(text, from) ==> #[trigger] text[k] != ':',
    decreases text.len() - from,
{
    if from < text.len() && text[from] != ':' {
        lemma_next_colon(text, from + 1);
    }
}

/// A port alone is the range that holds this port only. The largest port has no such range.
pub proof fn lemma_range_of_one_port(text: Seq<char>)
    requires
        forall|i: int| 0 <= i < text.len() ==> #[trigger] text[i] != ':',
    ensures
        match port_value(text) {
            Ok(port) => if port == u16::MAX {
                port_range(text) is Err
            } else {
                port_range(text) == Ok::<(u16, int), Seq<char>>((port, port + 1))
            },
            Err(err) => port_range(text) == Err::<(u16, int), Seq<char>>(
                "failed to parse port: "@ + err.spec_text(),
            ),
        },
{
    lemma_next_colon(text, 0);
}

/// Two ports with a colon between them are the range from the first one up to the second one, which
/// is not in it and has to be larger. What is wrong with the first one is reported first.
pub proof fn lemma_range_of_two_ports(first: Seq<char>, second: Seq<char>)
    requires
        forall|i: int| 0 <= i < first.len() ==> #[trigger] first[i] != ':',
        forall|i: int| 0 <= i < second.len() ==> #[trigger] second[i] != ':',
    ensures
        ({
            let range = port_range(first + seq![':'] + second);
            match port_value(first) {
                Err(err) => range == Err::<(u16, int), Seq<char>>(
                    "failed to parse port(from): "@ + err.spec_text(),
                ),
                Ok(from) => match port_value(second) {
                    Err(err) => range == Err::<(u16, int), Seq<char>>(
                        "failed to parse port(to): "@ + err.spec_text(),
                    ),
                    Ok(to) => {
                        &&& from < to ==> range == Ok::<(u16, int), Seq<char>>((from, to as int))
                        &&& from >= to ==> range is Err
                    },
                },
            }
        }),
{
    let text = first + seq![':'] + second;
    let n = first.len() as int;
    lemma_next_colon(text, 0);
    assert(text[n] == ':');
    let colon = next_colon(text, 0);
    if colon < n {
        assert(text[colon] == first[colon]);
    }
    assert(colon == n);
    lemma_next_colon(text, n + 1);
    let next = next_colon(text, n + 1);
    if next < text.len() {
        assert(text[next] == second[next - n - 1]);
    }
    assert(text.take(n) =~= first);
    assert(text.skip(n + 1) =~= second);
}

/// A text with two colons is no range.
pub proof fn lemma_no_range_with_two_colons(text: Seq<char>, i: int, j: int)
    requires
        0 <= i < j < text.len(),
        text[i] == ':',
        text[j] == ':',
    ensures
        port_range(text) is Err,
{
    lemma_next_colon(text, 0);
    let colon = next_colon(text, 0);
    assert(colon <= i);
    lemma_next_colon(text, colon + 1);
    assert(next_colon(text, colon + 1) <= j);
}

/// The addresses are as many as ports and IP addresses together make, and come port by port, for
/// each port in the order of the IP addresses.
pub proof fn lemma_order_of_addresses(ips: Seq<IpAddr>, ports: Range<u16>, port: u16, i: int)
    requires
        0 <= i < ips.len(),
        ports.start <= port < ports.end,
    ensures
        ({
            let n = ips.len() as int;
            let addrs = addrs_with_ports(ips, ports);
            let k = (port - ports.start) * n + i;
            &&& addrs.len() == (ports.end - ports.start) * n
            &&& 0 <= k < addrs.len()
            &&& addrs[k].ip == ips[i]
            &&& addrs[k].port == port
            &&& addrs[k] == SocketAddr { ip: ips[i], port, flowinfo: 0, scope_id: 0 }
        }),
{
    let n = ips.len() as int;
    let p = port - ports.start;
    let count = port_count(ports);
    let k = p * n + i;
    assert(0 <= k < count * n) by (nonlinear_arith)
        requires
            k == p * n + i,
            0 <= p < count,
            0 <= i < n,
    ;
    vstd::arithmetic::div_mod::lemma_fundamental_div_mod_converse(k, n, p, i);
}

/// A range that ends where it starts, or before, has no addresses.
pub proof fn lemma_no_ports_no_addresses(ips: Seq<IpAddr>, ports: Range<u16>)
    requires
        ports.end <= ports.start,
    ensures
        addrs_with_ports(ips, ports).len() == 0,
{
}

/// A server listens on each port at each interface that it is given, and, if it is given none, on
/// each port at every address.
pub proof fn lemma_listening_addresses(ips: Seq<IpAddr>, ports: Range<u16>, addr: SocketAddr)
    requires
        addr.flowinfo == 0,
        addr.scope_id == 0,
    ensures
        listening_addrs(Some(ips), ports).contains(addr) <==> ips.contains(addr.ip) && ports.start
            <= addr.port < ports.end,
        listening_addrs(None, ports).contains(addr) <==> addr.ip == IpAddr::V6(0) && ports.start
            <= addr.port < ports.end,
{
    lemma_addrs_with_ports(ips, ports, addr);
    lemma_addrs_with_ports(seq![IpAddr::V6(0)], ports, addr);
    assert(seq![IpAddr::V6(0)][0] == IpAddr::V6(0));
    assert(seq![IpAddr::V6(0)].contains(IpAddr::V6(0)));
}

/// A gateway needs at least one server address, and any addresses will do.
pub proof fn lemma_gateway_needs_an_address(addrs: Seq<SocketAddr>, addr: SocketAddr)
    ensures
        missing_addrs(Seq::<SocketAddr>::empty()) == Some(ErrorKind::InvalidInput),
        addrs.contains(addr) ==> missing_addrs(addrs) is None,
{
}

} // verus!
