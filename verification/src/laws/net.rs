//! Numbers in network byte order, and addresses.

use crate::net::{be_bytes, be_limit, be_number, IpAddr, SocketAddr};
use vstd::arithmetic::power::pow;
use vstd::prelude::*;

verus! {

/// The number of bytes is the one asked for, and each byte has the weight of a power of 256 by its
/// distance from the end.
pub proof fn lemma_bytes_of_a_number(n: nat, len: nat, i: int)
    requires
        0 <= i < len,
    ensures
        be_bytes(n, len).len() == len,
        be_bytes(n, len)[i] == n as int / pow(256, (len - 1 - i) as nat) % 256,
    decreases len,
{
    lemma_bytes_len(n, len);
    vstd::arithmetic::power::lemma_pow0(256);
    if i < len - 1 {
        let rest = (len - 1) as nat;
        let k = (rest - 1 - i) as nat;
        lemma_bytes_of_a_number(n / 256, rest, i);
        vstd::arithmetic::power::lemma_pow_positive(256, k);
        vstd::arithmetic::div_mod::lemma_div_denominator(n as int, 256, pow(256, k));
        assert(pow(256, k + 1) == 256 * pow(256, k)) by {
            reveal(pow);
        }
        assert(be_bytes(n, len)[i] == be_bytes(n / 256, rest)[i]);
    } else {
        assert(n as int / 1 == n) by (nonlinear_arith);
    }
}

proof fn lemma_bytes_len(n: nat, len: nat)
    ensures
        be_bytes(n, len).len() == len,
    decreases len,
{
    if len > 0 {
        lemma_bytes_len(n / 256, (len - 1) as nat);
    }
}

/// The first byte of a number weighs the most: a power of 256 by the number of bytes after it.
pub proof fn lemma_number_of_bytes(bytes: Seq<u8>)
    ensures
        bytes.len() == 0 ==> be_number(bytes) == 0,
        bytes.len() > 0 ==> be_number(bytes) == bytes[0] * pow(256, (bytes.len() - 1) as nat)
            + be_number(bytes.skip(1)),
    decreases bytes.len(),
{
    vstd::arithmetic::power::lemma_pow0(256);
    if bytes.len() == 1 {
        assert(bytes.skip(1) =~= Seq::<u8>::empty());
        assert(bytes.drop_last() =~= Seq::<u8>::empty());
        assert(be_number(bytes.drop_last()) == 0);
    } else if bytes.len() > 1 {
        let first = bytes.drop_last();
        let k = (first.len() - 1) as nat;
        lemma_number_of_bytes(first);
        assert(first.skip(1) =~= bytes.skip(1).drop_last());
        assert(bytes.skip(1).last() == bytes.last());
        assert(pow(256, k + 1) == 256 * pow(256, k)) by {
            reveal(pow);
        }
        let (b, p, r) = (bytes[0] as int, pow(256, k), be_number(first.skip(1)) as int);
        assert((b * p + r) * 256 == b * (256 * p) + r * 256) by (nonlinear_arith);
    }
}

/// As many numbers fit into bytes as 256 to the power of their number.
pub proof fn lemma_limit_of_bytes(len: nat)
    ensures
        be_limit(len) == pow(256, len),
    decreases len,
{
    reveal(pow);
    if len > 0 {
        lemma_limit_of_bytes((len - 1) as nat);
        assert(be_limit((len - 1) as nat) * 256 == 256 * pow(256, (len - 1) as nat));
    }
}

/// An address of version 4 has four octets and one of version 6 has sixteen, the most significant
/// one first.
pub proof fn lemma_octets_of_an_address(v4: u32, v6: u128, i: int)
    ensures
        IpAddr::V4(v4).spec_len() == 4,
        IpAddr::V6(v6).spec_len() == 16,
        IpAddr::V4(v4).spec_octets().len() == 4,
        IpAddr::V6(v6).spec_octets().len() == 16,
        0 <= i < 4 ==> IpAddr::V4(v4).spec_octets()[i] == v4 as int / pow(256, (3 - i) as nat) % 256,
        0 <= i < 16 ==> IpAddr::V6(v6).spec_octets()[i] == v6 as int / pow(256, (15 - i) as nat)
            % 256,
{
    lemma_bytes_len(v4 as nat, 4);
    lemma_bytes_len(v6 as nat, 16);
    if 0 <= i < 4 {
        lemma_bytes_of_a_number(v4 as nat, 4, i);
    }
    if 0 <= i < 16 {
        lemma_bytes_of_a_number(v6 as nat, 16, i);
    }
}

/// An address keeps the IP address and the port that it is made of, and nothing else.
pub proof fn lemma_parts_of_an_address(ip: IpAddr, port: u16)
    ensures
        ({
            let addr = SocketAddr::spec_new(ip, port);
            addr.ip == ip && addr.port == port && addr.flowinfo == 0 && addr.scope_id == 0
        }),
{
}

} // verus!
