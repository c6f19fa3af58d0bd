//! Internet addresses and the big-endian bytes of numbers.

use vstd::prelude::*;

verus! {

/// The last `len` bytes of `n`, the most significant one first.
pub open spec fn be_bytes(n: nat, len: nat) -> Seq<u8>
    decreases len,
{
    if len == 0 {
        Seq::empty()
    } else {
        be_bytes(n / 256, (len - 1) as nat).push((n % 256) as u8)
    }
}

/// The number with the bytes `bytes`, the most significant one first.
pub open spec fn be_number(bytes: Seq<u8>) -> nat
    decreases bytes.len(),
{
    if bytes.len() == 0 {
        0
    } else {
        be_number(bytes.drop_last()) * 256 + bytes.last() as nat
    }
}

/// How many numbers fit into `len` bytes.
pub open spec fn be_limit(len: nat) -> nat
    decreases len,
{
    if len == 0 {
        1
    } else {
        be_limit((len - 1) as nat) * 256
    }
}

/// A number that fits into `len` bytes can be read back from them.
pub proof fn lemma_be_round_trip(n: nat, len: nat)
    requires
        n < be_limit(len),
    ensures
        be_bytes(n, len).len() == len,
        be_number(be_bytes(n, len)) == n,
    decreases len,
{
    if len > 0 {
        lemma_be_round_trip(n / 256, (len - 1) as nat);
        assert(be_bytes(n, len).drop_last() =~= be_bytes(n / 256, (len - 1) as nat));
    }
}

/// `len` bytes hold a number below their limit.
proof fn lemma_be_number_bound(bytes: Seq<u8>)
    ensures
        be_number(bytes) < be_limit(bytes.len()),
    decreases bytes.len(),
{
    if bytes.len() > 0 {
        lemma_be_number_bound(bytes.drop_last());
    }
}

/// Numbers of 4, 8 and 16 bytes.
pub proof fn lemma_be_limits()
    ensures
        be_limit(4) == u32::MAX + 1,
        be_limit(8) == u64::MAX + 1,
        be_limit(16) == u128::MAX + 1,
{
    reveal_with_fuel(be_limit, 17);
}

/// Returns the last `len` bytes of `n`, the most significant one first.
pub fn to_be_bytes(n: u128, len: usize) -> (bytes: Vec<u8>)
    ensures
        bytes@ == be_bytes(n as nat, len as nat),
{
    let mut bytes: Vec<u8> = vec![0;len];
    let mut rest: u128 = n;
    let mut i: usize = len;
    assert(be_bytes(n as nat, len as nat) =~= be_bytes(rest as nat, i as nat) + bytes@.skip(
        i as int,
    ));
    while i > 0
        invariant
            i <= len,
            bytes@.len() == len,
            be_bytes(n as nat, len as nat) == be_bytes(rest as nat, i as nat) + bytes@.skip(
                i as int,
            ),
        decreases i,
    {
        let ghost before = bytes@;
        let byte: u8 = (rest % 256) as u8;
        bytes.set(i - 1, byte);
        proof {
            assert(bytes@.skip(i - 1) =~= seq![byte] + before.skip(i as int));
            assert(be_bytes(rest as nat, i as nat) + before.skip(i as int) =~= be_bytes(
                rest as nat / 256,
                (i - 1) as nat,
            ) + bytes@.skip(i - 1));
        }
        rest = rest / 256;
        i = i - 1;
    }
    assert(bytes@.skip(0) =~= bytes@);
    assert(be_bytes(rest as nat, 0) + bytes@ =~= bytes@);
    bytes
}

/// Returns the number with the given 8 bytes, the most significant one first.
pub fn u64_from_be_bytes(bytes: &[u8]) -> (n: u64)
    requires
        bytes@.len() == 8,
    ensures
        n == be_number(bytes@),
{
    let mut n: u64 = 0;
    let mut i: usize = 0;
    proof {
        lemma_be_limits();
    }
    while i < 8
        invariant
            i <= 8,
            bytes@.len() == 8,
            n == be_number(bytes@.take(i as int)),
        decreases 8 - i,
    {
        proof {
            assert(bytes@.take(i + 1).drop_last() =~= bytes@.take(i as int));
            lemma_be_number_bound(bytes@.take(i + 1));
            reveal_with_fuel(be_limit, 9);
        }
        n = n * 256 + bytes[i] as u64;
        i = i + 1;
    }
    assert(bytes@.take(8) =~= bytes@);
    n
}

/// An IP address, by its bits in network order.
#[derive(Clone, Copy, Debug, PartialEq, Eq, Hash, Structural)]
pub enum IpAddr {
    V4(u32),
    V6(u128),
}

impl IpAddr {
    /// The octets of the address.
    pub open spec fn spec_octets(self) -> Seq<u8> {
        match self {
            IpAddr::V4(bits) => be_bytes(bits as nat, 4),
            IpAddr::V6(bits) => be_bytes(bits as nat, 16),
        }
    }

    /// The number of octets of the address.
    pub open spec fn spec_len(self) -> nat {
        match self {
            IpAddr::V4(_) => 4,
            IpAddr::V6(_) => 16,
        }
    }

    /// Returns the octets of the address.
    pub fn octets(self) -> (octets: Vec<u8>)
        ensures
            octets@ == self.spec_octets(),
            octets@.len() == self.spec_len(),
    {
        proof {
            self.lemma_octets();
        }
        match self {
            IpAddr::V4(bits) => to_be_bytes(bits as u128, 4),
            IpAddr::V6(bits) => to_be_bytes(bits, 16),
        }
    }

    /// An address has as many octets as its family says, and they determine it within the family.
    pub proof fn lemma_octets(self)
        ensures
            self.spec_octets().len() == self.spec_len(),
            forall|other: IpAddr| #[trigger]
                other.spec_octets() == self.spec_octets() ==> other == self,
    {
        lemma_be_limits();
        match self {
            IpAddr::V4(bits) => lemma_be_round_trip(bits as nat, 4),
            IpAddr::V6(bits) => lemma_be_round_trip(bits as nat, 16),
        }
        assert forall|other: IpAddr| #[trigger]
            other.spec_octets() == self.spec_octets() implies other == self by {
            match other {
                IpAddr::V4(bits) => lemma_be_round_trip(bits as nat, 4),
                IpAddr::V6(bits) => lemma_be_round_trip(bits as nat, 16),
            }
        }
    }
}

/// An IP address and a port. An address of version 6 also has a flow label and a scope; in one of
/// version 4 the two are zero.
#[derive(Clone, Copy, Debug, PartialEq, Eq, Hash, Structural)]
pub struct SocketAddr {
    pub ip: IpAddr,
    pub port: u16,
    pub flowinfo: u32,
    pub scope_id: u32,
}

impl SocketAddr {
    /// The address at `ip` with `port`, without a flow label and a scope.
    pub open spec fn spec_new(ip: IpAddr, port: u16) -> SocketAddr {
        SocketAddr { ip, port, flowinfo: 0, scope_id: 0 }
    }

    /// Returns the address at `ip` with `port`, without a flow label and a scope.
    #[verifier::when_used_as_spec(spec_new)]
    pub fn new(ip: IpAddr, port: u16) -> (addr: SocketAddr)
        ensures
            addr == SocketAddr::spec_new(ip, port),
    {
        SocketAddr { ip, port, flowinfo: 0, scope_id: 0 }
    }
}

} // verus!
