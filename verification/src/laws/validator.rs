//! Which retry tokens prove an address.

use crate::net::{be_bytes, be_number, lemma_be_limits, lemma_be_round_trip, IpAddr};
use crate::validator::{token_body, SimpleAddressValidator};
use vstd::prelude::*;

verus! {

/// A token proves a connection identifier if and only if it is long enough for an address, a time of
/// eight bytes and a digest of 32 bytes, begins with the octets of the address, is not older than the
/// expiration interval and not from the future, and ends with the digest over it. What it proves
/// stands between the time and the digest.
pub proof fn lemma_token_proves_address(
    validator: SimpleAddressValidator,
    ip: IpAddr,
    token: Seq<u8>,
    now: u128,
    digest: Seq<u8>,
)
    ensures
        ({
            let n = if ip is V4 {
                4int
            } else {
                16int
            };
            let minted = be_number(token.subrange(n, n + 8)) * 1_000_000_000;
            let proved = validator.validated(ip, token, now, digest);
            &&& proved is Some <==> {
                &&& token.len() >= n + 8 + 32
                &&& token.subrange(0, n) == ip.spec_octets()
                &&& minted <= now <= minted + validator.expiration_interval()
                &&& token.subrange(token.len() - 32, token.len() as int) == digest
            }
            &&& proved matches Some(odcid) ==> odcid == token.subrange(n + 8, token.len() - 32)
        }),
{
    let n = if ip is V4 {
                4int
            } else {
                16int
            };
    assert(n == ip.spec_len());
    if token.len() >= n + 40 {
        assert(token.take(n) =~= token.subrange(0, n));
        assert(token.skip(token.len() - 32) =~= token.subrange(
            token.len() - 32,
            token.len() as int,
        ));
    }
}

/// A token is accepted from the moment it was minted up to the end of the expiration interval, for
/// every interval, and gives back the connection identifier that it was minted with; it is refused
/// before and after.
pub proof fn lemma_token_lives_for_the_interval(
    validator: SimpleAddressValidator,
    ip: IpAddr,
    timestamp: u64,
    odcid: Seq<u8>,
    digest: Seq<u8>,
    now: u128,
)
    requires
        digest.len() == 32,
    ensures
        ({
            let token = token_body(ip, timestamp, odcid) + digest;
            let proved = validator.validated(ip, token, now, digest);
            &&& timestamp * 1_000_000_000 <= now <= timestamp * 1_000_000_000
                + validator.expiration_interval() ==> proved == Some(odcid)
            &&& now > timestamp * 1_000_000_000 + validator.expiration_interval() ==> proved is None
            &&& now < timestamp * 1_000_000_000 ==> proved is None
        }),
{
    let token = token_body(ip, timestamp, odcid) + digest;
    let n = if ip is V4 {
                4int
            } else {
                16int
            };
    ip.lemma_octets();
    lemma_be_limits();
    lemma_be_round_trip(timestamp as nat, 8);
    lemma_token_proves_address(validator, ip, token, now, digest);
    assert(token.subrange(0, n) =~= ip.spec_octets());
    assert(token.subrange(n, n + 8) =~= be_bytes(timestamp as nat, 8));
    assert(token.subrange(n + 8, token.len() - 32) =~= odcid);
    assert(token.subrange(token.len() - 32, token.len() as int) =~= digest);
}

/// A token without its digest is the octets of the address, then the time, most significant byte
/// first, then the connection identifier.
pub proof fn lemma_layout_of_a_token(ip: IpAddr, timestamp: u64, odcid: Seq<u8>)
    ensures
        ({
            let body = token_body(ip, timestamp, odcid);
            let n = if ip is V4 {
                4int
            } else {
                16int
            };
            &&& body.len() == n + 8 + odcid.len()
            &&& body.subrange(0, n) == ip.spec_octets()
            &&& be_number(body.subrange(n, n + 8)) == timestamp
            &&& body.subrange(n + 8, body.len() as int) == odcid
        }),
{
    let body = token_body(ip, timestamp, odcid);
    let n = if ip is V4 {
                4int
            } else {
                16int
            };
    ip.lemma_octets();
    lemma_be_limits();
    lemma_be_round_trip(timestamp as nat, 8);
    assert(body.subrange(0, n) =~= ip.spec_octets());
    assert(body.subrange(n, n + 8) =~= be_bytes(timestamp as nat, 8));
    assert(body.subrange(n + 8, body.len() as int) =~= odcid);
}

/// A digest is taken over the whole seed, the whole token and the whole connection identifier: when
/// one of them is changed to another of the same length, what the digest is taken over changes.
pub proof fn lemma_digest_covers_everything(
    a: SimpleAddressValidator,
    b: SimpleAddressValidator,
    body_a: Seq<u8>,
    body_b: Seq<u8>,
    scid_a: Seq<u8>,
    scid_b: Seq<u8>,
)
    requires
        a.seed().len() == b.seed().len(),
        body_a.len() == body_b.len(),
    ensures
        a.digest_input(body_a, scid_a) == b.digest_input(body_b, scid_b) <==> a.seed() == b.seed()
            && body_a == body_b && scid_a == scid_b,
        a.digest_input(body_a, scid_a).len() == a.seed().len() + body_a.len() + scid_a.len(),
        a.digest_input(body_a, scid_a).take(a.seed().len() as int) == a.seed(),
{
    let (x, y) = (a.digest_input(body_a, scid_a), b.digest_input(body_b, scid_b));
    let (n, m) = (a.seed().len() as int, body_a.len() as int);
    assert(x.subrange(0, n) =~= a.seed());
    assert(y.subrange(0, n) =~= b.seed());
    assert(x.subrange(n, n + m) =~= body_a);
    assert(y.subrange(n, n + m) =~= body_b);
    assert(x.skip(n + m) =~= scid_a);
    assert(y.skip(n + m) =~= scid_b);
    assert(x.take(n) =~= a.seed());
}

} // verus!
