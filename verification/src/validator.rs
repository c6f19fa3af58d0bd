//! Algorithms and types for [`address validation`].
//!
//! A retry token is the octets of the client's IP address, the time at which the token was minted in
//! seconds since the epoch, the connection identifier that the client first chose, and a digest. The
//! digest is taken over a secret seed, the rest of the token, and the connection identifier that the
//! client has to use from then on.
//!
//! [`address validation`]: https://datatracker.ietf.org/doc/html/rfc9000#name-address-validation

use crate::net::{
    be_bytes, be_number, lemma_be_limits, lemma_be_round_trip, to_be_bytes, u64_from_be_bytes,
    IpAddr, SocketAddr,
};
use vstd::prelude::*;
use vstd::slice::slice_subrange;

verus! {

/// The length of the digest at the end of a token.
pub const DIGEST_LEN: usize = 32;

/// The length of the timestamp in a token.
pub const TIMESTAMP_LEN: usize = 8;

/// The number of nanoseconds in a second.
pub const NANOS_PER_SEC: u128 = 1_000_000_000;

/// A token without its digest.
pub open spec fn token_body(ip: IpAddr, timestamp: u64, odcid: Seq<u8>) -> Seq<u8> {
    ip.spec_octets() + be_bytes(timestamp as nat, 8) + odcid
}

/// `token` is long enough for a token, and was minted for `ip`.
pub open spec fn is_token_for(ip: IpAddr, token: Seq<u8>) -> bool {
    &&& token.len() >= ip.spec_len() + TIMESTAMP_LEN + DIGEST_LEN
    &&& token.take(ip.spec_len() as int) == ip.spec_octets()
}

/// The time at which `token` was minted, in seconds.
pub open spec fn token_time(ip: IpAddr, token: Seq<u8>) -> nat {
    be_number(token.subrange(ip.spec_len() as int, ip.spec_len() + TIMESTAMP_LEN))
}

/// The connection identifier in `token`.
pub open spec fn token_odcid(ip: IpAddr, token: Seq<u8>) -> Seq<u8> {
    token.subrange(ip.spec_len() + TIMESTAMP_LEN, token.len() - DIGEST_LEN)
}

/// The digest in `token`.
pub open spec fn token_digest(token: Seq<u8>) -> Seq<u8> {
    token.skip(token.len() - DIGEST_LEN)
}

/// A default implementation for address validation.
#[derive(Debug)]
pub struct SimpleAddressValidator {
    /// The secret seed.
    seed: [u8; 20],
    /// How long a token is valid, in nanoseconds.
    expiration_interval: u128,
}

impl SimpleAddressValidator {
    /// The secret seed.
    pub closed spec fn seed(self) -> Seq<u8> {
        self.seed@
    }

    /// How long a token is valid, in nanoseconds.
    pub closed spec fn expiration_interval(self) -> u128 {
        self.expiration_interval
    }

    /// What the digest of a token is taken over.
    pub open spec fn digest_input(self, body: Seq<u8>, scid: Seq<u8>) -> Seq<u8> {
        self.seed() + body + scid
    }

    /// A token that was minted at `timestamp`, in seconds, is neither expired at the time `now`, in
    /// nanoseconds, nor from the future.
    pub open spec fn in_time(self, timestamp: nat, now: u128) -> bool {
        0 <= now - timestamp * NANOS_PER_SEC <= self.expiration_interval()
    }

    /// The connection identifier that a token proves at the time `now`, in nanoseconds, if the
    /// digest over the token is `digest`.
    pub open spec fn validated(
        self,
        ip: IpAddr,
        token: Seq<u8>,
        now: u128,
        digest: Seq<u8>,
    ) -> Option<Seq<u8>> {
        if is_token_for(ip, token) && self.in_time(token_time(ip, token), now) && token_digest(
            token,
        ) == digest {
            Some(token_odcid(ip, token))
        } else {
            None
        }
    }

    /// Creates a new `SimpleAddressValidator` instance with token expiration interval.
    pub fn new(seed: [u8; 20], expiration_interval: u128) -> (validator: Self)
        ensures
            validator.seed() == seed@,
            validator.expiration_interval() == expiration_interval,
    {
        SimpleAddressValidator { seed, expiration_interval }
    }

    fn digest_bytes(&self, body: &[u8], scid: &[u8]) -> (bytes: Vec<u8>)
        ensures
            bytes@ == self.digest_input(body@, scid@),
    {
        let mut bytes: Vec<u8> = Vec::new();
        append(&mut bytes, &self.seed);
        append(&mut bytes, body);
        append(&mut bytes, scid);
        assert(bytes@ =~= self.digest_input(body@, scid@));
        bytes
    }

    /// Returns the bytes over which the digest of a retry token has to be taken.
    pub fn retry_digest_input(
        &self,
        dcid: &[u8],
        new_scid: &[u8],
        src: SocketAddr,
        timestamp: u64,
    ) -> (bytes: Vec<u8>)
        ensures
            bytes@ == self.digest_input(token_body(src.ip, timestamp, dcid@), new_scid@),
    {
        let body = retry_token_body(dcid, src, timestamp);
        self.digest_bytes(body.as_slice(), new_scid)
    }

    /// Creates a retry-token at the time `timestamp`, in seconds, from the digest over
    /// [`retry_digest_input`](Self::retry_digest_input).
    pub fn mint_retry_token(
        &self,
        dcid: &[u8],
        src: SocketAddr,
        timestamp: u64,
        digest: &[u8; 32],
    ) -> (token: Vec<u8>)
        ensures
            token@ == token_body(src.ip, timestamp, dcid@) + digest@,
    {
        let mut token = retry_token_body(dcid, src, timestamp);
        append(&mut token, digest);
        token
    }

    /// Returns the time at which a token was minted, in seconds, or `None` if `token` is too short
    /// for a token or was not minted for the address `src`.
    fn token_timestamp(&self, src: SocketAddr, token: &[u8]) -> (res: Option<u64>)
        ensures
            match res {
                Some(timestamp) => is_token_for(src.ip, token@) && timestamp == token_time(
                    src.ip,
                    token@,
                ),
                None => !is_token_for(src.ip, token@),
            },
    {
        let addr = src.ip.octets();
        // token length is too short.
        if addr.len() + TIMESTAMP_LEN + DIGEST_LEN > token.len() {
            return None;
        }
        // invalid address.
        if !starts_with(token, addr.as_slice()) {
            return None;
        }
        Some(
            u64_from_be_bytes(slice_subrange(token, addr.len(), addr.len() + TIMESTAMP_LEN)),
        )
    }

    /// Returns the bytes over which the digest has to be taken that validates `token` for the
    /// connection identifier `dcid`, or `None` if `token` is too short for a digest.
    pub fn validation_digest_input(&self, dcid: &[u8], token: &[u8]) -> (res: Option<Vec<u8>>)
        ensures
            match res {
                Some(bytes) => token@.len() >= DIGEST_LEN && bytes@ == self.digest_input(
                    token@.take(token@.len() - DIGEST_LEN),
                    dcid@,
                ),
                None => token@.len() < DIGEST_LEN,
            },
    {
        if token.len() < DIGEST_LEN {
            return None;
        }
        let body = slice_subrange(token, 0, token.len() - DIGEST_LEN);
        assert(body@ =~= token@.take(token@.len() - DIGEST_LEN));
        Some(self.digest_bytes(body, dcid))
    }

    /// Validates the source address at the time `now`, in nanoseconds since the epoch, with the
    /// digest over [`validation_digest_input`](Self::validation_digest_input).
    ///
    /// Returns the connection identifier that the client first chose. A token that was not minted
    /// for this address, has expired, comes from the future or has another digest is refused.
    pub fn validate_address(
        &self,
        src: SocketAddr,
        token: &[u8],
        now: u128,
        digest: &[u8; 32],
    ) -> (res: Option<Vec<u8>>)
        ensures
            match (res, self.validated(src.ip, token@, now, digest@)) {
                (Some(odcid), Some(validated)) => odcid@ == validated,
                (None, None) => true,
                _ => false,
            },
    {
        let timestamp: u64 = match self.token_timestamp(src, token) {
            Some(timestamp) => timestamp,
            None => {
                return None;
            },
        };
        // from the future
        if timestamp as u128 * NANOS_PER_SEC > now {
            return None;
        }
        // timeout
        if now - timestamp as u128 * NANOS_PER_SEC > self.expiration_interval {
            return None;
        }
        let addr = src.ip.octets();
        let sha256 = slice_subrange(token, token.len() - DIGEST_LEN, token.len());
        assert(sha256@ =~= token_digest(token@));
        // sha256 check error.
        if !same_bytes(sha256, digest) {
            return None;
        }
        let mut odcid: Vec<u8> = Vec::new();
        append(
            &mut odcid,
            slice_subrange(token, addr.len() + TIMESTAMP_LEN, token.len() - DIGEST_LEN),
        );
        assert(odcid@ =~= token_odcid(src.ip, token@));
        Some(odcid)
    }
}

fn retry_token_body(dcid: &[u8], src: SocketAddr, timestamp: u64) -> (body: Vec<u8>)
    ensures
        body@ == token_body(src.ip, timestamp, dcid@),
{
    // ip
    let mut body = src.ip.octets();
    // timestamp
    let seconds = to_be_bytes(timestamp as u128, TIMESTAMP_LEN);
    append(&mut body, seconds.as_slice());
    // odcid
    append(&mut body, dcid);
    body
}

fn append(bytes: &mut Vec<u8>, more: &[u8])
    ensures
        final(bytes)@ == old(bytes)@ + more@,
{
    bytes.extend_from_slice(more);
    assert(bytes@ =~= old(bytes)@ + more@);
}

fn starts_with(bytes: &[u8], prefix: &[u8]) -> (res: bool)
    requires
        prefix@.len() <= bytes@.len(),
    ensures
        res == (bytes@.take(prefix@.len() as int) == prefix@),
{
    let mut i: usize = 0;
    while i < prefix.len()
        invariant
            i <= prefix@.len() <= bytes@.len(),
            forall|k: int| 0 <= k < i ==> bytes@[k] == prefix@[k],
        decreases prefix.len() - i,
    {
        if bytes[i] != prefix[i] {
            assert(bytes@.take(prefix@.len() as int)[i as int] != prefix@[i as int]);
            return false;
        }
        i = i + 1;
    }
    assert(bytes@.take(prefix@.len() as int) =~= prefix@);
    true
}

fn same_bytes(left: &[u8], right: &[u8]) -> (res: bool)
    requires
        left@.len() == right@.len(),
    ensures
        res == (left@ == right@),
{
    let res = starts_with(left, right);
    assert(left@.take(right@.len() as int) =~= left@);
    res
}

/// The parts of a token can be read back from it.
proof fn lemma_token_parts(ip: IpAddr, timestamp: u64, odcid: Seq<u8>, digest: Seq<u8>)
    requires
        digest.len() == DIGEST_LEN,
    ensures
        ({
            let token = token_body(ip, timestamp, odcid) + digest;
            &&& is_token_for(ip, token)
            &&& token_time(ip, token) == timestamp
            &&& token_odcid(ip, token) == odcid
            &&& token_digest(token) == digest
            &&& token.take(token.len() - DIGEST_LEN) == token_body(ip, timestamp, odcid)
        }),
{
    let token = token_body(ip, timestamp, odcid) + digest;
    ip.lemma_octets();
    lemma_be_limits();
    lemma_be_round_trip(timestamp as nat, 8);
    assert(token.take(ip.spec_len() as int) =~= ip.spec_octets());
    assert(token.subrange(ip.spec_len() as int, ip.spec_len() + TIMESTAMP_LEN) =~= be_bytes(
        timestamp as nat,
        8,
    ));
    assert(token_odcid(ip, token) =~= odcid);
    assert(token_digest(token) =~= digest);
    assert(token.take(token.len() - DIGEST_LEN) =~= token_body(ip, timestamp, odcid));
}

/// A retry token that is presented in time from the address that it was minted for, under the
/// connection identifier that it was minted for, gives back the original connection identifier,
/// whatever hash the digests are taken with. After the expiration interval it is refused, and so it
/// is before the time at which it was minted.
pub proof fn lemma_retry_token_round_trip(
    validator: SimpleAddressValidator,
    hash: spec_fn(Seq<u8>) -> Seq<u8>,
    ip: IpAddr,
    timestamp: u64,
    odcid: Seq<u8>,
    new_scid: Seq<u8>,
    now: u128,
)
    requires
        forall|input: Seq<u8>| (#[trigger] hash(input)).len() == DIGEST_LEN,
    ensures
        ({
            let body = token_body(ip, timestamp, odcid);
            let token = body + hash(validator.digest_input(body, new_scid));
            let digest = hash(
                validator.digest_input(token.take(token.len() - DIGEST_LEN), new_scid),
            );
            validator.validated(ip, token, now, digest) == if timestamp * 1_000_000_000 <= now
                <= timestamp * 1_000_000_000 + validator.expiration_interval() {
                Some(odcid)
            } else {
                None
            }
        }),
{
    let body = token_body(ip, timestamp, odcid);
    lemma_token_parts(ip, timestamp, odcid, hash(validator.digest_input(body, new_scid)));
}

/// A retry token is refused when another address of the same family presents it.
pub proof fn lemma_retry_token_binds_address(
    validator: SimpleAddressValidator,
    ip: IpAddr,
    timestamp: u64,
    odcid: Seq<u8>,
    digest: Seq<u8>,
    other: IpAddr,
    now: u128,
    other_digest: Seq<u8>,
)
    requires
        digest.len() == DIGEST_LEN,
        other.spec_len() == ip.spec_len(),
        other != ip,
    ensures
        validator.validated(other, token_body(ip, timestamp, odcid) + digest, now, other_digest)
            is None,
{
    lemma_token_parts(ip, timestamp, odcid, digest);
    ip.lemma_octets();
    assert(ip.spec_octets() != other.spec_octets());
}

/// A retry token is refused when it is presented under another connection identifier, unless the
/// hash maps what the two digests are taken over to the same value.
pub proof fn lemma_retry_token_binds_connection(
    validator: SimpleAddressValidator,
    hash: spec_fn(Seq<u8>) -> Seq<u8>,
    ip: IpAddr,
    timestamp: u64,
    odcid: Seq<u8>,
    new_scid: Seq<u8>,
    other: Seq<u8>,
    now: u128,
)
    requires
        forall|input: Seq<u8>| (#[trigger] hash(input)).len() == DIGEST_LEN,
        ({
            let body = token_body(ip, timestamp, odcid);
            let minted = validator.digest_input(body, new_scid);
            let presented = validator.digest_input(body, other);
            minted != presented ==> hash(minted) != hash(presented)
        }),
        other != new_scid,
    ensures
        ({
            let body = token_body(ip, timestamp, odcid);
            let token = body + hash(validator.digest_input(body, new_scid));
            let digest = hash(validator.digest_input(token.take(token.len() - DIGEST_LEN), other));
            validator.validated(ip, token, now, digest) is None
        }),
{
    let body = token_body(ip, timestamp, odcid);
    let minted = validator.digest_input(body, new_scid);
    let presented = validator.digest_input(body, other);
    lemma_token_parts(ip, timestamp, odcid, hash(minted));
    if minted == presented {
        let prefix = validator.seed() + body;
        assert(new_scid =~= minted.skip(prefix.len() as int));
        assert(other =~= presented.skip(prefix.len() as int));
    }
}

} // verus!
