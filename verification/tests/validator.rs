use std::collections::hash_map::DefaultHasher;
use std::hash::Hasher;

use n3::net::{IpAddr, SocketAddr};
use n3::validator::SimpleAddressValidator;

const SECOND: u128 = 1_000_000_000;

/// A stand-in for the digest of the protocol stack.
fn digest(input: &[u8]) -> [u8; 32] {
    let mut digest = [0; 32];
    for part in 0..4 {
        let mut hasher = DefaultHasher::new();
        hasher.write_u8(part as u8);
        hasher.write(input);
        digest[part * 8..part * 8 + 8].copy_from_slice(&hasher.finish().to_be_bytes());
    }
    digest
}

fn conn_id(n: u8) -> Vec<u8> {
    (0..20).map(|i| i * 7 + n).collect()
}

fn mint(
    validator: &SimpleAddressValidator,
    dcid: &[u8],
    new_scid: &[u8],
    src: SocketAddr,
    timestamp: u64,
) -> Vec<u8> {
    let input = validator.retry_digest_input(dcid, new_scid, src, timestamp);
    validator.mint_retry_token(dcid, src, timestamp, &digest(&input))
}

fn validate(
    validator: &SimpleAddressValidator,
    dcid: &[u8],
    src: SocketAddr,
    token: &[u8],
    now: u128,
) -> Option<Vec<u8>> {
    let input = validator.validation_digest_input(dcid, token)?;
    validator.validate_address(src, token, now, &digest(&input))
}

#[test]
fn test_default_address_validator() {
    let validator = SimpleAddressValidator::new([3; 20], 100 * SECOND);

    let dcid = conn_id(2);
    let new_scid = conn_id(3);

    let start = 1_700_000_000;
    let now = start as u128 * SECOND;

    let src = SocketAddr::new(IpAddr::V4(0x7f00_0001), 1234);

    let token = mint(&validator, &dcid, &new_scid, src, start);

    assert_eq!(validate(&validator, &new_scid, src, &token, now), Some(dcid.clone()));

    assert_eq!(validate(&validator, &dcid, src, &token, now), None);

    assert_eq!(validate(&validator, &new_scid, src, &token, now), Some(dcid.clone()));

    let src = SocketAddr::new(IpAddr::V4(0), 1234);

    assert_eq!(validate(&validator, &new_scid, src, &token, now), None);

    let validator = SimpleAddressValidator::new([4; 20], SECOND);

    let token = mint(&validator, &dcid, &new_scid, src, start);

    assert_eq!(validate(&validator, &new_scid, src, &token, now), Some(dcid.clone()));

    // timeout.
    assert_eq!(validate(&validator, &new_scid, src, &token, now + 2 * SECOND), None);
}

#[test]
fn token_layout() {
    let validator = SimpleAddressValidator::new([9; 20], SECOND);
    let src = SocketAddr::new(IpAddr::V4(0x0102_0304), 80);
    let input = validator.retry_digest_input(&[7, 8], &[5], src, 0x0a0b);
    let mut expected = vec![9; 20];
    expected.extend([1, 2, 3, 4, 0, 0, 0, 0, 0, 0, 0x0a, 0x0b, 7, 8, 5]);
    assert_eq!(input, expected);

    let token = validator.mint_retry_token(&[7, 8], src, 0x0a0b, &[6; 32]);
    let mut expected = vec![1, 2, 3, 4, 0, 0, 0, 0, 0, 0, 0x0a, 0x0b, 7, 8];
    expected.extend([6; 32]);
    assert_eq!(token, expected);
    let mut expected = vec![9; 20];
    expected.extend([1, 2, 3, 4, 0, 0, 0, 0, 0, 0, 0x0a, 0x0b, 7, 8, 5]);
    assert_eq!(validator.validation_digest_input(&[5], &token), Some(expected));
    assert_eq!(validator.validation_digest_input(&[5], &[6; 32]), Some([[9; 20].as_slice(), &[5]].concat()));
    assert_eq!(validator.validation_digest_input(&[5], &[6; 31]), None);
}

#[test]
fn expiry_is_exact() {
    let validator = SimpleAddressValidator::new([1; 20], SECOND);
    let src = SocketAddr::new(IpAddr::V6(5), 80);
    let token = mint(&validator, &[1, 2, 3], &[4], src, 10);
    assert_eq!(validate(&validator, &[4], src, &token, 11 * SECOND), Some(vec![1, 2, 3]));
    assert_eq!(validate(&validator, &[4], src, &token, 11 * SECOND + 1), None);
    // from the future
    assert_eq!(validate(&validator, &[4], src, &token, 10 * SECOND), Some(vec![1, 2, 3]));
    assert_eq!(validate(&validator, &[4], src, &token, 10 * SECOND - 1), None);
    assert_eq!(validate(&validator, &[4], src, &token, 0), None);
}

#[test]
fn short_or_tampered_tokens() {
    let validator = SimpleAddressValidator::new([1; 20], SECOND);
    let src = SocketAddr::new(IpAddr::V4(0x0a00_0001), 80);
    let token = mint(&validator, &[], &[4], src, 10);
    assert_eq!(token.len(), 4 + 8 + 32);
    assert_eq!(validate(&validator, &[4], src, &token, 10 * SECOND), Some(vec![]));
    assert_eq!(validate(&validator, &[4], src, &token[..43], 10 * SECOND), None);
    assert_eq!(validate(&validator, &[4], src, &token[..7], 10 * SECOND), None);

    let mut tampered = token.clone();
    tampered[43] ^= 1;
    assert_eq!(validate(&validator, &[4], src, &tampered, 10 * SECOND), None);
}
