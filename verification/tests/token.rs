//! The token codec and issuer/verifier, held against concrete values and
//! against the base64 and hmac crates directly.

use base64::Engine;
use hmac::Mac;
use credinet_auth::bytes::{ct_bytes_eq, find_byte, parse_dec, u64_to_dec};
use credinet_auth::errors::AuthError;
use credinet_auth::token::{payload_bytes, parse_payload, Claims, TokenIssuer, TokenType};

const NOW: u64 = 1_700_000_000;

fn secret() -> Vec<u8> {
    b"a test signing secret".to_vec()
}

#[test]
fn issued_access_token_verifies_with_the_subject() {
    let issuer = TokenIssuer::new(secret(), 3600, 86400);
    let pair = issuer.issue_pair(b"user-42", NOW);
    assert_eq!(pair.expires_in, 3600);

    let claims = issuer.verify(&pair.access_token, NOW + 1).unwrap();
    assert_eq!(claims.sub, b"user-42".to_vec());
    assert_eq!(claims.iat, NOW);
    assert_eq!(claims.exp, NOW + 3600);
    assert_eq!(claims.typ, TokenType::Access);

    let refresh = issuer.verify(&pair.refresh_token, NOW + 1).unwrap();
    assert_eq!(refresh.sub, b"user-42".to_vec());
    assert_eq!(refresh.exp, NOW + 86400);
    assert_eq!(refresh.typ, TokenType::Refresh);
}

#[test]
fn expired_token_fails_verification() {
    let issuer = TokenIssuer::new(secret(), 3600, 86400);
    let pair = issuer.issue_pair(b"user-42", NOW);
    // Valid strictly before the expiry instant, dead from it on.
    assert!(issuer.verify(&pair.access_token, NOW + 3599).is_ok());
    assert_eq!(
        issuer.verify(&pair.access_token, NOW + 3600),
        Err(AuthError::TokenInvalid)
    );
    assert_eq!(
        issuer.verify(&pair.refresh_token, NOW + 86400),
        Err(AuthError::TokenInvalid)
    );
}

#[test]
fn altered_signature_fails_verification() {
    let issuer = TokenIssuer::new(secret(), 3600, 86400);
    let pair = issuer.issue_pair(b"user-42", NOW);
    let mut forged = pair.access_token.clone();
    let last = forged.len() - 1;
    forged[last] ^= 1;
    assert_eq!(issuer.verify(&forged, NOW + 1), Err(AuthError::TokenInvalid));
}

#[test]
fn altered_payload_fails_verification() {
    let issuer = TokenIssuer::new(secret(), 3600, 86400);
    let pair = issuer.issue_pair(b"user-42", NOW);
    let first_dot = pair.access_token.iter().position(|&b| b == b'.').unwrap();
    let mut forged = pair.access_token.clone();
    forged[first_dot + 1] ^= 1;
    assert_eq!(issuer.verify(&forged, NOW + 1), Err(AuthError::TokenInvalid));
}

#[test]
fn token_under_another_secret_fails_verification() {
    let issuer = TokenIssuer::new(secret(), 3600, 86400);
    let other = TokenIssuer::new(b"some other secret".to_vec(), 3600, 86400);
    let pair = issuer.issue_pair(b"user-42", NOW);
    assert_eq!(other.verify(&pair.access_token, NOW + 1), Err(AuthError::TokenInvalid));
}

#[test]
fn malformed_tokens_fail_verification() {
    let issuer = TokenIssuer::new(secret(), 3600, 86400);
    assert_eq!(issuer.verify(b"", NOW), Err(AuthError::TokenInvalid));
    assert_eq!(issuer.verify(b"nodots", NOW), Err(AuthError::TokenInvalid));
    assert_eq!(issuer.verify(b"one.dot", NOW), Err(AuthError::TokenInvalid));
    assert_eq!(issuer.verify(b"a.b.c", NOW), Err(AuthError::TokenInvalid));
}

#[test]
fn token_segments_are_genuine_base64_and_hmac() {
    let issuer = TokenIssuer::new(secret(), 3600, 86400);
    let pair = issuer.issue_pair(b"user-42", NOW);
    let token = &pair.access_token;

    let d1 = token.iter().position(|&b| b == b'.').unwrap();
    let d2 = d1 + 1 + token[d1 + 1..].iter().position(|&b| b == b'.').unwrap();
    let engine = &base64::engine::general_purpose::URL_SAFE_NO_PAD;

    // Header segment: base64url of the scheme name.
    assert_eq!(engine.decode(&token[..d1]).unwrap(), b"HS256".to_vec());

    // Payload segment: base64url of the laid-out claims.
    let claims = Claims { sub: b"user-42".to_vec(), iat: NOW, exp: NOW + 3600, typ: TokenType::Access };
    assert_eq!(engine.decode(&token[d1 + 1..d2]).unwrap(), payload_bytes(&claims));

    // Signature segment: base64url of HMAC-SHA-256 over the first two
    // segments under the issuer's secret.
    let mut mac = hmac::Hmac::<sha2::Sha256>::new_from_slice(&secret()).unwrap();
    mac.update(&token[..d2]);
    let tag = mac.finalize().into_bytes().to_vec();
    assert_eq!(engine.decode(&token[d2 + 1..]).unwrap(), tag);
}

#[test]
fn payload_codec_round_trips_and_is_exact() {
    let claims = Claims { sub: b"user|with|separators".to_vec(), iat: 7, exp: 99, typ: TokenType::Refresh };
    let payload = payload_bytes(&claims);
    assert_eq!(payload, b"r|7|99|user|with|separators".to_vec());
    let back = parse_payload(&payload).unwrap();
    assert_eq!(back.sub, claims.sub);
    assert_eq!(back.iat, 7);
    assert_eq!(back.exp, 99);
    assert_eq!(back.typ, TokenType::Refresh);

    assert!(parse_payload(b"").is_none());
    assert!(parse_payload(b"x|7|99|s").is_none());
    assert!(parse_payload(b"a|07|99|s").is_none());
    assert!(parse_payload(b"a|7|ninenine|s").is_none());
}

#[test]
fn decimal_codec_is_canonical() {
    assert_eq!(u64_to_dec(0), b"0".to_vec());
    assert_eq!(u64_to_dec(1_234_567_890_123), b"1234567890123".to_vec());
    assert_eq!(u64_to_dec(u64::MAX), b"18446744073709551615".to_vec());

    assert_eq!(parse_dec(b"0"), Some(0));
    assert_eq!(parse_dec(b"12345"), Some(12345));
    assert_eq!(parse_dec(b"18446744073709551615"), Some(u64::MAX));
    assert_eq!(parse_dec(b"18446744073709551616"), None);
    assert_eq!(parse_dec(b""), None);
    assert_eq!(parse_dec(b"012"), None);
    assert_eq!(parse_dec(b"12a"), None);
}

#[test]
fn byte_helpers_behave() {
    assert!(ct_bytes_eq(b"same bytes", b"same bytes"));
    assert!(!ct_bytes_eq(b"same bytes", b"same bytez"));
    assert!(!ct_bytes_eq(b"short", b"longer text"));

    assert_eq!(find_byte(b"a.b.c", b'.', 0), Some(1));
    assert_eq!(find_byte(b"a.b.c", b'.', 2), Some(3));
    assert_eq!(find_byte(b"a.b.c", b'.', 4), None);
    assert_eq!(find_byte(b"", b'.', 0), None);
}
