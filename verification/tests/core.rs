//! End-to-end scenarios over the session core: rate limiting, one-time codes,
//! the login orchestration, the session gate, and the audit log.

use credinet_auth::audit::AuditLog;
use credinet_auth::codes::CodeStore;
use credinet_auth::errors::AuthError;
use credinet_auth::gate::authenticate;
use credinet_auth::login::{client_key, login_begin, login_complete, send_code, CODE_TTL_SECS};
use credinet_auth::ratelimit::{RateLimiter, RateLimiterConfig};
use credinet_auth::token::{TokenIssuer, TokenType};

const NOW: u64 = 1_700_000_000;

fn secret() -> Vec<u8> {
    b"a test signing secret".to_vec()
}

#[test]
fn rate_limiter_allows_burst_then_rejects_then_resets() {
    let mut limiter = RateLimiter::new();
    let cfg = RateLimiterConfig { burst: 3, window_secs: 60 };
    for _ in 0..3 {
        assert!(limiter.check(b"act", b"client-1", &cfg, NOW).is_ok());
    }
    assert_eq!(
        limiter.check(b"act", b"client-1", &cfg, NOW),
        Err(AuthError::RateLimitExceeded)
    );
    // The rejected attempt counted too; still rejected within the window.
    assert!(limiter.check(b"act", b"client-1", &cfg, NOW + 59).is_err());
    // Another key and another action are untouched.
    assert!(limiter.check(b"act", b"client-2", &cfg, NOW).is_ok());
    assert!(limiter.check(b"other", b"client-1", &cfg, NOW).is_ok());
    // Once the window has elapsed the key is fresh again.
    assert!(limiter.check(b"act", b"client-1", &cfg, NOW + 60).is_ok());
}

#[test]
fn send_code_six_times_rate_limits_the_sixth() {
    let mut limiter = RateLimiter::new();
    let mut codes = CodeStore::new();
    let mut audit = AuditLog::new();
    for i in 0..5 {
        let r = send_code(
            &mut limiter,
            &mut codes,
            &mut audit,
            b"u@example.com",
            b"client-1",
            NOW + i,
        );
        assert!(r.is_ok());
    }
    let sixth = send_code(
        &mut limiter,
        &mut codes,
        &mut audit,
        b"u@example.com",
        b"client-1",
        NOW + 5,
    );
    assert_eq!(sixth, Err(AuthError::RateLimitExceeded));
    // Only the five allowed calls were audited.
    assert_eq!(audit.len(), 5);
}

#[test]
fn login_with_sent_code_succeeds_once_then_fails() {
    let mut limiter = RateLimiter::new();
    let mut codes = CodeStore::new();
    let mut audit = AuditLog::new();
    let issuer = TokenIssuer::new(secret(), 3600, 86400);

    let code = send_code(
        &mut limiter,
        &mut codes,
        &mut audit,
        b"u@example.com",
        b"client-1",
        NOW,
    )
    .unwrap();
    assert_eq!(code.len(), 6);

    assert!(login_begin(
        &mut limiter,
        &mut codes,
        b"u@example.com",
        &code,
        b"client-1",
        NOW + 1
    )
    .is_ok());
    let pair = login_complete(&issuer, &mut audit, b"user-42", b"u@example.com", NOW + 1);
    assert_eq!(pair.expires_in, 3600);
    assert!(!pair.access_token.is_empty());
    assert!(!pair.refresh_token.is_empty());

    // The same code a second time: the merged invalid-code error.
    assert_eq!(
        login_begin(
            &mut limiter,
            &mut codes,
            b"u@example.com",
            &code,
            b"client-1",
            NOW + 2
        ),
        Err(AuthError::CodeInvalid)
    );
}

#[test]
fn new_code_invalidates_the_old_one() {
    let mut codes = CodeStore::new();
    let first = codes.issue(b"u@example.com", NOW, CODE_TTL_SECS);
    let mut second = codes.issue(b"u@example.com", NOW, CODE_TTL_SECS);
    while second == first {
        second = codes.issue(b"u@example.com", NOW, CODE_TTL_SECS);
    }
    assert_eq!(
        codes.verify(b"u@example.com", &first, NOW + 1),
        Err(AuthError::CodeInvalid)
    );
    assert!(codes.verify(b"u@example.com", &second, NOW + 1).is_ok());
}

#[test]
fn code_cannot_be_consumed_twice() {
    let mut codes = CodeStore::new();
    let code = codes.issue(b"u@example.com", NOW, CODE_TTL_SECS);
    assert!(codes.verify(b"u@example.com", &code, NOW + 1).is_ok());
    assert_eq!(
        codes.verify(b"u@example.com", &code, NOW + 1),
        Err(AuthError::CodeInvalid)
    );
}

#[test]
fn code_expires_with_its_ttl() {
    let mut codes = CodeStore::new();
    let code = codes.issue(b"u@example.com", NOW, CODE_TTL_SECS);
    // At the expiry instant the code is already dead, with the correct code.
    assert_eq!(
        codes.verify(b"u@example.com", &code, NOW + CODE_TTL_SECS),
        Err(AuthError::CodeInvalid)
    );
    assert_eq!(
        codes.verify(b"u@example.com", &code, NOW + CODE_TTL_SECS + 1),
        Err(AuthError::CodeInvalid)
    );
}

#[test]
fn code_for_unknown_contact_fails() {
    let mut codes = CodeStore::new();
    assert_eq!(
        codes.verify(b"nobody@example.com", b"123456", NOW),
        Err(AuthError::CodeInvalid)
    );
}

#[test]
fn gate_accepts_bearer_token_and_rejects_the_rest() {
    let issuer = TokenIssuer::new(secret(), 3600, 86400);
    let pair = issuer.issue_pair(b"user-42", NOW);

    let mut header = b"Bearer ".to_vec();
    header.extend_from_slice(&pair.access_token);
    let claims = authenticate(&issuer, Some(&header), NOW + 10).unwrap();
    assert_eq!(claims.sub, b"user-42".to_vec());
    assert_eq!(claims.typ, TokenType::Access);

    // Missing header.
    assert_eq!(
        authenticate(&issuer, None, NOW + 10),
        Err(AuthError::Unauthorized)
    );
    // Missing scheme.
    assert_eq!(
        authenticate(&issuer, Some(&pair.access_token), NOW + 10),
        Err(AuthError::Unauthorized)
    );
    // Garbage token.
    assert_eq!(
        authenticate(&issuer, Some(b"Bearer not.a.token"), NOW + 10),
        Err(AuthError::Unauthorized)
    );
    // Expired token.
    assert_eq!(
        authenticate(&issuer, Some(&header), NOW + 3600),
        Err(AuthError::Unauthorized)
    );
}

#[test]
fn audit_log_records_each_gated_operation() {
    let mut limiter = RateLimiter::new();
    let mut codes = CodeStore::new();
    let mut audit = AuditLog::new();
    let issuer = TokenIssuer::new(secret(), 3600, 86400);

    send_code(
        &mut limiter,
        &mut codes,
        &mut audit,
        b"u@example.com",
        b"client-1",
        NOW,
    )
    .unwrap();
    assert_eq!(audit.len(), 1);
    let first = audit.get(0);
    assert_eq!(first.actor, None);
    assert_eq!(first.action, b"auth.send_code".to_vec());
    assert_eq!(first.detail, b"u@example.com".to_vec());
    assert_eq!(first.timestamp, NOW);

    login_complete(&issuer, &mut audit, b"user-42", b"u@example.com", NOW + 1);
    assert_eq!(audit.len(), 2);
    let second = audit.get(1);
    assert_eq!(second.actor, Some(b"user-42".to_vec()));
    assert_eq!(second.action, b"auth.login".to_vec());
    assert_eq!(second.timestamp, NOW + 1);
}

#[test]
fn client_key_prefers_a_nonempty_forwarded_identity() {
    assert_eq!(client_key(Some(b"10.0.0.7"), b"192.0.2.1"), b"10.0.0.7".to_vec());
    assert_eq!(client_key(Some(b""), b"192.0.2.1"), b"192.0.2.1".to_vec());
    assert_eq!(client_key(None, b"192.0.2.1"), b"192.0.2.1".to_vec());
}

#[test]
fn error_kinds_render_uniformly() {
    assert_eq!(AuthError::RateLimitExceeded.status_code(), 429);
    assert_eq!(AuthError::CodeInvalid.status_code(), 401);
    assert_eq!(AuthError::TokenInvalid.status_code(), 401);
    assert_eq!(AuthError::Unauthorized.status_code(), 401);
    assert_eq!(AuthError::UpstreamFailure.status_code(), 500);
    assert_eq!(
        AuthError::RateLimitExceeded.public_message(),
        "too many requests"
    );
    assert_eq!(
        AuthError::CodeInvalid.public_message(),
        "invalid contact or code"
    );
    assert_eq!(AuthError::TokenInvalid.public_message(), "unauthorized");
    assert_eq!(AuthError::Unauthorized.public_message(), "unauthorized");
    assert_eq!(AuthError::UpstreamFailure.public_message(), "server error");
}
