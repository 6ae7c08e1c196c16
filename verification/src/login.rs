//! The login orchestration: `send_code` rate-limits and issues a one-time
//! code; `login_begin` rate-limits (on its own, independent counter) and
//! checks the code; `login_complete` mints the token pair and records the
//! audit event once the caller's user directory has resolved the subject.
//! Rate-check failure and code failure carry distinct kinds internally but
//! render alike externally, so neither is an oracle.

use vstd::prelude::*;
use vstd::slice::slice_to_vec;
use crate::audit::{AuditLog, AuditRecord, AuditRecordView};
use crate::codes::{CodeStore, CodeView, code_ok};
use crate::errors::AuthError;
use crate::ratelimit::{RateLimiter, RateLimiterConfig, spec_step};
use crate::token::{ClaimsView, TokenIssuer, TokenPair, TokenType, mk_claims, spec_token, spec_verify_token};

verus! {

/// How many send-code calls one client may make per window.
pub const SEND_CODE_BURST: u64 = 5;

/// The send-code window, in seconds.
pub const SEND_CODE_WINDOW_SECS: u64 = 300;

/// How many login calls one client may make per window.
pub const LOGIN_BURST: u64 = 10;

/// The login window, in seconds.
pub const LOGIN_WINDOW_SECS: u64 = 60;

/// How long an issued verification code lives, in seconds.
pub const CODE_TTL_SECS: u64 = 600;

pub open spec fn send_code_config() -> RateLimiterConfig {
    RateLimiterConfig { burst: SEND_CODE_BURST, window_secs: SEND_CODE_WINDOW_SECS }
}

pub open spec fn login_config() -> RateLimiterConfig {
    RateLimiterConfig { burst: LOGIN_BURST, window_secs: LOGIN_WINDOW_SECS }
}

/// ASCII `"send_code"`: the send-code limiter's action name.
pub open spec fn action_send_code() -> Seq<u8> {
    seq![115u8, 101u8, 110u8, 100u8, 95u8, 99u8, 111u8, 100u8, 101u8]
}

/// ASCII `"login"`: the login limiter's action name.
pub open spec fn action_login() -> Seq<u8> {
    seq![108u8, 111u8, 103u8, 105u8, 110u8]
}

/// ASCII `"auth."`, the audit namespace prefix.
pub open spec fn audit_prefix() -> Seq<u8> {
    seq![97u8, 117u8, 116u8, 104u8, 46u8]
}

/// ASCII `"auth.send_code"`: the audit action of a send-code request.
pub open spec fn audit_send_code() -> Seq<u8> {
    audit_prefix() + action_send_code()
}

/// ASCII `"auth.login"`: the audit action of a login.
pub open spec fn audit_login() -> Seq<u8> {
    audit_prefix() + action_login()
}

fn action_send_code_vec() -> (r: Vec<u8>)
    ensures
        r@ == action_send_code(),
{
    let mut v: Vec<u8> = Vec::new();
    v.push(115);
    v.push(101);
    v.push(110);
    v.push(100);
    v.push(95);
    v.push(99);
    v.push(111);
    v.push(100);
    v.push(101);
    assert(v@ =~= action_send_code());
    v
}

fn action_login_vec() -> (r: Vec<u8>)
    ensures
        r@ == action_login(),
{
    let mut v: Vec<u8> = Vec::new();
    v.push(108);
    v.push(111);
    v.push(103);
    v.push(105);
    v.push(110);
    assert(v@ =~= action_login());
    v
}

fn audit_prefix_vec() -> (r: Vec<u8>)
    ensures
        r@ == audit_prefix(),
{
    let mut v: Vec<u8> = Vec::new();
    v.push(97);
    v.push(117);
    v.push(116);
    v.push(104);
    v.push(46);
    assert(v@ =~= audit_prefix());
    v
}

fn audit_send_code_vec() -> (r: Vec<u8>)
    ensures
        r@ == audit_send_code(),
{
    let mut v = audit_prefix_vec();
    let mut a = action_send_code_vec();
    v.append(&mut a);
    v
}

fn audit_login_vec() -> (r: Vec<u8>)
    ensures
        r@ == audit_login(),
{
    let mut v = audit_prefix_vec();
    let mut a = action_login_vec();
    v.append(&mut a);
    v
}

/// The abuse-control key of a request: the forwarded client identity when the
/// request carries a non-empty one, else the transport peer. Best-effort only
/// — clients behind one NAT share a key, and a spoofable forwarded header is
/// as good as its source; both are accepted limitations.
pub fn client_key(forwarded: Option<&[u8]>, peer: &[u8]) -> (r: Vec<u8>)
    ensures
        match forwarded {
            Some(f) => (f@.len() > 0 ==> r@ == f@) && (f@.len() == 0 ==> r@ == peer@),
            None => r@ == peer@,
        },
{
    match forwarded {
        Some(f) => if f.len() > 0 {
            slice_to_vec(f)
        } else {
            slice_to_vec(peer)
        },
        None => slice_to_vec(peer),
    }
}

/// Handle a send-code request: count it against the client's send-code
/// window; within the burst, issue a fresh code for the contact (displacing
/// any older one) and record the pre-authentication audit event. The issued
/// code is returned for the caller's notification channel — issuance does not
/// depend on that delivery — and the caller's outward acknowledgment stays
/// generic, saying nothing about whether the contact is a known account.
pub fn send_code(
    limiter: &mut RateLimiter,
    codes: &mut CodeStore,
    audit: &mut AuditLog,
    contact: &[u8],
    client_key: &[u8],
    now: u64,
) -> (r: Result<Vec<u8>, AuthError>)
    requires
        old(limiter).wf(),
        old(codes).wf(),
        now + CODE_TTL_SECS <= u64::MAX,
    ensures
        final(limiter).wf(),
        final(codes).wf(),
        final(limiter).window_of(action_send_code(), client_key@) == Some(
            spec_step(old(limiter).window_of(action_send_code(), client_key@), send_code_config(), now),
        ),
        forall|a: Seq<u8>, k: Seq<u8>|
            !(a == action_send_code() && k == client_key@)
                ==> #[trigger] final(limiter).window_of(a, k) == old(limiter).window_of(a, k),
        r is Ok <==> spec_step(
            old(limiter).window_of(action_send_code(), client_key@),
            send_code_config(),
            now,
        ).count <= SEND_CODE_BURST,
        r is Err ==> {
            &&& r == Err::<Vec<u8>, AuthError>(AuthError::RateLimitExceeded)
            &&& *final(codes) == *old(codes)
            &&& final(audit)@ == old(audit)@
        },
        r is Ok ==> {
            &&& r->Ok_0@.len() == 6
            &&& final(codes).code_of(contact@) == Some(
                (CodeView {
                    code: r->Ok_0@,
                    expires_at: (now + CODE_TTL_SECS) as u64,
                    consumed: false,
                }),
            )
            &&& (forall|c: Seq<u8>|
                c != contact@ ==> #[trigger] final(codes).code_of(c) == old(codes).code_of(c))
            &&& final(audit)@ == old(audit)@.push(
                (AuditRecordView {
                    actor: None,
                    action: audit_send_code(),
                    detail: contact@,
                    timestamp: now,
                }),
            )
        },
{
    let action = action_send_code_vec();
    let cfg = RateLimiterConfig { burst: SEND_CODE_BURST, window_secs: SEND_CODE_WINDOW_SECS };
    match limiter.check(action.as_slice(), client_key, &cfg, now) {
        Ok(()) => {}
        Err(_) => {
            return Err(AuthError::RateLimitExceeded);
        }
    }
    let code = codes.issue(contact, now, CODE_TTL_SECS);
    audit.record(
        AuditRecord {
            actor: None,
            action: audit_send_code_vec(),
            detail: slice_to_vec(contact),
            timestamp: now,
        },
    );
    Ok(code)
}

/// The rate-check and code-check steps of a login attempt: count the call
/// against the client's login window (independent of the send-code window),
/// then validate and consume the code. Success exactly when the call is
/// within the burst and a stored, unconsumed, unexpired code matched.
pub fn login_begin(
    limiter: &mut RateLimiter,
    codes: &mut CodeStore,
    contact: &[u8],
    code: &[u8],
    client_key: &[u8],
    now: u64,
) -> (r: Result<(), AuthError>)
    requires
        old(limiter).wf(),
        old(codes).wf(),
    ensures
        final(limiter).wf(),
        final(codes).wf(),
        final(limiter).window_of(action_login(), client_key@) == Some(
            spec_step(old(limiter).window_of(action_login(), client_key@), login_config(), now),
        ),
        forall|a: Seq<u8>, k: Seq<u8>|
            !(a == action_login() && k == client_key@)
                ==> #[trigger] final(limiter).window_of(a, k) == old(limiter).window_of(a, k),
        r is Ok <==> {
            &&& spec_step(
                old(limiter).window_of(action_login(), client_key@),
                login_config(),
                now,
            ).count <= LOGIN_BURST
            &&& code_ok(old(codes).code_of(contact@), code@, now)
        },
        spec_step(old(limiter).window_of(action_login(), client_key@), login_config(), now).count
            > LOGIN_BURST ==> {
            &&& r == Err::<(), AuthError>(AuthError::RateLimitExceeded)
            &&& *final(codes) == *old(codes)
        },
        (spec_step(old(limiter).window_of(action_login(), client_key@), login_config(), now).count
            <= LOGIN_BURST && !code_ok(old(codes).code_of(contact@), code@, now)) ==> {
            &&& r == Err::<(), AuthError>(AuthError::CodeInvalid)
            &&& *final(codes) == *old(codes)
        },
        r is Ok ==> final(codes).code_of(contact@) == Some(
            (CodeView {
                code: code@,
                expires_at: old(codes).code_of(contact@)->Some_0.expires_at,
                consumed: true,
            }),
        ),
        forall|c: Seq<u8>|
            c != contact@ ==> #[trigger] final(codes).code_of(c) == old(codes).code_of(c),
{
    let action = action_login_vec();
    let cfg = RateLimiterConfig { burst: LOGIN_BURST, window_secs: LOGIN_WINDOW_SECS };
    match limiter.check(action.as_slice(), client_key, &cfg, now) {
        Ok(()) => {}
        Err(_) => {
            return Err(AuthError::RateLimitExceeded);
        }
    }
    codes.verify(contact, code, now)
}

/// The closing steps of a successful login, once the caller's user directory
/// (an external collaborator) has resolved or created the subject for the
/// contact: mint the token pair and record the audit event under the subject.
pub fn login_complete(
    issuer: &TokenIssuer,
    audit: &mut AuditLog,
    user_id: &[u8],
    contact: &[u8],
    now: u64,
) -> (r: TokenPair)
    requires
        now + issuer@.access_ttl <= u64::MAX,
        now + issuer@.refresh_ttl <= u64::MAX,
        user_id@.len() <= usize::MAX / 4,
    ensures
        r.expires_in == issuer@.access_ttl,
        r.access_token@ == spec_token(
            issuer@.secret,
            mk_claims(user_id@, now, (now + issuer@.access_ttl) as u64, TokenType::Access),
        ),
        r.refresh_token@ == spec_token(
            issuer@.secret,
            mk_claims(user_id@, now, (now + issuer@.refresh_ttl) as u64, TokenType::Refresh),
        ),
        forall|t: u64|
            spec_verify_token(r.access_token@, issuer@.secret, t) == (if t < now
                + issuer@.access_ttl {
                Some(mk_claims(user_id@, now, (now + issuer@.access_ttl) as u64, TokenType::Access))
            } else {
                None::<ClaimsView>
            }),
        forall|t: u64|
            spec_verify_token(r.refresh_token@, issuer@.secret, t) == (if t < now
                + issuer@.refresh_ttl {
                Some(
                    mk_claims(user_id@, now, (now + issuer@.refresh_ttl) as u64, TokenType::Refresh),
                )
            } else {
                None::<ClaimsView>
            }),
        final(audit)@ == old(audit)@.push(
            (AuditRecordView {
                actor: Some(user_id@),
                action: audit_login(),
                detail: contact@,
                timestamp: now,
            }),
        ),
{
    let pair = issuer.issue_pair(user_id, now);
    audit.record(
        AuditRecord {
            actor: Some(slice_to_vec(user_id)),
            action: audit_login_vec(),
            detail: slice_to_vec(contact),
            timestamp: now,
        },
    );
    pair
}

} // verus!
