//! The session gate: the request-time step that turns an authorization
//! header into verified claims, or rejects the request before any handler
//! logic runs. It has no state of its own — it is a function of the request
//! and the token issuer's secret.

use vstd::prelude::*;
use crate::errors::AuthError;
use crate::token::{Claims, TokenIssuer, spec_verify_token};

verus! {

/// ASCII `"Bearer "`: the scheme prefix a credential must carry.
pub open spec fn bearer_prefix() -> Seq<u8> {
    seq![66u8, 101u8, 97u8, 114u8, 101u8, 114u8, 32u8]
}

/// The token inside an authorization header value: what follows the
/// `"Bearer "` prefix, or `None` where the prefix is absent.
pub open spec fn spec_bearer_token(h: Seq<u8>) -> Option<Seq<u8>> {
    if h.len() >= 7 && h.subrange(0, 7) == bearer_prefix() {
        Some(h.subrange(7, h.len() as int))
    } else {
        None
    }
}

fn bearer_prefix_vec() -> (r: Vec<u8>)
    ensures
        r@ == bearer_prefix(),
{
    let mut v: Vec<u8> = Vec::new();
    v.push(66);
    v.push(101);
    v.push(97);
    v.push(114);
    v.push(101);
    v.push(114);
    v.push(32);
    assert(v@ =~= bearer_prefix());
    v
}

/// Strip the `"Bearer "` scheme from a header value.
pub fn bearer_token(header: &[u8]) -> (r: Option<&[u8]>)
    ensures
        match r {
            Some(t) => spec_bearer_token(header@) == Some(t@),
            None => spec_bearer_token(header@) is None,
        },
{
    let n = header.len();
    if n < 7 {
        return None;
    }
    let prefix = bearer_prefix_vec();
    let mut i: usize = 0;
    while i < 7
        invariant
            n == header@.len(),
            n >= 7,
            i <= 7,
            prefix@ == bearer_prefix(),
            forall|j: int| 0 <= j < i ==> header@[j] == bearer_prefix()[j],
        decreases 7 - i,
    {
        if header[i] != prefix[i] {
            assert(header@.subrange(0, 7) != bearer_prefix());
            return None;
        }
        i = i + 1;
    }
    assert(header@.subrange(0, 7) =~= bearer_prefix());
    Some(&header[7..n])
}

/// Authenticate one request from its authorization header, if it carried
/// one: the verified claims when the header holds `Bearer` and a token that
/// verifies under `issuer`'s secret at time `now`; the one unauthorized error
/// on a missing header, a missing scheme, or a failed token — before any
/// handler logic runs.
pub fn authenticate(issuer: &TokenIssuer, auth_header: Option<&[u8]>, now: u64) -> (r: Result<
    Claims,
    AuthError,
>)
    ensures
        match auth_header {
            None => r == Err::<Claims, AuthError>(AuthError::Unauthorized),
            Some(h) => match spec_bearer_token(h@) {
                None => r == Err::<Claims, AuthError>(AuthError::Unauthorized),
                Some(tok) => match r {
                    Ok(c) => spec_verify_token(tok, issuer@.secret, now) == Some(c@),
                    Err(e) => {
                        &&& spec_verify_token(tok, issuer@.secret, now) is None
                        &&& e == AuthError::Unauthorized
                    },
                },
            },
        },
{
    let h = match auth_header {
        Some(h) => h,
        None => {
            return Err(AuthError::Unauthorized);
        }
    };
    let tok = match bearer_token(h) {
        Some(t) => t,
        None => {
            return Err(AuthError::Unauthorized);
        }
    };
    match issuer.verify(tok, now) {
        Ok(c) => Ok(c),
        Err(_) => Err(AuthError::Unauthorized),
    }
}

} // verus!
