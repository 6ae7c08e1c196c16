//! Stateless session tokens. A token is three dot-separated url-safe base64
//! segments: a header naming the scheme, a payload carrying the claims, and
//! an HMAC-SHA-256 signature of the first two segments under the issuer's
//! secret. The payload lays the claims out as
//! `type '|' issued-at '|' expires-at '|' subject`, with the timestamps in
//! canonical decimal Unix-epoch seconds and the subject last so that it may
//! hold any bytes.

use vstd::prelude::*;
use vstd::slice::slice_to_vec;
use crate::bytes::{
    dec_digits, spec_parse_dec, is_digit, lemma_dec_digits_valid, spec_find, lemma_find_props,
    lemma_find_hits, parse_dec, find_byte, u64_to_dec, ct_bytes_eq,
};
use crate::crypto::{
    SEG_DOT, b64_of, b64_dec_of, mac_of, b64url_encode, b64url_decode, hmac_sha256,
};
use crate::errors::AuthError;

verus! {

/// ASCII `'|'`, the field separator inside a payload.
pub const FIELD_SEP: u8 = 124;

/// ASCII `'a'`: an access token's type marker.
pub const TYP_ACCESS: u8 = 97;

/// ASCII `'r'`: a refresh token's type marker.
pub const TYP_REFRESH: u8 = 114;

#[derive(Clone, Copy, Debug, PartialEq, Eq, Structural)]
pub enum TokenType {
    Access,
    Refresh,
}

/// The verified payload of a session token.
#[derive(Clone, Debug, PartialEq, Eq)]
pub struct Claims {
    pub sub: Vec<u8>,
    pub iat: u64,
    pub exp: u64,
    pub typ: TokenType,
}

/// The mathematical value of a `Claims`.
pub struct ClaimsView {
    pub sub: Seq<u8>,
    pub iat: u64,
    pub exp: u64,
    pub typ: TokenType,
}

impl View for Claims {
    type V = ClaimsView;

    open spec fn view(&self) -> ClaimsView {
        ClaimsView { sub: self.sub@, iat: self.iat, exp: self.exp, typ: self.typ }
    }
}

pub open spec fn mk_claims(sub: Seq<u8>, iat: u64, exp: u64, typ: TokenType) -> ClaimsView {
    ClaimsView { sub: sub, iat: iat, exp: exp, typ: typ }
}

pub open spec fn typ_byte(t: TokenType) -> u8 {
    match t {
        TokenType::Access => TYP_ACCESS,
        TokenType::Refresh => TYP_REFRESH,
    }
}

/// The constant header segment content: the name of the signing scheme,
/// `HS256` in ASCII.
pub open spec fn header_bytes() -> Seq<u8> {
    seq![72u8, 83u8, 50u8, 53u8, 54u8]
}

fn header_vec() -> (r: Vec<u8>)
    ensures
        r@ == header_bytes(),
{
    let mut v: Vec<u8> = Vec::new();
    v.push(72);
    v.push(83);
    v.push(50);
    v.push(53);
    v.push(54);
    assert(v@ =~= header_bytes());
    v
}

/// The payload bytes that carry a set of claims.
pub open spec fn spec_payload(c: ClaimsView) -> Seq<u8> {
    seq![typ_byte(c.typ), FIELD_SEP] + dec_digits(c.iat as nat) + seq![FIELD_SEP]
        + dec_digits(c.exp as nat) + seq![FIELD_SEP] + c.sub
}

/// What parsing a payload yields: the claims, when the bytes are exactly a
/// laid-out claims set; `None` on anything else.
pub open spec fn spec_parse_payload(p: Seq<u8>) -> Option<ClaimsView> {
    if p.len() < 2 {
        None
    } else if p[1] != FIELD_SEP || (p[0] != TYP_ACCESS && p[0] != TYP_REFRESH) {
        None
    } else {
        let i1 = spec_find(p, FIELD_SEP, 2);
        if i1 < 0 {
            None
        } else {
            let i2 = spec_find(p, FIELD_SEP, i1 + 1);
            if i2 < 0 {
                None
            } else {
                match spec_parse_dec(p.subrange(2, i1)) {
                    None => None,
                    Some(iat) => match spec_parse_dec(p.subrange(i1 + 1, i2)) {
                        None => None,
                        Some(exp) => Some(
                            mk_claims(
                                p.subrange(i2 + 1, p.len() as int),
                                iat,
                                exp,
                                if p[0] == TYP_ACCESS {
                                    TokenType::Access
                                } else {
                                    TokenType::Refresh
                                },
                            ),
                        ),
                    },
                }
            }
        }
    }
}

/// Lay a set of claims out as payload bytes.
pub fn payload_bytes(c: &Claims) -> (r: Vec<u8>)
    ensures
        r@ == spec_payload(c@),
{
    let mut v: Vec<u8> = Vec::new();
    v.push(match c.typ {
        TokenType::Access => TYP_ACCESS,
        TokenType::Refresh => TYP_REFRESH,
    });
    v.push(FIELD_SEP);
    let mut a = u64_to_dec(c.iat);
    v.append(&mut a);
    v.push(FIELD_SEP);
    let mut b = u64_to_dec(c.exp);
    v.append(&mut b);
    v.push(FIELD_SEP);
    let mut s = slice_to_vec(c.sub.as_slice());
    v.append(&mut s);
    assert(v@ =~= spec_payload(c@));
    v
}

/// Parse payload bytes back into claims.
pub fn parse_payload(p: &[u8]) -> (r: Option<Claims>)
    ensures
        match r {
            Some(c) => spec_parse_payload(p@) == Some(c@),
            None => spec_parse_payload(p@) is None,
        },
{
    if p.len() < 2 {
        return None;
    }
    if p[1] != FIELD_SEP {
        return None;
    }
    let typ = if p[0] == TYP_ACCESS {
        TokenType::Access
    } else if p[0] == TYP_REFRESH {
        TokenType::Refresh
    } else {
        return None;
    };
    let i1 = match find_byte(p, FIELD_SEP, 2) {
        Some(i) => i,
        None => {
            return None;
        }
    };
    proof {
        lemma_find_props(p@, FIELD_SEP, 2);
    }
    let i2 = match find_byte(p, FIELD_SEP, i1 + 1) {
        Some(i) => i,
        None => {
            return None;
        }
    };
    proof {
        lemma_find_props(p@, FIELD_SEP, i1 + 1);
    }
    let iat = match parse_dec(&p[2..i1]) {
        Some(n) => n,
        None => {
            return None;
        }
    };
    let exp = match parse_dec(&p[i1 + 1..i2]) {
        Some(n) => n,
        None => {
            return None;
        }
    };
    let sub = slice_to_vec(&p[i2 + 1..p.len()]);
    let c = Claims { sub, iat, exp, typ };
    assert(spec_parse_payload(p@) == Some(c@));
    Some(c)
}

/// Laying claims out and parsing the result returns the same claims: the
/// payload codec loses nothing.
pub proof fn lemma_payload_round_trip(c: ClaimsView)
    ensures
        spec_parse_payload(spec_payload(c)) == Some(c),
{
    let a = dec_digits(c.iat as nat);
    let b = dec_digits(c.exp as nat);
    let p = spec_payload(c);
    lemma_dec_digits_valid(c.iat as nat);
    lemma_dec_digits_valid(c.exp as nat);
    assert(p.len() == 4 + a.len() + b.len() + c.sub.len());
    assert(p[0] == typ_byte(c.typ));
    assert(p[1] == FIELD_SEP);
    let i1 = 2 + a.len() as int;
    assert(p[i1] == FIELD_SEP);
    assert forall|j: int| 2 <= j < i1 implies p[j] != FIELD_SEP by {
        assert(p[j] == a[j - 2]);
        assert(is_digit(a[j - 2]));
    }
    lemma_find_hits(p, FIELD_SEP, 2, i1);
    let i2 = i1 + 1 + b.len() as int;
    assert(p[i2] == FIELD_SEP);
    assert forall|j: int| i1 + 1 <= j < i2 implies p[j] != FIELD_SEP by {
        assert(p[j] == b[j - (i1 + 1)]);
        assert(is_digit(b[j - (i1 + 1)]));
    }
    lemma_find_hits(p, FIELD_SEP, i1 + 1, i2);
    assert(p.subrange(2, i1) =~= a);
    assert(p.subrange(i1 + 1, i2) =~= b);
    assert(p.subrange(i2 + 1, p.len() as int) =~= c.sub);
    assert(spec_parse_dec(a) == Some(c.iat));
    assert(spec_parse_dec(b) == Some(c.exp));
}

/// The first two segments of a token for `c`: encoded header, dot, encoded
/// payload. The signature is computed over exactly these bytes.
pub open spec fn spec_signing_input(c: ClaimsView) -> Seq<u8> {
    b64_of(header_bytes()) + seq![SEG_DOT] + b64_of(spec_payload(c))
}

/// The whole token for `c` under `secret`.
pub open spec fn spec_token(secret: Seq<u8>, c: ClaimsView) -> Seq<u8> {
    spec_signing_input(c) + seq![SEG_DOT]
        + b64_of(mac_of(secret, spec_signing_input(c)))
}

/// What verification of a candidate token yields at time `now`: the claims,
/// when the token splits into three segments at its first two dots, the third
/// segment is the encoded signature of the first two under `secret`, the
/// second decodes and parses as a claims payload, and the claims have not
/// expired; `None` on anything else.
pub open spec fn spec_verify_token(t: Seq<u8>, secret: Seq<u8>, now: u64) -> Option<ClaimsView> {
    let d1 = spec_find(t, SEG_DOT, 0);
    if d1 < 0 {
        None
    } else {
        let d2 = spec_find(t, SEG_DOT, d1 + 1);
        if d2 < 0 {
            None
        } else {
            let si = t.subrange(0, d2);
            let sig = t.subrange(d2 + 1, t.len() as int);
            if sig != b64_of(mac_of(secret, si)) {
                None
            } else {
                match b64_dec_of(t.subrange(d1 + 1, d2)) {
                    None => None,
                    Some(pl) => match spec_parse_payload(pl) {
                        None => None,
                        Some(c) => if now < c.exp {
                            Some(c)
                        } else {
                            None
                        },
                    },
                }
            }
        }
    }
}

/// Where the dots of a three-segment candidate stand, when the first two
/// segments are dot-free: the first two splits land exactly on the built-in
/// separators, whatever the third segment holds.
proof fn lemma_token_split(eh: Seq<u8>, ep: Seq<u8>, s2: Seq<u8>)
    requires
        forall|i: int| 0 <= i < eh.len() ==> eh[i] != SEG_DOT,
        forall|i: int| 0 <= i < ep.len() ==> ep[i] != SEG_DOT,
    ensures
        ({
            let sin = eh + seq![SEG_DOT] + ep;
            let cand = sin + seq![SEG_DOT] + s2;
            &&& spec_find(cand, SEG_DOT, 0) == eh.len()
            &&& spec_find(cand, SEG_DOT, eh.len() as int + 1) == sin.len()
            &&& cand.subrange(0, sin.len() as int) == sin
            &&& cand.subrange(eh.len() as int + 1, sin.len() as int) == ep
            &&& cand.subrange(sin.len() as int + 1, cand.len() as int) == s2
        }),
{
    let sin = eh + seq![SEG_DOT] + ep;
    let cand = sin + seq![SEG_DOT] + s2;
    assert(cand[eh.len() as int] == SEG_DOT);
    assert forall|j: int| 0 <= j < eh.len() implies cand[j] != SEG_DOT by {
        assert(cand[j] == eh[j]);
    }
    lemma_find_hits(cand, SEG_DOT, 0, eh.len() as int);
    assert(cand[sin.len() as int] == SEG_DOT);
    assert forall|j: int| eh.len() + 1 <= j < sin.len() implies cand[j] != SEG_DOT by {
        assert(cand[j] == ep[j - (eh.len() + 1)]);
    }
    lemma_find_hits(cand, SEG_DOT, eh.len() as int + 1, sin.len() as int);
    assert(cand.subrange(0, sin.len() as int) =~= sin);
    assert(cand.subrange(eh.len() as int + 1, sin.len() as int) =~= ep);
    assert(cand.subrange(sin.len() as int + 1, cand.len() as int) =~= s2);
}

/// The mathematical value of a `TokenIssuer`.
pub struct IssuerView {
    pub secret: Seq<u8>,
    pub access_ttl: u64,
    pub refresh_ttl: u64,
}

/// Mints and verifies signed session tokens. The secret is set once, at
/// construction, and read-only after.
pub struct TokenIssuer {
    secret: Vec<u8>,
    access_ttl: u64,
    refresh_ttl: u64,
}

impl View for TokenIssuer {
    type V = IssuerView;

    closed spec fn view(&self) -> IssuerView {
        IssuerView {
            secret: self.secret@,
            access_ttl: self.access_ttl,
            refresh_ttl: self.refresh_ttl,
        }
    }
}

/// A freshly minted access and refresh token, with the access token's
/// lifetime in seconds.
pub struct TokenPair {
    pub access_token: Vec<u8>,
    pub refresh_token: Vec<u8>,
    pub expires_in: u64,
}

impl TokenIssuer {
    pub fn new(secret: Vec<u8>, access_ttl: u64, refresh_ttl: u64) -> (r: TokenIssuer)
        ensures
            r@.secret == secret@,
            r@.access_ttl == access_ttl,
            r@.refresh_ttl == refresh_ttl,
    {
        TokenIssuer { secret, access_ttl, refresh_ttl }
    }

    pub fn access_ttl(&self) -> (r: u64)
        ensures
            r == self@.access_ttl,
    {
        self.access_ttl
    }

    pub fn refresh_ttl(&self) -> (r: u64)
        ensures
            r == self@.refresh_ttl,
    {
        self.refresh_ttl
    }

    /// Mint one signed token for `sub`, of type `typ`, issued at `now` and
    /// good for `ttl` seconds. The token verifies under this issuer's secret
    /// exactly until it expires, and no token with the same first two
    /// segments but any other third segment verifies at all.
    fn issue_one(&self, sub: &[u8], now: u64, ttl: u64, typ: TokenType) -> (r: Vec<u8>)
        requires
            now + ttl <= u64::MAX,
            sub@.len() <= usize::MAX / 4,
        ensures
            r@ == spec_token(self@.secret, mk_claims(sub@, now, (now + ttl) as u64, typ)),
            forall|t: u64|
                spec_verify_token(r@, self@.secret, t) == (if t < now + ttl {
                    Some(mk_claims(sub@, now, (now + ttl) as u64, typ))
                } else {
                    None::<ClaimsView>
                }),
            forall|s2: Seq<u8>, t: u64|
                s2 != b64_of(mac_of(self@.secret, spec_signing_input(mk_claims(sub@, now, (now + ttl) as u64, typ))))
                    ==> (#[trigger] spec_verify_token(
                        spec_signing_input(mk_claims(sub@, now, (now + ttl) as u64, typ))
                            + seq![SEG_DOT] + s2,
                        self@.secret,
                        t,
                    )) is None,
    {
        let ghost cv = mk_claims(sub@, now, (now + ttl) as u64, typ);
        let claims = Claims { sub: slice_to_vec(sub), iat: now, exp: now + ttl, typ };
        assert(claims@ == cv);
        let header = header_vec();
        let payload = payload_bytes(&claims);
        proof {
            crate::bytes::lemma_dec_digits_len_u64(now as nat);
            crate::bytes::lemma_dec_digits_len_u64((now + ttl) as nat);
        }
        let eh = b64url_encode(header.as_slice());
        let ep = b64url_encode(payload.as_slice());
        let ghost eh0 = eh@;
        let ghost ep0 = ep@;
        let mut si = eh;
        si.push(SEG_DOT);
        let mut ep_moved = ep;
        si.append(&mut ep_moved);
        assert(si@ =~= spec_signing_input(cv));
        let mac = hmac_sha256(self.secret.as_slice(), si.as_slice());
        let es = b64url_encode(mac.as_slice());
        let ghost es0 = es@;
        let mut tok = si;
        tok.push(SEG_DOT);
        let mut es_moved = es;
        tok.append(&mut es_moved);
        assert(tok@ =~= spec_token(self@.secret, cv));
        proof {
            let secret = self@.secret;
            let sin = spec_signing_input(cv);
            let full = tok@;
            assert(full =~= sin + seq![SEG_DOT] + es0);
            lemma_payload_round_trip(cv);
            assert forall|s2: Seq<u8>, t: u64|
                s2 != b64_of(mac_of(secret, sin)) implies (#[trigger] spec_verify_token(
                sin + seq![SEG_DOT] + s2,
                secret,
                t,
            )) is None by {
                lemma_token_split(eh0, ep0, s2);
            }
            assert forall|t: u64|
                spec_verify_token(full, secret, t) == (if t < now + ttl {
                    Some(cv)
                } else {
                    None::<ClaimsView>
                }) by {
                lemma_token_split(eh0, ep0, es0);
                assert(b64_dec_of(ep0) == Some(spec_payload(cv)));
            }
        }
        tok
    }

    /// Mint the access / refresh pair for `sub` at time `now`. Each token
    /// verifies under this issuer's secret exactly until its own lifetime
    /// ends, carries `sub` as its subject, and fails verification under any
    /// substituted signature segment.
    pub fn issue_pair(&self, sub: &[u8], now: u64) -> (r: TokenPair)
        requires
            now + self@.access_ttl <= u64::MAX,
            now + self@.refresh_ttl <= u64::MAX,
            sub@.len() <= usize::MAX / 4,
        ensures
            r.expires_in == self@.access_ttl,
            r.access_token@ == spec_token(
                self@.secret,
                mk_claims(sub@, now, (now + self@.access_ttl) as u64, TokenType::Access),
            ),
            r.refresh_token@ == spec_token(
                self@.secret,
                mk_claims(sub@, now, (now + self@.refresh_ttl) as u64, TokenType::Refresh),
            ),
            forall|t: u64|
                spec_verify_token(r.access_token@, self@.secret, t) == (if t < now
                    + self@.access_ttl {
                    Some(mk_claims(sub@, now, (now + self@.access_ttl) as u64, TokenType::Access))
                } else {
                    None::<ClaimsView>
                }),
            forall|t: u64|
                spec_verify_token(r.refresh_token@, self@.secret, t) == (if t < now
                    + self@.refresh_ttl {
                    Some(mk_claims(sub@, now, (now + self@.refresh_ttl) as u64, TokenType::Refresh))
                } else {
                    None::<ClaimsView>
                }),
            forall|s2: Seq<u8>, t: u64|
                s2 != b64_of(mac_of(self@.secret, spec_signing_input(mk_claims(sub@, now, (now + self@.access_ttl) as u64, TokenType::Access))))
                    ==> (#[trigger] spec_verify_token(
                        spec_signing_input(mk_claims(sub@, now, (now + self@.access_ttl) as u64, TokenType::Access))
                            + seq![SEG_DOT] + s2,
                        self@.secret,
                        t,
                    )) is None,
    {
        let access_token = self.issue_one(sub, now, self.access_ttl, TokenType::Access);
        let refresh_token = self.issue_one(sub, now, self.refresh_ttl, TokenType::Refresh);
        TokenPair { access_token, refresh_token, expires_in: self.access_ttl }
    }

    /// Verify a candidate token at time `now`: the claims exactly when
    /// `spec_verify_token` yields them, the merged invalid-token error
    /// otherwise.
    pub fn verify(&self, token: &[u8], now: u64) -> (r: Result<Claims, AuthError>)
        ensures
            match r {
                Ok(c) => spec_verify_token(token@, self@.secret, now) == Some(c@),
                Err(e) => {
                    &&& spec_verify_token(token@, self@.secret, now) is None
                    &&& e == AuthError::TokenInvalid
                },
            },
    {
        let n = token.len();
        let d1 = match find_byte(token, SEG_DOT, 0) {
            Some(i) => i,
            None => {
                return Err(AuthError::TokenInvalid);
            }
        };
        proof {
            lemma_find_props(token@, SEG_DOT, 0);
        }
        let d2 = match find_byte(token, SEG_DOT, d1 + 1) {
            Some(i) => i,
            None => {
                return Err(AuthError::TokenInvalid);
            }
        };
        proof {
            lemma_find_props(token@, SEG_DOT, d1 + 1);
        }
        let si = &token[0..d2];
        let sig = &token[d2 + 1..n];
        let mac = hmac_sha256(self.secret.as_slice(), si);
        let expected = b64url_encode(mac.as_slice());
        if !ct_bytes_eq(sig, expected.as_slice()) {
            return Err(AuthError::TokenInvalid);
        }
        let pl = match b64url_decode(&token[d1 + 1..d2]) {
            Some(v) => v,
            None => {
                return Err(AuthError::TokenInvalid);
            }
        };
        let c = match parse_payload(pl.as_slice()) {
            Some(c) => c,
            None => {
                return Err(AuthError::TokenInvalid);
            }
        };
        if now < c.exp {
            Ok(c)
        } else {
            Err(AuthError::TokenInvalid)
        }
    }
}

} // verus!
