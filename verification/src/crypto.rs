//! The outside cryptography and encoding this core rests on: url-safe base64,
//! HMAC-SHA-256, and a source of randomness. Each call goes through one
//! trusted wrapper whose contract names what the outside crate computes.

use vstd::prelude::*;
use base64::Engine;

verus! {

/// ASCII `'.'`, the separator between the segments of a compact token.
pub const SEG_DOT: u8 = 46;

/// The url-safe base64 encoding (no padding) of a byte string.
pub uninterp spec fn b64_of(b: Seq<u8>) -> Seq<u8>;

/// The url-safe base64 decoding (no padding) of a byte string; `None` where
/// the input is not an encoding.
pub uninterp spec fn b64_dec_of(s: Seq<u8>) -> Option<Seq<u8>>;

/// The HMAC-SHA-256 tag of a message under a key.
pub uninterp spec fn mac_of(key: Seq<u8>, msg: Seq<u8>) -> Seq<u8>;

/// Relies on base64's `URL_SAFE_NO_PAD` engine: the encoding is a pure
/// function of the input bytes, `decode` inverts it, and the url-safe
/// alphabet (`A`-`Z`, `a`-`z`, `0`-`9`, `-`, `_`) holds no `'.'`. The length
/// bound keeps the engine's output-size computation from overflowing.
#[verifier::external_body]
pub(crate) fn b64url_encode(b: &[u8]) -> (r: Vec<u8>)
    requires
        b@.len() <= usize::MAX / 2,
    ensures
        r@ == b64_of(b@),
        b64_dec_of(r@) == Some(b@),
        forall|i: int| 0 <= i < r@.len() ==> r@[i] != SEG_DOT,
{
    base64::engine::general_purpose::URL_SAFE_NO_PAD
        .encode(b)
        .into_bytes()
}

/// Relies on base64's `URL_SAFE_NO_PAD` engine: decoding depends on the input
/// bytes alone, and input that is no encoding is rejected, never a panic.
#[verifier::external_body]
pub(crate) fn b64url_decode(s: &[u8]) -> (r: Option<Vec<u8>>)
    ensures
        match r {
            Some(v) => b64_dec_of(s@) == Some(v@),
            None => b64_dec_of(s@) is None,
        },
{
    match base64::engine::general_purpose::URL_SAFE_NO_PAD.decode(s) {
        Ok(v) => Some(v),
        Err(_) => None,
    }
}

/// Relies on the hmac and sha2 crates: HMAC-SHA-256 is a pure function of key
/// and message, its tag is 32 bytes, and an `Hmac`'s `new_from_slice` accepts
/// a key of any length (its one error case is unreachable), so the `expect`
/// cannot fire.
#[verifier::external_body]
pub(crate) fn hmac_sha256(key: &[u8], msg: &[u8]) -> (r: Vec<u8>)
    ensures
        r@ == mac_of(key@, msg@),
        r@.len() == 32,
{
    let mut m = <hmac::Hmac<sha2::Sha256> as hmac::Mac>::new_from_slice(key)
        .expect("an HMAC key of any length is accepted");
    hmac::Mac::update(&mut m, msg);
    hmac::Mac::finalize(m).into_bytes().to_vec()
}

/// Relies on `rand::random`: a machine-chosen value of which nothing is
/// promised.
#[verifier::external_body]
pub(crate) fn random_u32() -> u32 {
    rand::random::<u32>()
}

} // verus!
