//! The signature that authenticates a request to the service.
use vstd::prelude::*;
use vstd::string::*;

use base64::Engine;
use hmac::Mac;

verus! {

/// The HMAC-SHA256 of `message` under `key`.
pub uninterp spec fn hmac_sha256_of(key: Seq<u8>, message: Seq<u8>) -> Seq<u8>;

/// The standard, padded Base64 text of `bytes`.
pub uninterp spec fn base64_of(bytes: Seq<u8>) -> Seq<char>;

/// Relies on hmac's `Hmac::<Sha256>::new_from_slice`, `Mac::update` and
/// `Mac::finalize`: the HMAC-SHA256 of `message` under `key`, 32 bytes long.
/// `new_from_slice` accepts a key of any length.
#[verifier::external_body]
fn hmac_sha256(key: &[u8], message: &[u8]) -> (r: Option<Vec<u8>>)
    ensures
        r is Some,
        r matches Some(v) ==> v@ == hmac_sha256_of(key@, message@) && v@.len() == 32,
{
    match hmac::Hmac::<sha2::Sha256>::new_from_slice(key) {
        Ok(mut mac) => {
            mac.update(message);
            Some(mac.finalize().into_bytes().to_vec())
        },
        Err(_) => None,
    }
}

/// Relies on base64's `STANDARD.encode`: the padded Base64 text of `bytes`.
/// It panics only where the length of the text overflows `usize`.
#[verifier::external_body]
fn base64_encode(bytes: &[u8]) -> (r: String)
    requires
        bytes@.len() <= 1024,
    ensures
        r@ == base64_of(bytes@),
{
    base64::engine::general_purpose::STANDARD.encode(bytes)
}

/// Appends `bytes` to `v`.
fn append_bytes(v: &mut Vec<u8>, bytes: &[u8])
    ensures
        final(v)@ == old(v)@ + bytes@,
{
    let mut i: usize = 0;
    let ghost start = v@;
    while i < bytes.len()
        invariant
            i <= bytes@.len(),
            v@ == start + bytes@.subrange(0, i as int),
        decreases bytes@.len() - i,
    {
        v.push(bytes[i]);
        i = i + 1;
        assert(v@ =~= start + bytes@.subrange(0, i as int));
    }
    assert(bytes@.subrange(0, i as int) =~= bytes@);
}

/// The signature of a request: the Base64 text of the HMAC-SHA256, under
/// the secret, of the token, the time `t` and the nonce, one after another.
pub fn signature(token: &str, secret: &str, t: &str, nonce: &str) -> (r: String)
    ensures
        r@ == base64_of(
            hmac_sha256_of(secret.spec_bytes(), token.spec_bytes() + t.spec_bytes() + nonce.spec_bytes()),
        ),
{
    let mut message: Vec<u8> = Vec::new();
    append_bytes(&mut message, token.as_bytes());
    append_bytes(&mut message, t.as_bytes());
    append_bytes(&mut message, nonce.as_bytes());
    assert(message@ =~= token.spec_bytes() + t.spec_bytes() + nonce.spec_bytes());
    let mac = hmac_sha256(secret.as_bytes(), message.as_slice());
    let mac = mac.unwrap();
    base64_encode(mac.as_slice())
}

} // verus!
