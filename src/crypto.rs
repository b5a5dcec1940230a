use vstd::prelude::*;
use vstd::string::StringSliceAdditionalSpecFns;

verus! {

/// The claims of a service-auth token.
#[derive(Clone, Debug)]
pub struct JwtClaims {
    pub iss: String,
    pub aud: String,
    pub iat: i32,
    pub exp: i32,
    pub lxm: String,
}

/// The header of a service-auth token.
#[derive(Clone, Debug)]
pub struct JwtHeader {
    pub typ: String,
    pub alg: String,
}

/// What `multibase::decode` gives for a key text: its bytes, or nothing when it does not decode.
pub uninterp spec fn multibase_decoded(s: Seq<char>) -> Option<Seq<u8>>;

/// Whether a secp256k1 ECDSA signature over `msg` checks out under a SEC1-encoded key.
pub uninterp spec fn secp256k1_verifies(key: Seq<u8>, msg: Seq<u8>, sig: Seq<u8>) -> bool;

/// Whether a P-256 ECDSA signature over `msg` checks out under a SEC1-encoded key.
pub uninterp spec fn p256_verifies(key: Seq<u8>, msg: Seq<u8>, sig: Seq<u8>) -> bool;

/// Relies on `multibase::decode`: the bytes depend on the text alone; the base is dropped.
#[verifier::external_body]
fn multibase_bytes(s: &str) -> (r: Option<Vec<u8>>)
    ensures
        r matches Some(v) ==> multibase_decoded(s@) == Some(v@),
        r is None ==> multibase_decoded(s@) is None,
{
    multibase::decode(s).ok().map(|decoded| decoded.1)
}

/// Relies on k256's `VerifyingKey::verify` (through `ecdsa::signature::Verifier`), with the key
/// read by `VerifyingKey::from_sec1_bytes` and the signature by `ecdsa::Signature::from_slice`;
/// a key or signature that does not parse verifies nothing.
#[verifier::external_body]
fn verify_secp256k1(key: &[u8], msg: &[u8], sig: &[u8]) -> (r: bool)
    ensures
        r == secp256k1_verifies(key@, msg@, sig@),
{
    let (Ok(signature), Ok(key)) = (
        ecdsa::Signature::<k256::Secp256k1>::from_slice(sig),
        k256::ecdsa::VerifyingKey::from_sec1_bytes(key),
    ) else {
        return false;
    };
    ecdsa::signature::Verifier::verify(&key, msg, &signature).is_ok()
}

/// Relies on p256's `VerifyingKey::verify` (through `ecdsa::signature::Verifier`), with the key
/// read by `VerifyingKey::from_sec1_bytes` and the signature by `ecdsa::Signature::from_slice`;
/// a key or signature that does not parse verifies nothing.
#[verifier::external_body]
fn verify_p256(key: &[u8], msg: &[u8], sig: &[u8]) -> (r: bool)
    ensures
        r == p256_verifies(key@, msg@, sig@),
{
    let (Ok(signature), Ok(key)) = (
        ecdsa::Signature::<p256::NistP256>::from_slice(sig),
        p256::ecdsa::VerifyingKey::from_sec1_bytes(key),
    ) else {
        return false;
    };
    ecdsa::signature::Verifier::verify(&key, msg, &signature).is_ok()
}

/// The two signature schemes that a multikey can select.
#[derive(PartialEq, Eq, Structural, Clone, Copy, Debug)]
pub enum KeyScheme {
    Secp256k1,
    P256,
}

/// The scheme that a decoded multikey's two-byte prefix selects.
pub open spec fn key_scheme(decoded: Seq<u8>) -> Option<KeyScheme> {
    if decoded.len() >= 2 && decoded[0] == 0xe7 && decoded[1] == 0x01 {
        Some(KeyScheme::Secp256k1)
    } else if decoded.len() >= 2 && decoded[0] == 0x80 && decoded[1] == 0x24 {
        Some(KeyScheme::P256)
    } else {
        None
    }
}

/// Whether `sig` is a valid signature of `msg` under the multibase-encoded key.
pub open spec fn signature_accepted(multikey: Seq<char>, sig: Seq<u8>, msg: Seq<u8>) -> bool {
    match multibase_decoded(multikey) {
        None => false,
        Some(d) => match key_scheme(d) {
            Some(KeyScheme::Secp256k1) => secp256k1_verifies(d.skip(2), msg, sig),
            Some(KeyScheme::P256) => p256_verifies(d.skip(2), msg, sig),
            None => false,
        },
    }
}

/// Why a signature was refused.
#[derive(PartialEq, Eq, Structural, Clone, Copy, Debug)]
pub enum SignatureError {
    /// The key text is not multibase.
    UndecodableKey,
    /// The key's prefix names neither supported curve.
    UnsupportedKey,
    /// The signature does not check out under the key.
    BadSignature,
}

/// Selects the signature scheme from a decoded multikey.
pub fn select_scheme(decoded: &[u8]) -> (r: Option<KeyScheme>)
    ensures
        r == key_scheme(decoded@),
{
    if decoded.len() >= 2 && decoded[0] == 0xe7 && decoded[1] == 0x01 {
        Some(KeyScheme::Secp256k1)
    } else if decoded.len() >= 2 && decoded[0] == 0x80 && decoded[1] == 0x24 {
        Some(KeyScheme::P256)
    } else {
        None
    }
}

/// Verifies `signature` over the bytes of `content` with a multibase-encoded key.
pub fn validate(multibase_key: &str, signature: &[u8], content: &str) -> (r: Result<
    (),
    SignatureError,
>)
    ensures
        r is Ok <==> signature_accepted(multibase_key@, signature@, content.spec_bytes()),
        r == Err::<(), _>(SignatureError::UndecodableKey) <==> multibase_decoded(multibase_key@) is None,
        r == Err::<(), _>(SignatureError::UnsupportedKey) <==> (multibase_decoded(multibase_key@) matches Some(d)
            && key_scheme(d) is None),
{
    let decoded = match multibase_bytes(multibase_key) {
        Some(d) => d,
        None => return Err(SignatureError::UndecodableKey),
    };
    let scheme = select_scheme(decoded.as_slice());
    let msg = content.as_bytes();
    let verified = match scheme {
        None => return Err(SignatureError::UnsupportedKey),
        Some(KeyScheme::Secp256k1) => {
            let key = vstd::slice::slice_subrange(decoded.as_slice(), 2, decoded.len());
            assert(key@ == decoded@.skip(2));
            verify_secp256k1(key, msg, signature)
        },
        Some(KeyScheme::P256) => {
            let key = vstd::slice::slice_subrange(decoded.as_slice(), 2, decoded.len());
            assert(key@ == decoded@.skip(2));
            verify_p256(key, msg, signature)
        },
    };
    if verified {
        Ok(())
    } else {
        Err(SignatureError::BadSignature)
    }
}

} // verus!
