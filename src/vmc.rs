use vstd::prelude::*;

use crate::text::{chars_of, string_of};

verus! {

/// How long a cached signing key is kept without a refresh, in seconds (7 days).
pub const CACHE_TTL_SECS: i64 = 604800;

/// How often the cached keys are refreshed, in seconds (4 hours).
pub const REFRESH_INTERVAL_SECS: u64 = 14400;

/// One verification method of a resolved identity document.
#[derive(Clone, Debug)]
pub struct VerificationMethod {
    pub public_key_multibase: String,
}

/// The parts of a resolved identity document that the cache reads.
#[derive(Clone, Debug)]
pub struct ResolvedPlcDid {
    pub id: String,
    pub verification_method: Vec<VerificationMethod>,
}

/// Why a resolved document yields no key.
#[derive(PartialEq, Eq, Structural, Clone, Copy, Debug)]
pub enum ResolveError {
    /// The document describes another identity than the one asked for.
    DidMismatch,
    /// The document lists no verification method.
    NoKey,
}

pub open spec fn web_prefix() -> Seq<char> {
    "did:web:"@
}

/// Where an identity's document is fetched: `did:web:{host}` from the host's well-known
/// path, any other identity from the directory host.
pub open spec fn resolver_url_text(did: Seq<char>, plc_hostname: Seq<char>) -> Seq<char> {
    if did.len() >= 8 && did.take(8) == web_prefix() {
        "https://"@ + did.skip(8) + "/.well-known/did.json"@
    } else {
        "https://"@ + plc_hostname + "/"@ + did
    }
}

pub fn resolver_url(did: &str, plc_hostname: &str) -> (r: String)
    ensures
        r@ == resolver_url_text(did@, plc_hostname@),
{
    let chars = chars_of(did);
    let prefix = chars_of("did:web:");
    proof {
        reveal_strlit("did:web:");
    }
    let mut web = chars.len() >= 8;
    let mut k: usize = 0;
    while web && k < 8
        invariant
            k <= 8,
            web ==> chars@.len() >= 8,
            prefix@ == web_prefix(),
            prefix@.len() == 8,
            web ==> forall|m: int| 0 <= m < k ==> chars@[m] == prefix@[m],
            !web ==> !(chars@.len() >= 8 && chars@.take(8) == web_prefix()),
        decreases 8 - k,
    {
        if chars[k] != prefix[k] {
            assert(chars@.take(8)[k as int] != prefix@[k as int]);
            web = false;
        }
        k = k + 1;
    }
    if web {
        assert(chars@.take(8) =~= web_prefix());
        let host = string_of(vstd::slice::slice_subrange(chars.as_slice(), 8, chars.len()));
        assert(host@ =~= did@.skip(8));
        let mut url = "https://".to_owned();
        url.append(host.as_str());
        url.append("/.well-known/did.json");
        url
    } else {
        let mut url = "https://".to_owned();
        url.append(plc_hostname);
        url.append("/");
        url.append(did);
        url
    }
}

/// The signing key that a resolved document gives for `did`: the first verification method's
/// key, when the document is about `did`.
pub fn resolved_key(did: &str, resolved: &ResolvedPlcDid) -> (r: Result<String, ResolveError>)
    ensures
        resolved.id@ != did@ ==> r == Err::<String, _>(ResolveError::DidMismatch),
        resolved.id@ == did@ && resolved.verification_method@.len() == 0 ==> r == Err::<
            String,
            _,
        >(ResolveError::NoKey),
        r matches Ok(k) ==> resolved.id@ == did@ && resolved.verification_method@.len() > 0
            && k@ == resolved.verification_method@[0].public_key_multibase@,
        (resolved.id@ == did@ && resolved.verification_method@.len() > 0) ==> r is Ok,
{
    if resolved.id != did.to_owned() {
        return Err(ResolveError::DidMismatch);
    }
    if resolved.verification_method.len() == 0 {
        return Err(ResolveError::NoKey);
    }
    Ok(resolved.verification_method[0].public_key_multibase.clone())
}

/// The update time before which a cached key is stale at `now` (seconds).
pub fn stale_before(now: i64) -> (r: i64)
    ensures
        now - CACHE_TTL_SECS >= i64::MIN ==> r == now - CACHE_TTL_SECS,
        now - CACHE_TTL_SECS < i64::MIN ==> r == i64::MIN,
{
    if now < i64::MIN + CACHE_TTL_SECS {
        i64::MIN
    } else {
        now - CACHE_TTL_SECS
    }
}

} // verus!
