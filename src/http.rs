use vstd::prelude::*;

use crate::crypto::{signature_accepted, validate, JwtClaims, JwtHeader};
use crate::storage::{cursor_text, key_time, FeedContent};
use crate::text::{chars_of, string_of};
use base64::engine::general_purpose::URL_SAFE_NO_PAD;
use base64::Engine;

verus! {

/// What the URL-safe, unpadded base64 engine makes of a text: its bytes, or nothing.
pub uninterp spec fn base64url_decoded(s: Seq<char>) -> Option<Seq<u8>>;

/// Relies on base64's `URL_SAFE_NO_PAD.decode`: the bytes depend on the text alone.
#[verifier::external_body]
fn base64url_decode(s: &str) -> (r: Option<Vec<u8>>)
    ensures
        r matches Some(v) ==> base64url_decoded(s@) == Some(v@),
        r is None ==> base64url_decoded(s@) is None,
{
    URL_SAFE_NO_PAD.decode(s).ok()
}

/// `s` holds exactly two dots, at `i` and `j`.
pub open spec fn two_dots_at(s: Seq<char>, i: int, j: int) -> bool {
    &&& 0 <= i < j < s.len()
    &&& s[i] == '.'
    &&& s[j] == '.'
    &&& forall|k: int| 0 <= k < s.len() && k != i && k != j ==> s[k] != '.'
}

/// The three dot-separated segments of a token; any other number of segments gives nothing.
pub open spec fn token_segments(s: Seq<char>) -> Option<(Seq<char>, Seq<char>, Seq<char>)> {
    if exists|i: int, j: int| two_dots_at(s, i, j) {
        let (i, j) = choose|i: int, j: int| two_dots_at(s, i, j);
        Some((s.take(i), s.subrange(i + 1, j), s.skip(j + 1)))
    } else {
        None
    }
}

/// Why a caller's token was refused. Callers are never told which.
#[derive(PartialEq, Eq, Structural, Clone, Copy, Debug)]
pub enum AuthError {
    MissingAuthorization,
    MalformedToken,
    UndecodableSegment,
    UnparsableSegment,
    UnsupportedAlgorithm,
    InvalidResource,
    InvalidAudience,
    Expired,
    IssuedInFuture,
    UnknownIssuer,
    InvalidSignature,
}

/// Splits a token into its header, claims and signature segments.
pub fn split_token(token: &str) -> (r: Result<[String; 3], AuthError>)
    ensures
        r is Ok <==> token_segments(token@) is Some,
        r matches Ok(parts) ==> token_segments(token@) == Some(
            (parts@[0]@, parts@[1]@, parts@[2]@),
        ),
        r matches Err(e) ==> e == AuthError::MalformedToken,
{
    let chars = chars_of(token);
    let mut dots: usize = 0;
    let mut first: usize = 0;
    let mut second: usize = 0;
    let mut k: usize = 0;
    while k < chars.len()
        invariant
            k <= chars.len(),
            chars@ == token@,
            dots <= 3,
            dots == 0 ==> forall|m: int| 0 <= m < k ==> chars@[m] != '.',
            dots >= 1 ==> first < k && chars@[first as int] == '.',
            dots == 1 ==> forall|m: int| 0 <= m < k && m != first ==> chars@[m] != '.',
            dots >= 2 ==> first < second < k && chars@[second as int] == '.',
            dots == 2 ==> forall|m: int|
                0 <= m < k && m != first && m != second ==> chars@[m] != '.',
            dots == 3 ==> !(exists|i: int, j: int| two_dots_at(chars@, i, j)),
        decreases chars.len() - k,
    {
        if chars[k] == '.' {
            if dots == 0 {
                first = k;
                dots = 1;
            } else if dots == 1 {
                second = k;
                dots = 2;
            } else if dots == 2 {
                assert forall|i: int, j: int| !two_dots_at(chars@, i, j) by {
                    if two_dots_at(chars@, i, j) {
                        assert(i == first || j == first || chars@[first as int] != '.');
                        assert(i == second || j == second || chars@[second as int] != '.');
                        assert(i == k || j == k || chars@[k as int] != '.');
                    }
                }
                dots = 3;
            }
        }
        k = k + 1;
    }
    if dots != 2 {
        assert forall|i: int, j: int| !two_dots_at(chars@, i, j) by {
            if two_dots_at(chars@, i, j) {
                if dots == 0 {
                    assert(chars@[i] != '.');
                } else if dots == 1 {
                    assert(i == first || chars@[i] != '.');
                    assert(j == first || chars@[j] != '.');
                }
            }
        }
        return Err(AuthError::MalformedToken);
    }
    assert(two_dots_at(chars@, first as int, second as int));
    assert forall|i: int, j: int| two_dots_at(chars@, i, j) implies i == first && j == second by {
        assert(i == first || i == second || chars@[i] != '.');
        assert(j == first || j == second || chars@[j] != '.');
    }
    let header = string_of(vstd::slice::slice_subrange(chars.as_slice(), 0, first));
    let claims = string_of(vstd::slice::slice_subrange(chars.as_slice(), first + 1, second));
    let signature = string_of(vstd::slice::slice_subrange(chars.as_slice(), second + 1, chars.len()));
    assert(header@ =~= chars@.take(first as int));
    assert(claims@ =~= chars@.subrange(first + 1, second as int));
    assert(signature@ =~= chars@.skip(second + 1));
    let parts = [header, claims, signature];
    Ok(parts)
}


/// The token that an `Authorization` header value carries after `Bearer `.
pub open spec fn bearer_token(value: Seq<char>) -> Option<Seq<char>> {
    if value.len() >= 7 && value.take(7) == "Bearer "@ {
        Some(value.skip(7))
    } else {
        None
    }
}

/// A token taken apart: its decoded header, claims and signature, and the text that was signed.
pub struct TokenParts {
    pub header: Vec<u8>,
    pub claims: Vec<u8>,
    pub signature: Vec<u8>,
    /// `"{header_segment}.{claims_segment}"`, the signed input.
    pub signed: String,
}

/// What a header value decodes to: the bytes of the three segments and the signed text.
pub open spec fn token_parts(value: Seq<char>) -> Option<(Seq<u8>, Seq<u8>, Seq<u8>, Seq<char>)> {
    match bearer_token(value) {
        None => None,
        Some(token) => match token_segments(token) {
            None => None,
            Some((h, c, s)) => match (
                base64url_decoded(h),
                base64url_decoded(c),
                base64url_decoded(s),
            ) {
                (Some(hb), Some(cb), Some(sb)) => Some((hb, cb, sb, h + "."@ + c)),
                _ => None,
            },
        },
    }
}

/// Takes the bearer token out of an `Authorization` header value and decodes its segments.
pub fn decode_token(authorization: Option<&str>) -> (r: Result<TokenParts, AuthError>)
    ensures
        r is Ok <==> (authorization matches Some(a) && token_parts(a@) is Some),
        r matches Ok(p) ==> (authorization matches Some(a) && token_parts(a@) == Some(
            (p.header@, p.claims@, p.signature@, p.signed@),
        )),
        authorization is None ==> r == Err::<TokenParts, _>(AuthError::MissingAuthorization),
{
    let value = match authorization {
        Some(v) => v,
        None => return Err(AuthError::MissingAuthorization),
    };
    let chars = chars_of(value);
    let scheme = chars_of("Bearer ");
    proof {
        reveal_strlit("Bearer ");
    }
    if chars.len() < 7 {
        return Err(AuthError::MissingAuthorization);
    }
    let mut k: usize = 0;
    while k < 7
        invariant
            k <= 7 <= chars.len(),
            chars@ == value@,
            authorization == Some(value),
            scheme@ == "Bearer "@,
            scheme@.len() == 7,
            forall|m: int| 0 <= m < k ==> chars@[m] == scheme@[m],
        decreases 7 - k,
    {
        if chars[k] != scheme[k] {
            assert(chars@.take(7)[k as int] != "Bearer "@[k as int]);
            return Err(AuthError::MissingAuthorization);
        }
        k = k + 1;
    }
    assert(chars@.take(7) =~= "Bearer "@);
    let token = string_of(vstd::slice::slice_subrange(chars.as_slice(), 7, chars.len()));
    assert(token@ =~= value@.skip(7));
    let segments = split_token(token.as_str())?;
    let header_segment = segments[0].clone();
    let claims_segment = segments[1].clone();
    let signature_segment = segments[2].clone();
    let header = match base64url_decode(header_segment.as_str()) {
        Some(b) => b,
        None => return Err(AuthError::UndecodableSegment),
    };
    let claims = match base64url_decode(claims_segment.as_str()) {
        Some(b) => b,
        None => return Err(AuthError::UndecodableSegment),
    };
    let signature = match base64url_decode(signature_segment.as_str()) {
        Some(b) => b,
        None => return Err(AuthError::UndecodableSegment),
    };
    let mut signed = header_segment;
    signed.append(".");
    signed.append(claims_segment.as_str());
    Ok(TokenParts { header, claims, signature, signed })
}

/// The algorithm that tokens must name.
pub open spec fn supported_algorithm() -> Seq<char> {
    "ES256K"@
}

/// The method that tokens must be meant for.
pub open spec fn feed_skeleton_method() -> Seq<char> {
    "app.bsky.feed.getFeedSkeleton"@
}

/// The audience that tokens must name: this service's `did:web` identity.
pub open spec fn expected_audience(external_base: Seq<char>) -> Seq<char> {
    "did:web:"@ + external_base
}

/// Whether header and claims hold what a token for this service must hold at time `now`
/// (seconds): the supported algorithm, the feed-skeleton method, this service as audience,
/// not expired and not issued in the future.
pub open spec fn claims_accepted(
    header: JwtHeader,
    claims: JwtClaims,
    external_base: Seq<char>,
    now: i64,
) -> bool {
    &&& header.alg@ == supported_algorithm()
    &&& claims.lxm@ == feed_skeleton_method()
    &&& claims.aud@ == expected_audience(external_base)
    &&& now <= claims.exp
    &&& claims.iat <= now
}

/// Checks a decoded token against this service, the clock and the issuer's cached key, and
/// yields the issuer's identity. `multikey` is the cached key of `claims.iss`, if any.
pub fn verify_token(
    parts: &TokenParts,
    header: &JwtHeader,
    claims: &JwtClaims,
    external_base: &str,
    now: i64,
    multikey: Option<&str>,
) -> (r: Result<String, AuthError>)
    ensures
        r is Ok <==> {
            &&& claims_accepted(*header, *claims, external_base@, now)
            &&& multikey matches Some(k)
            &&& signature_accepted(k@, parts.signature@, vstd::utf8::encode_utf8(parts.signed@))
        },
        r matches Ok(iss) ==> iss@ == claims.iss@,
        multikey is None ==> r is Err,
        claims.exp < now ==> r is Err,
{
    if header.alg != "ES256K".to_owned() {
        return Err(AuthError::UnsupportedAlgorithm);
    }
    if claims.lxm != "app.bsky.feed.getFeedSkeleton".to_owned() {
        return Err(AuthError::InvalidResource);
    }
    let mut audience = "did:web:".to_owned();
    audience.append(external_base);
    if claims.aud != audience {
        return Err(AuthError::InvalidAudience);
    }
    if (claims.exp as i64) < now {
        return Err(AuthError::Expired);
    }
    if (claims.iat as i64) > now {
        return Err(AuthError::IssuedInFuture);
    }
    let key = match multikey {
        Some(k) => k,
        None => return Err(AuthError::UnknownIssuer),
    };
    match validate(key, parts.signature.as_slice(), parts.signed.as_str()) {
        Ok(()) => Ok(claims.iss.clone()),
        Err(_) => Err(AuthError::InvalidSignature),
    }
}


/// The query of a feed-skeleton request.
#[derive(Clone, Debug)]
pub struct FeedParams {
    pub feed: Option<String>,
    pub limit: Option<u16>,
    pub cursor: Option<String>,
}

/// One post of a feed page.
#[derive(Clone, Debug)]
pub struct FeedItemView {
    pub post: String,
}

/// A feed page: its posts, and the cursor of the next page when there are posts.
#[derive(Clone, Debug)]
pub struct FeedItemsView {
    pub cursor: Option<String>,
    pub feed: Vec<FeedItemView>,
}

/// How the read side sees a feed: who may read it and what a refused reader gets.
#[derive(Clone, Debug)]
pub struct FeedControl {
    pub uri: String,
    pub deny: String,
    pub allowed: Vec<String>,
}

/// Why a feed-skeleton request fails before any page is read.
#[derive(PartialEq, Eq, Structural, Clone, Copy, Debug)]
pub enum SkeletonError {
    /// The request names no feed.
    MissingFeed,
    /// The request names a feed that this service does not publish.
    UnknownFeed,
}

pub open spec fn publishes(feeds: Seq<FeedControl>, uri: Seq<char>) -> bool {
    exists|i: int| 0 <= i < feeds.len() && (#[trigger] feeds[i]).uri@ == uri
}

/// Looks up the feed that `uri` names.
pub fn find_feed(feeds: &Vec<FeedControl>, uri: &str) -> (r: Option<usize>)
    ensures
        r matches Some(i) ==> i < feeds@.len() && feeds@[i as int].uri@ == uri@,
        r is None <==> !publishes(feeds@, uri@),
{
    let wanted = uri.to_owned();
    let mut i: usize = 0;
    while i < feeds.len()
        invariant
            i <= feeds@.len(),
            wanted@ == uri@,
            forall|j: int| 0 <= j < i ==> (#[trigger] feeds@[j]).uri@ != uri@,
        decreases feeds.len() - i,
    {
        if feeds[i].uri == wanted {
            return Some(i);
        }
        i = i + 1;
    }
    None
}

/// Picks the feed that a request asks for.
pub fn select_feed(params: &FeedParams, feeds: &Vec<FeedControl>) -> (r: Result<usize, SkeletonError>)
    ensures
        params.feed is None ==> r == Err::<usize, _>(SkeletonError::MissingFeed),
        params.feed matches Some(u) ==> (r == Err::<usize, _>(SkeletonError::UnknownFeed)
            <==> !publishes(feeds@, u@)),
        r matches Ok(i) ==> (params.feed matches Some(u) && i < feeds@.len()
            && feeds@[i as int].uri@ == u@),
        params.feed matches Some(u) && publishes(feeds@, u@) ==> r is Ok,
{
    match &params.feed {
        None => Err(SkeletonError::MissingFeed),
        Some(uri) => match find_feed(feeds, uri.as_str()) {
            Some(i) => Ok(i),
            None => Err(SkeletonError::UnknownFeed),
        },
    }
}

/// Whether reading the feed takes a token: only a feed with an allow-list does.
pub fn requires_token(control: &FeedControl) -> (r: bool)
    ensures
        r == (control.allowed@.len() > 0),
{
    control.allowed.len() > 0
}

/// Whether a caller may read the feed: anyone when the allow-list is empty, else only a
/// verified caller on the list.
pub open spec fn reader_allowed(allowed: Seq<String>, verified: Result<String, AuthError>) -> bool {
    allowed.len() == 0 || (verified matches Ok(did) && (exists|i: int|
        0 <= i < allowed.len() && (#[trigger] allowed[i])@ == did@))
}

pub fn may_read(control: &FeedControl, verified: &Result<String, AuthError>) -> (r: bool)
    ensures
        r == reader_allowed(control.allowed@, *verified),
        control.allowed@.len() == 0 ==> r,
        verified is Err ==> r == (control.allowed@.len() == 0),
{
    if control.allowed.len() == 0 {
        return true;
    }
    let did = match verified {
        Ok(did) => did,
        Err(_) => return false,
    };
    let mut i: usize = 0;
    while i < control.allowed.len()
        invariant
            i <= control.allowed@.len(),
            control.allowed@.len() > 0,
            verified is Ok && verified->Ok_0 == *did,
            forall|j: int| 0 <= j < i ==> (#[trigger] control.allowed@[j])@ != did@,
        decreases control.allowed.len() - i,
    {
        if control.allowed[i] == *did {
            assert(control.allowed@[i as int]@ == did@);
            return true;
        }
        i = i + 1;
    }
    false
}

/// The page that a refused caller sees: the feed's deny post alone, with no cursor.
pub fn denied_view(control: &FeedControl) -> (r: FeedItemsView)
    ensures
        r.cursor is None,
        r.feed@.len() == 1,
        r.feed@[0].post@ == control.deny@,
{
    let item = FeedItemView { post: control.deny.clone() };
    FeedItemsView { cursor: None, feed: vec![item] }
}

/// The page for a run of rows: each row's uri in order, and the last row's cursor.
pub fn page_view(rows: &Vec<FeedContent>) -> (r: FeedItemsView)
    ensures
        r.feed@.len() == rows@.len(),
        forall|i: int| 0 <= i < rows@.len() ==> (#[trigger] r.feed@[i]).post@ == rows@[i].uri@,
        rows@.len() == 0 ==> r.cursor is None,
        rows@.len() > 0 ==> (r.cursor matches Some(c) && c@ == cursor_text(
            key_time(rows@.last().indexed_at, rows@.last().indexed_at_more),
            rows@.last().cid@,
        )),
{
    let mut feed: Vec<FeedItemView> = Vec::new();
    let mut i: usize = 0;
    while i < rows.len()
        invariant
            i <= rows@.len(),
            feed@.len() == i,
            forall|j: int| 0 <= j < i ==> (#[trigger] feed@[j]).post@ == rows@[j].uri@,
        decreases rows.len() - i,
    {
        feed.push(FeedItemView { post: rows[i].uri.clone() });
        i = i + 1;
    }
    let cursor = if rows.len() > 0 {
        Some(rows[rows.len() - 1].cursor())
    } else {
        None
    };
    FeedItemsView { cursor, feed }
}

} // verus!
