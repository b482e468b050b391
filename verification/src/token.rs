//! Token codec: decoding access tokens into claims, and taking the bearer
//! token out of an inbound `Authorization` header.
//!
//! Decoding is capability-abstracted: a [`TokenVerifier`] either checks the
//! token's signature against a shared secret (the secure default) or merely
//! decodes the payload without trust. The header parsing and everything
//! decided on the decoded claims is verified; only the calls into the
//! `jsonwebtoken` crate are trusted.

use vstd::prelude::*;

use crate::errors::{AuthError, TokenError};
use crate::model::{Claims, Credentials};

verus! {

/// Capability that says how far a token is trusted before its claims are used.
pub enum TokenVerifier {
    /// Verify the signature against this shared secret before trusting the payload.
    Secret { key: Vec<u8> },
    /// Decode the payload only; no signature is trusted.
    DecodeOnly,
}

impl TokenVerifier {
    /// The secret this capability verifies against, `None` for decode-only.
    pub open spec fn key(&self) -> Option<Seq<u8>> {
        match self {
            TokenVerifier::Secret { key } => Some(key@),
            TokenVerifier::DecodeOnly => None,
        }
    }
}

/// The `sub` and `exp` claims that `jsonwebtoken::dangerous::insecure_decode`
/// extracts from this token, `None` where decoding fails or either claim is
/// absent or of the wrong type. A function of the token alone.
pub uninterp spec fn jwt_claims_insecure(token: Seq<char>) -> Option<(Seq<char>, u64)>;

/// Whether `jsonwebtoken::dangerous::insecure_decode` can parse this token at
/// all: the dot-split into three parts, the base64 of header and payload, and
/// their JSON. A function of the token alone.
pub uninterp spec fn jwt_parses_insecure(token: Seq<char>) -> bool;

/// The `sub` and `exp` claims that `jsonwebtoken::decode` extracts from this
/// token when its signature is verified against `key` (time-based checks
/// disabled), `None` where parsing, signature verification or either claim
/// fails. A function of the token and key alone.
pub uninterp spec fn jwt_claims_verified(token: Seq<char>, key: Seq<u8>) -> Option<(Seq<char>, u64)>;

/// Whether this token parses and its signature verifies against `key`. A
/// function of the token and key alone.
pub uninterp spec fn jwt_parses_verified(token: Seq<char>, key: Seq<u8>) -> bool;

/// What decoding yields under a given capability.
pub open spec fn decoded_claims(token: Seq<char>, key: Option<Seq<u8>>) -> Option<(Seq<char>, u64)> {
    match key {
        Some(k) => jwt_claims_verified(token, k),
        None => jwt_claims_insecure(token),
    }
}

/// Whether the token parses (and, under a secret, its signature verifies):
/// the line between [`TokenError::Malformed`] and
/// [`TokenError::InvalidClaims`].
pub open spec fn token_parses(token: Seq<char>, key: Option<Seq<u8>>) -> bool {
    match key {
        Some(k) => jwt_parses_verified(token, k),
        None => jwt_parses_insecure(token),
    }
}

/// Relies on `jsonwebtoken::dangerous::insecure_decode`: the token's payload is
/// base64-decoded and parsed as JSON with no validation, and its `sub` (string)
/// and `exp` (unsigned integer) members are taken from the returned value.
#[verifier::external_body]
fn jwt_decode_insecure(token: &str) -> (r: Result<(String, u64), TokenError>)
    ensures
        r matches Ok(c) ==> jwt_claims_insecure(token@) == Some((c.0@, c.1)),
        r is Err ==> jwt_claims_insecure(token@) is None,
        r is Ok ==> jwt_parses_insecure(token@),
        r matches Err(e) ==> (e is Malformed <==> !jwt_parses_insecure(token@)),
{
    let d: jsonwebtoken::TokenData<serde_json::Value> =
        jsonwebtoken::dangerous::insecure_decode(token).map_err(|_| TokenError::Malformed)?;
    let sub = d.claims.get("sub").and_then(|x| x.as_str()).ok_or(TokenError::InvalidClaims)?;
    let exp = d.claims.get("exp").and_then(|x| x.as_u64()).ok_or(TokenError::InvalidClaims)?;
    Ok((sub.to_owned(), exp))
}

/// Relies on `jsonwebtoken::decode_header` and `jsonwebtoken::decode`: the
/// algorithm is read from the token's own header, the signature is verified
/// against the secret, and `sub` and `exp` are taken from the returned
/// payload. All claim-content validation (expiry, not-before, audience,
/// required claims) is switched off, so the result depends on the arguments
/// alone; that determinism also rests on the process using the crate's own
/// crypto backend — neither this library nor its callers install a custom
/// provider.
#[verifier::external_body]
fn jwt_decode_verified(token: &str, key: &[u8]) -> (r: Result<(String, u64), TokenError>)
    ensures
        r matches Ok(c) ==> jwt_claims_verified(token@, key@) == Some((c.0@, c.1)),
        r is Err ==> jwt_claims_verified(token@, key@) is None,
        r is Ok ==> jwt_parses_verified(token@, key@),
        r matches Err(e) ==> (e is Malformed <==> !jwt_parses_verified(token@, key@)),
{
    let alg = jsonwebtoken::decode_header(token).map_err(|_| TokenError::Malformed)?.alg;
    let mut v = jsonwebtoken::Validation::new(alg);
    v.validate_exp = false;
    v.validate_aud = false;
    v.required_spec_claims = std::collections::HashSet::new();
    let k = jsonwebtoken::DecodingKey::from_secret(key);
    let d: jsonwebtoken::TokenData<serde_json::Value> =
        jsonwebtoken::decode(token, &k, &v).map_err(|_| TokenError::Malformed)?;
    let sub = d.claims.get("sub").and_then(|x| x.as_str()).ok_or(TokenError::InvalidClaims)?;
    let exp = d.claims.get("exp").and_then(|x| x.as_u64()).ok_or(TokenError::InvalidClaims)?;
    Ok((sub.to_owned(), exp))
}

/// Decodes a token into structurally validated claims under the given
/// capability.
pub fn decode(token: &str, v: &TokenVerifier) -> (r: Result<Claims, TokenError>)
    ensures
        r matches Ok(c) ==> decoded_claims(token@, v.key()) == Some((c.sub@, c.exp)),
        r is Ok <==> decoded_claims(token@, v.key()) is Some,
        r matches Err(e) ==> (e is Malformed <==> !token_parses(token@, v.key())),
        r matches Err(e) ==> (e is InvalidClaims <==> token_parses(token@, v.key())
            && decoded_claims(token@, v.key()) is None),
{
    let raw = match v {
        TokenVerifier::Secret { key } => jwt_decode_verified(token, key.as_slice()),
        TokenVerifier::DecodeOnly => jwt_decode_insecure(token),
    };
    match raw {
        Ok(c) => Ok(Claims { sub: c.0, exp: c.1 }),
        Err(e) => Err(e),
    }
}

/// Whitespace as trimmed around a bearer token.
pub open spec fn spec_is_space(c: char) -> bool {
    c == ' ' || c == '\t' || c == '\r' || c == '\n'
}

/// The sequence with its leading whitespace removed.
pub open spec fn trim_start(s: Seq<char>) -> Seq<char>
    decreases s.len(),
{
    if s.len() > 0 && spec_is_space(s.first()) {
        trim_start(s.drop_first())
    } else {
        s
    }
}

/// The sequence with its trailing whitespace removed.
pub open spec fn trim_end(s: Seq<char>) -> Seq<char>
    decreases s.len(),
{
    if s.len() > 0 && spec_is_space(s.last()) {
        trim_end(s.drop_last())
    } else {
        s
    }
}

/// The sequence with whitespace removed on both sides.
pub open spec fn spec_trim(s: Seq<char>) -> Seq<char> {
    trim_end(trim_start(s))
}

/// The characters of the `Bearer` scheme name.
pub open spec fn bearer_prefix() -> Seq<char> {
    seq!['B', 'e', 'a', 'r', 'e', 'r']
}

/// The token carried by an `Authorization` header value: the part after the
/// `Bearer` scheme name, trimmed of surrounding whitespace; `None` where the
/// header does not carry that scheme.
pub open spec fn bearer_token_of(h: Seq<char>) -> Option<Seq<char>> {
    if h.len() >= 6 && h.subrange(0, 6) == bearer_prefix() {
        Some(spec_trim(h.skip(6)))
    } else {
        None
    }
}

proof fn lemma_trim_start_skip(s: Seq<char>, k: int)
    requires
        0 <= k <= s.len(),
        forall|i: int| 0 <= i < k ==> spec_is_space(s[i]),
        k == s.len() || !spec_is_space(s[k]),
    ensures
        trim_start(s) == s.skip(k),
    decreases k,
{
    if k == 0 {
        assert(s.skip(0) =~= s);
    } else {
        assert(spec_is_space(s.first()));
        assert(s.drop_first() =~= s.skip(1));
        lemma_trim_start_skip(s.skip(1), k - 1);
        assert(s.skip(1).skip(k - 1) =~= s.skip(k));
    }
}

proof fn lemma_trim_end_take(s: Seq<char>, k: int)
    requires
        0 <= k <= s.len(),
        forall|i: int| k <= i < s.len() ==> spec_is_space(s[i]),
        k == 0 || !spec_is_space(s[k - 1]),
    ensures
        trim_end(s) == s.take(k),
    decreases s.len() - k,
{
    if k == s.len() {
        assert(s.take(k) =~= s);
    } else {
        assert(spec_is_space(s.last()));
        assert(s.drop_last() =~= s.take(s.len() - 1));
        lemma_trim_end_take(s.take(s.len() - 1), k);
        assert(s.take(s.len() - 1).take(k) =~= s.take(k));
    }
}

/// Takes the bearer token out of an `Authorization` header value.
pub fn extract_bearer(header: &str) -> (r: Option<String>)
    ensures
        r matches Some(t) ==> bearer_token_of(header@) == Some(t@),
        r is Some <==> bearer_token_of(header@) is Some,
{
    let n = header.unicode_len();
    if n < 6 {
        assert(bearer_token_of(header@) is None);
        return None;
    }
    let mut i: usize = 0;
    while i < 6
        invariant
            0 <= i <= 6,
            n == header@.len(),
            6 <= n,
            forall|j: int| 0 <= j < i ==> header@[j] == bearer_prefix()[j],
        decreases 6 - i,
    {
        let c = header.get_char(i);
        let want: char = if i == 0 {
            'B'
        } else if i == 1 {
            'e'
        } else if i == 2 {
            'a'
        } else if i == 3 {
            'r'
        } else if i == 4 {
            'e'
        } else {
            'r'
        };
        if c != want {
            assert(header@.subrange(0, 6) != bearer_prefix());
            return None;
        }
        i += 1;
    }
    assert(header@.subrange(0, 6) =~= bearer_prefix());
    let ghost rest = header@.skip(6);
    // Scan past leading whitespace of the part after the scheme name.
    let mut start: usize = 6;
    while start < n && is_space_char(header.get_char(start))
        invariant
            6 <= start <= n,
            n == header@.len(),
            forall|j: int| 6 <= j < start ==> spec_is_space(header@[j]),
        decreases n - start,
    {
        start += 1;
    }
    // Scan back past trailing whitespace.
    let mut end: usize = n;
    while end > start && is_space_char(header.get_char(end - 1))
        invariant
            start <= end <= n,
            6 <= start <= n,
            n == header@.len(),
            forall|j: int| end <= j < n ==> spec_is_space(header@[j]),
        decreases end,
    {
        end -= 1;
    }
    let token = header.substring_char(start, end).to_owned();
    proof {
        lemma_trim_start_skip(rest, start - 6);
        assert(rest.skip(start - 6) =~= header@.subrange(start as int, header@.len() as int));
        if end == start {
            lemma_trim_end_take(rest.skip(start - 6), 0);
        } else {
            assert(!spec_is_space(header@[end - 1]));
            lemma_trim_end_take(rest.skip(start - 6), end - start);
        }
        assert(rest.skip(start - 6).take(end - start) =~= header@.subrange(
            start as int,
            end as int,
        ));
    }
    Some(token)
}

/// Whether this character counts as trimmable whitespace.
pub fn is_space_char(c: char) -> (r: bool)
    ensures
        r == spec_is_space(c),
{
    c == ' ' || c == '\t' || c == '\r' || c == '\n'
}

/// What taking credentials out of an inbound request must yield, for a given
/// header value and verifier capability: the middleware precondition of every
/// protected route.
pub open spec fn expected_header_result(
    h: Option<Seq<char>>,
    key: Option<Seq<u8>>,
    r: Result<Credentials, AuthError>,
) -> bool {
    match h {
        None => r == Result::<Credentials, AuthError>::Err(AuthError::Missing),
        Some(hs) => match bearer_token_of(hs) {
            None => r == Result::<Credentials, AuthError>::Err(AuthError::Invalid),
            Some(t) => match decoded_claims(t, key) {
                None => r == Result::<Credentials, AuthError>::Err(AuthError::Invalid),
                Some(c) => r matches Ok(cr) && cr.access_token@ == t && cr.credentials_id@ == c.0
                    && cr.expiration_date == c.1,
            },
        },
    }
}

/// The view of an optional header value.
pub open spec fn header_view(h: Option<&str>) -> Option<Seq<char>> {
    match h {
        Some(s) => Some(s@),
        None => None,
    }
}

/// Takes the credentials asserted by an inbound request's `Authorization`
/// header: the header must be present and carry a `Bearer` token that decodes
/// under the given capability.
pub fn credentials_from_header(header: Option<&str>, v: &TokenVerifier) -> (r: Result<
    Credentials,
    AuthError,
>)
    ensures
        expected_header_result(header_view(header), v.key(), r),
{
    let h = match header {
        Some(h) => h,
        None => {
            return Err(AuthError::Missing);
        },
    };
    let token = match extract_bearer(h) {
        Some(t) => t,
        None => {
            return Err(AuthError::Invalid);
        },
    };
    match decode(token.as_str(), v) {
        Ok(claims) => Ok(Credentials::new(token.as_str(), claims)),
        Err(_) => Err(AuthError::Invalid),
    }
}

} // verus!
