use datademo::errors::{AuthError, TokenError};
use datademo::token::{TokenVerifier, credentials_from_header, decode, extract_bearer};

/// Base64url without padding, as JWTs use it.
fn b64url(data: &[u8]) -> String {
    const ALPHA: &[u8] = b"ABCDEFGHIJKLMNOPQRSTUVWXYZabcdefghijklmnopqrstuvwxyz0123456789-_";
    let mut out = String::new();
    for chunk in data.chunks(3) {
        let b = [chunk[0], *chunk.get(1).unwrap_or(&0), *chunk.get(2).unwrap_or(&0)];
        let n = ((b[0] as u32) << 16) | ((b[1] as u32) << 8) | (b[2] as u32);
        let idx = [(n >> 18) & 63, (n >> 12) & 63, (n >> 6) & 63, n & 63];
        let take = match chunk.len() {
            1 => 2,
            2 => 3,
            _ => 4,
        };
        for k in 0..take {
            out.push(ALPHA[idx[k] as usize] as char);
        }
    }
    out
}

fn make_token(payload: &str) -> String {
    let header = b64url(b"{\"alg\":\"HS256\",\"typ\":\"JWT\"}");
    format!("{}.{}.c2ln", header, b64url(payload.as_bytes()))
}

#[test]
fn decode_valid_token_yields_claims() {
    let token = make_token("{\"sub\":\"u1\",\"exp\":32503680000}");
    let claims = decode(&token, &TokenVerifier::DecodeOnly).unwrap();
    assert_eq!(claims.sub, "u1");
    assert_eq!(claims.exp, 32503680000);
}

#[test]
fn decode_garbage_is_malformed() {
    let r = decode("not-a-token", &TokenVerifier::DecodeOnly);
    assert!(matches!(r, Err(TokenError::Malformed)));
}

#[test]
fn decode_missing_exp_is_invalid_claims() {
    let token = make_token("{\"sub\":\"u1\"}");
    let r = decode(&token, &TokenVerifier::DecodeOnly);
    assert!(matches!(r, Err(TokenError::InvalidClaims)));
}

#[test]
fn decode_wrong_type_sub_is_invalid_claims() {
    let token = make_token("{\"sub\":7,\"exp\":32503680000}");
    let r = decode(&token, &TokenVerifier::DecodeOnly);
    assert!(matches!(r, Err(TokenError::InvalidClaims)));
}

#[test]
fn secret_verifier_rejects_forged_signature() {
    // The payload is fine, but the signature is not made with this secret:
    // the secure capability must refuse what decode-only accepts.
    let token = make_token("{\"sub\":\"u1\",\"exp\":32503680000}");
    let secret = TokenVerifier::Secret { key: b"SECRET-REDACTED".to_vec() };
    assert!(matches!(decode(&token, &secret), Err(TokenError::Malformed)));
    assert!(decode(&token, &TokenVerifier::DecodeOnly).is_ok());
}

#[test]
fn bearer_extraction_trims_extra_space() {
    let t = extract_bearer("Bearer  u1token").unwrap();
    assert_eq!(t, "u1token");
}

#[test]
fn bearer_extraction_requires_scheme() {
    assert!(extract_bearer("u1token").is_none());
    assert!(extract_bearer("Basic dXNlcg==").is_none());
}

#[test]
fn header_with_valid_bearer_token_succeeds() {
    let token = make_token("{\"sub\":\"u1\",\"exp\":32503680000}");
    let header = format!("Bearer  {}", token);
    let creds = credentials_from_header(Some(&header), &TokenVerifier::DecodeOnly).unwrap();
    assert_eq!(creds.credentials_id, "u1");
    assert_eq!(creds.access_token, token);
    assert_eq!(creds.expiration_date, 32503680000);
}

#[test]
fn header_without_scheme_is_invalid() {
    let r = credentials_from_header(Some("u1token"), &TokenVerifier::DecodeOnly);
    assert!(matches!(r, Err(AuthError::Invalid)));
}

#[test]
fn missing_header_is_missing() {
    let r = credentials_from_header(None, &TokenVerifier::DecodeOnly);
    assert!(matches!(r, Err(AuthError::Missing)));
}

#[test]
fn header_with_undecodable_token_is_invalid() {
    let r = credentials_from_header(Some("Bearer junk"), &TokenVerifier::DecodeOnly);
    assert!(matches!(r, Err(AuthError::Invalid)));
}
