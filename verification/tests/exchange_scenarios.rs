use datademo::errors::ExchangeError;
use datademo::exchange::{auth_link, exchange_form, interpret_exchange_response, token_url};
use datademo::model::Config;
use datademo::token::TokenVerifier;

fn config() -> Config {
    Config {
        auth_server_uri: "https://auth.example.com".to_string(),
        data_api_uri: "https://api.example.com/data/v1".to_string(),
        client_id: "client-1".to_string(),
        client_secret: "SECRET-REDACTED".to_string(),
        redirect_uri: "http://localhost:5000/signin_callback".to_string(),
        providers: "uk-mock".to_string(),
        scope: "info accounts transactions".to_string(),
    }
}

/// Base64url without padding, as JWTs use it.
fn b64url(data: &[u8]) -> String {
    const ALPHA: &[u8] = b"ABCDEFGHIJKLMNOPQRSTUVWXYZabcdefghijklmnopqrstuvwxyz0123456789-_";
    let mut out = String::new();
    for chunk in data.chunks(3) {
        let b = [chunk[0], *chunk.get(1).unwrap_or(&0), *chunk.get(2).unwrap_or(&0)];
        let n = ((b[0] as u32) << 16) | ((b[1] as u32) << 8) | (b[2] as u32);
        let idx = [(n >> 18) & 63, (n >> 12) & 63, (n >> 6) & 63, n & 63];
        let take = match chunk.len() {
            1 => 2,
            2 => 3,
            _ => 4,
        };
        for k in 0..take {
            out.push(ALPHA[idx[k] as usize] as char);
        }
    }
    out
}

fn make_token(payload: &str) -> String {
    let header = b64url(b"{\"alg\":\"HS256\",\"typ\":\"JWT\"}");
    format!("{}.{}.c2ln", header, b64url(payload.as_bytes()))
}

#[test]
fn provider_rejection_keeps_status_and_body() {
    let r = interpret_exchange_response(
        400,
        "invalid_grant".to_string(),
        &TokenVerifier::DecodeOnly,
    );
    match r {
        Err(ExchangeError::ProviderRejected { status, body }) => {
            assert_eq!(status, 400);
            assert_eq!(body, "invalid_grant");
        },
        _ => panic!("expected the provider rejection"),
    }
}

#[test]
fn successful_exchange_yields_credentials() {
    let token = make_token("{\"sub\":\"u1\",\"exp\":32503680000}");
    let body = format!("{{\"access_token\":\"{}\"}}", token);
    let creds = interpret_exchange_response(200, body, &TokenVerifier::DecodeOnly).unwrap();
    assert_eq!(creds.credentials_id, "u1");
    assert_eq!(creds.access_token, token);
    assert_eq!(creds.expiration_date, 32503680000);
}

#[test]
fn body_without_access_token_is_token_invalid() {
    let r = interpret_exchange_response(
        200,
        "{\"unexpected\":true}".to_string(),
        &TokenVerifier::DecodeOnly,
    );
    assert!(matches!(r, Err(ExchangeError::TokenInvalid)));
}

#[test]
fn unparseable_body_is_token_invalid() {
    let r = interpret_exchange_response(200, "not json".to_string(), &TokenVerifier::DecodeOnly);
    assert!(matches!(r, Err(ExchangeError::TokenInvalid)));
}

#[test]
fn undecodable_access_token_is_token_invalid() {
    let r = interpret_exchange_response(
        200,
        "{\"access_token\":\"junk\"}".to_string(),
        &TokenVerifier::DecodeOnly,
    );
    assert!(matches!(r, Err(ExchangeError::TokenInvalid)));
}

#[test]
fn exchange_form_names_every_field() {
    let form = exchange_form(&config(), "code-123");
    let pairs: Vec<(&str, &str)> =
        form.iter().map(|p| (p.0.as_str(), p.1.as_str())).collect();
    assert_eq!(
        pairs,
        vec![
            ("grant_type", "authorization_code"),
            ("client_id", "client-1"),
            ("client_secret", "SECRET-REDACTED"),
            ("redirect_uri", "http://localhost:5000/signin_callback"),
            ("code", "code-123"),
        ]
    );
}

#[test]
fn token_url_targets_the_connect_endpoint() {
    assert_eq!(token_url(&config()), "https://auth.example.com/connect/token");
}

#[test]
fn auth_link_spells_the_configured_query() {
    let link = auth_link(&config()).unwrap();
    assert_eq!(
        link,
        "https://auth.example.com/?response_type=code&client_id=client-1\
         &redirect_uri=http://localhost:5000/signin_callback\
         &scope=info accounts transactions&providers=uk-mock"
    );
}

#[test]
fn auth_link_refuses_an_unparseable_base() {
    let mut cfg = config();
    cfg.auth_server_uri = "not a url".to_string();
    assert!(auth_link(&cfg).is_none());
}
