//! The authorization-code exchange and the outbound request material.
//!
//! The outbound POST itself happens outside the library; this module spells
//! the exact request (endpoint and form fields) and interprets the
//! provider's response: a non-success status is surfaced with its status and
//! body, a success body must name an access token, and that token must
//! decode into claims.

use vstd::prelude::*;

use crate::errors::ExchangeError;
use crate::fetch::spec_success;
use crate::model::{Config, Credentials};
use crate::token::{TokenVerifier, decode, decoded_claims};
use vstd::string::StringExecFns;

verus! {

/// The access token named by a provider response body: `None` where the body
/// is not a JSON object with a string `access_token` member. A function of
/// the body alone.
pub uninterp spec fn json_access_token(body: Seq<char>) -> Option<Seq<char>>;

/// Relies on `serde_json::from_str::<Value>`: the body is parsed as JSON and
/// the string under its `access_token` key is handed back.
#[verifier::external_body]
fn parse_access_token(body: &str) -> (r: Option<String>)
    ensures
        r matches Some(t) ==> json_access_token(body@) == Some(t@),
        r is None ==> json_access_token(body@) is None,
{
    let v: serde_json::Value = serde_json::from_str(body).ok()?;
    Some(v.get("access_token")?.as_str()?.to_owned())
}

/// Whether a string parses as a URL. A function of the string alone.
pub uninterp spec fn parseable_url(s: Seq<char>) -> bool;

/// Relies on `url::Url::parse`: whether the string is a well-formed absolute
/// URL.
#[verifier::external_body]
fn url_parses(s: &str) -> (r: bool)
    ensures
        r == parseable_url(s@),
{
    url::Url::parse(s).is_ok()
}

/// The token endpoint of the identity provider.
pub fn token_url(cfg: &Config) -> (r: String)
    ensures
        r@ == cfg.auth_server_uri@ + "/connect/token"@,
{
    cfg.auth_server_uri.clone().concat("/connect/token")
}

/// The form of the code-exchange request: the grant type, the client
/// identity and secret, the redirect URI, and the authorization code.
pub fn exchange_form(cfg: &Config, code: &str) -> (r: Vec<(String, String)>)
    ensures
        r@.len() == 5,
        r@[0].0@ == "grant_type"@ && r@[0].1@ == "authorization_code"@,
        r@[1].0@ == "client_id"@ && r@[1].1@ == cfg.client_id@,
        r@[2].0@ == "client_secret"@ && r@[2].1@ == cfg.client_secret@,
        r@[3].0@ == "redirect_uri"@ && r@[3].1@ == cfg.redirect_uri@,
        r@[4].0@ == "code"@ && r@[4].1@ == code@,
{
    let mut out: Vec<(String, String)> = Vec::new();
    out.push((String::from_str("grant_type"), String::from_str("authorization_code")));
    out.push((String::from_str("client_id"), cfg.client_id.clone()));
    out.push((String::from_str("client_secret"), cfg.client_secret.clone()));
    out.push((String::from_str("redirect_uri"), cfg.redirect_uri.clone()));
    out.push((String::from_str("code"), code.to_owned()));
    out
}

/// What interpreting a provider response must yield, for a given status,
/// body and verifier capability.
pub open spec fn expected_exchange_result(
    status: u16,
    body: Seq<char>,
    key: Option<Seq<u8>>,
    r: Result<Credentials, ExchangeError>,
) -> bool {
    if !spec_success(status) {
        r matches Err(e) && e matches ExchangeError::ProviderRejected { status: s, body: b } && s
            == status && b@ == body
    } else {
        match json_access_token(body) {
            None => r matches Err(e) && e is TokenInvalid,
            Some(t) => match decoded_claims(t, key) {
                None => r matches Err(e) && e is TokenInvalid,
                Some(c) => r matches Ok(cr) && cr.access_token@ == t && cr.credentials_id@ == c.0
                    && cr.expiration_date == c.1,
            },
        }
    }
}

/// Interprets the provider's answer to the code exchange: rejection keeps
/// the provider's status and body; a success body must name an access token
/// that decodes under the given capability, which yields the credential.
pub fn interpret_exchange_response(status: u16, body: String, v: &TokenVerifier) -> (r: Result<
    Credentials,
    ExchangeError,
>)
    ensures
        expected_exchange_result(status, body@, v.key(), r),
{
    if !(200 <= status && status < 300) {
        return Err(ExchangeError::ProviderRejected { status, body });
    }
    let token = match parse_access_token(body.as_str()) {
        Some(t) => t,
        None => {
            return Err(ExchangeError::TokenInvalid);
        },
    };
    match decode(token.as_str(), v) {
        Ok(claims) => Ok(Credentials::new(token.as_str(), claims)),
        Err(_) => Err(ExchangeError::TokenInvalid),
    }
}

/// The authorization link spelled from configuration: the base, a fixed
/// `response_type=code`, then client id, redirect URI, scope and providers,
/// all verbatim.
pub open spec fn spec_auth_link(cfg: Config) -> Seq<char> {
    cfg.auth_server_uri@ + "/?response_type=code&client_id="@ + cfg.client_id@ + "&redirect_uri="@
        + cfg.redirect_uri@ + "&scope="@ + cfg.scope@ + "&providers="@ + cfg.providers@
}

/// Builds the authorization link, `None` where the configured base does not
/// parse as a URL.
pub fn auth_link(cfg: &Config) -> (r: Option<String>)
    ensures
        r is Some <==> parseable_url(cfg.auth_server_uri@ + "/?"@),
        r matches Some(u) ==> u@ == spec_auth_link(*cfg),
{
    let base = cfg.auth_server_uri.clone().concat("/?");
    if !url_parses(base.as_str()) {
        return None;
    }
    let u = cfg.auth_server_uri.clone().concat("/?response_type=code&client_id=").concat(
        cfg.client_id.as_str(),
    ).concat("&redirect_uri=").concat(cfg.redirect_uri.as_str()).concat("&scope=").concat(
        cfg.scope.as_str(),
    ).concat("&providers=").concat(cfg.providers.as_str());
    proof {
        assert(u@ =~= spec_auth_link(*cfg));
    }
    Some(u)
}

} // verus!
