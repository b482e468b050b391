//! Error taxonomy of the library: every failure of token handling, of the
//! code exchange and of the data-API fetch is one of these typed values.

use vstd::prelude::*;

verus! {

/// Why a bearer/access token could not be decoded into claims.
#[derive(Debug)]
pub enum TokenError {
    /// The token could not be parsed (or its signature did not verify).
    Malformed,
    /// The payload parsed, but `sub` or `exp` is absent or of the wrong type.
    InvalidClaims,
}

/// Why a bearer token could not be taken from an inbound request.
#[derive(Debug)]
pub enum AuthError {
    /// The `Authorization` header is absent.
    Missing,
    /// The header does not carry the `Bearer` scheme, or its token fails to decode.
    Invalid,
}

/// Why the authorization-code exchange against the identity provider failed.
#[derive(Debug)]
pub enum ExchangeError {
    /// The provider answered with a non-success status; its status and body are kept.
    ProviderRejected { status: u16, body: String },
    /// The provider's response held no usable access token, or the token failed to decode.
    TokenInvalid,
    /// The outbound call itself failed before any response arrived.
    Network { message: String },
}

/// Why fetching accounts or transactions from the data API failed.
#[derive(Debug)]
pub enum FetchError {
    /// The data API answered with a non-success status; its status and body are kept.
    Http { status: u16, body: String },
    /// The outbound call itself failed before any response arrived.
    Network { message: String },
}

} // verus!
