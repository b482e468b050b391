//! Data model: identity claims, credentials, accounts and transactions.
//!
//! Amounts are held as signed integers in minor currency units, and
//! timestamps as UTC epoch seconds, so that every rule over them is a
//! statement of integer arithmetic.

use vstd::prelude::*;

verus! {

/// Recognized configuration of the service: endpoints and client identity,
/// all required, taken verbatim from the environment by the caller.
pub struct Config {
    pub auth_server_uri: String,
    pub data_api_uri: String,
    pub client_id: String,
    pub client_secret: String,
    pub redirect_uri: String,
    pub providers: String,
    pub scope: String,
}

/// Decoded identity assertion taken from an access token.
pub struct Claims {
    /// Opaque user identifier (the `sub` claim).
    pub sub: String,
    /// Expiration as epoch seconds (the `exp` claim).
    pub exp: u64,
}

/// A validated credential: the bearer string together with the identity it
/// asserts. Held for the duration of a single request.
pub struct Credentials {
    pub access_token: String,
    /// The stable cache key: equals the claims' subject.
    pub credentials_id: String,
    /// Expiration as epoch seconds.
    pub expiration_date: u64,
}

impl Credentials {
    /// Builds a credential from a raw token string and its decoded claims.
    pub fn new(token: &str, c: Claims) -> (r: Self)
        ensures
            r.access_token@ == token@,
            r.credentials_id@ == c.sub@,
            r.expiration_date == c.exp,
    {
        Self { access_token: token.to_owned(), credentials_id: c.sub, expiration_date: c.exp }
    }
}

/// Query data handed to the sign-in callback route.
pub struct AuthResponse {
    pub code: String,
    pub scope: Option<String>,
}

/// Transient account descriptor from the data API.
pub struct Account {
    pub account_id: String,
    pub account_type: String,
    pub display_name: String,
    pub currency: String,
}

/// One immutable transaction of an account.
pub struct Transaction {
    pub transaction_id: String,
    /// Signed amount in minor currency units.
    pub amount: i64,
    /// UTC instant as epoch seconds.
    pub timestamp: i64,
    pub description: String,
    pub transaction_category: String,
}

/// Mathematical image of a [`Transaction`].
pub ghost struct TransactionView {
    pub transaction_id: Seq<char>,
    pub amount: int,
    pub timestamp: int,
    pub description: Seq<char>,
    pub transaction_category: Seq<char>,
}

impl View for Transaction {
    type V = TransactionView;

    open spec fn view(&self) -> TransactionView {
        TransactionView {
            transaction_id: self.transaction_id@,
            amount: self.amount as int,
            timestamp: self.timestamp as int,
            description: self.description@,
            transaction_category: self.transaction_category@,
        }
    }
}

impl Transaction {
    /// An exact copy; spelled out so that the equality of the copy is proved,
    /// not believed of a derived impl.
    pub fn duplicate(&self) -> (r: Transaction)
        ensures
            r@ == self@,
    {
        Transaction {
            transaction_id: self.transaction_id.clone(),
            amount: self.amount,
            timestamp: self.timestamp,
            description: self.description.clone(),
            transaction_category: self.transaction_category.clone(),
        }
    }
}

} // verus!
