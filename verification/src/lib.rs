//! Verified core of a small personal-finance aggregation service.
//!
//! The library covers bearer-token validation, the authorization-code
//! exchange against an identity provider, orchestration of the bounded
//! concurrent per-account transaction fetch, the credential-scoped
//! transaction cache, and the rolling seven-day category spend summary.
//! Network I/O itself lives outside the library; every decision made on
//! the data that crosses that boundary is verified here.

pub mod cache;
pub mod errors;
pub mod exchange;
pub mod fetch;
pub mod model;
pub mod summary;
pub mod token;
