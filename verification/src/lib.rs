//! An authentication token lifecycle, verified: credential registration and
//! login over a uniqueness-keyed store, issuance of HMAC-SHA256-signed
//! bearer tokens with expiries, stateless validation, and refresh rotation —
//! together with the small text utilities that ship alongside it.
pub mod b64;
pub mod claims;
pub mod cli;
pub mod config;
pub mod etaoin;
pub mod password;
pub mod payload;
pub mod pig_latin;
pub mod pseudonym;
pub mod service;
pub mod store;
pub mod strutil;
pub mod task;
pub mod tokens;
