//! Verified core of the Antigravity Tools Android backend.
pub mod accounts;
pub mod client_hello;
pub mod fingerprint;
pub mod ip_filter;
pub mod oauth_state;
pub mod payload;
pub mod protobuf;
pub mod services;
pub mod stealth;
pub mod text;
pub mod token_store;
pub mod upstream;
