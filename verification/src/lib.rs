//! A short-lived-credential broker.
//!
//! The library resolves access credentials for a downstream client: either
//! direct long-lived credentials, or temporary credentials obtained by
//! assuming a named role, optionally guarded by a one-time second-factor
//! code, with a local cache that avoids redundant role assumptions.
//!
//! Everything here is pure decision logic over plain values.  The
//! surrounding binary performs the actual reads and writes (environment,
//! cache file, operator prompt, network exchange) and feeds the outcomes
//! back in as events.

pub mod cache;
pub mod codec;
pub mod credentials;
pub mod prompt;
pub mod resolver;
