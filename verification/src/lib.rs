//! Join tokens, runtime memory bindings and their registry, bootstrap payloads, and sealed
//! secret envelopes for GOSH agents.
//!
//! - [`text`]: white space, trimming, prefixes and the order of strings.
//! - [`codec`]: the Base64 encodings used by tokens, keys and envelopes.
//! - [`join_token`]: join tokens, their validation and their `gosh_join_` frame.
//! - [`binding`]: runtime bindings, their normalisation and identity.
//! - [`registry`]: the registry of bindings keyed by exact identity.
//! - [`bootstrap`]: agent keypairs, bootstrap bundles and binding envelopes.
//! - [`envelope`]: opening secrets sealed to an agent's X25519 key.
pub mod binding;
pub mod bootstrap;
pub mod codec;
pub mod envelope;
pub mod join_token;
pub mod registry;
pub mod text;
