//! A multi-tenant encrypted file vault.
//!
//! A company holds a small set of named users; any two users who know their
//! passwords can jointly recover the company's group key, from which the
//! master key is unwrapped. Files are encrypted end-to-end under fresh
//! per-file keys wrapped by the master key; the server only ever sees
//! ciphertexts, wrapped keys, salts, and the session-authentication HMAC key.
//!
//! The layers, from the bottom up:
//! - [`crypto`]: the primitives, behind trusted wrappers;
//! - [`shamir`]: 2-of-N sharing of the grouped-shards secret;
//! - [`types`] and [`codec`]: the data model and its byte-exact wire
//!   and disk encoding, with decode-of-encode proofs;
//! - [`authentication`] and [`creation`]: group-key recovery and
//!   company keying;
//! - [`requests`] and [`server`]: the two sides of the session and
//!   file protocol, with the handshake and envelope-chain laws;
//! - [`store`], [`files`], [`inputs`]: byte-level helpers for the
//!   server's store and the client's prompts.
//!
//! The password hash is fixed to Argon2id's interactive parameter
//! profile, the choice for debug and test builds; a production
//! deployment needs the moderate profile instead, a one-line change
//! in the password-hash wrapper.

use vstd::prelude::*;

pub mod authentication;
pub mod codec;
pub mod creation;
pub mod crypto;
pub mod files;
pub mod inputs;
pub mod requests;
pub mod server;
pub mod shamir;
pub mod store;
pub mod types;

verus! {

/// Errors surfaced by the vault's cryptographic and protocol layer.
///
/// Cryptographic failures collapse to `AuthFail` so that a wrong password,
/// a wrong username and a tampered shard are indistinguishable to callers.
#[derive(Clone, Copy, Debug, PartialEq, Eq, Structural)]
pub enum VaultError {
    /// An authentication tag, MAC or credential check failed.
    AuthFail,
    /// A message could not be decoded or had an unexpected shape.
    ProtocolError,
}

} // verus!
