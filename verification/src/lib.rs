//! Credential hashing and verification.
//!
//! A password is never stored. What is stored is a salted bcrypt digest of
//! it, together with the salt and the cost it was computed at. The codec
//! module derives and serialises digests, the store module keeps credential
//! records under unique identities, and the service module creates records
//! and judges login attempts against them.

pub mod codec;
pub mod error;
pub mod primitives;
pub mod service;
pub mod store;
