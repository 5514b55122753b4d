//! A minimal credential-verification core: it checks a username and
//! password against a stored user row, supporting both bcrypt-hashed
//! and legacy plaintext credentials, and issues and checks signed,
//! time-bounded session tokens. Store access and the surrounding shell
//! are the caller's business; everything here is verified.
//!
//! Tokens are JWT-shaped — three base64url segments signed with
//! HMAC-SHA256 — but carry the claims in a verified encoding of this
//! crate's own rather than JSON, so they do not interoperate with
//! JSON-claim JWTs; see the token module.

pub mod auth;
pub mod base64url;
pub mod bytes;
pub mod clock;
pub mod crypto;
pub mod models;
pub mod numerals;
pub mod password;
pub mod token;
