use vstd::prelude::*;

verus! {

/// A user row as the credential store hands it back: a numeric id, the
/// unique username, and the stored credential, which is either a salted
/// bcrypt hash (recognised by its `$2` prefix) or a legacy plaintext
/// password.
#[derive(Debug, Clone)]
pub struct User {
    pub id: i32,
    pub user: String,
    pub passwd: String,
}

/// A login attempt: the username to look up and the plaintext password
/// supplied for it. Transient; never stored.
#[derive(Debug, Clone)]
pub struct LoginRequest {
    pub username: String,
    pub password: String,
}

/// The identity a successful login or a valid token asserts.
#[derive(Debug, Clone)]
pub struct UserInfo {
    pub id: i32,
    pub username: String,
}

/// The outcome of a login attempt. Exactly one of three shapes occurs:
/// user not found, incorrect password (both with `success == false` and
/// neither token nor user), or success, which always carries both the
/// token and the identity.
#[derive(Debug, Clone)]
pub struct LoginResponse {
    pub success: bool,
    pub token: Option<String>,
    pub user: Option<UserInfo>,
    pub message: String,
}

/// The claims a session token asserts: the subject's user id and
/// username, and the issue and expiry instants as unix timestamps.
/// A token is valid strictly before `exp`, which issuance sets to
/// 24 hours past `iat`.
#[derive(Debug, Clone)]
pub struct Claims {
    pub sub: i32,
    pub username: String,
    pub exp: u64,
    pub iat: u64,
}

} // verus!
