//! The authentication service: look up (done by the caller, which owns
//! the store), verify the password, and issue or check session tokens.
//! The service holds only the process-wide signing key; every function
//! that depends on the clock has a fully specified companion taking the
//! instant as an argument.

use vstd::prelude::*;
use crate::models::{User, LoginRequest, LoginResponse, UserInfo, Claims};
use crate::password::{spec_password_matches, str_eq, verify_password};
use crate::token::{spec_token, spec_verify, issue_token_bytes, verify_token_bytes,
    lemma_token_ascii};
use crate::crypto::string_from_utf8;
use crate::clock::current_timestamp_u64;
use vstd::slice::slice_to_vec;
use vstd::utf8::encode_utf8;

verus! {

/// How long a freshly issued token stays valid, in seconds: 24 hours.
pub const TOKEN_LIFETIME_SECONDS: u64 = 86400;

/// The verified core of the authentication service. The credential
/// store itself is an outside collaborator: callers look a row up and
/// hand it in.
pub struct AuthService {
    pub key: Vec<u8>,
}

impl AuthService {
    /// A service signing and checking tokens with `key`.
    pub fn new(key: Vec<u8>) -> (r: AuthService)
        ensures
            r.key@ == key@,
    {
        AuthService { key }
    }

    /// Issue a token asserting `(user_id, username)` at instant `now`,
    /// expiring one lifetime later. Signing never fails, so the result
    /// is always the token.
    pub fn generate_token_at(&self, user_id: i32, username: &str, now: u64) -> (r: Result<
        String,
        String,
    >)
        requires
            now + TOKEN_LIFETIME_SECONDS <= u64::MAX,
        ensures
            r is Ok,
            r matches Ok(t) ==> t@.len() > 0 && encode_utf8(t@) == spec_token(
                user_id,
                encode_utf8(username@),
                (now + TOKEN_LIFETIME_SECONDS) as u64,
                now,
                self.key@,
            ),
    {
        let ub = slice_to_vec(username.as_bytes());
        let exp = now + TOKEN_LIFETIME_SECONDS;
        match issue_token_bytes(user_id, &ub, exp, now, &self.key) {
            Some(t) => {
                proof {
                    lemma_token_ascii(user_id, ub@, exp, now, self.key@);
                    assert(t@.len() > 0);
                }
                match string_from_utf8(t) {
                    Some(s) => {
                        proof {
                            assert(s@.len() > 0) by {
                                if s@.len() == 0 {
                                    assert(encode_utf8(s@).len() == 0);
                                }
                            }
                        }
                        Ok(s)
                    },
                    None => Err("token rendering failed".to_owned()),
                }
            },
            None => Err("token signing failed".to_owned()),
        }
    }

    /// Issue a token for `(user_id, username)` expiring 24 hours from
    /// now. The clock decides the instant; whatever it reads, the
    /// result is a token issued at that instant.
    pub fn generate_token(&self, user_id: i32, username: &str) -> (r: Result<String, String>)
        ensures
            r is Ok,
            r matches Ok(t) ==> exists|iat: u64, exp: u64|
                exp == iat + TOKEN_LIFETIME_SECONDS && encode_utf8(t@) == #[trigger] spec_token(
                    user_id,
                    encode_utf8(username@),
                    exp,
                    iat,
                    self.key@,
                ),
    {
        let now = current_timestamp_u64();
        let r = self.generate_token_at(user_id, username, now);
        proof {
            if r is Ok {
                let t = r->Ok_0;
                let e = (now + TOKEN_LIFETIME_SECONDS) as u64;
                assert(e == now + TOKEN_LIFETIME_SECONDS && encode_utf8(t@) == spec_token(
                    user_id,
                    encode_utf8(username@),
                    e,
                    now,
                    self.key@,
                ));
            }
        }
        r
    }

    /// Check a token at instant `now` and return its claims, or the
    /// one collapsed failure for anything invalid: wrong shape, wrong
    /// signature, or expiry passed.
    pub fn verify_token_at(&self, token: &str, now: u64) -> (r: Result<Claims, String>)
        ensures
            r matches Ok(c) ==> spec_verify(encode_utf8(token@), self.key@, now) == Some(
                (c.sub, encode_utf8(c.username@), c.exp, c.iat),
            ),
            r is Err ==> spec_verify(encode_utf8(token@), self.key@, now) is None,
    {
        let bytes = slice_to_vec(token.as_bytes());
        match verify_token_bytes(&bytes, &self.key, now) {
            Some(c) => Ok(c),
            None => Err("invalid token".to_owned()),
        }
    }

    /// Check a token against the clock and return its claims: at the
    /// instant the clock gave, the result is exactly the verification
    /// verdict, in both directions.
    pub fn verify_token(&self, token: &str) -> (r: Result<Claims, String>)
        ensures
            exists|now: u64|
                now <= 0x7fff_ffff_ffff_ffff && (r matches Ok(c)
                    ==> #[trigger] spec_verify(encode_utf8(token@), self.key@, now) == Some(
                    (c.sub, encode_utf8(c.username@), c.exp, c.iat),
                )) && (r is Err ==> spec_verify(encode_utf8(token@), self.key@, now) is None),
    {
        let now = current_timestamp_u64();
        let r = self.verify_token_at(token, now);
        proof {
            assert(now <= 0x7fff_ffff_ffff_ffff && (r matches Ok(c) ==> spec_verify(
                encode_utf8(token@),
                self.key@,
                now,
            ) == Some((c.sub, encode_utf8(c.username@), c.exp, c.iat))) && (r is Err
                ==> spec_verify(encode_utf8(token@), self.key@, now) is None));
        }
        r
    }

    /// Whether a token is valid at instant `now`.
    pub fn is_token_valid_at(&self, token: &str, now: u64) -> (r: bool)
        ensures
            r == (spec_verify(encode_utf8(token@), self.key@, now) is Some),
    {
        let bytes = slice_to_vec(token.as_bytes());
        match verify_token_bytes(&bytes, &self.key, now) {
            Some(_) => true,
            None => false,
        }
    }

    /// Whether a token is valid against the clock: the answer equals
    /// the verdict at the instant the clock gave.
    pub fn is_token_valid(&self, token: &str) -> (r: bool)
        ensures
            exists|now: u64|
                now <= 0x7fff_ffff_ffff_ffff && r == (#[trigger] spec_verify(
                    encode_utf8(token@),
                    self.key@,
                    now,
                ) is Some),
    {
        let now = current_timestamp_u64();
        let r = self.is_token_valid_at(token, now);
        proof {
            assert(now <= 0x7fff_ffff_ffff_ffff && r == (spec_verify(
                encode_utf8(token@),
                self.key@,
                now,
            ) is Some));
        }
        r
    }

    /// The identity a token asserts at instant `now`, or nothing for an
    /// invalid token.
    pub fn get_user_from_token_at(&self, token: &str, now: u64) -> (r: Option<UserInfo>)
        ensures
            r matches Some(ui) ==> spec_verify(encode_utf8(token@), self.key@, now) matches Some(
                c,
            ) && c.0 == ui.id && c.1 == encode_utf8(ui.username@),
            r is None ==> spec_verify(encode_utf8(token@), self.key@, now) is None,
    {
        let bytes = slice_to_vec(token.as_bytes());
        match verify_token_bytes(&bytes, &self.key, now) {
            Some(c) => Some(UserInfo { id: c.sub, username: c.username }),
            None => None,
        }
    }

    /// The identity a token asserts against the clock: present exactly
    /// when the token verifies at the instant the clock gave, and then
    /// equal to the verified claims.
    pub fn get_user_from_token(&self, token: &str) -> (r: Option<UserInfo>)
        ensures
            exists|now: u64|
                now <= 0x7fff_ffff_ffff_ffff && (r matches Some(ui)
                    ==> #[trigger] spec_verify(encode_utf8(token@), self.key@, now) matches Some(
                    c,
                ) && c.0 == ui.id && c.1 == encode_utf8(ui.username@)) && (r is None
                    ==> spec_verify(encode_utf8(token@), self.key@, now) is None),
    {
        let now = current_timestamp_u64();
        let r = self.get_user_from_token_at(token, now);
        proof {
            assert(now <= 0x7fff_ffff_ffff_ffff && (r matches Some(ui) ==> spec_verify(
                encode_utf8(token@),
                self.key@,
                now,
            ) matches Some(c) && c.0 == ui.id && c.1 == encode_utf8(ui.username@)) && (r is None
                ==> spec_verify(encode_utf8(token@), self.key@, now) is None));
        }
        r
    }

    /// Decide a login attempt at instant `now`, given the row the store
    /// returned for the requested username (or none). Exactly one of
    /// three outcomes: user not found, incorrect password, or success
    /// carrying both the token and the identity. The row counts only if
    /// its username equals the requested one exactly, case-sensitively;
    /// a row for another spelling is treated as no row.
    pub fn login_at(&self, row: Option<User>, request: &LoginRequest, now: u64) -> (r: Result<
        LoginResponse,
        String,
    >)
        requires
            now + TOKEN_LIFETIME_SECONDS <= u64::MAX,
        ensures
            r is Ok,
            r matches Ok(resp) ==> match row {
                Option::None => resp.success == false && resp.token is None && resp.user is None
                    && resp.message@ == "user not found"@,
                Option::Some(u) => {
                    if u.user@ != request.username@ {
                        &&& resp.success == false
                        &&& resp.token is None
                        &&& resp.user is None
                        &&& resp.message@ == "user not found"@
                    } else if spec_password_matches(u.passwd@, request.password@) {
                        &&& resp.success == true
                        &&& resp.message@ == "login successful"@
                        &&& resp.user matches Some(ui) && ui.id == u.id && ui.username@ == u.user@
                        &&& resp.token matches Some(t) && t@.len() > 0 && encode_utf8(t@)
                            == spec_token(
                            u.id,
                            encode_utf8(u.user@),
                            (now + TOKEN_LIFETIME_SECONDS) as u64,
                            now,
                            self.key@,
                        )
                    } else {
                        &&& resp.success == false
                        &&& resp.token is None
                        &&& resp.user is None
                        &&& resp.message@ == "incorrect password"@
                    }
                },
            },
    {
        let user = match row {
            Some(u) => u,
            None => {
                return Ok(
                    LoginResponse {
                        success: false,
                        token: None,
                        user: None,
                        message: "user not found".to_owned(),
                    },
                );
            },
        };
        // the store is queried by username, but its collation may be
        // looser than the exact, case-sensitive match the lookup means:
        // a row for any other spelling counts as no row at all
        if !str_eq(user.user.as_str(), request.username.as_str()) {
            return Ok(
                LoginResponse {
                    success: false,
                    token: None,
                    user: None,
                    message: "user not found".to_owned(),
                },
            );
        }
        if !verify_password(user.passwd.as_str(), request.password.as_str()) {
            return Ok(
                LoginResponse {
                    success: false,
                    token: None,
                    user: None,
                    message: "incorrect password".to_owned(),
                },
            );
        }
        let token = match self.generate_token_at(user.id, user.user.as_str(), now) {
            Ok(t) => t,
            Err(e) => {
                return Err(e);
            },
        };
        Ok(
            LoginResponse {
                success: true,
                token: Some(token),
                user: Some(UserInfo { id: user.id, username: user.user.clone() }),
                message: "login successful".to_owned(),
            },
        )
    }

    /// Decide a login attempt against the clock. The outcome shape is
    /// pinned for every reading of the clock; a successful response
    /// carries a token issued at the instant the clock gave.
    pub fn login(&self, row: Option<User>, request: &LoginRequest) -> (r: Result<
        LoginResponse,
        String,
    >)
        ensures
            r is Ok,
            r matches Ok(resp) ==> match row {
                Option::None => resp.success == false && resp.token is None && resp.user is None
                    && resp.message@ == "user not found"@,
                Option::Some(u) => {
                    if u.user@ != request.username@ {
                        &&& resp.success == false
                        &&& resp.token is None
                        &&& resp.user is None
                        &&& resp.message@ == "user not found"@
                    } else if spec_password_matches(u.passwd@, request.password@) {
                        &&& resp.success == true
                        &&& resp.message@ == "login successful"@
                        &&& resp.user matches Some(ui) && ui.id == u.id && ui.username@ == u.user@
                        &&& resp.token matches Some(t) && t@.len() > 0 && (exists|iat: u64, exp: u64|
                            exp == iat + TOKEN_LIFETIME_SECONDS && encode_utf8(t@)
                                == #[trigger] spec_token(
                                u.id,
                                encode_utf8(u.user@),
                                exp,
                                iat,
                                self.key@,
                            ))
                    } else {
                        &&& resp.success == false
                        &&& resp.token is None
                        &&& resp.user is None
                        &&& resp.message@ == "incorrect password"@
                    }
                },
            },
    {
        let ghost grow = row;
        let now = current_timestamp_u64();
        let r = self.login_at(row, request, now);
        proof {
            if r is Ok && grow is Some {
                let resp = r->Ok_0;
                let u = grow->Some_0;
                if u.user@ == request.username@ && spec_password_matches(
                    u.passwd@,
                    request.password@,
                ) {
                    let t = resp.token->Some_0;
                    let e = (now + TOKEN_LIFETIME_SECONDS) as u64;
                    assert(e == now + TOKEN_LIFETIME_SECONDS && encode_utf8(t@) == spec_token(
                        u.id,
                        encode_utf8(u.user@),
                        e,
                        now,
                        self.key@,
                    ));
                }
            }
        }
        r
    }
}

} // verus!
