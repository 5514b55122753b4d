use tienda_auth::auth::AuthService;
use tienda_auth::models::{LoginRequest, User};

fn service() -> AuthService {
    AuthService::new(b"test-signing-key".to_vec())
}

fn request(username: &str, password: &str) -> LoginRequest {
    LoginRequest { username: username.to_string(), password: password.to_string() }
}

fn hashed_row(id: i32, user: &str, password: &str) -> User {
    let hash = bcrypt::hash(password, 4).unwrap();
    User { id, user: user.to_string(), passwd: hash }
}

const NOW: u64 = 1_700_000_000;

#[test]
fn login_unknown_user_is_not_found() {
    let svc = service();
    let resp = svc.login_at(None, &request("bob", "x"), NOW).unwrap();
    assert!(!resp.success);
    assert_eq!(resp.message, "user not found");
    assert!(resp.token.is_none());
    assert!(resp.user.is_none());
}

#[test]
fn login_with_correct_hashed_password_succeeds() {
    let svc = service();
    let row = hashed_row(1, "alice", "secret123");
    let resp = svc.login_at(Some(row), &request("alice", "secret123"), NOW).unwrap();
    assert!(resp.success);
    assert_eq!(resp.message, "login successful");
    let token = resp.token.expect("success carries a token");
    assert!(!token.is_empty());
    let identity = resp.user.expect("success carries the identity");
    assert_eq!(identity.id, 1);
    assert_eq!(identity.username, "alice");
}

#[test]
fn login_with_wrong_hashed_password_fails() {
    let svc = service();
    let row = hashed_row(1, "alice", "secret123");
    let resp = svc.login_at(Some(row), &request("alice", "wrong"), NOW).unwrap();
    assert!(!resp.success);
    assert_eq!(resp.message, "incorrect password");
    assert!(resp.token.is_none());
    assert!(resp.user.is_none());
}

#[test]
fn login_rejects_row_for_differently_spelled_username() {
    let svc = service();
    // a loosely collated store may return the row for "Alice" when
    // "alice" was asked; the match is exact and case-sensitive
    let row = hashed_row(1, "Alice", "secret123");
    let resp = svc.login_at(Some(row), &request("alice", "secret123"), NOW).unwrap();
    assert!(!resp.success);
    assert_eq!(resp.message, "user not found");
    assert!(resp.token.is_none());
    assert!(resp.user.is_none());
}

#[test]
fn token_has_three_nonempty_segments() {
    let svc = service();
    // dots in the username stay inside the base64url payload segment
    let token = svc.generate_token_at(1, "al.ice", NOW).unwrap();
    let segments: Vec<&str> = token.split('.').collect();
    assert_eq!(segments.len(), 3);
    for seg in &segments {
        assert!(!seg.is_empty());
    }
    // the signature segment is the fixed-size HMAC-SHA256 tag rendering
    assert_eq!(segments[2].len(), 43);
}

#[test]
fn login_with_matching_plaintext_row_succeeds() {
    let svc = service();
    let row = User { id: 9, user: "carol".to_string(), passwd: "legacy-pw".to_string() };
    let resp = svc.login_at(Some(row), &request("carol", "legacy-pw"), NOW).unwrap();
    assert!(resp.success);
    assert_eq!(resp.user.unwrap().id, 9);
}

#[test]
fn login_with_differing_plaintext_row_fails() {
    let svc = service();
    let row = User { id: 9, user: "carol".to_string(), passwd: "legacy-pw".to_string() };
    let resp = svc.login_at(Some(row), &request("carol", "legacy-pW"), NOW).unwrap();
    assert!(!resp.success);
    assert_eq!(resp.message, "incorrect password");
}

#[test]
fn login_with_clock_succeeds_and_token_checks_out() {
    let svc = service();
    let row = hashed_row(4, "dave", "pw");
    let resp = svc.login(Some(row), &request("dave", "pw")).unwrap();
    assert!(resp.success);
    let token = resp.token.unwrap();
    assert!(svc.is_token_valid(&token));
    let identity = svc.get_user_from_token(&token).unwrap();
    assert_eq!(identity.id, 4);
    assert_eq!(identity.username, "dave");
}

#[test]
fn token_round_trip_recovers_identity() {
    let svc = service();
    let token = svc.generate_token_at(7, "alice", NOW).unwrap();
    let claims = svc.verify_token_at(&token, NOW + 100).unwrap();
    assert_eq!(claims.sub, 7);
    assert_eq!(claims.username, "alice");
    assert_eq!(claims.iat, NOW);
    assert_eq!(claims.exp, NOW + 86400);
    let identity = svc.get_user_from_token_at(&token, NOW + 100).unwrap();
    assert_eq!(identity.id, 7);
    assert_eq!(identity.username, "alice");
}

#[test]
fn token_round_trip_with_awkward_username() {
    let svc = service();
    let names = ["", "a.b.c", "ål i\u{1F600}ce", "with\"quote\\and.dot", "-42.13"];
    for (i, name) in names.iter().enumerate() {
        let token = svc.generate_token_at(i as i32 - 2, name, NOW).unwrap();
        let claims = svc.verify_token_at(&token, NOW + 1).unwrap();
        assert_eq!(claims.sub, i as i32 - 2);
        assert_eq!(&claims.username, name);
    }
}

#[test]
fn token_round_trip_extreme_ids_and_instants() {
    let svc = service();
    for id in [i32::MIN, -1, 0, 1, i32::MAX] {
        let token = svc.generate_token_at(id, "u", 0).unwrap();
        let claims = svc.verify_token_at(&token, 86399).unwrap();
        assert_eq!(claims.sub, id);
        assert_eq!(claims.iat, 0);
        assert_eq!(claims.exp, 86400);
    }
}

#[test]
fn expired_token_is_rejected() {
    let svc = service();
    let token = svc.generate_token_at(7, "alice", NOW).unwrap();
    // strictly before expiry: valid
    assert!(svc.is_token_valid_at(&token, NOW + 86399));
    // at and after expiry: invalid, and the identity is gone too
    assert!(!svc.is_token_valid_at(&token, NOW + 86400));
    assert!(!svc.is_token_valid_at(&token, NOW + 86401));
    assert!(svc.get_user_from_token_at(&token, NOW + 86400).is_none());
    assert!(svc.verify_token_at(&token, NOW + 86400).is_err());
}

#[test]
fn long_expired_token_fails_against_the_clock() {
    let svc = service();
    // issued at the epoch, expired decades ago
    let token = svc.generate_token_at(7, "alice", 0).unwrap();
    assert!(!svc.is_token_valid(&token));
    assert!(svc.get_user_from_token(&token).is_none());
    assert!(svc.verify_token(&token).is_err());
}

#[test]
fn flipping_any_signature_byte_invalidates_the_token() {
    let svc = service();
    let token = svc.generate_token_at(1, "alice", NOW).unwrap();
    assert!(svc.is_token_valid_at(&token, NOW + 1));
    let bytes = token.as_bytes();
    let sig_start = token.rfind('.').unwrap() + 1;
    assert!(sig_start < bytes.len());
    for pos in sig_start..bytes.len() {
        for flip in [1u8, 0x20, 0x7f] {
            let mut tampered = bytes.to_vec();
            tampered[pos] ^= flip;
            if tampered[pos] == bytes[pos] {
                continue;
            }
            let tampered = String::from_utf8(tampered).unwrap();
            assert!(!svc.is_token_valid_at(&tampered, NOW + 1));
            assert!(svc.get_user_from_token_at(&tampered, NOW + 1).is_none());
        }
    }
}

#[test]
fn token_issued_under_one_key_fails_under_another() {
    let svc1 = AuthService::new(b"key-one".to_vec());
    let svc2 = AuthService::new(b"key-two".to_vec());
    let token = svc1.generate_token_at(1, "alice", NOW).unwrap();
    assert!(svc1.is_token_valid_at(&token, NOW + 1));
    assert!(!svc2.is_token_valid_at(&token, NOW + 1));
}

#[test]
fn malformed_tokens_are_rejected() {
    let svc = service();
    for bad in ["", ".", "..", "...", "a.b", "a.b.c", "abc", "a.b.c.d", "üñî.çø.dé"] {
        assert!(!svc.is_token_valid_at(bad, NOW));
        assert!(svc.get_user_from_token_at(bad, NOW).is_none());
        assert!(svc.verify_token_at(bad, NOW).is_err());
    }
}

#[test]
fn truncated_and_padded_tokens_are_rejected() {
    let svc = service();
    let token = svc.generate_token_at(1, "alice", NOW).unwrap();
    let shorter: String = token[..token.len() - 1].to_string();
    assert!(!svc.is_token_valid_at(&shorter, NOW + 1));
    let longer = format!("{}A", token);
    assert!(!svc.is_token_valid_at(&longer, NOW + 1));
}

#[test]
fn scenario_alice_secret123() {
    let svc = service();
    let hash = bcrypt::hash("secret123", 4).unwrap();
    assert!(hash.starts_with("$2"));
    let row = || User { id: 1, user: "alice".to_string(), passwd: hash.clone() };

    let ok = svc.login_at(Some(row()), &request("alice", "secret123"), NOW).unwrap();
    assert!(ok.success);
    assert_eq!(ok.message, "login successful");
    let identity = ok.user.unwrap();
    assert_eq!((identity.id, identity.username.as_str()), (1, "alice"));
    assert!(!ok.token.unwrap().is_empty());

    let wrong = svc.login_at(Some(row()), &request("alice", "wrong"), NOW).unwrap();
    assert!(!wrong.success);
    assert_eq!(wrong.message, "incorrect password");

    let missing = svc.login_at(None, &request("bob", "x"), NOW).unwrap();
    assert!(!missing.success);
    assert_eq!(missing.message, "user not found");
}
