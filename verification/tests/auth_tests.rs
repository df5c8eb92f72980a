use oxyd_core::auth::crypto::{generate_refresh, hash_password, hash_with_salt, refresh_from_bytes, sha256_hex};
use oxyd_core::auth::extract::{
    bearer_from_headers, invalid_token, middleware_token, optional_user_from_lookup, optional_user_id, required_token,
    user_from_lookup, user_id_from_sub, AuthHeader,
};
use oxyd_core::auth::service::{
    accept_password, active_session, auth_response, check_login, check_password_policy, claims_at, registered_user, SessionRow, UserRow,
};
use oxyd_core::general::errors::ApiError;

fn response<T: std::fmt::Debug>(r: Result<T, ApiError>) -> (u16, String) {
    match r {
        Err(e) => e.into_response(),
        Ok(v) => panic!("expected an error, got {:?}", v),
    }
}

fn text(s: &str) -> AuthHeader {
    AuthHeader::Text(s.to_string())
}

#[test]
fn sha256_hex_known_vectors() {
    assert_eq!(sha256_hex("abc"), "ba7816bf8f01cfea414140de5dae2223b00361a396177a9cb410ff61f20015ad");
    assert_eq!(sha256_hex(""), "e3b0c44298fc1c149afbf4c8996fb92427ae41e4649b934ca495991b7852b855");
}

#[test]
fn refresh_from_bytes_encodes_url_safe_without_padding() {
    let (token, hash) = refresh_from_bytes(&[0u8; 32]);
    assert_eq!(token, "A".repeat(43));
    assert_eq!(hash, sha256_hex(&token));
    let (token, _) = refresh_from_bytes(&[0xfb, 0xff]);
    assert_eq!(token, "-_8");
    let (token, _) = refresh_from_bytes(b"Man");
    assert_eq!(token, "TWFu");
    let (token, _) = refresh_from_bytes(b"Ma");
    assert_eq!(token, "TWE");
}

#[test]
fn refresh_rotates_and_revokes_old() {
    let ttl = std::time::Duration::from_secs(3600);
    let (t1, h1) = generate_refresh(&ttl).unwrap();
    let (t2, h2) = generate_refresh(&ttl).unwrap();
    assert_eq!(t1.len(), 43);
    assert!(t1.chars().all(|c| c.is_ascii_alphanumeric() || c == '-' || c == '_'));
    assert_ne!(t1, t2, "refresh token must be rotated");
    assert_ne!(h1, h2);
    assert_eq!(h1, sha256_hex(&t1));
    assert_eq!(h1.len(), 64);
    assert_ne!(h1, t1);
}

#[test]
fn refresh_rejects_random_token() {
    let presented = sha256_hex("totally-random-invalid");
    assert_eq!(presented.len(), 64);
    assert_eq!(response(active_session(None)), (401, "invalid or expired refresh".to_string()));
    let s = active_session(Some(SessionRow { id: 5, user_id: 9 })).unwrap();
    assert_eq!((s.id, s.user_id), (5, 9));
}

#[test]
fn password_policy_counts_bytes() {
    assert_eq!(response(check_password_policy("abcdefg")), (400, "password too short".to_string()));
    assert!(check_password_policy("abcdefgh").is_ok());
    assert!(check_password_policy("éééé").is_ok());
    assert_eq!(response(check_password_policy("ééé")), (400, "password too short".to_string()));
    assert_eq!(response(check_password_policy("")), (400, "password too short".to_string()));
}

#[test]
fn register_duplicate_email_conflict() {
    assert_eq!(response(registered_user(None)), (409, "email already exists".to_string()));
    let row = UserRow { id: 3, email: "dup@example.com".to_string(), password_hash: "h".to_string(), is_active: true };
    assert_eq!(registered_user(Some(row)).unwrap().email, "dup@example.com");
}

#[test]
fn login_success_and_wrong_password() {
    let phc = hash_password("goodpass123").unwrap();
    assert!(phc.starts_with("$argon2id$"));
    let salt = phc.split('$').nth(4).unwrap();
    assert_eq!(salt.len(), 22);
    assert!(salt.chars().all(|c| c.is_ascii_alphanumeric() || c == '+' || c == '/'));
    let row = |active: bool| UserRow { id: 11, email: "login@example.com".to_string(), password_hash: phc.clone(), is_active: active };
    let u = check_login(Some(row(true)), "goodpass123").unwrap();
    assert_eq!((u.id, u.email.as_str()), (11, "login@example.com"));
    assert_eq!(response(check_login(Some(row(true)), "WRONG")), (401, "invalid credentials".to_string()));
    assert_eq!(response(check_login(Some(row(false)), "goodpass123")), (401, "invalid credentials".to_string()));
    assert_eq!(response(check_login(Some(row(false)), "WRONG")), (401, "invalid credentials".to_string()));
    assert_eq!(response(check_login(None, "goodpass123")), (401, "invalid credentials".to_string()));
}

#[test]
fn login_with_malformed_hash_is_internal() {
    let row = UserRow { id: 1, email: "x@example.com".to_string(), password_hash: "not-a-phc".to_string(), is_active: true };
    let (code, msg) = response(check_login(Some(row), "whatever1"));
    assert_eq!(code, 500);
    assert!(!msg.is_empty());
}

#[test]
fn hash_with_salt_is_deterministic() {
    let a = hash_with_salt("verystrong", "c2FsdHNhbHRzYWx0").unwrap();
    let b = hash_with_salt("verystrong", "c2FsdHNhbHRzYWx0").unwrap();
    assert_eq!(a, b);
    assert!(a.contains("c2FsdHNhbHRzYWx0"));
    let (code, _) = response(hash_with_salt("verystrong", "!"));
    assert_eq!(code, 500);
}

#[test]
fn accept_password_outcomes() {
    let row = || UserRow { id: 2, email: "a@b.c".to_string(), password_hash: "h".to_string(), is_active: true };
    assert!(accept_password(row(), Ok(true)).is_ok());
    assert_eq!(response(accept_password(row(), Ok(false))), (401, "invalid credentials".to_string()));
    assert_eq!(response(accept_password(row(), Err("bad phc".to_string()))), (500, "bad phc".to_string()));
}

#[test]
fn claims_for_access_tokens() {
    let c = claims_at(42, 1_000, 3_600).unwrap();
    assert_eq!((c.sub.as_str(), c.iat, c.exp), ("42", 1_000, 4_600));
    let c = claims_at(-5, 0, 0).unwrap();
    assert_eq!(c.sub, "-5");
    assert!(claims_at(1, i64::MAX as u64, 1).is_none());
}

#[test]
fn subject_round_trip() {
    for id in [0i64, 7, -12, i64::MAX, i64::MIN] {
        let c = claims_at(id, 10, 10).unwrap();
        assert_eq!(user_id_from_sub(&c.sub).unwrap(), id);
    }
}

#[test]
fn user_id_from_sub_parses_like_std() {
    assert_eq!(user_id_from_sub("+7").unwrap(), 7);
    assert_eq!(user_id_from_sub("-3").unwrap(), -3);
    for bad in ["", "abc", " 1", "1 ", "9223372036854775808", "-", "+"] {
        assert_eq!(response(user_id_from_sub(bad)), (401, "invalid sub".to_string()));
    }
    assert_eq!(optional_user_id("12"), Some(12));
    assert_eq!(optional_user_id("x"), None);
}

#[test]
fn me_requires_bearer() {
    assert_eq!(response(middleware_token(&AuthHeader::Missing)), (401, "missing Authorization header".to_string()));
    assert_eq!(response(middleware_token(&AuthHeader::NotText)), (401, "bad header".to_string()));
    assert_eq!(response(middleware_token(&text("Token abc"))), (401, "no bearer".to_string()));
    assert_eq!(response(middleware_token(&text("bearer abc"))), (401, "no bearer".to_string()));
    assert_eq!(middleware_token(&text("Bearer this-is-not-a-jwt")).unwrap(), "this-is-not-a-jwt");
    assert_eq!(invalid_token().into_response(), (401, "invalid token".to_string()));
}

#[test]
fn bearer_tokens_of_headers() {
    assert_eq!(bearer_from_headers(&text("Bearer abc.def")), Some("abc.def".to_string()));
    assert_eq!(bearer_from_headers(&text("Bearer ")), Some(String::new()));
    assert_eq!(bearer_from_headers(&text("Bearer")), None);
    assert_eq!(bearer_from_headers(&AuthHeader::Missing), None);
    assert_eq!(bearer_from_headers(&AuthHeader::NotText), None);
    assert_eq!(required_token(&text("Bearer t")).unwrap(), "t");
    assert_eq!(response(required_token(&AuthHeader::NotText)), (401, "missing Authorization header".to_string()));
}

#[test]
fn users_from_lookups() {
    let u = user_from_lookup(4, Ok(Some("me@example.com".to_string()))).unwrap();
    assert_eq!((u.id, u.email.as_str()), (4, "me@example.com"));
    assert_eq!(response(user_from_lookup(4, Ok(None))), (401, "user not found".to_string()));
    assert_eq!(response(user_from_lookup(4, Err("db down".to_string()))), (500, "db down".to_string()));
    assert!(optional_user_from_lookup(4, Ok(None)).is_none());
    assert!(optional_user_from_lookup(4, Err("db down".to_string())).is_none());
    assert_eq!(optional_user_from_lookup(4, Ok(Some("m".to_string()))).unwrap().id, 4);
}

#[test]
fn auth_flow_happy_path() {
    assert!(check_password_policy("verystrong").is_ok());
    let user = registered_user(Some(UserRow { id: 1, email: "u1@example.com".to_string(), password_hash: String::new(), is_active: true })).unwrap();
    let claims = claims_at(user.id, 100, 900).unwrap();
    let (refresh, hash) = generate_refresh(&std::time::Duration::from_secs(60)).unwrap();
    assert_eq!(hash, sha256_hex(&refresh));
    let r = auth_response("access".to_string(), refresh.clone(), user.id, user.email);
    assert_eq!(r.user.id, 1);
    assert_eq!(r.user.email, "u1@example.com");
    assert_eq!(r.refresh_token, refresh);
    assert_eq!(r.access_token, "access");
    assert_eq!(user_id_from_sub(&claims.sub).unwrap(), 1);
}
