//! Password hashing (Argon2, PHC strings) and opaque refresh tokens
//! (URL-safe base64 of 32 random bytes, stored as the hex SHA-256 of the token).

use vstd::prelude::*;
use vstd::utf8::encode_utf8;

use argon2::password_hash::{PasswordHash, PasswordHasher, PasswordVerifier, SaltString};
use argon2::Argon2;
use base64::Engine;
use rand::RngCore;
use sha2::Digest;

use crate::general::errors::{result_view, ApiError, ApiErrorView, ApiResult};

verus! {

/// The lowercase hexadecimal digit of `v < 16`.
pub open spec fn hex_digit(v: int) -> char {
    if v < 10 {
        (48 + v) as char
    } else {
        (87 + v) as char
    }
}

/// Two lowercase hexadecimal digits per byte, high half first.
pub open spec fn hex_of(b: Seq<u8>) -> Seq<char>
    decreases b.len(),
{
    if b.len() == 0 {
        seq![]
    } else {
        seq![hex_digit((b[0] / 16) as int), hex_digit((b[0] % 16) as int)] + hex_of(b.drop_first())
    }
}

/// The character of a six-bit value in the URL-safe base64 alphabet
/// (`A-Z`, `a-z`, `0-9`, `-`, `_`).
pub open spec fn b64url_char(v: int) -> char {
    if v < 26 {
        (65 + v) as char
    } else if v < 52 {
        (71 + v) as char
    } else if v < 62 {
        (v - 4) as char
    } else if v == 62 {
        '-'
    } else {
        '_'
    }
}

/// URL-safe base64 without padding: each group of three bytes gives four
/// characters, a last group of two bytes three, a last single byte two.
pub open spec fn base64_url(b: Seq<u8>) -> Seq<char>
    decreases b.len(),
{
    if b.len() == 0 {
        seq![]
    } else if b.len() == 1 {
        seq![b64url_char((b[0] / 4) as int), b64url_char(((b[0] % 4) * 16) as int)]
    } else if b.len() == 2 {
        seq![
            b64url_char((b[0] / 4) as int),
            b64url_char(((b[0] % 4) * 16 + b[1] / 16) as int),
            b64url_char(((b[1] % 16) * 4) as int),
        ]
    } else {
        seq![
            b64url_char((b[0] / 4) as int),
            b64url_char(((b[0] % 4) * 16 + b[1] / 16) as int),
            b64url_char(((b[1] % 16) * 4 + b[2] / 64) as int),
            b64url_char((b[2] % 64) as int),
        ] + base64_url(b.skip(3))
    }
}

/// The character of a six-bit value in the standard base64 alphabet
/// (`A-Z`, `a-z`, `0-9`, `+`, `/`).
pub open spec fn b64std_char(v: int) -> char {
    if v < 62 {
        b64url_char(v)
    } else if v == 62 {
        '+'
    } else {
        '/'
    }
}

/// Standard base64 without padding (the B64 of PHC strings), laid out as
/// `base64_url`.
pub open spec fn base64_std(b: Seq<u8>) -> Seq<char>
    decreases b.len(),
{
    if b.len() == 0 {
        seq![]
    } else if b.len() == 1 {
        seq![b64std_char((b[0] / 4) as int), b64std_char(((b[0] % 4) * 16) as int)]
    } else if b.len() == 2 {
        seq![
            b64std_char((b[0] / 4) as int),
            b64std_char(((b[0] % 4) * 16 + b[1] / 16) as int),
            b64std_char(((b[1] % 16) * 4) as int),
        ]
    } else {
        seq![
            b64std_char((b[0] / 4) as int),
            b64std_char(((b[0] % 4) * 16 + b[1] / 16) as int),
            b64std_char(((b[1] % 16) * 4 + b[2] / 64) as int),
            b64std_char((b[2] % 64) as int),
        ] + base64_std(b.skip(3))
    }
}

/// A character of the URL-safe base64 alphabet.
pub open spec fn url_safe(c: char) -> bool {
    ('A' <= c <= 'Z') || ('a' <= c <= 'z') || ('0' <= c <= '9') || c == '-' || c == '_'
}

/// URL-safe base64 without padding uses only the URL-safe alphabet and gives four
/// characters per three bytes, rounded up.
pub proof fn lemma_base64_url_shape(b: Seq<u8>)
    ensures
        base64_url(b).len() == (4 * b.len() + 2) / 3,
        forall|i: int| 0 <= i < base64_url(b).len() ==> url_safe(#[trigger] base64_url(b)[i]),
    decreases b.len(),
{
    if b.len() >= 3 {
        lemma_base64_url_shape(b.skip(3));
        let head = seq![
            b64url_char((b[0] / 4) as int),
            b64url_char(((b[0] % 4) * 16 + b[1] / 16) as int),
            b64url_char(((b[1] % 16) * 4 + b[2] / 64) as int),
            b64url_char((b[2] % 64) as int),
        ];
        let e = base64_url(b);
        assert(e == head + base64_url(b.skip(3)));
        assert forall|i: int| 0 <= i < e.len() implies url_safe(#[trigger] e[i]) by {
            if i >= 4 {
                assert(e[i] == base64_url(b.skip(3))[i - 4]);
            }
        }
    }
}

/// The SHA-256 digest of a byte string.
pub uninterp spec fn sha256_digest(data: Seq<u8>) -> Seq<u8>;

/// What is stored for a refresh token: the hex SHA-256 of its UTF-8 bytes.
pub open spec fn token_hash(token: Seq<char>) -> Seq<char> {
    hex_of(sha256_digest(encode_utf8(token)))
}

/// Calls `sha2::Sha256` (`new`, `update`, `finalize`). The digest is named
/// `sha256_digest`; it is 32 bytes long.
#[verifier::external_body]
fn sha256(data: &[u8]) -> (r: Vec<u8>)
    ensures
        r@ == sha256_digest(data@),
        r@.len() == 32,
{
    let mut hasher = sha2::Sha256::new();
    hasher.update(data);
    hasher.finalize().to_vec()
}

/// Calls `hex::encode`: lowercase hexadecimal, two digits per byte.
#[verifier::external_body]
fn hex_encode(data: &[u8]) -> (r: String)
    ensures
        r@ == hex_of(data@),
{
    hex::encode(data)
}

/// Calls `URL_SAFE_NO_PAD.encode` of the `base64` crate.
#[verifier::external_body]
fn base64_url_encode(data: &[u8]) -> (r: String)
    ensures
        r@ == base64_url(data@),
{
    base64::engine::general_purpose::URL_SAFE_NO_PAD.encode(data)
}

/// Calls `OsRng.try_fill_bytes` of the `rand` crate on `n` bytes: the bytes, or the
/// text of the error when the operating system's generator fails. Nothing is
/// claimed of the bytes but their number.
#[verifier::external_body]
fn random_bytes(n: usize) -> (r: Result<Vec<u8>, String>)
    ensures
        r is Ok ==> r->Ok_0@.len() == n,
{
    let mut bytes = vec![0u8; n];
    match rand::rngs::OsRng.try_fill_bytes(&mut bytes) {
        Ok(()) => Ok(bytes),
        Err(e) => Err(e.to_string()),
    }
}

/// Hex-encoded SHA-256 of a string (how refresh tokens are stored and looked up).
pub fn sha256_hex(s: &str) -> (r: String)
    ensures
        r@ == token_hash(s@),
        r@.len() == 64,
{
    let digest = sha256(s.as_bytes());
    let r = hex_encode(digest.as_slice());
    proof {
        lemma_hex_of_len(digest@);
    }
    r
}

/// `hex_of` doubles the length.
pub proof fn lemma_hex_of_len(b: Seq<u8>)
    ensures
        hex_of(b).len() == 2 * b.len(),
    decreases b.len(),
{
    if b.len() > 0 {
        lemma_hex_of_len(b.drop_first());
    }
}

/// The refresh token made of the given bytes, and its stored hash.
pub fn refresh_from_bytes(bytes: &[u8]) -> (r: (String, String))
    ensures
        r.0@ == base64_url(bytes@),
        r.1@ == token_hash(r.0@),
{
    let token = base64_url_encode(bytes);
    let hash = sha256_hex(token.as_str());
    (token, hash)
}

/// A new opaque refresh token (URL-safe base64 of 32 random bytes) and the hex
/// SHA-256 under which it is stored, or an internal error when the operating
/// system's random generator fails. The lifetime is not part of the token.
pub fn generate_refresh(_ttl: &std::time::Duration) -> (r: ApiResult<(String, String)>)
    ensures
        r matches Ok(t) ==> {
            &&& exists|b: Seq<u8>| b.len() == 32 && t.0@ == #[trigger] base64_url(b)
            &&& t.0@.len() == 43
            &&& forall|i: int| 0 <= i < t.0@.len() ==> url_safe(#[trigger] t.0@[i])
            &&& t.1@ == token_hash(t.0@)
        },
        r matches Err(e) ==> e@ is Internal,
{
    match random_bytes(32) {
        Err(m) => Err(ApiError::Internal(m)),
        Ok(bytes) => {
            proof {
                lemma_base64_url_shape(bytes@);
            }
            Ok(refresh_from_bytes(bytes.as_slice()))
        },
    }
}

/// The Argon2 PHC string of a password under a B64 salt, with the default
/// parameters, or the library's error text.
pub uninterp spec fn argon2_phc(password: Seq<char>, salt: Seq<char>) -> Result<Seq<char>, Seq<char>>;

/// Whether a password matches a PHC string (`Ok(true)` or `Ok(false)`), or the
/// error text when the PHC string does not parse.
pub uninterp spec fn argon2_check(password: Seq<char>, phc: Seq<char>) -> Result<bool, Seq<char>>;

/// Whether a password verifies against a PHC string.
pub open spec fn password_matches(password: Seq<char>, phc: Seq<char>) -> bool {
    argon2_check(password, phc) == Ok::<bool, Seq<char>>(true)
}

/// The view of a result of two strings.
pub open spec fn text_result(r: Result<String, String>) -> Result<Seq<char>, Seq<char>> {
    match r {
        Ok(s) => Ok(s@),
        Err(e) => Err(e@),
    }
}

/// The view of a boolean result with a text error.
pub open spec fn check_result(r: Result<bool, String>) -> Result<bool, Seq<char>> {
    match r {
        Ok(b) => Ok(b),
        Err(e) => Err(e@),
    }
}

/// Calls `SaltString::encode_b64` on 16 bytes: their B64 encoding (the standard
/// alphabet without padding), which fits the salt's 64 characters, so it succeeds.
#[verifier::external_body]
fn b64_salt(bytes: &[u8]) -> (r: Result<String, String>)
    requires
        bytes@.len() == 16,
    ensures
        r is Ok,
        r is Ok ==> r->Ok_0@ == base64_std(bytes@),
{
    match SaltString::encode_b64(bytes) {
        Ok(s) => Ok(s.as_str().to_string()),
        Err(e) => Err(e.to_string()),
    }
}

/// Calls `SaltString::from_b64` and then `hash_password` of `Argon2::default()`,
/// and renders the hash as its PHC string (or an error as its text). The result is
/// named `argon2_phc`. As the `password-hash` documentation describes
/// `verify_password`, a PHC string made by `hash_password` verifies the same
/// password under the same hasher.
#[verifier::external_body]
fn argon2_hash(password: &str, salt: &str) -> (r: Result<String, String>)
    ensures
        text_result(r) == argon2_phc(password@, salt@),
        r is Ok ==> password_matches(password@, r->Ok_0@),
{
    match SaltString::from_b64(salt) {
        Err(e) => Err(e.to_string()),
        Ok(s) => match Argon2::default().hash_password(password.as_bytes(), &s) {
            Ok(h) => Ok(h.to_string()),
            Err(e) => Err(e.to_string()),
        },
    }
}

/// Calls `PasswordHash::new` on the PHC string (its error as text) and then
/// `verify_password` of `Argon2::default()` (success as `true`, any error as
/// `false`). The result is named `argon2_check`.
#[verifier::external_body]
pub(crate) fn argon2_verify(password: &str, phc: &str) -> (r: Result<bool, String>)
    ensures
        check_result(r) == argon2_check(password@, phc@),
{
    match PasswordHash::new(phc) {
        Err(e) => Err(e.to_string()),
        Ok(parsed) => Ok(Argon2::default().verify_password(password.as_bytes(), &parsed).is_ok()),
    }
}

/// What hashing gives the API: the PHC string, or an internal error.
pub open spec fn hash_outcome(r: Result<Seq<char>, Seq<char>>) -> Result<Seq<char>, ApiErrorView> {
    match r {
        Ok(h) => Ok(h),
        Err(m) => Err(ApiErrorView::Internal(m)),
    }
}

/// The Argon2 PHC string of `password` under the B64 salt `salt`.
pub fn hash_with_salt(password: &str, salt: &str) -> (r: ApiResult<String>)
    ensures
        result_view(r) == hash_outcome(argon2_phc(password@, salt@)),
        r is Ok ==> password_matches(password@, r->Ok_0@),
{
    match argon2_hash(password, salt) {
        Ok(h) => Ok(h),
        Err(m) => Err(ApiError::Internal(m)),
    }
}

/// The Argon2 PHC string of `password` under a fresh salt of 16 random bytes, or an
/// internal error when the operating system's random generator fails.
pub fn hash_password(password: &str) -> (r: ApiResult<String>)
    ensures
        (exists|b: Seq<u8>|
            b.len() == 16 && result_view(r) == hash_outcome(#[trigger] argon2_phc(password@, base64_std(b))))
            || (r matches Err(e) && e@ is Internal),
        r is Ok ==> password_matches(password@, r->Ok_0@),
{
    match random_bytes(16) {
        Err(m) => Err(ApiError::Internal(m)),
        Ok(bytes) => match b64_salt(bytes.as_slice()) {
            Ok(salt) => hash_with_salt(password, salt.as_str()),
            Err(m) => Err(ApiError::Internal(m)),
        },
    }
}

} // verus!
