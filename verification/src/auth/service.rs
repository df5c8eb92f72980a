//! Decisions of registration, login and refresh, taken between their database
//! steps, and the claims of access tokens.

use vstd::prelude::*;
use vstd::string::*;
use vstd::utf8::encode_utf8;

use crate::auth::crypto::{argon2_check, argon2_verify, check_result, password_matches};
use crate::auth::types::{AuthResponse, JwtClaims, PublicUser};
use crate::general::errors::{result_view, ApiError, ApiErrorView, ApiResult};
use crate::text::{append_int, int_decimal};

verus! {

/// A user record as stored.
#[derive(Debug)]
pub struct UserRow {
    pub id: i64,
    pub email: String,
    pub password_hash: String,
    pub is_active: bool,
}

/// An active refresh session, found by the hash of its token.
#[derive(Debug)]
pub struct SessionRow {
    pub id: i64,
    pub user_id: i64,
}

/// The password policy: at least eight bytes of UTF-8.
pub open spec fn password_policy(password: Seq<char>) -> Result<(), ApiErrorView> {
    if encode_utf8(password).len() < 8 {
        Err(ApiErrorView::BadRequest("password too short"@))
    } else {
        Ok(())
    }
}

/// Applies the password policy of registration.
pub fn check_password_policy(password: &str) -> (r: ApiResult<()>)
    ensures
        result_view(r) == password_policy(password@),
{
    if password.as_bytes().len() < 8 {
        return Err(ApiError::BadRequest(String::from_str("password too short")));
    }
    Ok(())
}

/// The error of a registration whose email is taken.
pub open spec fn email_taken() -> ApiErrorView {
    ApiErrorView::Conflict("email already exists"@)
}

/// The user that a registration inserted; none means the email was taken.
pub fn registered_user(inserted: Option<UserRow>) -> (r: ApiResult<UserRow>)
    ensures
        inserted is None ==> (r matches Err(e) && e@ == email_taken()),
        inserted is Some ==> r is Ok && r->Ok_0 == inserted->Some_0,
{
    match inserted {
        Some(u) => Ok(u),
        None => Err(ApiError::Conflict(String::from_str("email already exists"))),
    }
}

/// The error for unknown credentials.
pub open spec fn invalid_credentials() -> ApiErrorView {
    ApiErrorView::Unauthorized("invalid credentials"@)
}

/// How a login ends once the user is known and active, given the outcome of
/// checking the password against the stored PHC string; `None` is success.
pub open spec fn password_outcome(check: Result<bool, Seq<char>>) -> Option<ApiErrorView> {
    match check {
        Err(m) => Some(ApiErrorView::Internal(m)),
        Ok(false) => Some(invalid_credentials()),
        Ok(true) => None,
    }
}

/// How a login ends, given the user found by email (if any) and the password;
/// `None` is success. An unknown email and a disabled account fail as a wrong
/// password does, so a failed login does not reveal whether the email exists.
pub open spec fn login_error(user: Option<UserRow>, password: Seq<char>) -> Option<ApiErrorView> {
    match user {
        None => Some(invalid_credentials()),
        Some(u) => if !u.is_active {
            Some(invalid_credentials())
        } else {
            password_outcome(argon2_check(password, u.password_hash@))
        },
    }
}

/// Finishes a login for a known, active user, given the outcome of the password
/// check.
pub fn accept_password(user: UserRow, check: Result<bool, String>) -> (r: ApiResult<UserRow>)
    ensures
        match password_outcome(check_result(check)) {
            None => r is Ok && r->Ok_0 == user,
            Some(e) => r matches Err(x) && x@ == e,
        },
{
    match check {
        Err(m) => Err(ApiError::Internal(m)),
        Ok(false) => Err(ApiError::Unauthorized(String::from_str("invalid credentials"))),
        Ok(true) => Ok(user),
    }
}

/// Checks a login: the user found by email must exist, be active and have a
/// stored PHC string that the password verifies against; otherwise the login fails
/// with "invalid credentials" (or an internal error for a stored hash that does
/// not parse).
pub fn check_login(user: Option<UserRow>, password: &str) -> (r: ApiResult<UserRow>)
    ensures
        match login_error(user, password@) {
            None => r is Ok && r->Ok_0 == user->Some_0,
            Some(e) => r matches Err(x) && x@ == e,
        },
{
    match user {
        None => Err(ApiError::Unauthorized(String::from_str("invalid credentials"))),
        Some(u) => {
            if !u.is_active {
                return Err(ApiError::Unauthorized(String::from_str("invalid credentials")));
            }
            let check = argon2_verify(password, u.password_hash.as_str());
            accept_password(u, check)
        },
    }
}

/// A known, active user whose stored PHC string the password verifies against
/// logs in.
pub proof fn lemma_matching_password_logs_in(user: UserRow, password: Seq<char>)
    requires
        user.is_active,
        password_matches(password, user.password_hash@),
    ensures
        login_error(Some(user), password) is None,
{
}

/// The error for a refresh token without an active session.
pub open spec fn invalid_refresh() -> ApiErrorView {
    ApiErrorView::Unauthorized("invalid or expired refresh"@)
}

/// The session of a presented refresh token; none means it is unknown, revoked or
/// expired.
pub fn active_session(found: Option<SessionRow>) -> (r: ApiResult<SessionRow>)
    ensures
        found is None ==> (r matches Err(e) && e@ == invalid_refresh()),
        found is Some ==> r is Ok && r->Ok_0 == found->Some_0,
{
    match found {
        Some(s) => Ok(s),
        None => Err(ApiError::Unauthorized(String::from_str("invalid or expired refresh"))),
    }
}

/// Whether the expiry of a token issued at `now` (seconds since the epoch) for
/// `ttl_secs` seconds, both taken as `i64`, fits in an `i64`.
pub open spec fn claims_fit(now: u64, ttl_secs: u64) -> bool {
    i64::MIN <= (now as i64) + (ttl_secs as i64) <= i64::MAX
}

/// The claims of an access token for `user_id` issued at `now` for `ttl_secs`
/// seconds, or none where the expiry overflows.
pub fn claims_at(user_id: i64, now: u64, ttl_secs: u64) -> (r: Option<JwtClaims>)
    ensures
        r is Some <==> claims_fit(now, ttl_secs),
        r matches Some(c) ==> c.sub@ == int_decimal(user_id as int) && c.iat == now as i64 && c.exp
            == (now as i64) + (ttl_secs as i64),
{
    let iat = now as i64;
    let ttl = ttl_secs as i64;
    match iat.checked_add(ttl) {
        None => None,
        Some(exp) => {
            let mut sub = String::new();
            append_int(&mut sub, user_id);
            Some(JwtClaims { sub, iat, exp })
        },
    }
}

/// The response of register, login and refresh.
pub fn auth_response(access_token: String, refresh_token: String, user_id: i64, email: String) -> (r: AuthResponse)
    ensures
        r.access_token@ == access_token@,
        r.refresh_token@ == refresh_token@,
        r.user.id == user_id,
        r.user.email@ == email@,
{
    AuthResponse { access_token, refresh_token, user: PublicUser { id: user_id, email } }
}

} // verus!
