//! Decisions taken on a request's credentials: the bearer token of the
//! `Authorization` header, the user id in a token's subject, and the user found
//! for it.

use vstd::prelude::*;
use vstd::string::*;

use crate::auth::types::CurrentUser;
use crate::general::errors::{ApiError, ApiErrorView, ApiResult};
use crate::text::{chars_eq, chars_of, int_decimal, lemma_parse_int_decimal, parse_i64, parse_i64_chars, string_of, sub_chars};

verus! {

/// The `Authorization` header of a request, as far as the decisions read it.
#[derive(Debug)]
pub enum AuthHeader {
    /// No such header.
    Missing,
    /// A header whose value is not visible ASCII.
    NotText,
    /// The header's value.
    Text(String),
}

/// The token after the `Bearer ` prefix, if the value has that prefix.
pub open spec fn bearer_token(value: Seq<char>) -> Option<Seq<char>> {
    let p = "Bearer "@;
    if p.len() <= value.len() && value.take(p.len() as int) == p {
        Some(value.skip(p.len() as int))
    } else {
        None
    }
}

/// The view of an optional string.
pub open spec fn opt_text(o: Option<String>) -> Option<Seq<char>> {
    match o {
        Some(s) => Some(s@),
        None => None,
    }
}

/// The bearer token of a header, if it is text with the `Bearer ` prefix.
pub open spec fn header_bearer(h: AuthHeader) -> Option<Seq<char>> {
    match h {
        AuthHeader::Text(s) => bearer_token(s@),
        _ => None,
    }
}

/// `value.strip_prefix("Bearer ")`.
fn strip_bearer(value: &str) -> (r: Option<String>)
    ensures
        opt_text(r) == bearer_token(value@),
{
    let v = chars_of(value);
    let p = chars_of("Bearer ");
    if p.len() <= v.len() {
        let head = sub_chars(&v, 0, p.len());
        if chars_eq(&head, &p) {
            let rest = sub_chars(&v, p.len(), v.len());
            assert(v@.take(p.len() as int) =~= head@);
            assert(v@.skip(p.len() as int) =~= rest@);
            return Some(string_of(&rest));
        }
        assert(v@.take(p.len() as int) =~= head@);
    }
    None
}

/// The bearer token of the `Authorization` header, if any.
pub fn bearer_from_headers(h: &AuthHeader) -> (r: Option<String>)
    ensures
        opt_text(r) == header_bearer(*h),
{
    match h {
        AuthHeader::Text(s) => strip_bearer(s.as_str()),
        _ => None,
    }
}

/// What the authentication middleware makes of the header: the token, or why
/// the request is refused.
pub open spec fn middleware_outcome(h: AuthHeader) -> Result<Seq<char>, ApiErrorView> {
    match h {
        AuthHeader::Missing => Err(ApiErrorView::Unauthorized("missing Authorization header"@)),
        AuthHeader::NotText => Err(ApiErrorView::Unauthorized("bad header"@)),
        AuthHeader::Text(s) => match bearer_token(s@) {
            None => Err(ApiErrorView::Unauthorized("no bearer"@)),
            Some(t) => Ok(t),
        },
    }
}

/// The token that the authentication middleware reads from the header.
pub fn middleware_token(h: &AuthHeader) -> (r: ApiResult<String>)
    ensures
        match (r, middleware_outcome(*h)) {
            (Ok(t), Ok(u)) => t@ == u,
            (Err(e), Err(f)) => e@ == f,
            _ => false,
        },
{
    match h {
        AuthHeader::Missing => Err(ApiError::Unauthorized(String::from_str("missing Authorization header"))),
        AuthHeader::NotText => Err(ApiError::Unauthorized(String::from_str("bad header"))),
        AuthHeader::Text(s) => match strip_bearer(s.as_str()) {
            None => Err(ApiError::Unauthorized(String::from_str("no bearer"))),
            Some(t) => Ok(t),
        },
    }
}

/// The error for a request without a usable bearer token where one is required.
pub open spec fn missing_header() -> ApiErrorView {
    ApiErrorView::Unauthorized("missing Authorization header"@)
}

/// The token that a required user is authenticated by.
pub fn required_token(h: &AuthHeader) -> (r: ApiResult<String>)
    ensures
        match header_bearer(*h) {
            Some(t) => r is Ok && r->Ok_0@ == t,
            None => r matches Err(e) && e@ == missing_header(),
        },
{
    match bearer_from_headers(h) {
        Some(t) => Ok(t),
        None => Err(ApiError::Unauthorized(String::from_str("missing Authorization header"))),
    }
}

/// The error for a token that does not decode or has expired.
pub fn invalid_token() -> (e: ApiError)
    ensures
        e@ == ApiErrorView::Unauthorized("invalid token"@),
{
    ApiError::Unauthorized(String::from_str("invalid token"))
}

/// The error for a subject that is not a user id.
pub open spec fn invalid_sub() -> ApiErrorView {
    ApiErrorView::Unauthorized("invalid sub"@)
}

/// The user id in a token's subject (`str::parse::<i64>`).
pub fn user_id_from_sub(sub: &str) -> (r: ApiResult<i64>)
    ensures
        match parse_i64(sub@) {
            Some(v) => r is Ok && r->Ok_0 == v,
            None => r matches Err(e) && e@ == invalid_sub(),
        },
{
    let v = chars_of(sub);
    match parse_i64_chars(&v) {
        Some(id) => Ok(id),
        None => Err(ApiError::Unauthorized(String::from_str("invalid sub"))),
    }
}

/// The subject of the claims issued for a user parses back to that user's id.
pub proof fn lemma_subject_round_trip(user_id: i64)
    ensures
        parse_i64(int_decimal(user_id as int)) == Some(user_id as int),
{
    lemma_parse_int_decimal(user_id as int);
}

/// The error for a token whose user is unknown or inactive.
pub open spec fn user_not_found() -> ApiErrorView {
    ApiErrorView::Unauthorized("user not found"@)
}

/// The current user of a required authentication, from the lookup of the active
/// user's email (a database error's text, none, or the email).
pub fn user_from_lookup(user_id: i64, lookup: Result<Option<String>, String>) -> (r: ApiResult<CurrentUser>)
    ensures
        match lookup {
            Err(m) => r matches Err(e) && e@ == ApiErrorView::Internal(m@),
            Ok(None) => r matches Err(e) && e@ == user_not_found(),
            Ok(Some(email)) => r matches Ok(u) && u.id == user_id && u.email@ == email@,
        },
{
    match lookup {
        Err(m) => Err(ApiError::Internal(m)),
        Ok(None) => Err(ApiError::Unauthorized(String::from_str("user not found"))),
        Ok(Some(email)) => Ok(CurrentUser { id: user_id, email }),
    }
}

/// The current user of an optional authentication: any failure of the lookup
/// leaves the request anonymous.
pub fn optional_user_from_lookup(user_id: i64, lookup: Result<Option<String>, String>) -> (r: Option<CurrentUser>)
    ensures
        match lookup {
            Ok(Some(email)) => r matches Some(u) && u.id == user_id && u.email@ == email@,
            _ => r is None,
        },
{
    match lookup {
        Ok(Some(email)) => Some(CurrentUser { id: user_id, email }),
        _ => None,
    }
}

/// The user id of an optional authentication's subject; a subject that does not
/// parse leaves the request anonymous.
pub fn optional_user_id(sub: &str) -> (r: Option<i64>)
    ensures
        match parse_i64(sub@) {
            Some(v) => r == Some(v as i64),
            None => r is None,
        },
{
    match user_id_from_sub(sub) {
        Ok(id) => Some(id),
        Err(_) => None,
    }
}

} // verus!
