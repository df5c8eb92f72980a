//! What the authentication decisions answer, case by case: the password policy,
//! the outcome of a login, and the bearer token of a header.

use vstd::prelude::*;
use vstd::string::*;
use vstd::utf8::encode_utf8;

use crate::auth::crypto::argon2_check;
use crate::auth::extract::bearer_token;
use crate::auth::service::{login_error, password_policy, UserRow};
use crate::general::errors::{status_of, ApiErrorView};

verus! {

/// A password is accepted exactly when its UTF-8 encoding has at least eight bytes;
/// a shorter one is a bad request "password too short".
pub proof fn lemma_password_policy_outcomes(password: Seq<char>)
    ensures
        encode_utf8(password).len() >= 8 ==> password_policy(password) == Ok::<(), ApiErrorView>(()),
        encode_utf8(password).len() < 8 ==> password_policy(password) == Err::<(), ApiErrorView>(
            ApiErrorView::BadRequest("password too short"@),
        ),
{
}

/// A login succeeds exactly for a known, active user whose stored PHC string the
/// password verifies against. An unknown email, a disabled account and a wrong
/// password all give the same "invalid credentials" (401), so a failure does not
/// reveal whether the email exists; a stored hash that does not parse is an
/// internal error with its text.
pub proof fn lemma_login_outcomes(user: Option<UserRow>, password: Seq<char>)
    ensures
        user is None ==> login_error(user, password) == Some(ApiErrorView::Unauthorized("invalid credentials"@)),
        user matches Some(u) ==> {
            &&& !u.is_active ==> login_error(user, password) == Some(
                ApiErrorView::Unauthorized("invalid credentials"@),
            )
            &&& u.is_active && argon2_check(password, u.password_hash@) == Ok::<bool, Seq<char>>(true)
                ==> login_error(user, password) is None
            &&& u.is_active && argon2_check(password, u.password_hash@) == Ok::<bool, Seq<char>>(false)
                ==> login_error(user, password) == Some(ApiErrorView::Unauthorized("invalid credentials"@))
            &&& (u.is_active && argon2_check(password, u.password_hash@) is Err) ==> login_error(user, password)
                == Some(ApiErrorView::Internal(argon2_check(password, u.password_hash@)->Err_0))
        },
        login_error(user, password) matches Some(e) ==> status_of(e) == 401 || status_of(e) == 500,
{
}

/// The bearer token of a header value is what follows the prefix `Bearer `
/// (case and the single space included); a value without that prefix has none.
pub proof fn lemma_bearer_outcomes(value: Seq<char>, token: Seq<char>)
    ensures
        bearer_token("Bearer "@ + token) == Some(token),
        !(value.len() >= 7 && value.take(7) == "Bearer "@) ==> bearer_token(value) is None,
{
    reveal_strlit("Bearer ");
    let v = "Bearer "@ + token;
    assert(v.take(7) =~= "Bearer "@);
    assert(v.skip(7) =~= token);
}

} // verus!
