//! Authentication data: claims, the current user and request/response bodies.

use vstd::prelude::*;

verus! {

/// The claims of an access token.
#[derive(Debug, Clone)]
pub struct JwtClaims {
    /// The user id, in decimal.
    pub sub: String,
    /// Issued at (seconds since the epoch).
    pub iat: i64,
    /// Expiry (seconds since the epoch).
    pub exp: i64,
}

/// The authenticated user of a request.
#[derive(Debug)]
pub struct CurrentUser {
    pub id: i64,
    pub email: String,
}

impl Clone for CurrentUser {
    fn clone(&self) -> (r: Self)
        ensures
            r.id == self.id,
            r.email@ == self.email@,
    {
        CurrentUser { id: self.id, email: self.email.clone() }
    }
}

/// The body of a registration.
pub struct RegisterBody {
    pub email: String,
    pub password: String,
}

/// The body of a login.
pub struct LoginBody {
    pub email: String,
    pub password: String,
}

/// The body of a refresh.
pub struct RefreshBody {
    pub refresh_token: String,
}

/// The public shape of a user.
pub struct PublicUser {
    pub id: i64,
    pub email: String,
}

/// Tokens and user returned by register, login and refresh.
pub struct AuthResponse {
    pub access_token: String,
    pub refresh_token: String,
    pub user: PublicUser,
}

/// A user that must be authenticated.
pub struct RequireUser(pub CurrentUser);

/// A user that may be authenticated.
pub struct OptionalUser(pub Option<CurrentUser>);

} // verus!
