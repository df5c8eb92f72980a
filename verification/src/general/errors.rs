//! The API error type and its mapping to HTTP status codes.

use vstd::prelude::*;
use vstd::string::*;

verus! {

/// Domain-level error of the API; each variant is one HTTP error class.
#[derive(Debug)]
pub enum ApiError {
    /// 400: the client sent invalid data or parameters.
    BadRequest(String),
    /// 401: missing or invalid authentication.
    Unauthorized(String),
    /// 403: authenticated but not allowed.
    Forbidden(String),
    /// 409: e.g. the resource already exists.
    Conflict(String),
    /// 404: the resource is not present (or not exposed).
    NotFound(String),
    /// 500: unexpected failure on the server.
    Internal(String),
}

/// `Ok(T)` or an [`ApiError`].
pub type ApiResult<T> = Result<T, ApiError>;

/// The mathematical value of an [`ApiError`]: its variant and its message.
pub enum ApiErrorView {
    BadRequest(Seq<char>),
    Unauthorized(Seq<char>),
    Forbidden(Seq<char>),
    Conflict(Seq<char>),
    NotFound(Seq<char>),
    Internal(Seq<char>),
}

impl View for ApiError {
    type V = ApiErrorView;

    open spec fn view(&self) -> ApiErrorView {
        match self {
            ApiError::BadRequest(m) => ApiErrorView::BadRequest(m@),
            ApiError::Unauthorized(m) => ApiErrorView::Unauthorized(m@),
            ApiError::Forbidden(m) => ApiErrorView::Forbidden(m@),
            ApiError::Conflict(m) => ApiErrorView::Conflict(m@),
            ApiError::NotFound(m) => ApiErrorView::NotFound(m@),
            ApiError::Internal(m) => ApiErrorView::Internal(m@),
        }
    }
}

/// The HTTP status code of an error class.
pub open spec fn status_of(e: ApiErrorView) -> u16 {
    match e {
        ApiErrorView::BadRequest(_) => 400,
        ApiErrorView::Unauthorized(_) => 401,
        ApiErrorView::Forbidden(_) => 403,
        ApiErrorView::Conflict(_) => 409,
        ApiErrorView::NotFound(_) => 404,
        ApiErrorView::Internal(_) => 500,
    }
}

/// Each error class answers with its own HTTP status: bad request 400,
/// unauthorized 401, forbidden 403, not found 404, conflict 409, internal 500.
pub proof fn lemma_status_outcomes(m: Seq<char>)
    ensures
        status_of(ApiErrorView::BadRequest(m)) == 400,
        status_of(ApiErrorView::Unauthorized(m)) == 401,
        status_of(ApiErrorView::Forbidden(m)) == 403,
        status_of(ApiErrorView::NotFound(m)) == 404,
        status_of(ApiErrorView::Conflict(m)) == 409,
        status_of(ApiErrorView::Internal(m)) == 500,
        message_of(ApiErrorView::BadRequest(m)) == m,
        message_of(ApiErrorView::Unauthorized(m)) == m,
        message_of(ApiErrorView::Forbidden(m)) == m,
        message_of(ApiErrorView::NotFound(m)) == m,
        message_of(ApiErrorView::Conflict(m)) == m,
        message_of(ApiErrorView::Internal(m)) == m,
{
}

/// The message carried by an error.
pub open spec fn message_of(e: ApiErrorView) -> Seq<char> {
    match e {
        ApiErrorView::BadRequest(m) => m,
        ApiErrorView::Unauthorized(m) => m,
        ApiErrorView::Forbidden(m) => m,
        ApiErrorView::Conflict(m) => m,
        ApiErrorView::NotFound(m) => m,
        ApiErrorView::Internal(m) => m,
    }
}

/// The view of a result whose success value has a view.
pub open spec fn result_view<T: View>(r: Result<T, ApiError>) -> Result<T::V, ApiErrorView> {
    match r {
        Ok(t) => Ok(t@),
        Err(e) => Err(e@),
    }
}

impl ApiError {
    /// The HTTP status code and the message body of this error.
    pub fn into_response(self) -> (r: (u16, String))
        ensures
            r.0 == status_of(self@),
            r.1@ == message_of(self@),
    {
        match self {
            ApiError::BadRequest(m) => (400, m),
            ApiError::Unauthorized(m) => (401, m),
            ApiError::Forbidden(m) => (403, m),
            ApiError::Conflict(m) => (409, m),
            ApiError::NotFound(m) => (404, m),
            ApiError::Internal(m) => (500, m),
        }
    }
}

/// `a + b`, as a new string.
pub fn concat2(a: &str, b: &str) -> (r: String)
    ensures
        r@ == a@ + b@,
{
    let mut s = String::from_str(a);
    s.append(b);
    s
}

/// `a + b + c`, as a new string.
pub fn concat3(a: &str, b: &str, c: &str) -> (r: String)
    ensures
        r@ == a@ + b@ + c@,
{
    let mut s = String::from_str(a);
    s.append(b);
    s.append(c);
    s
}

} // verus!
