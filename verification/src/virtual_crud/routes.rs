//! Request-level decisions of the CRUD routes.

use vstd::prelude::*;
use vstd::string::*;

use crate::auth::types::CurrentUser;
use crate::general::errors::{result_view, ApiError, ApiErrorView, ApiResult};
use super::db_errors::CrudOp;
use super::registry::{check_operation, config_view, ensure_exposed, not_exposed, operation_allowed, operation_disabled};
use super::types::{OxydTableConfig, OxydTableConfigView};

verus! {

/// The schema that the routes serve.
pub fn default_schema() -> (r: &'static str)
    ensures
        r@ == "public"@,
{
    "public"
}

/// The error for an anonymous request on a table that requires authentication.
pub open spec fn authentication_required() -> ApiErrorView {
    ApiErrorView::Unauthorized("Authentication required"@)
}

/// Lets a request through unless the table requires authentication and no user is
/// authenticated.
pub fn check_access(require_auth: bool, user: &Option<CurrentUser>) -> (r: ApiResult<()>)
    ensures
        r is Ok <==> !(require_auth && user is None),
        r matches Err(e) ==> e@ == authentication_required(),
{
    if require_auth && user.is_none() {
        return Err(ApiError::Unauthorized(String::from_str("Authentication required")));
    }
    Ok(())
}

/// Whether a request for `op` on `table` is admitted: without a registry every
/// request is; otherwise a table that is not exposed is not found, a table that
/// requires authentication refuses anonymous requests, and an operation that the
/// registry does not enable is forbidden.
pub open spec fn admission(cfg: Option<OxydTableConfigView>, table: Seq<char>, op: CrudOp, authenticated: bool) -> Result<
    (),
    ApiErrorView,
> {
    match cfg {
        None => Ok(()),
        Some(c) => if !c.is_exposed {
            Err(not_exposed(table))
        } else if c.require_auth && !authenticated {
            Err(authentication_required())
        } else if !operation_allowed(c, op) {
            Err(operation_disabled(op))
        } else {
            Ok(())
        },
    }
}

/// Lets through or refuses a request for `op` on `table`, given the table's registry
/// configuration and the request's user.
pub fn authorize_request(cfg: &Option<OxydTableConfig>, table: &str, op: CrudOp, user: &Option<CurrentUser>) -> (r: ApiResult<()>)
    ensures
        result_view(r) == admission(config_view(*cfg), table@, op, user is Some),
        config_view(*cfg) matches Some(c) && !c.is_exposed ==> (r matches Err(e) && e@ == ApiErrorView::NotFound(
            "table '"@ + table@ + "' not exposed"@,
        )),
{
    let require_auth = ensure_exposed(cfg, table)?;
    check_access(require_auth, user)?;
    check_operation(cfg, op)
}

} // verus!
