//! Mapping of database failures of the CRUD statements to API errors.

use vstd::prelude::*;
use vstd::string::*;

use crate::general::errors::{concat2, ApiError, ApiErrorView};
use crate::text::str_eq;

verus! {

/// The CRUD statement that failed.
#[derive(Clone, Copy, Debug, PartialEq, Eq, Structural)]
pub enum CrudOp {
    Select,
    Insert,
    Update,
    Delete,
}

/// A failure of a statement: a database error with its SQLSTATE code (if any)
/// and message, or any other failure (pool, I/O, ...).
#[derive(Debug)]
pub enum DbFailure {
    Database { code: Option<String>, message: String },
    Other,
}

/// The SQLSTATE code of a database error, the empty text when there is none.
pub open spec fn code_text(code: Option<Seq<char>>) -> Seq<char> {
    match code {
        Some(c) => c,
        None => Seq::empty(),
    }
}

/// Invalid text representation, invalid datetime format, datatype mismatch,
/// cannot coerce.
pub open spec fn is_cast_error(c: Seq<char>) -> bool {
    c == "22P02"@ || c == "22007"@ || c == "42804"@ || c == "42846"@
}

/// Unique, not-null, foreign-key and check violations.
pub open spec fn is_constraint_error(c: Seq<char>) -> bool {
    c == "23505"@ || c == "23502"@ || c == "23503"@ || c == "23514"@
}

/// The error for a missing table.
pub open spec fn table_not_found(schema: Seq<char>, table: Seq<char>) -> ApiErrorView {
    ApiErrorView::NotFound("table \""@ + schema + "\".\""@ + table + "\" not found"@)
}

/// The API error for a failed statement: input errors (casts, operators, and for
/// writes constraint violations) are 400 with the database message, an unknown
/// column is 400, a missing table is 404, anything else is 500 with a generic
/// message.
pub open spec fn db_error(op: CrudOp, failure_code: Option<Option<Seq<char>>>, message: Seq<char>, schema: Seq<char>, table: Seq<char>) -> ApiErrorView {
    match failure_code {
        None => ApiErrorView::Internal("internal error"@),
        Some(code) => {
            let c = code_text(code);
            if is_cast_error(c) || (c == "42883"@ && op != CrudOp::Insert) {
                ApiErrorView::BadRequest(message)
            } else if is_constraint_error(c) && (op == CrudOp::Insert || op == CrudOp::Update) {
                ApiErrorView::BadRequest(message)
            } else if c == "42703"@ && op != CrudOp::Insert {
                ApiErrorView::BadRequest("unknown column/expression: "@ + message)
            } else if c == "42P01"@ {
                table_not_found(schema, table)
            } else {
                ApiErrorView::Internal("database error"@)
            }
        },
    }
}

/// The code of a failure, when it is a database error.
pub open spec fn failure_code(f: &DbFailure) -> Option<Option<Seq<char>>> {
    match f {
        DbFailure::Database { code, message } => Some(
            match code {
                Some(c) => Some(c@),
                None => None,
            },
        ),
        DbFailure::Other => None,
    }
}

/// The message of a failure (empty for other failures).
pub open spec fn failure_message(f: &DbFailure) -> Seq<char> {
    match f {
        DbFailure::Database { code, message } => message@,
        DbFailure::Other => Seq::empty(),
    }
}

/// Maps the failure of a CRUD statement on `"schema"."table"` to the API error
/// returned to the client.
pub fn map_db_error(op: CrudOp, failure: &DbFailure, schema: &str, table: &str) -> (r: ApiError)
    ensures
        r@ == db_error(op, failure_code(failure), failure_message(failure), schema@, table@),
{
    match failure {
        DbFailure::Other => ApiError::Internal(String::from_str("internal error")),
        DbFailure::Database { code, message } => {
            let c: &str = match code {
                Some(c) => c.as_str(),
                None => "",
            };
            proof {
                reveal_strlit("");
            }
            assert(c@ == code_text(failure_code(failure)->Some_0));
            let cast = str_eq(c, "22P02") || str_eq(c, "22007") || str_eq(c, "42804") || str_eq(c, "42846");
            let constraint = str_eq(c, "23505") || str_eq(c, "23502") || str_eq(c, "23503") || str_eq(c, "23514");
            if cast || (str_eq(c, "42883") && op != CrudOp::Insert) {
                ApiError::BadRequest(message.clone())
            } else if constraint && (op == CrudOp::Insert || op == CrudOp::Update) {
                ApiError::BadRequest(message.clone())
            } else if str_eq(c, "42703") && op != CrudOp::Insert {
                ApiError::BadRequest(concat2("unknown column/expression: ", message.as_str()))
            } else if str_eq(c, "42P01") {
                let mut m = String::from_str("table \"");
                m.append(schema);
                m.append("\".\"");
                m.append(table);
                m.append("\" not found");
                ApiError::NotFound(m)
            } else {
                ApiError::Internal(String::from_str("database error"))
            }
        },
    }
}

/// The error for a failure to set the row-level-security context.
pub fn rls_context_failed() -> (r: ApiError)
    ensures
        r@ == ApiErrorView::Internal("failed to set RLS context"@),
{
    ApiError::Internal(String::from_str("failed to set RLS context"))
}

} // verus!
