//! The filtered `DELETE` statement.

use vstd::prelude::*;
use vstd::string::*;

use crate::general::errors::{ApiError, ApiErrorView, ApiResult};
use super::query::{build_where_sql, where_sql};
use super::select::sql_view;
use super::types::{strings_view, QueryOptions, QueryOptionsView, TableMeta, TableMetaView};

verus! {

/// The error for a `DELETE` without filters.
pub open spec fn delete_without_filters() -> ApiErrorView {
    ApiErrorView::BadRequest("refuse DELETE without filters"@)
}

/// The `DELETE ... RETURNING *` statement (wrapped so that each deleted row comes
/// back as `row_to_json`) and its bound values. A `DELETE` without filters is refused.
pub open spec fn delete_sql(meta: TableMetaView, opts: QueryOptionsView) -> Result<
    (Seq<char>, Seq<Seq<char>>),
    ApiErrorView,
> {
    if opts.filters.len() == 0 {
        Err(delete_without_filters())
    } else {
        let (w, binds) = where_sql(meta.columns, opts.filters, 0);
        match w {
            Err(e) => Err(e),
            Ok(wsql) => Ok(
                (
                    "\n        WITH deleted AS (\n            DELETE FROM \""@ + meta.schema + "\".\""@
                        + meta.name + "\"\n            "@ + wsql
                        + "\n            RETURNING *\n        )\n        SELECT row_to_json(deleted) AS data\n        FROM deleted\n        "@,
                    binds,
                ),
            ),
        }
    }
}

/// Builds the filtered `DELETE` for a table: the SQL text and its bound values.
pub fn build_delete_sql(meta: &TableMeta, opts: &QueryOptions) -> (r: ApiResult<(String, Vec<String>)>)
    ensures
        sql_view(r) == delete_sql(meta@, opts@),
{
    if opts.filters.len() == 0 {
        return Err(ApiError::BadRequest(String::from_str("refuse DELETE without filters")));
    }
    let mut binds: Vec<String> = Vec::new();
    let where_part = build_where_sql(meta, opts, &mut binds)?;
    assert(strings_view(binds@) =~= where_sql(meta@.columns, opts@.filters, 0).1);
    let mut sql = String::from_str("\n        WITH deleted AS (\n            DELETE FROM \"");
    sql.append(meta.schema.as_str());
    sql.append("\".\"");
    sql.append(meta.name.as_str());
    sql.append("\"\n            ");
    sql.append(where_part.as_str());
    sql.append("\n            RETURNING *\n        )\n        SELECT row_to_json(deleted) AS data\n        FROM deleted\n        ");
    Ok((sql, binds))
}

} // verus!
