//! The filtered `UPDATE` statement.

use vstd::prelude::*;
use vstd::string::*;

use crate::auth::types::CurrentUser;
use crate::general::errors::{concat3, result_view, ApiError, ApiErrorView, ApiResult};
use crate::text::{join, join_strings, str_eq};
use super::query::{
    build_where_sql, col_type, column_type, invalid_identifier, is_identifier, pg_cast,
    pg_cast_of, placeholder, quoted, unknown_column, validate_ident, where_sql,
};
use super::select::sql_view;
use super::types::{
    bind_text, object_view, strings_view, ColumnMeta, ColumnMetaView, JsonBody, JsonBodyView,
    JsonValue, JsonValueView, QueryOptions, QueryOptionsView, TableMeta, TableMetaView,
};

verus! {

/// Whether the table is user-owned: it has a `user_id` column.
pub open spec fn has_user_id(cols: Seq<ColumnMetaView>) -> bool {
    col_type(cols, "user_id"@) is Some
}

/// The error for an attempt to update a primary key column.
pub open spec fn primary_key_update(k: Seq<char>) -> ApiErrorView {
    ApiErrorView::BadRequest("cannot update primary key column '"@ + k + "'"@)
}

/// The error for an attempt to update `user_id` of a user-owned table.
pub open spec fn user_id_update() -> ApiErrorView {
    ApiErrorView::BadRequest("cannot update user_id; it is bound to the authenticated user"@)
}

/// The `SET` assignment of one field and the values it binds, when `k` values are
/// bound before it.
pub open spec fn set_part(
    meta: TableMetaView,
    name: Seq<char>,
    v: JsonValueView,
    authenticated: bool,
    k: nat,
) -> Result<(Seq<char>, Seq<Seq<char>>), ApiErrorView> {
    if !is_identifier(name) {
        Err(invalid_identifier(name))
    } else {
        match col_type(meta.columns, name) {
            None => Err(unknown_column(name)),
            Some(dt) => {
                if meta.primary_key.contains(name) {
                    Err(primary_key_update(name))
                } else if has_user_id(meta.columns) && authenticated && name == "user_id"@ {
                    Err(user_id_update())
                } else if v is Null {
                    Ok((quoted(name) + " = NULL"@, Seq::empty()))
                } else {
                    Ok((quoted(name) + " = "@ + placeholder(k + 1, pg_cast(dt)), seq![bind_text(v)]))
                }
            },
        }
    }
}

/// The assignments of the fields in order (or the first error) and their values.
pub open spec fn set_parts(
    meta: TableMetaView,
    fields: Seq<(Seq<char>, JsonValueView)>,
    authenticated: bool,
) -> Result<(Seq<Seq<char>>, Seq<Seq<char>>), ApiErrorView>
    decreases fields.len(),
{
    if fields.len() == 0 {
        Ok((Seq::empty(), Seq::empty()))
    } else {
        match set_parts(meta, fields.drop_last(), authenticated) {
            Err(e) => Err(e),
            Ok((parts, binds)) => match set_part(meta, fields.last().0, fields.last().1, authenticated, binds.len()) {
                Err(e) => Err(e),
                Ok((p, b)) => Ok((parts.push(p), binds + b)),
            },
        }
    }
}

/// The error for a body that is not an object.
pub open spec fn update_body_not_object() -> ApiErrorView {
    ApiErrorView::BadRequest("request body must be a JSON object"@)
}

/// The error for an empty update.
pub open spec fn no_fields_to_update() -> ApiErrorView {
    ApiErrorView::BadRequest("no fields to update"@)
}

/// The error for an `UPDATE` without filters.
pub open spec fn update_without_filters() -> ApiErrorView {
    ApiErrorView::BadRequest("refuse UPDATE without filters"@)
}

/// The `UPDATE ... RETURNING *` statement and its bound values: the `SET` values
/// first, then the filter values. The body must be a non-empty object, at least one
/// filter is required, primary key columns cannot be set, and on a user-owned table
/// an authenticated user cannot set `user_id`.
pub open spec fn update_sql(
    meta: TableMetaView,
    body: JsonBodyView,
    opts: QueryOptionsView,
    authenticated: bool,
) -> Result<(Seq<char>, Seq<Seq<char>>), ApiErrorView> {
    match body {
        JsonBodyView::Object(fields) => {
            if fields.len() == 0 {
                Err(no_fields_to_update())
            } else if opts.filters.len() == 0 {
                Err(update_without_filters())
            } else {
                match set_parts(meta, fields, authenticated) {
                    Err(e) => Err(e),
                    Ok((parts, set_binds)) => {
                        let (w, binds) = where_sql(meta.columns, opts.filters, set_binds.len());
                        match w {
                            Err(e) => Err(e),
                            Ok(wsql) => Ok(
                                (
                                    "\n        WITH updated AS (\n            UPDATE \""@ + meta.schema + "\".\""@
                                        + meta.name + "\"\n            SET "@ + join(parts, ", "@) + "\n            "@
                                        + wsql
                                        + "\n            RETURNING *\n        )\n        SELECT row_to_json(updated) AS data FROM updated\n        "@,
                                    set_binds + binds,
                                ),
                            ),
                        }
                    },
                }
            }
        },
        _ => Err(update_body_not_object()),
    }
}

fn contains_string(v: &Vec<String>, s: &str) -> (r: bool)
    ensures
        r == strings_view(v@).contains(s@),
{
    let mut i: usize = 0;
    while i < v.len()
        invariant
            i <= v.len(),
            forall|j: int| 0 <= j < i ==> v@[j]@ != s@,
        decreases v.len() - i,
    {
        if str_eq(v[i].as_str(), s) {
            assert(strings_view(v@)[i as int] == s@);
            return true;
        }
        i = i + 1;
    }
    assert(!strings_view(v@).contains(s@)) by {
        if strings_view(v@).contains(s@) {
            let j = choose|j: int| 0 <= j < strings_view(v@).len() && strings_view(v@)[j] == s@;
            assert(v@[j]@ == s@);
        }
    }
    false
}

/// The assignment of one field; its value, if any, is pushed onto `binds`.
fn set_piece(
    meta: &TableMeta,
    name: &String,
    v: &JsonValue,
    authenticated: bool,
    binds: &mut Vec<String>,
) -> (r: ApiResult<String>)
    ensures
        match set_part(meta@, name@, v@, authenticated, old(binds)@.len()) {
            Ok((p, b)) => result_view(r) == Ok::<Seq<char>, ApiErrorView>(p) && strings_view(final(binds)@) == strings_view(old(binds)@) + b,
            Err(e) => result_view(r) == Err::<Seq<char>, ApiErrorView>(e),
        },
{
    let ghost old_binds = strings_view(binds@);
    if validate_ident(name.as_str()).is_err() {
        return Err(ApiError::BadRequest(concat3("invalid identifier '", name.as_str(), "'")));
    }
    let dt = match column_type(&meta.columns, name.as_str()) {
        Some(t) => t,
        None => {
            return Err(ApiError::BadRequest(concat3("unknown column '", name.as_str(), "'")));
        },
    };
    if contains_string(&meta.primary_key, name.as_str()) {
        return Err(ApiError::BadRequest(concat3("cannot update primary key column '", name.as_str(), "'")));
    }
    let owned = column_type(&meta.columns, "user_id").is_some();
    if owned && authenticated && str_eq(name.as_str(), "user_id") {
        return Err(ApiError::BadRequest(String::from_str("cannot update user_id; it is bound to the authenticated user")));
    }
    let cast = pg_cast_of(dt.as_str());
    let mut piece = String::new();
    crate::text::push_char(&mut piece, '"');
    piece.append(name.as_str());
    crate::text::push_char(&mut piece, '"');
    match v {
        JsonValue::Null => {
            piece.append(" = NULL");
            assert(piece@ =~= quoted(name@) + " = NULL"@);
            assert(strings_view(binds@) =~= old_binds + Seq::<Seq<char>>::empty());
            Ok(piece)
        },
        JsonValue::Str(s) | JsonValue::Json(s) => {
            binds.push(s.clone());
            assert(strings_view(binds@) =~= old_binds + seq![bind_text(v@)]);
            piece.append(" = ");
            crate::text::push_char(&mut piece, '$');
            crate::text::append_decimal(&mut piece, binds.len() as u128);
            piece.append("::");
            piece.append(cast);
            assert(piece@ =~= quoted(name@) + " = "@ + placeholder(binds@.len() as nat, pg_cast(dt@)));
            Ok(piece)
        },
    }
}

proof fn lemma_set_parts_err_extends(
    meta: TableMetaView,
    fields: Seq<(Seq<char>, JsonValueView)>,
    authenticated: bool,
    j: int,
)
    requires
        0 <= j <= fields.len(),
        set_parts(meta, fields.take(j), authenticated) is Err,
    ensures
        set_parts(meta, fields, authenticated) == set_parts(meta, fields.take(j), authenticated),
    decreases fields.len() - j,
{
    if j == fields.len() {
        assert(fields.take(j) =~= fields);
    } else {
        assert(fields.take(j + 1).drop_last() =~= fields.take(j));
        lemma_set_parts_err_extends(meta, fields, authenticated, j + 1);
    }
}

/// Builds the filtered `UPDATE` for a table from a partial-update body: the SQL text
/// and its bound values. `user` is the authenticated user, if any.
pub fn build_update_sql(
    meta: &TableMeta,
    body: &JsonBody,
    opts: &QueryOptions,
    user: &Option<CurrentUser>,
) -> (r: ApiResult<(String, Vec<String>)>)
    ensures
        sql_view(r) == update_sql(meta@, body@, opts@, user is Some),
{
    let fields = match body {
        JsonBody::Object(o) => o,
        _ => {
            return Err(ApiError::BadRequest(String::from_str("request body must be a JSON object")));
        },
    };
    if fields.len() == 0 {
        return Err(ApiError::BadRequest(String::from_str("no fields to update")));
    }
    if opts.filters.len() == 0 {
        return Err(ApiError::BadRequest(String::from_str("refuse UPDATE without filters")));
    }
    let authenticated = user.is_some();
    let ghost fv = object_view(fields@);
    let mut parts: Vec<String> = Vec::new();
    let mut binds: Vec<String> = Vec::new();
    let mut i: usize = 0;
    assert(fv.take(0) =~= Seq::<(Seq<char>, JsonValueView)>::empty());
    assert(strings_view(parts@) =~= Seq::<Seq<char>>::empty());
    assert(strings_view(binds@) =~= Seq::<Seq<char>>::empty());
    while i < fields.len()
        invariant
            i <= fields.len(),
            fv == object_view(fields@),
            body@ == JsonBodyView::Object(fv),
            fv.len() > 0,
            opts@.filters.len() > 0,
            authenticated == (user is Some),
            set_parts(meta@, fv.take(i as int), authenticated) == Ok::<(Seq<Seq<char>>, Seq<Seq<char>>), ApiErrorView>(
                (strings_view(parts@), strings_view(binds@)),
            ),
        decreases fields.len() - i,
    {
        assert(fv.take(i + 1).drop_last() =~= fv.take(i as int));
        assert(fv.take(i + 1).last() == (fields@[i as int].0@, fields@[i as int].1@));
        let ghost before = strings_view(parts@);
        let (name, value) = &fields[i];
        match set_piece(meta, name, value, authenticated, &mut binds) {
            Ok(p) => {
                parts.push(p);
                assert(strings_view(parts@) =~= before.push(p@));
            },
            Err(e) => {
                proof {
                    lemma_set_parts_err_extends(meta@, fv, authenticated, (i + 1) as int);
                }
                assert(fv.take(fields.len() as int) =~= fv);
                return Err(e);
            },
        }
        i = i + 1;
    }
    assert(fv.take(fields.len() as int) =~= fv);
    let ghost set_binds = strings_view(binds@);
    let where_part = build_where_sql(meta, opts, &mut binds)?;
    let mut sql = String::from_str("\n        WITH updated AS (\n            UPDATE \"");
    sql.append(meta.schema.as_str());
    sql.append("\".\"");
    sql.append(meta.name.as_str());
    sql.append("\"\n            SET ");
    let set_clause = join_strings(&parts, ", ");
    sql.append(set_clause.as_str());
    sql.append("\n            ");
    sql.append(where_part.as_str());
    sql.append("\n            RETURNING *\n        )\n        SELECT row_to_json(updated) AS data FROM updated\n        ");
    Ok((sql, binds))
}

} // verus!
