//! The dynamic `SELECT` statement.

use vstd::prelude::*;
use vstd::string::*;

use crate::general::errors::{concat3, result_view, ApiError, ApiErrorView, ApiResult};
use crate::text::{
    append_decimal, append_int, chars_of, decimal, int_decimal, join, join_strings, push_char,
    replace_all, replace_chars, string_of,
};
use super::query::{
    build_where_sql, col_type, column_type, invalid_identifier, is_identifier, quoted,
    unknown_column, validate_ident, where_sql,
};
use super::types::{
    strings_view, ColumnMeta, ColumnMetaView, QueryOptions, QueryOptionsView, TableMeta,
    TableMetaView,
};

verus! {

/// The quoted projected columns in order, or the error of the first one that is not
/// a valid identifier of the table.
pub open spec fn select_list(cols: Seq<ColumnMetaView>, sel: Seq<Seq<char>>) -> Result<
    Seq<Seq<char>>,
    ApiErrorView,
>
    decreases sel.len(),
{
    if sel.len() == 0 {
        Ok(Seq::empty())
    } else {
        match select_list(cols, sel.drop_last()) {
            Err(e) => Err(e),
            Ok(acc) => {
                let c = sel.last();
                if !is_identifier(c) {
                    Err(invalid_identifier(c))
                } else if col_type(cols, c) is None {
                    Err(unknown_column(c))
                } else {
                    Ok(acc.push(quoted(c)))
                }
            },
        }
    }
}

/// The projection: `*` when no column is selected.
pub open spec fn select_clause(cols: Seq<ColumnMetaView>, sel: Option<Seq<Seq<char>>>) -> Result<
    Seq<char>,
    ApiErrorView,
> {
    match sel {
        None => Ok("*"@),
        Some(s) => {
            if s.len() == 0 {
                Ok("*"@)
            } else {
                match select_list(cols, s) {
                    Ok(q) => Ok(join(q, ", "@)),
                    Err(e) => Err(e),
                }
            }
        },
    }
}

/// The `ORDER BY` fragment (empty when there is no ordering).
pub open spec fn order_clause(cols: Seq<ColumnMetaView>, ob: Option<(Seq<char>, bool)>) -> Result<
    Seq<char>,
    ApiErrorView,
> {
    match ob {
        None => Ok(Seq::empty()),
        Some((c, desc)) => {
            if !is_identifier(c) {
                Err(invalid_identifier(c))
            } else if col_type(cols, c) is None {
                Err(unknown_column(c))
            } else {
                Ok(" ORDER BY "@ + quoted(c) + " "@ + (if desc { "DESC"@ } else { "ASC"@ }))
            }
        },
    }
}

/// `$n`: a numbered placeholder without a cast.
pub open spec fn bare_placeholder(n: nat) -> Seq<char> {
    seq!['$'] + decimal(n)
}

/// The statement before the `LIMIT` / `OFFSET` markers get their numbers.
pub open spec fn select_template(
    meta: TableMetaView,
    select: Seq<char>,
    where_part: Seq<char>,
    order: Seq<char>,
    has_limit: bool,
    has_offset: bool,
) -> Seq<char> {
    "\n        SELECT row_to_json(t) AS data\n        FROM (\n            SELECT "@ + select
        + "\n            FROM \""@ + meta.schema + "\".\""@ + meta.name + "\"\n            "@
        + where_part + order + (if has_limit { " LIMIT $LIM"@ } else { Seq::empty() })
        + (if has_offset { " OFFSET $OFF"@ } else { Seq::empty() }) + "\n        ) t\n        "@
}

/// The `SELECT` statement of a query and its bound values, in placeholder order: the
/// filter values, then `LIMIT`, then `OFFSET`.
pub open spec fn select_sql(meta: TableMetaView, opts: QueryOptionsView) -> Result<
    (Seq<char>, Seq<Seq<char>>),
    ApiErrorView,
> {
    match select_clause(meta.columns, opts.select) {
        Err(e) => Err(e),
        Ok(sel) => {
            let (w, binds) = where_sql(meta.columns, opts.filters, 0);
            match w {
                Err(e) => Err(e),
                Ok(wsql) => match order_clause(meta.columns, opts.order_by) {
                    Err(e) => Err(e),
                    Ok(osql) => {
                        let sql0 = select_template(meta, sel, wsql, osql, opts.limit is Some, opts.offset is Some);
                        let n_lim: nat = if opts.limit is Some { 1 } else { 0 };
                        let sql1 = if opts.limit is Some {
                            replace_all(sql0, "$LIM"@, bare_placeholder(binds.len() + 1))
                        } else {
                            sql0
                        };
                        let sql2 = if opts.offset is Some {
                            replace_all(sql1, "$OFF"@, bare_placeholder(binds.len() + n_lim + 1))
                        } else {
                            sql1
                        };
                        let b1 = match opts.limit {
                            Some(l) => binds.push(int_decimal(l as int)),
                            None => binds,
                        };
                        let b2 = match opts.offset {
                            Some(o) => b1.push(int_decimal(o as int)),
                            None => b1,
                        };
                        Ok((sql2, b2))
                    },
                },
            }
        },
    }
}

/// The view of a statement and its binds.
pub open spec fn sql_view(r: ApiResult<(String, Vec<String>)>) -> Result<(Seq<char>, Seq<Seq<char>>), ApiErrorView> {
    match r {
        Ok((s, b)) => Ok((s@, strings_view(b@))),
        Err(e) => Err(e@),
    }
}

/// Checks that `c` is a valid identifier and a column of the table, and quotes it.
pub fn checked_column(cols: &Vec<ColumnMeta>, c: &String) -> (r: ApiResult<String>)
    ensures
        ({
            let cv = cols@.map_values(|x: ColumnMeta| x@);
            &&& !is_identifier(c@) ==> result_view(r) == Err::<Seq<char>, ApiErrorView>(invalid_identifier(c@))
            &&& is_identifier(c@) && col_type(cv, c@) is None ==> result_view(r) == Err::<Seq<char>, ApiErrorView>(unknown_column(c@))
            &&& is_identifier(c@) && col_type(cv, c@) is Some ==> result_view(r) == Ok::<Seq<char>, ApiErrorView>(quoted(c@))
        }),
{
    if validate_ident(c.as_str()).is_err() {
        return Err(ApiError::BadRequest(concat3("invalid identifier '", c.as_str(), "'")));
    }
    if column_type(cols, c.as_str()).is_none() {
        return Err(ApiError::BadRequest(concat3("unknown column '", c.as_str(), "'")));
    }
    let mut q = String::new();
    push_char(&mut q, '"');
    q.append(c.as_str());
    push_char(&mut q, '"');
    assert(q@ =~= quoted(c@));
    Ok(q)
}

fn select_clause_of(cols: &Vec<ColumnMeta>, sel: &Option<Vec<String>>) -> (r: ApiResult<String>)
    ensures
        result_view(r) == select_clause(
            cols@.map_values(|x: ColumnMeta| x@),
            match sel {
                Some(v) => Some(strings_view(v@)),
                None => None,
            },
        ),
{
    let ghost cv = cols@.map_values(|x: ColumnMeta| x@);
    match sel {
        None => Ok(String::from_str("*")),
        Some(v) => {
            if v.len() == 0 {
                return Ok(String::from_str("*"));
            }
            let ghost sv = strings_view(v@);
            let mut acc: Vec<String> = Vec::new();
            let mut i: usize = 0;
            assert(sv.take(0) =~= Seq::<Seq<char>>::empty());
            assert(strings_view(acc@) =~= Seq::<Seq<char>>::empty());
            while i < v.len()
                invariant
                    i <= v.len(),
                    sv == strings_view(v@),
                    sv.len() > 0,
                    *sel == Some(*v),
                    cv == cols@.map_values(|x: ColumnMeta| x@),
                    select_list(cv, sv.take(i as int)) == Ok::<Seq<Seq<char>>, ApiErrorView>(strings_view(acc@)),
                decreases v.len() - i,
            {
                assert(sv.take(i + 1).drop_last() =~= sv.take(i as int));
                assert(sv.take(i + 1).last() == v@[i as int]@);
                let ghost before = strings_view(acc@);
                match checked_column(cols, &v[i]) {
                    Ok(q) => {
                        acc.push(q);
                        assert(strings_view(acc@) =~= before.push(quoted(v@[i as int]@)));
                    },
                    Err(e) => {
                        proof {
                            lemma_select_list_err_extends(cv, sv, (i + 1) as int);
                        }

                        return Err(e);
                    },
                }
                i = i + 1;
            }
            assert(sv.take(v.len() as int) =~= sv);
            Ok(join_strings(&acc, ", "))
        },
    }
}

proof fn lemma_select_list_err_extends(cols: Seq<ColumnMetaView>, sel: Seq<Seq<char>>, j: int)
    requires
        0 <= j <= sel.len(),
        select_list(cols, sel.take(j)) is Err,
    ensures
        select_list(cols, sel) == select_list(cols, sel.take(j)),
    decreases sel.len() - j,
{
    if j == sel.len() {
        assert(sel.take(j) =~= sel);
    } else {
        assert(sel.take(j + 1).drop_last() =~= sel.take(j));
        lemma_select_list_err_extends(cols, sel, j + 1);
    }
}

fn order_clause_of(cols: &Vec<ColumnMeta>, ob: &Option<(String, bool)>) -> (r: ApiResult<String>)
    ensures
        result_view(r) == order_clause(
            cols@.map_values(|x: ColumnMeta| x@),
            match ob {
                Some((c, d)) => Some((c@, *d)),
                None => None,
            },
        ),
{
    match ob {
        None => Ok(String::new()),
        Some((c, desc)) => {
            let q = checked_column(cols, c)?;
            let mut out = String::from_str(" ORDER BY ");
            out.append(q.as_str());
            out.append(" ");
            out.append(if *desc { "DESC" } else { "ASC" });
            Ok(out)
        },
    }
}

/// Replaces every `pat` in `s` by `$n`.
fn number_marker(s: String, pat: &str, n: u128) -> (r: String)
    requires
        pat@.len() > 0,
    ensures
        r@ == replace_all(s@, pat@, bare_placeholder(n as nat)),
{
    let mut rep = String::new();
    push_char(&mut rep, '$');
    append_decimal(&mut rep, n);
    assert(rep@ =~= bare_placeholder(n as nat));
    let sc = chars_of(s.as_str());
    let pc = chars_of(pat);
    let rc = chars_of(rep.as_str());
    let out = replace_chars(&sc, &pc, &rc);
    string_of(&out)
}

/// The string form of an integer bind value.
fn int_string(i: i64) -> (r: String)
    ensures
        r@ == int_decimal(i as int),
{
    let mut s = String::new();
    append_int(&mut s, i);
    s
}

/// Builds the dynamic `SELECT` for a table and query options: the SQL text with
/// numbered placeholders and the bound values as strings, in placeholder order.
pub fn build_select_sql(meta: &TableMeta, opts: &QueryOptions) -> (r: ApiResult<(String, Vec<String>)>)
    ensures
        sql_view(r) == select_sql(meta@, opts@),
{
    let select_cols = select_clause_of(&meta.columns, &opts.select)?;
    let mut binds: Vec<String> = Vec::new();
    let where_part = build_where_sql(meta, opts, &mut binds)?;
    assert(strings_view(binds@) =~= where_sql(meta@.columns, opts@.filters, 0).1);
    let order = order_clause_of(&meta.columns, &opts.order_by)?;
    let mut sql = String::from_str("\n        SELECT row_to_json(t) AS data\n        FROM (\n            SELECT ");
    sql.append(select_cols.as_str());
    sql.append("\n            FROM \"");
    sql.append(meta.schema.as_str());
    sql.append("\".\"");
    sql.append(meta.name.as_str());
    sql.append("\"\n            ");
    sql.append(where_part.as_str());
    sql.append(order.as_str());
    if opts.limit.is_some() {
        sql.append(" LIMIT $LIM");
    }
    if opts.offset.is_some() {
        sql.append(" OFFSET $OFF");
    }
    sql.append("\n        ) t\n        ");
    assert(sql@ =~= select_template(meta@, select_cols@, where_part@, order@, opts.limit is Some, opts.offset is Some));
    let n_where = binds.len() as u128;
    let mut n_extra: u128 = 0;
    if let Some(l) = opts.limit {
        proof {
            reveal_strlit("$LIM");
        }
        sql = number_marker(sql, "$LIM", n_where + 1);
        binds.push(int_string(l));
        n_extra = 1;
    }
    if let Some(o) = opts.offset {
        proof {
            reveal_strlit("$OFF");
        }
        sql = number_marker(sql, "$OFF", n_where + n_extra + 1);
        binds.push(int_string(o));
    }
    proof {
        let wb = where_sql(meta@.columns, opts@.filters, 0).1;
        let b1 = match opts@.limit {
            Some(l) => wb.push(int_decimal(l as int)),
            None => wb,
        };
        let b2 = match opts@.offset {
            Some(o) => b1.push(int_decimal(o as int)),
            None => b1,
        };
        assert(strings_view(binds@) =~= b2);
    }
    Ok((sql, binds))
}

} // verus!
