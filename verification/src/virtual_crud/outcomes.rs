//! What the operations answer, value by value: the limit and offset a query keeps,
//! the cast target of each column type, the API error of each database failure,
//! and the order in which a request is refused.

use vstd::prelude::*;
use vstd::string::*;

use crate::general::errors::ApiErrorView;
use crate::text::parse_i64;
use super::db_errors::{db_error, CrudOp};
use crate::text::{eq_ignore_ascii_case, first_index, split, split_once, trim};
use crate::text::decimal;
use super::query::{order_of, cast_for, col_type, filter_sql, filter_of, is_identifier, is_text_type, op_of, operator_sql, parse_query, pg_cast, texty};
use super::types::ColumnMetaView;
use super::types::{FilterOp, FilterView};
use super::routes::admission;
use super::types::{lookup, OxydTableConfigView};

verus! {

/// A `limit` that parses is kept when it lies in `1..=1000`, and is raised to 1 or
/// lowered to 1000 otherwise; an `offset` that parses is kept when it is not
/// negative, and becomes 0 otherwise; one that is absent or does not parse is
/// left unset.
pub proof fn lemma_limit_offset_kept(q: Seq<(Seq<char>, Seq<char>)>)
    ensures
        parse_query(q) matches Ok(o) ==> {
            &&& (lookup(q, "limit"@) is None ==> o.limit is None)
            &&& (lookup(q, "limit"@) matches Some(l) ==> {
                &&& (parse_i64(l) is None ==> o.limit is None)
                &&& (parse_i64(l) matches Some(v) ==> {
                    &&& (1 <= v <= 1000 ==> o.limit == Some(v as i64))
                    &&& (v < 1 ==> o.limit == Some(1i64))
                    &&& (v > 1000 ==> o.limit == Some(1000i64))
                })
            })
            &&& (lookup(q, "offset"@) is None ==> o.offset is None)
            &&& (lookup(q, "offset"@) matches Some(x) ==> {
                &&& (parse_i64(x) is None ==> o.offset is None)
                &&& (parse_i64(x) matches Some(v) ==> {
                    &&& (v >= 0 ==> o.offset == Some(v as i64))
                    &&& (v < 0 ==> o.offset == Some(0i64))
                })
            })
        },
{
}

proof fn lemma_type_names()
    ensures
        "smallint"@.len() == 8 && "smallint"@[0] == 's' && "smallint"@[1] == 'm',
        "integer"@.len() == 7 && "integer"@[0] == 'i' && "integer"@[1] == 'n',
        "bigint"@.len() == 6 && "bigint"@[0] == 'b' && "bigint"@[1] == 'i',
        "real"@.len() == 4 && "real"@[0] == 'r' && "real"@[1] == 'e',
        "double precision"@.len() == 16 && "double precision"@[0] == 'd' && "double precision"@[1] == 'o',
        "numeric"@.len() == 7 && "numeric"@[0] == 'n' && "numeric"@[1] == 'u',
        "decimal"@.len() == 7 && "decimal"@[0] == 'd' && "decimal"@[1] == 'e',
        "boolean"@.len() == 7 && "boolean"@[0] == 'b' && "boolean"@[1] == 'o',
        "character varying"@.len() == 17 && "character varying"@[0] == 'c' && "character varying"@[1] == 'h',
        "character"@.len() == 9 && "character"@[0] == 'c' && "character"@[1] == 'h',
        "text"@.len() == 4 && "text"@[0] == 't' && "text"@[1] == 'e',
        "citext"@.len() == 6 && "citext"@[0] == 'c' && "citext"@[1] == 'i',
        "uuid"@.len() == 4 && "uuid"@[0] == 'u' && "uuid"@[1] == 'u',
        "timestamp with time zone"@.len() == 24 && "timestamp with time zone"@[0] == 't' && "timestamp with time zone"@[1] == 'i',
        "timestamp without time zone"@.len() == 27 && "timestamp without time zone"@[0] == 't' && "timestamp without time zone"@[1] == 'i',
        "date"@.len() == 4 && "date"@[0] == 'd' && "date"@[1] == 'a',
        "time without time zone"@.len() == 22 && "time without time zone"@[0] == 't' && "time without time zone"@[1] == 'i',
        "jsonb"@.len() == 5 && "jsonb"@[0] == 'j' && "jsonb"@[1] == 's',
        "json"@.len() == 4 && "json"@[0] == 'j' && "json"@[1] == 's',
{
    reveal_strlit("smallint");
    reveal_strlit("integer");
    reveal_strlit("bigint");
    reveal_strlit("real");
    reveal_strlit("double precision");
    reveal_strlit("numeric");
    reveal_strlit("decimal");
    reveal_strlit("boolean");
    reveal_strlit("character varying");
    reveal_strlit("character");
    reveal_strlit("text");
    reveal_strlit("citext");
    reveal_strlit("uuid");
    reveal_strlit("timestamp with time zone");
    reveal_strlit("timestamp without time zone");
    reveal_strlit("date");
    reveal_strlit("time without time zone");
    reveal_strlit("jsonb");
    reveal_strlit("json");
}

/// The cast target of each `information_schema` data type (lowercased): the
/// integer types cast to `int2`, `int4`, `int8`; the floating types to `float4`,
/// `float8`; `numeric` and `decimal` to `numeric`; `boolean` to `bool`; the
/// character types to `text`; `uuid`, the timestamp, date and time types and the
/// JSON types to their own names; any other type to `text`.
pub proof fn lemma_cast_targets(dt: Seq<char>)
    ensures
        dt == "smallint"@ ==> cast_for(dt) == "int2"@,
        dt == "integer"@ ==> cast_for(dt) == "int4"@,
        dt == "bigint"@ ==> cast_for(dt) == "int8"@,
        dt == "real"@ ==> cast_for(dt) == "float4"@,
        dt == "double precision"@ ==> cast_for(dt) == "float8"@,
        dt == "numeric"@ ==> cast_for(dt) == "numeric"@,
        dt == "decimal"@ ==> cast_for(dt) == "numeric"@,
        dt == "boolean"@ ==> cast_for(dt) == "bool"@,
        dt == "character varying"@ ==> cast_for(dt) == "text"@,
        dt == "character"@ ==> cast_for(dt) == "text"@,
        dt == "text"@ ==> cast_for(dt) == "text"@,
        dt == "citext"@ ==> cast_for(dt) == "text"@,
        dt == "uuid"@ ==> cast_for(dt) == "uuid"@,
        dt == "timestamp with time zone"@ ==> cast_for(dt) == "timestamptz"@,
        dt == "timestamp without time zone"@ ==> cast_for(dt) == "timestamp"@,
        dt == "date"@ ==> cast_for(dt) == "date"@,
        dt == "time without time zone"@ ==> cast_for(dt) == "time"@,
        dt == "jsonb"@ ==> cast_for(dt) == "jsonb"@,
        dt == "json"@ ==> cast_for(dt) == "json"@,
        dt != "smallint"@ && dt != "integer"@ && dt != "bigint"@ && dt != "real"@ && dt != "double precision"@ && dt != "numeric"@ && dt != "decimal"@ && dt != "boolean"@ && dt != "character varying"@ && dt != "character"@ && dt != "text"@ && dt != "citext"@ && dt != "uuid"@ && dt != "timestamp with time zone"@ && dt != "timestamp without time zone"@ && dt != "date"@ && dt != "time without time zone"@ && dt != "jsonb"@ && dt != "json"@ ==> cast_for(dt) == "text"@,
{
    lemma_type_names();
}

proof fn lemma_codes()
    ensures
        "22P02"@.len() == 5,
        "22P02"@ == seq!['2', '2', 'P', '0', '2'],
        "22007"@.len() == 5,
        "22007"@ == seq!['2', '2', '0', '0', '7'],
        "42804"@.len() == 5,
        "42804"@ == seq!['4', '2', '8', '0', '4'],
        "42846"@.len() == 5,
        "42846"@ == seq!['4', '2', '8', '4', '6'],
        "42883"@.len() == 5,
        "42883"@ == seq!['4', '2', '8', '8', '3'],
        "23505"@.len() == 5,
        "23505"@ == seq!['2', '3', '5', '0', '5'],
        "23502"@.len() == 5,
        "23502"@ == seq!['2', '3', '5', '0', '2'],
        "23503"@.len() == 5,
        "23503"@ == seq!['2', '3', '5', '0', '3'],
        "23514"@.len() == 5,
        "23514"@ == seq!['2', '3', '5', '1', '4'],
        "42703"@.len() == 5,
        "42703"@ == seq!['4', '2', '7', '0', '3'],
        "42P01"@.len() == 5,
        "42P01"@ == seq!['4', '2', 'P', '0', '1'],
{
    reveal_strlit("22P02");
    reveal_strlit("22007");
    reveal_strlit("42804");
    reveal_strlit("42846");
    reveal_strlit("42883");
    reveal_strlit("23505");
    reveal_strlit("23502");
    reveal_strlit("23503");
    reveal_strlit("23514");
    reveal_strlit("42703");
    reveal_strlit("42P01");
}

/// The API error of each failure of a CRUD statement on `"s"."t"` with message `m`:
/// a bad cast or datatype (22P02, 22007, 42804, 42846) is a bad request with the
/// database message, and so is an unknown operator (42883) except on an insert; a
/// unique, not-null, foreign-key or check violation (23505, 23502, 23503, 23514) is a
/// bad request with the message on an insert or an update, and a generic server
/// error on a select or a delete; an unknown column (42703) is a bad request naming
/// it except on an insert; a missing table (42P01) is not found; any other code is a
/// generic server error, and a failure that is not a database error an internal one.
pub proof fn lemma_db_error_outcomes(op: CrudOp, code: Seq<char>, m: Seq<char>, s: Seq<char>, t: Seq<char>)
    ensures
        db_error(op, None, m, s, t) == ApiErrorView::Internal("internal error"@),
        (code == "22P02"@ || code == "22007"@ || code == "42804"@ || code == "42846"@) ==> db_error(
            op,
            Some(Some(code)),
            m,
            s,
            t,
        ) == ApiErrorView::BadRequest(m),
        code == "42883"@ ==> db_error(op, Some(Some(code)), m, s, t) == if op == CrudOp::Insert {
            ApiErrorView::Internal("database error"@)
        } else {
            ApiErrorView::BadRequest(m)
        },
        (code == "23505"@ || code == "23502"@ || code == "23503"@ || code == "23514"@) ==> db_error(
            op,
            Some(Some(code)),
            m,
            s,
            t,
        ) == if op == CrudOp::Insert || op == CrudOp::Update {
            ApiErrorView::BadRequest(m)
        } else {
            ApiErrorView::Internal("database error"@)
        },
        code == "42703"@ ==> db_error(op, Some(Some(code)), m, s, t) == if op == CrudOp::Insert {
            ApiErrorView::Internal("database error"@)
        } else {
            ApiErrorView::BadRequest("unknown column/expression: "@ + m)
        },
        code == "42P01"@ ==> db_error(op, Some(Some(code)), m, s, t) == ApiErrorView::NotFound(
            "table \""@ + s + "\".\""@ + t + "\" not found"@,
        ),
        (code != "22P02"@ && code != "22007"@ && code != "42804"@ && code != "42846"@ && code != "42883"@
            && code != "23505"@ && code != "23502"@ && code != "23503"@ && code != "23514"@ && code != "42703"@
            && code != "42P01"@) ==> db_error(op, Some(Some(code)), m, s, t) == ApiErrorView::Internal(
            "database error"@,
        ),
        db_error(op, Some(None), m, s, t) == ApiErrorView::Internal("database error"@),
{
    lemma_codes();
    assert(Seq::<char>::empty().len() == 0);
}

proof fn lemma_op_names()
    ensures
        "eq"@.len() == 2,
        "eq"@ == seq!['e', 'q'],
        "neq"@.len() == 3,
        "neq"@ == seq!['n', 'e', 'q'],
        "gt"@.len() == 2,
        "gt"@ == seq!['g', 't'],
        "gte"@.len() == 3,
        "gte"@ == seq!['g', 't', 'e'],
        "lt"@.len() == 2,
        "lt"@ == seq!['l', 't'],
        "lte"@.len() == 3,
        "lte"@ == seq!['l', 't', 'e'],
        "like"@.len() == 4,
        "like"@ == seq!['l', 'i', 'k', 'e'],
        "ilike"@.len() == 5,
        "ilike"@ == seq!['i', 'l', 'i', 'k', 'e'],
        "is"@.len() == 2,
        "is"@ == seq!['i', 's'],
{
    reveal_strlit("eq");
    reveal_strlit("neq");
    reveal_strlit("gt");
    reveal_strlit("gte");
    reveal_strlit("lt");
    reveal_strlit("lte");
    reveal_strlit("like");
    reveal_strlit("ilike");
    reveal_strlit("is");
}

proof fn lemma_first_dot_absent(v: Seq<char>)
    requires
        forall|i: int| 0 <= i < v.len() ==> v[i] != '.',
    ensures
        first_index(v, '.') is None,
    decreases v.len(),
{
    if v.len() > 0 {
        lemma_first_dot_absent(v.drop_first());
    }
}

proof fn lemma_first_dot_after(name: Seq<char>, rest: Seq<char>)
    requires
        forall|i: int| 0 <= i < name.len() ==> name[i] != '.',
    ensures
        first_index(name + "."@ + rest, '.') == Some(name.len()),
    decreases name.len(),
{
    reveal_strlit(".");
    let v = name + "."@ + rest;
    if name.len() == 0 {
        assert(v[0] == '.');
    } else {
        assert(v.drop_first() =~= name.drop_first() + "."@ + rest);
        lemma_first_dot_after(name.drop_first(), rest);
        assert(v[0] == name[0]);
    }
}

/// A filter parameter `k=v`: a value without `.` compares `k` for equality with the
/// whole value; `name.rest` with `name` one of `eq`, `neq`, `gt`, `gte`, `lt`,
/// `lte`, `like`, `ilike`, `is` (and no `.` in it) applies that operator to `rest`;
/// any other name is refused as an unsupported operator.
pub proof fn lemma_filter_outcomes(k: Seq<char>, v: Seq<char>, name: Seq<char>, rest: Seq<char>)
    ensures
        (forall|i: int| 0 <= i < v.len() ==> v[i] != '.') ==> filter_of(k, v) == Ok::<FilterView, ApiErrorView>(
            FilterView { column: k, op: FilterOp::Eq, value: Some(v) },
        ),
        (forall|i: int| 0 <= i < name.len() ==> name[i] != '.') && name != "eq"@ && name != "neq"@ && name != "gt"@ && name != "gte"@ && name != "lt"@ && name != "lte"@ && name != "like"@ && name != "ilike"@ && name != "is"@ ==> filter_of(k, name + "."@ + rest) == Err::<FilterView, ApiErrorView>(
            ApiErrorView::BadRequest("unsupported operator '"@ + name + "'"@),
        ),
        (forall|i: int| 0 <= i < name.len() ==> name[i] != '.') && name == "eq"@ ==> filter_of(k, name + "."@ + rest) == Ok::<FilterView, ApiErrorView>(
            FilterView { column: k, op: FilterOp::Eq, value: Some(rest) },
        ),
        (forall|i: int| 0 <= i < name.len() ==> name[i] != '.') && name == "neq"@ ==> filter_of(k, name + "."@ + rest) == Ok::<FilterView, ApiErrorView>(
            FilterView { column: k, op: FilterOp::Neq, value: Some(rest) },
        ),
        (forall|i: int| 0 <= i < name.len() ==> name[i] != '.') && name == "gt"@ ==> filter_of(k, name + "."@ + rest) == Ok::<FilterView, ApiErrorView>(
            FilterView { column: k, op: FilterOp::Gt, value: Some(rest) },
        ),
        (forall|i: int| 0 <= i < name.len() ==> name[i] != '.') && name == "gte"@ ==> filter_of(k, name + "."@ + rest) == Ok::<FilterView, ApiErrorView>(
            FilterView { column: k, op: FilterOp::Gte, value: Some(rest) },
        ),
        (forall|i: int| 0 <= i < name.len() ==> name[i] != '.') && name == "lt"@ ==> filter_of(k, name + "."@ + rest) == Ok::<FilterView, ApiErrorView>(
            FilterView { column: k, op: FilterOp::Lt, value: Some(rest) },
        ),
        (forall|i: int| 0 <= i < name.len() ==> name[i] != '.') && name == "lte"@ ==> filter_of(k, name + "."@ + rest) == Ok::<FilterView, ApiErrorView>(
            FilterView { column: k, op: FilterOp::Lte, value: Some(rest) },
        ),
        (forall|i: int| 0 <= i < name.len() ==> name[i] != '.') && name == "like"@ ==> filter_of(k, name + "."@ + rest) == Ok::<FilterView, ApiErrorView>(
            FilterView { column: k, op: FilterOp::Like, value: Some(rest) },
        ),
        (forall|i: int| 0 <= i < name.len() ==> name[i] != '.') && name == "ilike"@ ==> filter_of(k, name + "."@ + rest) == Ok::<FilterView, ApiErrorView>(
            FilterView { column: k, op: FilterOp::ILike, value: Some(rest) },
        ),
        (forall|i: int| 0 <= i < name.len() ==> name[i] != '.') && name == "is"@ ==> filter_of(k, name + "."@ + rest) == Ok::<FilterView, ApiErrorView>(
            FilterView { column: k, op: FilterOp::Is, value: Some(rest) },
        ),
{
    lemma_op_names();
    reveal_strlit(".");
    if forall|i: int| 0 <= i < v.len() ==> v[i] != '.' {
        lemma_first_dot_absent(v);
    }
    if forall|i: int| 0 <= i < name.len() ==> name[i] != '.' {
        lemma_first_dot_after(name, rest);
        let w = name + "."@ + rest;
        assert(w.take(name.len() as int) =~= name);
        assert(w.skip(name.len() as int + 1) =~= rest);
        assert(split_once(w, '.') == Some((name, rest)));
    }
}

/// The SQL of each comparison operator.
pub proof fn lemma_operator_outcomes()
    ensures
        operator_sql(FilterOp::Eq) == " = "@,
        operator_sql(FilterOp::Neq) == " <> "@,
        operator_sql(FilterOp::Gt) == " > "@,
        operator_sql(FilterOp::Gte) == " >= "@,
        operator_sql(FilterOp::Lt) == " < "@,
        operator_sql(FilterOp::Lte) == " <= "@,
        operator_sql(FilterOp::Like) == " LIKE "@,
        operator_sql(FilterOp::ILike) == " ILIKE "@,
        operator_sql(FilterOp::Is) == " IS "@,
{
}

/// The text-like data types (the only ones `LIKE` and `ILIKE` accept) are exactly
/// `character varying`, `character`, `text` and `citext`.
pub proof fn lemma_text_types(dt: Seq<char>)
    ensures
        is_text_type(dt) <==> (dt == "character varying"@ || dt == "character"@ || dt == "text"@ || dt == "citext"@),
{
}

/// The identifiers that may name a column: a letter or `_`, then letters, digits
/// or `_`, in ASCII.
pub proof fn lemma_identifier_outcomes(s: Seq<char>)
    ensures
        is_identifier(s) <==> {
            &&& s.len() > 0
            &&& ('A' <= s[0] <= 'Z' || 'a' <= s[0] <= 'z' || s[0] == '_')
            &&& forall|i: int|
                1 <= i < s.len() ==> ('A' <= #[trigger] s[i] <= 'Z' || 'a' <= s[i] <= 'z' || '0' <= s[i] <= '9' || s[i]
                    == '_')
        },
{
}

/// The condition of a filter on column `c` when `k` values are bound before it: a
/// column that is not an identifier or not in the table is refused; `is` takes
/// `null` or `not.null` and binds nothing; `like` / `ilike` need a text-like column
/// and compare with a value cast to `text`; the other comparisons need a value,
/// cast to the column's type, bound as placeholder `$(k + 1)`.
pub proof fn lemma_filter_sql_outcomes(cols: Seq<ColumnMetaView>, f: FilterView, k: nat)
    ensures
        ({
            let c = f.column;
            let q = "\""@ + c + "\""@;
            let r = filter_sql(cols, f, k);
            let dt = col_type(cols, c)->Some_0;
            let v = f.value->Some_0;
            &&& !is_identifier(c) ==> r == Err::<(Seq<char>, Seq<Seq<char>>), ApiErrorView>(
                ApiErrorView::BadRequest("invalid identifier '"@ + c + "'"@),
            )
            &&& is_identifier(c) && col_type(cols, c) is None ==> r == Err::<(Seq<char>, Seq<Seq<char>>), ApiErrorView>(
                ApiErrorView::BadRequest("unknown column '"@ + c + "'"@),
            )
            &&& is_identifier(c) && col_type(cols, c) is Some ==> {
                &&& f.op == FilterOp::Is && f.value == Some("null"@) ==> r == Ok::<
                    (Seq<char>, Seq<Seq<char>>),
                    ApiErrorView,
                >((q + " IS NULL"@, Seq::empty()))
                &&& f.op == FilterOp::Is && f.value == Some("not.null"@) ==> r == Ok::<
                    (Seq<char>, Seq<Seq<char>>),
                    ApiErrorView,
                >((q + " IS NOT NULL"@, Seq::empty()))
                &&& f.op == FilterOp::Is && f.value is Some && v != "null"@ && v != "not.null"@ ==> r == Err::<
                    (Seq<char>, Seq<Seq<char>>),
                    ApiErrorView,
                >(ApiErrorView::BadRequest("is."@ + v + " not supported (use 'is.null' or 'is.not.null')"@))
                &&& f.op == FilterOp::Like && !texty(dt) ==> r == Err::<(Seq<char>, Seq<Seq<char>>), ApiErrorView>(
                    ApiErrorView::BadRequest("LIKE"@ + " not supported on non-text column '"@ + c + "' (type: "@ + dt + ")"@),
                )
                &&& f.op == FilterOp::ILike && !texty(dt) ==> r == Err::<(Seq<char>, Seq<Seq<char>>), ApiErrorView>(
                    ApiErrorView::BadRequest("ILIKE"@ + " not supported on non-text column '"@ + c + "' (type: "@ + dt + ")"@),
                )
                &&& (f.op == FilterOp::Like || f.op == FilterOp::ILike) && texty(dt) && f.value is Some ==> r
                    == Ok::<(Seq<char>, Seq<Seq<char>>), ApiErrorView>(
                    (q + operator_sql(f.op) + "$"@ + decimal(k + 1) + "::text"@, seq![v]),
                )
                &&& f.op != FilterOp::Is && f.op != FilterOp::Like && f.op != FilterOp::ILike ==> {
                    &&& f.value is None ==> r == Err::<(Seq<char>, Seq<Seq<char>>), ApiErrorView>(
                        ApiErrorView::BadRequest("missing value for filter on '"@ + c + "'"@),
                    )
                    &&& f.value is Some ==> r == Ok::<(Seq<char>, Seq<Seq<char>>), ApiErrorView>(
                        (q + operator_sql(f.op) + "$"@ + decimal(k + 1) + "::"@ + pg_cast(dt), seq![v]),
                    )
                }
            }
        }),
{
    reveal_strlit("null");
    reveal_strlit("not.null");
    reveal_strlit("\"");
    reveal_strlit("$");
    reveal_strlit("::");
    reveal_strlit("::text");
    reveal_strlit("text");
    assert("::"@ + "text"@ =~= "::text"@);
    assert(seq!['$'] =~= "$"@);
    assert(seq!['"'] =~= "\""@);
    let q = "\""@ + f.column + "\""@;
    assert(super::query::quoted(f.column) =~= q);
    if is_identifier(f.column) && col_type(cols, f.column) is Some && f.value is Some {
        let dt = col_type(cols, f.column)->Some_0;
        let cast = if f.op == FilterOp::Like || f.op == FilterOp::ILike { "text"@ } else { pg_cast(dt) };
        let p = super::query::placeholder(k + 1, cast);
        assert(q + operator_sql(f.op) + p =~= q + operator_sql(f.op) + "$"@ + decimal(k + 1) + "::"@ + cast);
        assert(q + operator_sql(f.op) + "$"@ + decimal(k + 1) + "::"@ + "text"@ =~= q + operator_sql(f.op) + "$"@
            + decimal(k + 1) + "::text"@);
    }
}

proof fn lemma_split_none(s: Seq<char>, sep: char)
    requires
        forall|i: int| 0 <= i < s.len() ==> s[i] != sep,
    ensures
        split(s, sep) == seq![s],
    decreases s.len(),
{
    if s.len() > 0 {
        lemma_split_none(s.drop_last(), sep);
        assert(s.drop_last().push(s.last()) =~= s);
        assert(split(s, sep) =~= seq![s]);
    } else {
        assert(s =~= Seq::<char>::empty());
    }
}

proof fn lemma_split_two(c: Seq<char>, d: Seq<char>, sep: char)
    requires
        forall|i: int| 0 <= i < c.len() ==> c[i] != sep,
        forall|i: int| 0 <= i < d.len() ==> d[i] != sep,
    ensures
        split(c + seq![sep] + d, sep) == seq![c, d],
    decreases d.len(),
{
    let s = c + seq![sep] + d;
    if d.len() == 0 {
        lemma_split_none(c, sep);
        assert(s.drop_last() =~= c);
        assert(s.last() == sep);
        assert(d =~= Seq::<char>::empty());
        assert(split(s, sep) =~= seq![c, d]);
    } else {
        lemma_split_two(c, d.drop_last(), sep);
        assert(s.drop_last() =~= c + seq![sep] + d.drop_last());
        assert(d.drop_last().push(d.last()) =~= d);
        assert(s.last() == d.last());
        assert(d.last() != sep);
        assert(split(s, sep) =~= seq![c, d]);
    }
}

/// Two texts are equal up to ASCII case when they have the same length and agree
/// character by character once `A`..`Z` are lowered to `a`..`z`.
pub proof fn lemma_ignore_case_outcomes(a: Seq<char>, b: Seq<char>)
    ensures
        eq_ignore_ascii_case(a, b) <==> {
            &&& a.len() == b.len()
            &&& forall|i: int|
                0 <= i < a.len() ==> (if 'A' <= #[trigger] a[i] <= 'Z' { (a[i] as u32) + 32 } else { a[i] as int }) == (
                if 'A' <= b[i] <= 'Z' { (b[i] as u32) + 32 } else { b[i] as int })
        },
{
    assert forall|x: char| #![trigger crate::text::ascii_lower(x)]
        (crate::text::ascii_lower(x) as int) == (if 'A' <= x <= 'Z' { (x as u32) + 32 } else { x as int }) by {
        if 'A' <= x <= 'Z' {
            let l = ((x as u32) + 32) as char;
            assert(l as u32 == (x as u32) + 32);
        }
    }
    if a.len() == b.len() {
        assert forall|i: int| 0 <= i < a.len() implies (crate::text::ascii_lower(#[trigger] a[i]) == crate::text::ascii_lower(b[i]))
            == ((if 'A' <= a[i] <= 'Z' { (a[i] as u32) + 32 } else { a[i] as int }) == (
            if 'A' <= b[i] <= 'Z' { (b[i] as u32) + 32 } else { b[i] as int })) by {
            let (x, y) = (crate::text::ascii_lower(a[i]), crate::text::ascii_lower(b[i]));
            if x as u32 == y as u32 {
                vstd::utf8::char_u32_cast(x, x as u32);
                vstd::utf8::char_u32_cast(y, y as u32);
            }
        }
    }
}

/// An `order` parameter: `col.dir` orders by the trimmed column, descending exactly
/// when the trimmed direction is `desc` in any ASCII case; a bare `col` orders
/// ascending; an empty column gives no ordering (neither part holding a `.`).
pub proof fn lemma_order_outcomes(c: Seq<char>, d: Seq<char>)
    requires
        forall|i: int| 0 <= i < c.len() ==> c[i] != '.',
        forall|i: int| 0 <= i < d.len() ==> d[i] != '.',
    ensures
        order_of(c) == if trim(c).len() > 0 { Some((trim(c), false)) } else { None },
        order_of(c + "."@ + d) == if trim(c).len() > 0 {
            Some((trim(c), eq_ignore_ascii_case(trim(d), "desc"@)))
        } else {
            None
        },
{
    reveal_strlit(".");
    reveal_strlit("asc");
    reveal_strlit("desc");
    lemma_split_none(c, '.');
    assert(seq!['.'] =~= "."@);
    lemma_split_two(c, d, '.');
    assert(!eq_ignore_ascii_case("asc"@, "desc"@));
}

/// The order in which a request is refused: without a registry it is let through;
/// a table that is not exposed is not found, whoever asks and for whatever
/// operation; an exposed table that requires authentication refuses anonymous
/// requests; an operation whose flag is off is forbidden (reading is always on);
/// anything else is let through.
pub proof fn lemma_admission_outcomes(
    cfg: Option<OxydTableConfigView>,
    t: Seq<char>,
    op: CrudOp,
    authenticated: bool,
)
    ensures
        cfg is None ==> admission(cfg, t, op, authenticated) == Ok::<(), ApiErrorView>(()),
        cfg matches Some(c) ==> {
            let enabled = match op {
                CrudOp::Select => true,
                CrudOp::Insert => c.allow_insert,
                CrudOp::Update => c.allow_update,
                CrudOp::Delete => c.allow_delete,
            };
            let name = match op {
                CrudOp::Select => "select"@,
                CrudOp::Insert => "insert"@,
                CrudOp::Update => "update"@,
                CrudOp::Delete => "delete"@,
            };
            &&& (!c.is_exposed ==> admission(cfg, t, op, authenticated) == Err::<(), ApiErrorView>(
                ApiErrorView::NotFound("table '"@ + t + "' not exposed"@),
            ))
            &&& (c.is_exposed && c.require_auth && !authenticated ==> admission(cfg, t, op, authenticated) == Err::<
                (),
                ApiErrorView,
            >(ApiErrorView::Unauthorized("Authentication required"@)))
            &&& (c.is_exposed && (!c.require_auth || authenticated) && !enabled ==> admission(
                cfg,
                t,
                op,
                authenticated,
            ) == Err::<(), ApiErrorView>(ApiErrorView::Forbidden(name + " is not enabled on this table"@)))
            &&& (c.is_exposed && (!c.require_auth || authenticated) && enabled ==> admission(
                cfg,
                t,
                op,
                authenticated,
            ) == Ok::<(), ApiErrorView>(()))
        },
{
}

} // verus!
