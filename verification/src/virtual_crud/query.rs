//! Query-string parsing, identifier validation and the `WHERE` builder.

use vstd::prelude::*;
use vstd::string::*;

use crate::general::errors::{concat2, concat3, result_view, ApiError, ApiErrorView, ApiResult};
use crate::text::{
    chars_eq, chars_of, eq_ignore_ascii_case, eq_ignore_ascii_case_chars, parse_i64,
    parse_i64_chars, split, split_chars, split_once, split_once_chars, str_eq, string_of,
    to_lowercase, trim, trim_chars, unicode_lowercase, views,
};
use crate::text::{all_ascii, append_decimal, ascii_lower, decimal, join, join_strings, push_char};
use super::types::{
    lookup, strings_view, ColumnMeta, ColumnMetaView, Filter, FilterOp, FilterView, QueryOptions,
    QueryOptionsView, QueryParams, TableMeta,
};

verus! {

/// A character that may start an unquoted SQL identifier.
pub open spec fn is_ident_start(c: char) -> bool {
    ('A' <= c <= 'Z') || ('a' <= c <= 'z') || c == '_'
}

/// A character that may continue an unquoted SQL identifier.
pub open spec fn is_ident_char(c: char) -> bool {
    is_ident_start(c) || ('0' <= c <= '9')
}

/// The identifiers that `^[A-Za-z_][A-Za-z0-9_]*$` matches.
pub open spec fn is_identifier(s: Seq<char>) -> bool {
    &&& s.len() > 0
    &&& is_ident_start(s[0])
    &&& forall|i: int| 1 <= i < s.len() ==> is_ident_char(#[trigger] s[i])
}

/// Calls `regex::Regex::new(pattern)` and `Regex::is_match(haystack)`. The pattern is
/// the identifier pattern, which compiles; the documented regex syntax makes `^`/`$`
/// anchor at the ends of the haystack and the classes cover exactly the ASCII ranges
/// written, so a match is exactly `is_identifier`.
#[verifier::external_body]
fn regex_is_match(pattern: &str, haystack: &str) -> (r: bool)
    requires
        pattern@ == "^[A-Za-z_][A-Za-z0-9_]*$"@,
    ensures
        r == is_identifier(haystack@),
{
    regex::Regex::new(pattern).unwrap().is_match(haystack)
}

/// The error for an invalid identifier.
pub open spec fn invalid_identifier(ident: Seq<char>) -> ApiErrorView {
    ApiErrorView::BadRequest("invalid identifier '"@ + ident + "'"@)
}

/// Validates that an identifier (column name, ...) is syntactically safe to
/// interpolate as `"identifier"` in SQL. It does not check that the column exists.
pub fn validate_ident(ident: &str) -> (r: ApiResult<()>)
    ensures
        r is Ok <==> is_identifier(ident@),
        r matches Err(e) ==> e@ == invalid_identifier(ident@),
{
    if regex_is_match("^[A-Za-z_][A-Za-z0-9_]*$", ident) {
        Ok(())
    } else {
        Err(ApiError::BadRequest(concat3("invalid identifier '", ident, "'")))
    }
}

/// The PostgreSQL cast target for a lowercased `information_schema.data_type`.
pub open spec fn cast_for(dt: Seq<char>) -> Seq<char> {
    if dt == "smallint"@ {
        "int2"@
    } else if dt == "integer"@ {
        "int4"@
    } else if dt == "bigint"@ {
        "int8"@
    } else if dt == "real"@ {
        "float4"@
    } else if dt == "double precision"@ {
        "float8"@
    } else if dt == "numeric"@ || dt == "decimal"@ {
        "numeric"@
    } else if dt == "boolean"@ {
        "bool"@
    } else if dt == "character varying"@ || dt == "character"@ || dt == "text"@ || dt == "citext"@ {
        "text"@
    } else if dt == "uuid"@ {
        "uuid"@
    } else if dt == "timestamp with time zone"@ {
        "timestamptz"@
    } else if dt == "timestamp without time zone"@ {
        "timestamp"@
    } else if dt == "date"@ {
        "date"@
    } else if dt == "time without time zone"@ {
        "time"@
    } else if dt == "jsonb"@ {
        "jsonb"@
    } else if dt == "json"@ {
        "json"@
    } else {
        "text"@
    }
}

/// Whether a lowercased data type is text-like (usable with `LIKE` / `ILIKE`).
pub open spec fn is_text_type(dt: Seq<char>) -> bool {
    dt == "character varying"@ || dt == "character"@ || dt == "text"@ || dt == "citext"@
}

/// The cast target of a data type as `information_schema` spells it.
pub open spec fn pg_cast(dt: Seq<char>) -> Seq<char> {
    cast_for(unicode_lowercase(dt))
}

/// Whether a data type as `information_schema` spells it is text-like.
pub open spec fn texty(dt: Seq<char>) -> bool {
    is_text_type(unicode_lowercase(dt))
}

/// Maps an already lowercased data type to its cast target.
pub fn pg_cast_of_lowercase(dt: &str) -> (r: &'static str)
    ensures
        r@ == cast_for(dt@),
{
    if str_eq(dt, "smallint") {
        "int2"
    } else if str_eq(dt, "integer") {
        "int4"
    } else if str_eq(dt, "bigint") {
        "int8"
    } else if str_eq(dt, "real") {
        "float4"
    } else if str_eq(dt, "double precision") {
        "float8"
    } else if str_eq(dt, "numeric") || str_eq(dt, "decimal") {
        "numeric"
    } else if str_eq(dt, "boolean") {
        "bool"
    } else if str_eq(dt, "character varying") || str_eq(dt, "character") || str_eq(dt, "text")
        || str_eq(dt, "citext") {
        "text"
    } else if str_eq(dt, "uuid") {
        "uuid"
    } else if str_eq(dt, "timestamp with time zone") {
        "timestamptz"
    } else if str_eq(dt, "timestamp without time zone") {
        "timestamp"
    } else if str_eq(dt, "date") {
        "date"
    } else if str_eq(dt, "time without time zone") {
        "time"
    } else if str_eq(dt, "jsonb") {
        "jsonb"
    } else if str_eq(dt, "json") {
        "json"
    } else {
        "text"
    }
}

/// One of the cast targets of placeholders.
pub open spec fn known_cast(c: Seq<char>) -> bool {
    ||| c == "int2"@ || c == "int4"@ || c == "int8"@ || c == "float4"@ || c == "float8"@
    ||| c == "numeric"@ || c == "bool"@ || c == "text"@ || c == "uuid"@ || c == "timestamptz"@
    ||| c == "timestamp"@ || c == "date"@ || c == "time"@ || c == "jsonb"@ || c == "json"@
}

/// ASCII lowercasing of a string.
pub open spec fn ascii_lowercase(s: Seq<char>) -> Seq<char> {
    s.map_values(|c: char| ascii_lower(c))
}

/// ASCII lowercasing is idempotent.
pub proof fn lemma_ascii_lowercase_idempotent(s: Seq<char>)
    ensures
        ascii_lowercase(ascii_lowercase(s)) == ascii_lowercase(s),
        all_ascii(s) ==> all_ascii(ascii_lowercase(s)),
{
    assert forall|i: int| 0 <= i < s.len() implies ascii_lower(ascii_lower(s[i])) == ascii_lower(s[i]) by {
        let c = s[i];
        if 'A' <= c <= 'Z' {
            let l = ((c as u32) + 32) as char;
            assert(l as u32 == (c as u32) + 32);
        }
    }
    assert(ascii_lowercase(ascii_lowercase(s)) =~= ascii_lowercase(s));
}

/// Maps an `information_schema.data_type` to the PostgreSQL cast target used in
/// placeholders such as `$1::int4`; unknown types fall back to `text`. The result is
/// always one of the cast targets, and on ASCII input it depends on the type only
/// up to case.
pub fn pg_cast_of(dt: &str) -> (r: &'static str)
    ensures
        r@ == pg_cast(dt@),
        known_cast(r@),
        all_ascii(dt@) ==> r@ == cast_for(ascii_lowercase(dt@)),
{
    let lower = to_lowercase(dt);
    pg_cast_of_lowercase(lower.as_str())
}

/// Whether an already lowercased data type is text-like.
pub fn is_texty_lowercase(dt: &str) -> (r: bool)
    ensures
        r == is_text_type(dt@),
{
    str_eq(dt, "character varying") || str_eq(dt, "character") || str_eq(dt, "text")
        || str_eq(dt, "citext")
}

/// Whether a data type behaves as text for `LIKE` / `ILIKE`.
pub fn is_texty(dt: &str) -> (r: bool)
    ensures
        r == texty(dt@),
{
    let lower = to_lowercase(dt);
    is_texty_lowercase(lower.as_str())
}


/// The non-empty trimmed pieces, in order.
pub open spec fn nonempty_trimmed(parts: Seq<Seq<char>>) -> Seq<Seq<char>>
    decreases parts.len(),
{
    if parts.len() == 0 {
        Seq::empty()
    } else {
        let rest = nonempty_trimmed(parts.drop_last());
        let t = trim(parts.last());
        if t.len() > 0 {
            rest.push(t)
        } else {
            rest
        }
    }
}

/// `select=a, b,,c`: the non-empty trimmed comma-separated columns, if any.
pub open spec fn select_of(sel: Seq<char>) -> Option<Seq<Seq<char>>> {
    let cols = nonempty_trimmed(split(sel, ','));
    if cols.len() > 0 {
        Some(cols)
    } else {
        None
    }
}

/// `order=col.asc | col.desc | col`: the trimmed column (if not empty) and whether
/// the trimmed direction is `desc` in any ASCII case.
pub open spec fn order_of(order: Seq<char>) -> Option<(Seq<char>, bool)> {
    let parts = split(order, '.');
    let col = trim(parts[0]);
    let dir = if parts.len() > 1 { trim(parts[1]) } else { "asc"@ };
    if col.len() > 0 {
        Some((col, eq_ignore_ascii_case(dir, "desc"@)))
    } else {
        None
    }
}

/// `limit` is clamped to `1..=1000`.
pub open spec fn clamp_limit(v: int) -> int {
    if v < 1 {
        1
    } else if v > 1000 {
        1000
    } else {
        v
    }
}

/// `offset` cannot be negative.
pub open spec fn clamp_offset(v: int) -> int {
    if v < 0 {
        0
    } else {
        v
    }
}

/// The keys that are not filters.
pub open spec fn is_reserved(k: Seq<char>) -> bool {
    k == "select"@ || k == "order"@ || k == "limit"@ || k == "offset"@
}

/// The operator named by `s`.
pub open spec fn op_of(s: Seq<char>) -> Option<FilterOp> {
    if s == "eq"@ {
        Some(FilterOp::Eq)
    } else if s == "neq"@ {
        Some(FilterOp::Neq)
    } else if s == "gt"@ {
        Some(FilterOp::Gt)
    } else if s == "gte"@ {
        Some(FilterOp::Gte)
    } else if s == "lt"@ {
        Some(FilterOp::Lt)
    } else if s == "lte"@ {
        Some(FilterOp::Lte)
    } else if s == "like"@ {
        Some(FilterOp::Like)
    } else if s == "ilike"@ {
        Some(FilterOp::ILike)
    } else if s == "is"@ {
        Some(FilterOp::Is)
    } else {
        None
    }
}

/// The operator text and the raw value of a filter parameter: `op.rest`, or `eq`
/// and the whole value when it holds no `.`.
pub open spec fn op_and_value(v: Seq<char>) -> (Seq<char>, Seq<char>) {
    match split_once(v, '.') {
        Some((a, b)) => (a, b),
        None => ("eq"@, v),
    }
}

/// The error for an unknown operator.
pub open spec fn unsupported_operator(op: Seq<char>) -> ApiErrorView {
    ApiErrorView::BadRequest("unsupported operator '"@ + op + "'"@)
}

/// The filter that the parameter `k=v` stands for.
pub open spec fn filter_of(k: Seq<char>, v: Seq<char>) -> Result<FilterView, ApiErrorView> {
    let (op_str, val) = op_and_value(v);
    match op_of(op_str) {
        Some(op) => Ok(FilterView { column: k, op: op, value: Some(val) }),
        None => Err(unsupported_operator(op_str)),
    }
}

/// The filters of all non-reserved parameters in order, or the error of the first
/// parameter whose operator is unknown.
pub open spec fn filters_of(q: Seq<(Seq<char>, Seq<char>)>) -> Result<Seq<FilterView>, ApiErrorView>
    decreases q.len(),
{
    if q.len() == 0 {
        Ok(Seq::empty())
    } else {
        match filters_of(q.drop_last()) {
            Err(e) => Err(e),
            Ok(fs) => {
                if is_reserved(q.last().0) {
                    Ok(fs)
                } else {
                    match filter_of(q.last().0, q.last().1) {
                        Err(e) => Err(e),
                        Ok(f) => Ok(fs.push(f)),
                    }
                }
            },
        }
    }
}

/// What a query string parses to.
pub open spec fn parse_query(q: Seq<(Seq<char>, Seq<char>)>) -> Result<QueryOptionsView, ApiErrorView> {
    match filters_of(q) {
        Err(e) => Err(e),
        Ok(fs) => Ok(
            QueryOptionsView {
                select: match lookup(q, "select"@) {
                    Some(s) => select_of(s),
                    None => None,
                },
                filters: fs,
                order_by: match lookup(q, "order"@) {
                    Some(o) => order_of(o),
                    None => None,
                },
                limit: match lookup(q, "limit"@) {
                    Some(l) => match parse_i64(l) {
                        Some(v) => Some(clamp_limit(v) as i64),
                        None => None,
                    },
                    None => None,
                },
                offset: match lookup(q, "offset"@) {
                    Some(o) => match parse_i64(o) {
                        Some(v) => Some(clamp_offset(v) as i64),
                        None => None,
                    },
                    None => None,
                },
            },
        ),
    }
}

proof fn lemma_filters_err_extends(q: Seq<(Seq<char>, Seq<char>)>, j: int, e: ApiErrorView)
    requires
        0 <= j <= q.len(),
        filters_of(q.take(j)) == Err::<Seq<FilterView>, ApiErrorView>(e),
    ensures
        filters_of(q) == Err::<Seq<FilterView>, ApiErrorView>(e),
    decreases q.len() - j,
{
    if j == q.len() {
        assert(q.take(j) =~= q);
    } else {
        assert(q.take(j + 1).drop_last() =~= q.take(j));
        lemma_filters_err_extends(q, j + 1, e);
    }
}

fn select_columns(sel: &String) -> (r: Option<Vec<String>>)
    ensures
        match (r, select_of(sel@)) {
            (Some(v), Some(s)) => v@.map_values(|x: String| x@) == s,
            (None, None) => true,
            _ => false,
        },
{
    let chars = chars_of(sel.as_str());
    let parts = split_chars(&chars, ',');
    let mut cols: Vec<String> = Vec::new();
    let mut i: usize = 0;
    while i < parts.len()
        invariant
            i <= parts.len(),
            views(parts@) == split(chars@, ','),
            cols@.map_values(|x: String| x@) == nonempty_trimmed(views(parts@).take(i as int)),
        decreases parts.len() - i,
    {
        let t = trim_chars(&parts[i]);
        assert(views(parts@).take(i + 1).drop_last() =~= views(parts@).take(i as int));
        if t.len() > 0 {
            let s = string_of(&t);
            cols.push(s);
        }
        i = i + 1;
        assert(cols@.map_values(|x: String| x@) =~= nonempty_trimmed(views(parts@).take(i as int)));
    }
    assert(views(parts@).take(parts.len() as int) =~= views(parts@));
    if cols.len() > 0 {
        Some(cols)
    } else {
        None
    }
}

fn order_by_of(order: &String) -> (r: Option<(String, bool)>)
    ensures
        match (r, order_of(order@)) {
            (Some((c, d)), Some((sc, sd))) => c@ == sc && d == sd,
            (None, None) => true,
            _ => false,
        },
{
    let chars = chars_of(order.as_str());
    let parts = split_chars(&chars, '.');
    let col = trim_chars(&parts[0]);
    let dir = if parts.len() > 1 {
        assert(views(parts@)[1] == parts@[1]@);
        trim_chars(&parts[1])
    } else {
        chars_of("asc")
    };
    if col.len() > 0 {
        let desc_chars = chars_of("desc");
        let desc = eq_ignore_ascii_case_chars(&dir, &desc_chars);
        Some((string_of(&col), desc))
    } else {
        None
    }
}

fn parse_clamped(s: &String, is_limit: bool) -> (r: Option<i64>)
    ensures
        match parse_i64(s@) {
            Some(v) => r == Some((if is_limit { clamp_limit(v) } else { clamp_offset(v) }) as i64),
            None => r is None,
        },
{
    let chars = chars_of(s.as_str());
    match parse_i64_chars(&chars) {
        Some(v) => {
            if is_limit {
                if v < 1 {
                    Some(1)
                } else if v > 1000 {
                    Some(1000)
                } else {
                    Some(v)
                }
            } else {
                if v < 0 {
                    Some(0)
                } else {
                    Some(v)
                }
            }
        },
        None => None,
    }
}

fn op_from(s: &Vec<char>) -> (r: Option<FilterOp>)
    ensures
        r == op_of(s@),
{
    if chars_eq(s, &chars_of("eq")) {
        Some(FilterOp::Eq)
    } else if chars_eq(s, &chars_of("neq")) {
        Some(FilterOp::Neq)
    } else if chars_eq(s, &chars_of("gt")) {
        Some(FilterOp::Gt)
    } else if chars_eq(s, &chars_of("gte")) {
        Some(FilterOp::Gte)
    } else if chars_eq(s, &chars_of("lt")) {
        Some(FilterOp::Lt)
    } else if chars_eq(s, &chars_of("lte")) {
        Some(FilterOp::Lte)
    } else if chars_eq(s, &chars_of("like")) {
        Some(FilterOp::Like)
    } else if chars_eq(s, &chars_of("ilike")) {
        Some(FilterOp::ILike)
    } else if chars_eq(s, &chars_of("is")) {
        Some(FilterOp::Is)
    } else {
        None
    }
}

fn reserved_key(k: &String) -> (r: bool)
    ensures
        r == is_reserved(k@),
{
    let s = k.as_str();
    str_eq(s, "select") || str_eq(s, "order") || str_eq(s, "limit") || str_eq(s, "offset")
}

fn filter_from(k: &String, v: &String) -> (r: ApiResult<Filter>)
    ensures
        result_view(r) == filter_of(k@, v@),
{
    let chars = chars_of(v.as_str());
    let (op_str, val) = match split_once_chars(&chars, '.') {
        Some((a, b)) => (a, b),
        None => (chars_of("eq"), chars),
    };
    assert(op_and_value(v@) == (op_str@, val@));
    match op_from(&op_str) {
        Some(op) => Ok(Filter { column: k.clone(), op: op, value: Some(string_of(&val)) }),
        None => {
            let op_text = string_of(&op_str);
            Err(ApiError::BadRequest(concat3("unsupported operator '", op_text.as_str(), "'")))
        },
    }
}

/// Parses a PostgREST-like query string into [`QueryOptions`].
///
/// - `select=id,name,...`
/// - `order=col.asc` / `order=col.desc` / `order=col`
/// - `limit=10` (clamped to `1..=1000`), `offset=20` (at least 0); values that do not
///   parse as `i64` are ignored
/// - any other key is a filter on that column: `id=eq.42`, `name=like.*foo*`,
///   `deleted_at=is.null`, `deleted_at=is.not.null`; a value without `.` means `eq`
pub fn parse_query_options(qs: &QueryParams) -> (r: ApiResult<QueryOptions>)
    ensures
        result_view(r) == parse_query(qs@),
{
    let select = match qs.get("select") {
        Some(sel) => select_columns(sel),
        None => None,
    };
    let order_by = match qs.get("order") {
        Some(order) => order_by_of(order),
        None => None,
    };
    let limit = match qs.get("limit") {
        Some(l) => parse_clamped(l, true),
        None => None,
    };
    let offset = match qs.get("offset") {
        Some(o) => parse_clamped(o, false),
        None => None,
    };
    let mut filters: Vec<Filter> = Vec::new();
    let mut i: usize = 0;
    assert(qs@.take(0) =~= Seq::<(Seq<char>, Seq<char>)>::empty());
    assert(filters@.map_values(|f: Filter| f@) =~= Seq::<FilterView>::empty());
    while i < qs.len()
        invariant
            i <= qs@.len(),
            filters_of(qs@.take(i as int)) == Ok::<Seq<FilterView>, ApiErrorView>(
                filters@.map_values(|f: Filter| f@),
            ),
        decreases qs@.len() - i,
    {
        let (k, v) = qs.pair_at(i);
        assert(qs@.take(i + 1).drop_last() =~= qs@.take(i as int));
        assert(qs@.take(i + 1).last() == qs@[i as int]);
        let ghost before = filters@.map_values(|f: Filter| f@);
        if !reserved_key(k) {
            match filter_from(k, v) {
                Ok(f) => {
                    filters.push(f);
                    assert(filters@.map_values(|f: Filter| f@) =~= before.push(f@));
                },
                Err(e) => {
                    proof {
                        lemma_filters_err_extends(qs@, i + 1, e@);
                    }
                    return Err(e);
                },
            }
        }
        i = i + 1;
        assert(filters_of(qs@.take(i as int)) == Ok::<Seq<FilterView>, ApiErrorView>(
            filters@.map_values(|f: Filter| f@),
        ));
    }
    assert(qs@.take(qs@.len() as int) =~= qs@);
    let opts = QueryOptions {
        select: select,
        filters: filters,
        order_by: order_by,
        limit: limit,
        offset: offset,
    };
    assert(opts@.select == parse_query(qs@)->Ok_0.select);
    Ok(opts)
}


/// `"c"`: a quoted identifier.
pub open spec fn quoted(c: Seq<char>) -> Seq<char> {
    seq!['"'] + c + seq!['"']
}

/// `$n::cast`: a numbered placeholder with its cast.
pub open spec fn placeholder(n: nat, cast: Seq<char>) -> Seq<char> {
    seq!['$'] + decimal(n) + "::"@ + cast
}

/// The SQL operator of a comparison, with surrounding spaces.
pub open spec fn operator_sql(op: FilterOp) -> Seq<char> {
    match op {
        FilterOp::Eq => " = "@,
        FilterOp::Neq => " <> "@,
        FilterOp::Gt => " > "@,
        FilterOp::Gte => " >= "@,
        FilterOp::Lt => " < "@,
        FilterOp::Lte => " <= "@,
        FilterOp::Like => " LIKE "@,
        FilterOp::ILike => " ILIKE "@,
        FilterOp::Is => " IS "@,
    }
}

/// The data type of column `name`: that of the last column so named, as an index
/// from names to types built in column order keeps it.
pub open spec fn col_type(cols: Seq<ColumnMetaView>, name: Seq<char>) -> Option<Seq<char>>
    decreases cols.len(),
{
    if cols.len() == 0 {
        None
    } else if cols.last().name == name {
        Some(cols.last().data_type)
    } else {
        col_type(cols.drop_last(), name)
    }
}

/// The error for a column that the table does not have.
pub open spec fn unknown_column(c: Seq<char>) -> ApiErrorView {
    ApiErrorView::BadRequest("unknown column '"@ + c + "'"@)
}

/// The error for a comparison without a value.
pub open spec fn missing_value(c: Seq<char>) -> ApiErrorView {
    ApiErrorView::BadRequest("missing value for filter on '"@ + c + "'"@)
}

/// The error for `LIKE` / `ILIKE` on a column that is not text-like.
pub open spec fn pattern_not_supported(op: FilterOp, c: Seq<char>, dt: Seq<char>) -> ApiErrorView {
    let kw = if op == FilterOp::Like { "LIKE"@ } else { "ILIKE"@ };
    ApiErrorView::BadRequest(kw + " not supported on non-text column '"@ + c + "' (type: "@ + dt + ")"@)
}

/// The error for an `is` filter whose value is neither `null` nor `not.null`.
pub open spec fn is_not_supported(v: Option<Seq<char>>) -> ApiErrorView {
    let shown = match v {
        Some(x) => x,
        None => "?"@,
    };
    ApiErrorView::BadRequest("is."@ + shown + " not supported (use 'is.null' or 'is.not.null')"@)
}

/// The SQL piece of one filter and the values it binds, when `k` values are bound
/// before it.
pub open spec fn filter_sql(cols: Seq<ColumnMetaView>, f: FilterView, k: nat) -> Result<
    (Seq<char>, Seq<Seq<char>>),
    ApiErrorView,
> {
    if !is_identifier(f.column) {
        Err(invalid_identifier(f.column))
    } else {
        match col_type(cols, f.column) {
            None => Err(unknown_column(f.column)),
            Some(dt) => {
                let col = quoted(f.column);
                match f.op {
                    FilterOp::Like | FilterOp::ILike => {
                        if !texty(dt) {
                            Err(pattern_not_supported(f.op, f.column, dt))
                        } else {
                            let v = match f.value {
                                Some(x) => x,
                                None => Seq::empty(),
                            };
                            Ok((col + operator_sql(f.op) + placeholder(k + 1, "text"@), seq![v]))
                        }
                    },
                    FilterOp::Is => match f.value {
                        Some(v) => {
                            if v == "null"@ {
                                Ok((col + " IS NULL"@, Seq::empty()))
                            } else if v == "not.null"@ {
                                Ok((col + " IS NOT NULL"@, Seq::empty()))
                            } else {
                                Err(is_not_supported(Some(v)))
                            }
                        },
                        None => Err(is_not_supported(None)),
                    },
                    _ => match f.value {
                        None => Err(missing_value(f.column)),
                        Some(v) => Ok((col + operator_sql(f.op) + placeholder(k + 1, pg_cast(dt)), seq![v])),
                    },
                }
            },
        }
    }
}

/// The pieces of the filters in order (or the first error), and the values bound
/// before the walk stopped, when `k` values are bound before the first filter.
pub open spec fn where_parts(cols: Seq<ColumnMetaView>, fs: Seq<FilterView>, k: nat) -> (
    Result<Seq<Seq<char>>, ApiErrorView>,
    Seq<Seq<char>>,
)
    decreases fs.len(),
{
    if fs.len() == 0 {
        (Ok(Seq::empty()), Seq::empty())
    } else {
        let (r, pushed) = where_parts(cols, fs.drop_last(), k);
        match r {
            Err(e) => (Err(e), pushed),
            Ok(pieces) => match filter_sql(cols, fs.last(), k + pushed.len()) {
                Err(e) => (Err(e), pushed),
                Ok((p, b)) => (Ok(pieces.push(p)), pushed + b),
            },
        }
    }
}

/// The `WHERE` fragment of the filters (empty when there is none) and the values it
/// binds, when `k` values are bound before it.
pub open spec fn where_sql(cols: Seq<ColumnMetaView>, fs: Seq<FilterView>, k: nat) -> (
    Result<Seq<char>, ApiErrorView>,
    Seq<Seq<char>>,
) {
    let (r, pushed) = where_parts(cols, fs, k);
    (
        match r {
            Err(e) => Err(e),
            Ok(pieces) => Ok(
                if fs.len() == 0 {
                    Seq::empty()
                } else {
                    " WHERE "@ + join(pieces, " AND "@)
                },
            ),
        },
        pushed,
    )
}

/// The data type of column `name` (the last column so named).
pub fn column_type<'a>(cols: &'a Vec<ColumnMeta>, name: &str) -> (r: Option<&'a String>)
    ensures
        match r {
            Some(t) => col_type(cols@.map_values(|c: ColumnMeta| c@), name@) == Some(t@),
            None => col_type(cols@.map_values(|c: ColumnMeta| c@), name@) is None,
        },
{
    let ghost cv = cols@.map_values(|c: ColumnMeta| c@);
    let mut i: usize = cols.len();
    assert(cv.take(i as int) =~= cv);
    while i > 0
        invariant
            i <= cols.len(),
            cv == cols@.map_values(|c: ColumnMeta| c@),
            col_type(cv, name@) == col_type(cv.take(i as int), name@),
        decreases i,
    {
        let ghost t = cv.take(i as int);
        assert(t.last() == cols@[i - 1]@);
        if str_eq(cols[i - 1].name.as_str(), name) {
            return Some(&cols[i - 1].data_type);
        }
        assert(t.drop_last() =~= cv.take(i - 1));
        i = i - 1;
    }
    assert(cv.take(0) =~= Seq::<ColumnMetaView>::empty());
    None
}

/// Appends `$n::cast` to `out`, `n` being the number of values bound so far.
fn append_placeholder(out: &mut String, n: usize, cast: &str)
    ensures
        final(out)@ == old(out)@ + placeholder(n as nat, cast@),
{
    push_char(out, '$');
    append_decimal(out, n as u128);
    out.append("::");
    out.append(cast);
    assert(out@ =~= old(out)@ + placeholder(n as nat, cast@));
}

/// The SQL piece of one filter; its values are pushed onto `binds`.
fn filter_piece(cols: &Vec<ColumnMeta>, f: &Filter, binds: &mut Vec<String>) -> (r: ApiResult<String>)
    ensures
        ({
            let spec_r = filter_sql(cols@.map_values(|c: ColumnMeta| c@), f@, old(binds)@.len());
            &&& match spec_r {
                Ok((p, b)) => result_view(r) == Ok::<Seq<char>, ApiErrorView>(p) && strings_view(final(binds)@) == strings_view(old(binds)@) + b,
                Err(e) => result_view(r) == Err::<Seq<char>, ApiErrorView>(e) && final(binds)@ == old(binds)@,
            }
        }),
{
    let ghost cv = cols@.map_values(|c: ColumnMeta| c@);
    let ghost old_binds = strings_view(binds@);
    if validate_ident(f.column.as_str()).is_err() {
        return Err(ApiError::BadRequest(concat3("invalid identifier '", f.column.as_str(), "'")));
    }
    let dt = match column_type(cols, f.column.as_str()) {
        Some(t) => t,
        None => {
            return Err(ApiError::BadRequest(concat3("unknown column '", f.column.as_str(), "'")));
        },
    };
    let mut col = String::new();
    push_char(&mut col, '"');
    col.append(f.column.as_str());
    push_char(&mut col, '"');
    assert(col@ =~= quoted(f.column@));
    match f.op {
        FilterOp::Like | FilterOp::ILike => {
            if !is_texty(dt.as_str()) {
                let kw = if f.op == FilterOp::Like { "LIKE" } else { "ILIKE" };
                let mut m = String::from_str(kw);
                m.append(" not supported on non-text column '");
                m.append(f.column.as_str());
                m.append("' (type: ");
                m.append(dt.as_str());
                m.append(")");
                return Err(ApiError::BadRequest(m));
            }
            let v = match &f.value {
                Some(x) => x.clone(),
                None => String::new(),
            };
            binds.push(v);
            assert(strings_view(binds@) =~= old_binds + seq![v@]);
            let mut piece = col;
            piece.append(if f.op == FilterOp::Like { " LIKE " } else { " ILIKE " });
            append_placeholder(&mut piece, binds.len(), "text");
            assert(piece@ =~= quoted(f.column@) + operator_sql(f.op) + placeholder(binds@.len() as nat, "text"@));
            Ok(piece)
        },
        FilterOp::Is => {
            match &f.value {
                Some(v) => {
                    if str_eq(v.as_str(), "null") {
                        let mut piece = col;
                        piece.append(" IS NULL");
                        assert(strings_view(binds@) =~= old_binds + Seq::<Seq<char>>::empty());
                        Ok(piece)
                    } else if str_eq(v.as_str(), "not.null") {
                        let mut piece = col;
                        piece.append(" IS NOT NULL");
                        assert(strings_view(binds@) =~= old_binds + Seq::<Seq<char>>::empty());
                        Ok(piece)
                    } else {
                        Err(ApiError::BadRequest(concat3("is.", v.as_str(), " not supported (use 'is.null' or 'is.not.null')")))
                    }
                },
                None => Err(ApiError::BadRequest(concat3("is.", "?", " not supported (use 'is.null' or 'is.not.null')"))),
            }
        },
        _ => {
            let cast = pg_cast_of(dt.as_str());
            match &f.value {
                None => Err(ApiError::BadRequest(concat3("missing value for filter on '", f.column.as_str(), "'"))),
                Some(v) => {
                    binds.push(v.clone());
                    assert(strings_view(binds@) =~= old_binds + seq![v@]);
                    let mut piece = col;
                    let op_text = match f.op {
                        FilterOp::Eq => " = ",
                        FilterOp::Neq => " <> ",
                        FilterOp::Gt => " > ",
                        FilterOp::Gte => " >= ",
                        FilterOp::Lt => " < ",
                        _ => " <= ",
                    };
                    assert(op_text@ == operator_sql(f.op));
                    piece.append(op_text);
                    append_placeholder(&mut piece, binds.len(), cast);
                    assert(piece@ =~= quoted(f.column@) + operator_sql(f.op) + placeholder(binds@.len() as nat, pg_cast(dt@)));
                    Ok(piece)
                },
            }
        },
    }
}

/// Builds the `WHERE` fragment (e.g. ` WHERE "id" = $1::int4 AND "name" ILIKE $2::text`)
/// and pushes the filter values onto `binds` in placeholder order. Each filtered
/// column must be a valid identifier present in `meta`.
pub fn build_where_sql(meta: &TableMeta, opts: &QueryOptions, binds: &mut Vec<String>) -> (r: ApiResult<String>)
    ensures
        ({
            let (spec_r, pushed) = where_sql(meta@.columns, opts@.filters, old(binds)@.len());
            &&& result_view(r) == spec_r
            &&& strings_view(final(binds)@) == strings_view(old(binds)@) + pushed
        }),
{
    let ghost cv = meta@.columns;
    let ghost fv = opts@.filters;
    let ghost k0 = binds@.len();
    let ghost b0 = strings_view(binds@);
    let mut parts: Vec<String> = Vec::new();
    let mut i: usize = 0;
    assert(fv.take(0) =~= Seq::<FilterView>::empty());
    assert(strings_view(binds@) =~= b0 + Seq::<Seq<char>>::empty());
    assert(strings_view(parts@) =~= Seq::<Seq<char>>::empty());
    while i < opts.filters.len()
        invariant
            i <= opts.filters.len(),
            cv == meta@.columns,
            fv == opts@.filters,
            k0 == old(binds)@.len(),
            b0 == strings_view(old(binds)@),
            ({
                let (r, pushed) = where_parts(cv, fv.take(i as int), k0);
                &&& r == Ok::<Seq<Seq<char>>, ApiErrorView>(strings_view(parts@))
                &&& strings_view(binds@) == b0 + pushed
                &&& binds@.len() == k0 + pushed.len()
            }),
        decreases opts.filters.len() - i,
    {
        let ghost before_parts = strings_view(parts@);
        let ghost before_binds = strings_view(binds@);
        assert(fv.take(i + 1).drop_last() =~= fv.take(i as int));
        assert(fv.take(i + 1).last() == opts.filters@[i as int]@);
        match filter_piece(&meta.columns, &opts.filters[i], binds) {
            Ok(p) => {
                parts.push(p);
                assert(strings_view(parts@) =~= before_parts.push(p@));
                i = i + 1;
                proof {
                    let (r, pushed) = where_parts(cv, fv.take(i as int), k0);
                    assert(strings_view(binds@) =~= b0 + pushed);
                }
            },
            Err(e) => {
                proof {
                    lemma_where_err_extends(cv, fv, k0, (i + 1) as int);
                }
                return Err(e);
            },
        }
    }
    assert(fv.take(opts.filters.len() as int) =~= fv);
    if opts.filters.len() == 0 {
        return Ok(String::new());
    }
    let joined = join_strings(&parts, " AND ");
    Ok(concat2(" WHERE ", joined.as_str()))
}

proof fn lemma_where_err_extends(cols: Seq<ColumnMetaView>, fs: Seq<FilterView>, k: nat, j: int)
    requires
        0 <= j <= fs.len(),
        where_parts(cols, fs.take(j), k).0 is Err,
    ensures
        where_parts(cols, fs, k) == where_parts(cols, fs.take(j), k),
    decreases fs.len() - j,
{
    if j == fs.len() {
        assert(fs.take(j) =~= fs);
    } else {
        assert(fs.take(j + 1).drop_last() =~= fs.take(j));
        lemma_where_err_extends(cols, fs, k, j + 1);
    }
}

} // verus!
