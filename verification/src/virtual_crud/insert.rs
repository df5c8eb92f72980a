//! The single or bulk `INSERT` statement.

use vstd::prelude::*;
use vstd::string::*;

use crate::auth::types::CurrentUser;
use crate::general::errors::{concat3, result_view, ApiError, ApiErrorView, ApiResult};
use crate::text::{
    append_decimal, append_int, decimal, insert_sorted, insert_sorted_string, int_decimal, join,
    join_strings, push_char, str_eq,
};
use super::query::{
    col_type, column_type, invalid_identifier, is_identifier, pg_cast, pg_cast_of, placeholder,
    quoted, unknown_column, validate_ident,
};
use super::select::sql_view;
use super::types::{
    bind_text, field, object_view, strings_view, ColumnMeta, ColumnMetaView, JsonBody,
    JsonBodyView, JsonObject, JsonValue, JsonValueView, TableMeta, TableMetaView,
};
use super::update::has_user_id;

verus! {

/// A row of an insert: its fields in order.
pub type Row = Seq<(Seq<char>, JsonValueView)>;

/// The error for an empty bulk insert.
pub open spec fn empty_bulk() -> ApiErrorView {
    ApiErrorView::BadRequest("empty array for bulk insert"@)
}

/// The error for a bulk insert with an element that is not an object.
pub open spec fn bulk_not_objects() -> ApiErrorView {
    ApiErrorView::BadRequest("bulk insert expects array of JSON objects"@)
}

/// The error for a body that is neither an object nor an array.
pub open spec fn insert_body_invalid() -> ApiErrorView {
    ApiErrorView::BadRequest("request body must be a JSON object or array of objects"@)
}

/// The error for an attempt to insert a row owned by another user.
pub open spec fn user_id_override() -> ApiErrorView {
    ApiErrorView::BadRequest("cannot override user_id; it is bound to the authenticated user"@)
}

/// The error for a column without a known type.
pub open spec fn missing_type(c: Seq<char>) -> ApiErrorView {
    ApiErrorView::BadRequest("missing type for column '"@ + c + "'"@)
}

/// The rows of a body: an object is one row, an array of objects is several.
pub open spec fn insert_rows_of(body: JsonBodyView) -> Result<Seq<Row>, ApiErrorView> {
    match body {
        JsonBodyView::Object(o) => Ok(seq![o]),
        JsonBodyView::Array(a) => {
            if a.len() == 0 {
                Err(empty_bulk())
            } else if exists|i: int| 0 <= i < a.len() && a[i] is None {
                Err(bulk_not_objects())
            } else {
                Ok(a.map_values(|e: Option<Row>| match e {
                    Some(o) => o,
                    None => Seq::empty(),
                }))
            }
        },
        JsonBodyView::Other => Err(insert_body_invalid()),
    }
}

/// The keys of all rows, row after row.
pub open spec fn flat_keys(rows: Seq<Row>) -> Seq<Seq<char>>
    decreases rows.len(),
{
    if rows.len() == 0 {
        Seq::empty()
    } else {
        flat_keys(rows.drop_last()) + rows.last().map_values(|f: (Seq<char>, JsonValueView)| f.0)
    }
}

/// The sorted distinct keys, or the error of the first key that is not a valid
/// identifier of the table.
pub open spec fn collect_columns(cols: Seq<ColumnMetaView>, keys: Seq<Seq<char>>) -> Result<
    Seq<Seq<char>>,
    ApiErrorView,
>
    decreases keys.len(),
{
    if keys.len() == 0 {
        Ok(Seq::empty())
    } else {
        match collect_columns(cols, keys.drop_last()) {
            Err(e) => Err(e),
            Ok(acc) => {
                let k = keys.last();
                if !is_identifier(k) {
                    Err(invalid_identifier(k))
                } else if col_type(cols, k) is None {
                    Err(unknown_column(k))
                } else {
                    Ok(insert_sorted(acc, k))
                }
            },
        }
    }
}

/// The columns of the insert: the union of the keys of all rows, plus `user_id`
/// on a user-owned table with an authenticated user, in sorted order.
pub open spec fn insert_columns(cols: Seq<ColumnMetaView>, rows: Seq<Row>, authenticated: bool) -> Result<
    Seq<Seq<char>>,
    ApiErrorView,
> {
    match collect_columns(cols, flat_keys(rows)) {
        Err(e) => Err(e),
        Ok(acc) => Ok(
            if has_user_id(cols) && authenticated {
                insert_sorted(acc, "user_id"@)
            } else {
                acc
            },
        ),
    }
}

/// Each column with its cast target.
pub open spec fn casts_of(cols: Seq<ColumnMetaView>, names: Seq<Seq<char>>) -> Result<
    Seq<(Seq<char>, Seq<char>)>,
    ApiErrorView,
>
    decreases names.len(),
{
    if names.len() == 0 {
        Ok(Seq::empty())
    } else {
        match casts_of(cols, names.drop_last()) {
            Err(e) => Err(e),
            Ok(acc) => match col_type(cols, names.last()) {
                None => Err(missing_type(names.last())),
                Some(dt) => Ok(acc.push((names.last(), pg_cast(dt)))),
            },
        }
    }
}

/// The `VALUES` entry of one column of one row and the values it binds, when `k`
/// values are bound before it. On a user-owned table with an authenticated user,
/// `user_id` is always the user's id, and a different non-null value is refused.
pub open spec fn value_cell(
    cols: Seq<ColumnMetaView>,
    row: Row,
    col: Seq<char>,
    cast: Seq<char>,
    authenticated: bool,
    uid: int,
    k: nat,
) -> Result<(Seq<char>, Seq<Seq<char>>), ApiErrorView> {
    if has_user_id(cols) && authenticated && col == "user_id"@ {
        match field(row, col) {
            Some(v) => {
                if !(v is Null) && bind_text(v) != int_decimal(uid) {
                    Err(user_id_override())
                } else {
                    Ok((placeholder(k + 1, cast), seq![int_decimal(uid)]))
                }
            },
            None => Ok((placeholder(k + 1, cast), seq![int_decimal(uid)])),
        }
    } else {
        match field(row, col) {
            None => Ok(("DEFAULT"@, Seq::empty())),
            Some(v) => {
                if v is Null {
                    Ok(("NULL"@, Seq::empty()))
                } else {
                    Ok((placeholder(k + 1, cast), seq![bind_text(v)]))
                }
            },
        }
    }
}

/// The entries of one row for the columns `cc`, and their values.
pub open spec fn row_cells(
    cols: Seq<ColumnMetaView>,
    row: Row,
    cc: Seq<(Seq<char>, Seq<char>)>,
    authenticated: bool,
    uid: int,
    k: nat,
) -> Result<(Seq<Seq<char>>, Seq<Seq<char>>), ApiErrorView>
    decreases cc.len(),
{
    if cc.len() == 0 {
        Ok((Seq::empty(), Seq::empty()))
    } else {
        match row_cells(cols, row, cc.drop_last(), authenticated, uid, k) {
            Err(e) => Err(e),
            Ok((parts, binds)) => match value_cell(cols, row, cc.last().0, cc.last().1, authenticated, uid, k + binds.len()) {
                Err(e) => Err(e),
                Ok((p, b)) => Ok((parts.push(p), binds + b)),
            },
        }
    }
}

/// `(e1, e2, ...)`.
pub open spec fn tuple_sql(parts: Seq<Seq<char>>) -> Seq<char> {
    "("@ + join(parts, ", "@) + ")"@
}

/// The `VALUES` tuples of the rows and their values, when `k` values are bound before.
pub open spec fn rows_values(
    cols: Seq<ColumnMetaView>,
    rows: Seq<Row>,
    cc: Seq<(Seq<char>, Seq<char>)>,
    authenticated: bool,
    uid: int,
) -> Result<(Seq<Seq<char>>, Seq<Seq<char>>), ApiErrorView>
    decreases rows.len(),
{
    if rows.len() == 0 {
        Ok((Seq::empty(), Seq::empty()))
    } else {
        match rows_values(cols, rows.drop_last(), cc, authenticated, uid) {
            Err(e) => Err(e),
            Ok((tuples, binds)) => match row_cells(cols, rows.last(), cc, authenticated, uid, binds.len()) {
                Err(e) => Err(e),
                Ok((parts, b)) => Ok((tuples.push(tuple_sql(parts)), binds + b)),
            },
        }
    }
}

/// The `INSERT ... RETURNING *` statement for a body and its bound values. Columns
/// missing from a row get `DEFAULT`, `null` gets `NULL`, other values are bound as
/// text and cast to the column type. With no column at all, one row inserts
/// `DEFAULT VALUES` and several rows insert one all-default row each (a select of no
/// columns from `generate_series`). `uid` is the id of the user, when `authenticated`.
pub open spec fn insert_sql(meta: TableMetaView, body: JsonBodyView, authenticated: bool, uid: int) -> Result<
    (Seq<char>, Seq<Seq<char>>),
    ApiErrorView,
> {
    match insert_rows_of(body) {
        Err(e) => Err(e),
        Ok(rows) => match insert_columns(meta.columns, rows, authenticated) {
            Err(e) => Err(e),
            Ok(all) => {
                if all.len() == 0 && rows.len() == 1 {
                    Ok(
                        (
                            "\n            WITH ins AS (\n                INSERT INTO \""@ + meta.schema + "\".\""@ + meta.name
                                + "\" DEFAULT VALUES\n                RETURNING *\n            )\n            SELECT row_to_json(ins) AS data\n            FROM ins\n            "@,
                            Seq::empty(),
                        ),
                    )
                } else if all.len() == 0 {
                    Ok(
                        (
                            "\n            WITH ins AS (\n                INSERT INTO \""@ + meta.schema + "\".\""@ + meta.name
                                + "\"\n                SELECT FROM generate_series(1, "@ + decimal(rows.len())
                                + ")\n                RETURNING *\n            )\n            SELECT row_to_json(ins) AS data\n            FROM ins\n            "@,
                            Seq::empty(),
                        ),
                    )
                } else {
                    match casts_of(meta.columns, all) {
                        Err(e) => Err(e),
                        Ok(cc) => match rows_values(meta.columns, rows, cc, authenticated, uid) {
                            Err(e) => Err(e),
                            Ok((tuples, binds)) => Ok(
                                (
                                    "\n            WITH ins AS (\n                INSERT INTO \""@ + meta.schema + "\".\""@
                                        + meta.name + "\" ("@ + join(all.map_values(|c: Seq<char>| quoted(c)), ", "@)
                                        + ")\n                VALUES "@ + join(tuples, ", "@)
                                        + "\n                RETURNING *\n            )\n            SELECT row_to_json(ins) AS data\n            FROM ins\n            "@,
                                    binds,
                                ),
                            ),
                        },
                    }
                }
            },
        },
    }
}


proof fn lemma_field_found(o: Row, k: Seq<char>, i: int)
    requires
        0 <= i < o.len(),
        o[i].0 == k,
        forall|j: int| 0 <= j < i ==> (#[trigger] o[j]).0 != k,
    ensures
        field(o, k) == Some(o[i].1),
    decreases i,
{
    if i > 0 {
        let t = o.drop_first();
        assert forall|j: int| 0 <= j < i - 1 implies (#[trigger] t[j]).0 != k by {
            assert(t[j] == o[j + 1]);
        }
        lemma_field_found(t, k, i - 1);
    }
}

proof fn lemma_field_absent(o: Row, k: Seq<char>)
    requires
        forall|j: int| 0 <= j < o.len() ==> (#[trigger] o[j]).0 != k,
    ensures
        field(o, k) is None,
    decreases o.len(),
{
    if o.len() > 0 {
        let t = o.drop_first();
        assert forall|j: int| 0 <= j < t.len() implies (#[trigger] t[j]).0 != k by {
            assert(t[j] == o[j + 1]);
        }
        lemma_field_absent(t, k);
    }
}

/// The value of the first field named `k` of a row.
pub fn field_of<'a>(row: &'a JsonObject, k: &str) -> (r: Option<&'a JsonValue>)
    ensures
        match r {
            Some(v) => field(object_view(row@), k@) == Some(v@),
            None => field(object_view(row@), k@) is None,
        },
{
    let ghost ov = object_view(row@);
    let mut i: usize = 0;
    while i < row.len()
        invariant
            i <= row.len(),
            ov == object_view(row@),
            forall|j: int| 0 <= j < i ==> (#[trigger] ov[j]).0 != k@,
        decreases row.len() - i,
    {
        assert(ov[i as int].0 == row@[i as int].0@);
        if str_eq(row[i].0.as_str(), k) {
            proof {
                lemma_field_found(ov, k@, i as int);
            }
            return Some(&row[i].1);
        }
        i = i + 1;
    }
    proof {
        lemma_field_absent(ov, k@);
    }
    None
}

/// The views of a sequence of row references.
pub open spec fn rows_view(v: Seq<&JsonObject>) -> Seq<Row> {
    v.map_values(|o: &JsonObject| object_view(o@))
}

/// The rows of a body.
fn rows_from<'a>(body: &'a JsonBody) -> (r: ApiResult<Vec<&'a JsonObject>>)
    ensures
        match insert_rows_of(body@) {
            Ok(rows) => r matches Ok(v) && rows_view(v@) == rows,
            Err(e) => r matches Err(x) && x@ == e,
        },
{
    match body {
        JsonBody::Object(o) => {
            let mut v: Vec<&JsonObject> = Vec::new();
            v.push(o);
            assert(rows_view(v@) =~= seq![object_view(o@)]);
            Ok(v)
        },
        JsonBody::Array(a) => {
            if a.len() == 0 {
                return Err(ApiError::BadRequest(String::from_str("empty array for bulk insert")));
            }
            let ghost av = match body@ {
                JsonBodyView::Array(x) => x,
                _ => Seq::empty(),
            };
            assert(av.len() == a@.len());
            let mut v: Vec<&JsonObject> = Vec::new();
            let mut i: usize = 0;
            while i < a.len()
                invariant
                    i <= a.len(),
                    body@ == JsonBodyView::Array(av),
                    av.len() == a@.len(),
                    forall|j: int| 0 <= j < a@.len() ==> (#[trigger] av[j]) == match a@[j] {
                        Some(o) => Some(object_view(o@)),
                        None => None,
                    },
                    forall|j: int| 0 <= j < i ==> (#[trigger] av[j]) is Some,
                    v@.len() == i,
                    forall|j: int| 0 <= j < i ==> Some(object_view((#[trigger] v@[j])@)) == av[j],
                decreases a.len() - i,
            {
                match &a[i] {
                    Some(o) => {
                        v.push(o);
                    },
                    None => {
                        assert(av[i as int] is None);
                        return Err(ApiError::BadRequest(String::from_str("bulk insert expects array of JSON objects")));
                    },
                }
                i = i + 1;
            }
            assert(rows_view(v@) =~= av.map_values(|e: Option<Row>| match e {
                Some(o) => o,
                None => Seq::empty(),
            }));
            Ok(v)
        },
        JsonBody::Other => Err(ApiError::BadRequest(String::from_str("request body must be a JSON object or array of objects"))),
    }
}

proof fn lemma_collect_err_extends(cols: Seq<ColumnMetaView>, keys: Seq<Seq<char>>, j: int)
    requires
        0 <= j <= keys.len(),
        collect_columns(cols, keys.take(j)) is Err,
    ensures
        collect_columns(cols, keys) == collect_columns(cols, keys.take(j)),
    decreases keys.len() - j,
{
    if j == keys.len() {
        assert(keys.take(j) =~= keys);
    } else {
        assert(keys.take(j + 1).drop_last() =~= keys.take(j));
        lemma_collect_err_extends(cols, keys, j + 1);
    }
}

/// The keys of all rows, row after row.
fn all_keys(rows: &Vec<&JsonObject>) -> (r: Vec<String>)
    ensures
        strings_view(r@) == flat_keys(rows_view(rows@)),
{
    let ghost rv = rows_view(rows@);
    let mut out: Vec<String> = Vec::new();
    let mut r: usize = 0;
    assert(rv.take(0) =~= Seq::<Row>::empty());
    assert(strings_view(out@) =~= Seq::<Seq<char>>::empty());
    while r < rows.len()
        invariant
            r <= rows.len(),
            rv == rows_view(rows@),
            strings_view(out@) == flat_keys(rv.take(r as int)),
        decreases rows.len() - r,
    {
        let row = rows[r];
        let ghost keys = object_view(row@).map_values(|f: (Seq<char>, JsonValueView)| f.0);
        let ghost base = strings_view(out@);
        let mut i: usize = 0;
        assert(base + keys.take(0) =~= base);
        while i < row.len()
            invariant
                i <= row.len(),
                keys == object_view(row@).map_values(|f: (Seq<char>, JsonValueView)| f.0),
                strings_view(out@) == base + keys.take(i as int),
            decreases row.len() - i,
        {
            let ghost prev = strings_view(out@);
            out.push(row[i].0.clone());
            assert(strings_view(out@) =~= prev.push(row@[i as int].0@));
            assert(keys[i as int] == row@[i as int].0@);
            assert(keys.take(i + 1) =~= keys.take(i as int).push(keys[i as int]));
            i = i + 1;
            assert(strings_view(out@) =~= base + keys.take(i as int));
        }
        assert(rv.take(r + 1).drop_last() =~= rv.take(r as int));
        assert(rv.take(r + 1).last() == object_view(row@));
        assert(keys.take(row.len() as int) =~= keys);
        r = r + 1;
    }
    assert(rv.take(rows.len() as int) =~= rv);
    out
}

/// The sorted distinct keys.
fn collect_keys(cols: &Vec<ColumnMeta>, keys: &Vec<String>) -> (r: ApiResult<Vec<String>>)
    ensures
        match collect_columns(cols@.map_values(|c: ColumnMeta| c@), strings_view(keys@)) {
            Ok(all) => r matches Ok(v) && strings_view(v@) == all,
            Err(e) => r matches Err(x) && x@ == e,
        },
{
    let ghost cv = cols@.map_values(|c: ColumnMeta| c@);
    let ghost kv = strings_view(keys@);
    let mut all: Vec<String> = Vec::new();
    let mut j: usize = 0;
    assert(kv.take(0) =~= Seq::<Seq<char>>::empty());
    assert(strings_view(all@) =~= Seq::<Seq<char>>::empty());
    while j < keys.len()
        invariant
            j <= keys.len(),
            cv == cols@.map_values(|c: ColumnMeta| c@),
            kv == strings_view(keys@),
            collect_columns(cv, kv.take(j as int)) == Ok::<Seq<Seq<char>>, ApiErrorView>(strings_view(all@)),
        decreases keys.len() - j,
    {
        assert(kv.take(j + 1).drop_last() =~= kv.take(j as int));
        assert(kv.take(j + 1).last() == keys@[j as int]@);
        let k = &keys[j];
        if validate_ident(k.as_str()).is_err() {
            proof {
                lemma_collect_err_extends(cv, kv, (j + 1) as int);
            }
            return Err(ApiError::BadRequest(concat3("invalid identifier '", k.as_str(), "'")));
        }
        if column_type(cols, k.as_str()).is_none() {
            proof {
                lemma_collect_err_extends(cv, kv, (j + 1) as int);
            }
            return Err(ApiError::BadRequest(concat3("unknown column '", k.as_str(), "'")));
        }
        insert_sorted_string(&mut all, k.as_str());
        j = j + 1;
    }
    assert(kv.take(keys.len() as int) =~= kv);
    Ok(all)
}

proof fn lemma_casts_err_extends(cols: Seq<ColumnMetaView>, names: Seq<Seq<char>>, j: int)
    requires
        0 <= j <= names.len(),
        casts_of(cols, names.take(j)) is Err,
    ensures
        casts_of(cols, names) == casts_of(cols, names.take(j)),
    decreases names.len() - j,
{
    if j == names.len() {
        assert(names.take(j) =~= names);
    } else {
        assert(names.take(j + 1).drop_last() =~= names.take(j));
        lemma_casts_err_extends(cols, names, j + 1);
    }
}

/// The views of column/cast pairs.
pub open spec fn pairs_view(v: Seq<(String, String)>) -> Seq<(Seq<char>, Seq<char>)> {
    v.map_values(|p: (String, String)| (p.0@, p.1@))
}

/// Each column with its cast target.
fn casts_for(cols: &Vec<ColumnMeta>, names: &Vec<String>) -> (r: ApiResult<Vec<(String, String)>>)
    ensures
        match casts_of(cols@.map_values(|c: ColumnMeta| c@), strings_view(names@)) {
            Ok(cc) => r matches Ok(v) && pairs_view(v@) == cc,
            Err(e) => r matches Err(x) && x@ == e,
        },
{
    let ghost cv = cols@.map_values(|c: ColumnMeta| c@);
    let ghost nv = strings_view(names@);
    let mut out: Vec<(String, String)> = Vec::new();
    let mut j: usize = 0;
    assert(nv.take(0) =~= Seq::<Seq<char>>::empty());
    assert(pairs_view(out@) =~= Seq::<(Seq<char>, Seq<char>)>::empty());
    while j < names.len()
        invariant
            j <= names.len(),
            cv == cols@.map_values(|c: ColumnMeta| c@),
            nv == strings_view(names@),
            casts_of(cv, nv.take(j as int)) == Ok::<Seq<(Seq<char>, Seq<char>)>, ApiErrorView>(pairs_view(out@)),
        decreases names.len() - j,
    {
        assert(nv.take(j + 1).drop_last() =~= nv.take(j as int));
        assert(nv.take(j + 1).last() == names@[j as int]@);
        let ghost before = pairs_view(out@);
        match column_type(cols, names[j].as_str()) {
            None => {
                proof {
                    lemma_casts_err_extends(cv, nv, (j + 1) as int);
                }
                return Err(ApiError::BadRequest(concat3("missing type for column '", names[j].as_str(), "'")));
            },
            Some(dt) => {
                let cast = pg_cast_of(dt.as_str());
                out.push((names[j].clone(), String::from_str(cast)));
                assert(pairs_view(out@) =~= before.push((names@[j as int]@, pg_cast(dt@))));
            },
        }
        j = j + 1;
    }
    assert(nv.take(names.len() as int) =~= nv);
    Ok(out)
}

/// The `VALUES` entry of one column of one row; its value, if any, is pushed onto `binds`.
fn value_entry(
    owned: bool,
    cols: &Vec<ColumnMeta>,
    row: &JsonObject,
    col: &String,
    cast: &String,
    authenticated: bool,
    uid: i64,
    binds: &mut Vec<String>,
) -> (r: ApiResult<String>)
    requires
        owned == has_user_id(cols@.map_values(|c: ColumnMeta| c@)),
    ensures
        match value_cell(cols@.map_values(|c: ColumnMeta| c@), object_view(row@), col@, cast@, authenticated, uid as int, old(binds)@.len()) {
            Ok((p, b)) => result_view(r) == Ok::<Seq<char>, ApiErrorView>(p) && strings_view(final(binds)@) == strings_view(old(binds)@) + b,
            Err(e) => result_view(r) == Err::<Seq<char>, ApiErrorView>(e),
        },
{
    let ghost old_binds = strings_view(binds@);
    if owned && authenticated && str_eq(col.as_str(), "user_id") {
        let mut expected = String::new();
        append_int(&mut expected, uid);
        assert(expected@ =~= int_decimal(uid as int));
        match field_of(row, col.as_str()) {
            Some(JsonValue::Str(s)) | Some(JsonValue::Json(s)) => {
                if !str_eq(s.as_str(), expected.as_str()) {
                    return Err(ApiError::BadRequest(String::from_str("cannot override user_id; it is bound to the authenticated user")));
                }
            },
            _ => {},
        }
        binds.push(expected);
        assert(strings_view(binds@) =~= old_binds + seq![int_decimal(uid as int)]);
        let mut piece = String::new();
        push_char(&mut piece, '$');
        append_decimal(&mut piece, binds.len() as u128);
        piece.append("::");
        piece.append(cast.as_str());
        assert(piece@ =~= placeholder(binds@.len() as nat, cast@));
        return Ok(piece);
    }
    match field_of(row, col.as_str()) {
        None => {
            assert(strings_view(binds@) =~= old_binds + Seq::<Seq<char>>::empty());
            Ok(String::from_str("DEFAULT"))
        },
        Some(JsonValue::Null) => {
            assert(strings_view(binds@) =~= old_binds + Seq::<Seq<char>>::empty());
            Ok(String::from_str("NULL"))
        },
        Some(JsonValue::Str(s)) | Some(JsonValue::Json(s)) => {
            binds.push(s.clone());
            assert(strings_view(binds@) =~= old_binds + seq![s@]);
            let mut piece = String::new();
            push_char(&mut piece, '$');
            append_decimal(&mut piece, binds.len() as u128);
            piece.append("::");
            piece.append(cast.as_str());
            assert(piece@ =~= placeholder(binds@.len() as nat, cast@));
            Ok(piece)
        },
    }
}

proof fn lemma_row_cells_err_extends(
    cols: Seq<ColumnMetaView>,
    row: Row,
    cc: Seq<(Seq<char>, Seq<char>)>,
    authenticated: bool,
    uid: int,
    k: nat,
    j: int,
)
    requires
        0 <= j <= cc.len(),
        row_cells(cols, row, cc.take(j), authenticated, uid, k) is Err,
    ensures
        row_cells(cols, row, cc, authenticated, uid, k) == row_cells(cols, row, cc.take(j), authenticated, uid, k),
    decreases cc.len() - j,
{
    if j == cc.len() {
        assert(cc.take(j) =~= cc);
    } else {
        assert(cc.take(j + 1).drop_last() =~= cc.take(j));
        lemma_row_cells_err_extends(cols, row, cc, authenticated, uid, k, j + 1);
    }
}

proof fn lemma_rows_values_err_extends(
    cols: Seq<ColumnMetaView>,
    rows: Seq<Row>,
    cc: Seq<(Seq<char>, Seq<char>)>,
    authenticated: bool,
    uid: int,
    j: int,
)
    requires
        0 <= j <= rows.len(),
        rows_values(cols, rows.take(j), cc, authenticated, uid) is Err,
    ensures
        rows_values(cols, rows, cc, authenticated, uid) == rows_values(cols, rows.take(j), cc, authenticated, uid),
    decreases rows.len() - j,
{
    if j == rows.len() {
        assert(rows.take(j) =~= rows);
    } else {
        assert(rows.take(j + 1).drop_last() =~= rows.take(j));
        lemma_rows_values_err_extends(cols, rows, cc, authenticated, uid, j + 1);
    }
}

/// The `VALUES` tuple of one row; its values are pushed onto `binds`.
fn row_tuple(
    owned: bool,
    cols: &Vec<ColumnMeta>,
    row: &JsonObject,
    cc: &Vec<(String, String)>,
    authenticated: bool,
    uid: i64,
    binds: &mut Vec<String>,
) -> (r: ApiResult<String>)
    requires
        owned == has_user_id(cols@.map_values(|c: ColumnMeta| c@)),
    ensures
        match row_cells(cols@.map_values(|c: ColumnMeta| c@), object_view(row@), pairs_view(cc@), authenticated, uid as int, old(binds)@.len()) {
            Ok((parts, b)) => result_view(r) == Ok::<Seq<char>, ApiErrorView>(tuple_sql(parts)) && strings_view(final(binds)@) == strings_view(old(binds)@) + b,
            Err(e) => result_view(r) == Err::<Seq<char>, ApiErrorView>(e),
        },
{
    let ghost cv = cols@.map_values(|c: ColumnMeta| c@);
    let ghost rowv = object_view(row@);
    let ghost ccv = pairs_view(cc@);
    let ghost k0 = binds@.len();
    let ghost b0 = strings_view(binds@);
    let mut parts: Vec<String> = Vec::new();
    let mut j: usize = 0;
    assert(ccv.take(0) =~= Seq::<(Seq<char>, Seq<char>)>::empty());
    assert(strings_view(parts@) =~= Seq::<Seq<char>>::empty());
    assert(strings_view(binds@) =~= b0 + Seq::<Seq<char>>::empty());
    while j < cc.len()
        invariant
            j <= cc.len(),
            owned == has_user_id(cv),
            cv == cols@.map_values(|c: ColumnMeta| c@),
            rowv == object_view(row@),
            ccv == pairs_view(cc@),
            k0 == old(binds)@.len(),
            b0 == strings_view(old(binds)@),
            ({
                let rc = row_cells(cv, rowv, ccv.take(j as int), authenticated, uid as int, k0);
                &&& rc is Ok
                &&& rc->Ok_0.0 == strings_view(parts@)
                &&& strings_view(binds@) == b0 + rc->Ok_0.1
                &&& binds@.len() == k0 + rc->Ok_0.1.len()
            }),
        decreases cc.len() - j,
    {
        assert(ccv.take(j + 1).drop_last() =~= ccv.take(j as int));
        assert(ccv.take(j + 1).last() == (cc@[j as int].0@, cc@[j as int].1@));
        let ghost before_parts = strings_view(parts@);
        let ghost before_binds = strings_view(binds@);
        match value_entry(owned, cols, row, &cc[j].0, &cc[j].1, authenticated, uid, binds) {
            Ok(p) => {
                parts.push(p);
                assert(strings_view(parts@) =~= before_parts.push(p@));
                proof {
                    let rc = row_cells(cv, rowv, ccv.take(j + 1), authenticated, uid as int, k0);
                    assert(strings_view(binds@) =~= b0 + rc->Ok_0.1);
                }
            },
            Err(e) => {
                proof {
                    lemma_row_cells_err_extends(cv, rowv, ccv, authenticated, uid as int, k0, (j + 1) as int);
                }
                assert(ccv.take(cc.len() as int) =~= ccv);
                return Err(e);
            },
        }
        j = j + 1;
    }
    assert(ccv.take(cc.len() as int) =~= ccv);
    let joined = join_strings(&parts, ", ");
    Ok(concat3("(", joined.as_str(), ")"))
}

/// Builds the single or bulk `INSERT` for a table from a body (an object, or an
/// array of objects): the SQL text and its bound values. `user` is the
/// authenticated user, if any; on a user-owned table (one with `user_id`) the
/// backend always sets `user_id` to that user's id.
pub fn build_insert_sql(meta: &TableMeta, body: &JsonBody, user: &Option<CurrentUser>) -> (r: ApiResult<(String, Vec<String>)>)
    ensures
        sql_view(r) == insert_sql(meta@, body@, user is Some, match user {
            Some(u) => u.id as int,
            None => 0,
        }),
{
    let ghost cv = meta@.columns;
    let rows = rows_from(body)?;
    let ghost rv = rows_view(rows@);
    let authenticated = user.is_some();
    let uid: i64 = match user {
        Some(u) => u.id,
        None => 0,
    };
    let owned = column_type(&meta.columns, "user_id").is_some();
    let keys = all_keys(&rows);
    let mut all = collect_keys(&meta.columns, &keys)?;
    if owned && authenticated {
        insert_sorted_string(&mut all, "user_id");
    }
    assert(insert_columns(cv, rv, authenticated) == Ok::<Seq<Seq<char>>, ApiErrorView>(strings_view(all@)));
    if all.len() == 0 {
        let mut sql = String::from_str("\n            WITH ins AS (\n                INSERT INTO \"");
        sql.append(meta.schema.as_str());
        sql.append("\".\"");
        sql.append(meta.name.as_str());
        if rows.len() == 1 {
            sql.append("\" DEFAULT VALUES\n                RETURNING *\n            )\n            SELECT row_to_json(ins) AS data\n            FROM ins\n            ");
        } else {
            sql.append("\"\n                SELECT FROM generate_series(1, ");
            append_decimal(&mut sql, rows.len() as u128);
            sql.append(")\n                RETURNING *\n            )\n            SELECT row_to_json(ins) AS data\n            FROM ins\n            ");
        }
        let binds: Vec<String> = Vec::new();
        assert(strings_view(binds@) =~= Seq::<Seq<char>>::empty());
        return Ok((sql, binds));
    }
    let cc = casts_for(&meta.columns, &all)?;
    let ghost ccv = pairs_view(cc@);
    let mut tuples: Vec<String> = Vec::new();
    let mut binds: Vec<String> = Vec::new();
    let mut r: usize = 0;
    assert(rv.take(0) =~= Seq::<Row>::empty());
    assert(strings_view(tuples@) =~= Seq::<Seq<char>>::empty());
    assert(strings_view(binds@) =~= Seq::<Seq<char>>::empty());
    while r < rows.len()
        invariant
            r <= rows.len(),
            owned == has_user_id(cv),
            cv == meta@.columns,
            rv == rows_view(rows@),
            ccv == pairs_view(cc@),
            insert_rows_of(body@) == Ok::<Seq<Row>, ApiErrorView>(rv),
            insert_columns(cv, rv, authenticated) == Ok::<Seq<Seq<char>>, ApiErrorView>(strings_view(all@)),
            all@.len() > 0,
            casts_of(cv, strings_view(all@)) == Ok::<Seq<(Seq<char>, Seq<char>)>, ApiErrorView>(ccv),
            authenticated == (user is Some),
            uid as int == (match user {
                Some(u) => u.id as int,
                None => 0,
            }),
            rows_values(cv, rv.take(r as int), ccv, authenticated, uid as int) == Ok::<(Seq<Seq<char>>, Seq<Seq<char>>), ApiErrorView>(
                (strings_view(tuples@), strings_view(binds@)),
            ),
        decreases rows.len() - r,
    {
        assert(rv.take(r + 1).drop_last() =~= rv.take(r as int));
        assert(rv.take(r + 1).last() == object_view(rows@[r as int]@));
        let ghost before = strings_view(tuples@);
        match row_tuple(owned, &meta.columns, rows[r], &cc, authenticated, uid, &mut binds) {
            Ok(t) => {
                tuples.push(t);
                assert(strings_view(tuples@) =~= before.push(t@));
            },
            Err(e) => {
                proof {
                    lemma_rows_values_err_extends(cv, rv, ccv, authenticated, uid as int, (r + 1) as int);
                }
                assert(rv.take(rows.len() as int) =~= rv);
                return Err(e);
            },
        }
        r = r + 1;
    }
    assert(rv.take(rows.len() as int) =~= rv);
    let mut quoted_cols: Vec<String> = Vec::new();
    let mut j: usize = 0;
    while j < all.len()
        invariant
            j <= all.len(),
            strings_view(quoted_cols@) == strings_view(all@).take(j as int).map_values(|c: Seq<char>| quoted(c)),
        decreases all.len() - j,
    {
        let mut q = String::new();
        push_char(&mut q, '"');
        q.append(all[j].as_str());
        push_char(&mut q, '"');
        assert(q@ =~= quoted(all@[j as int]@));
        let ghost prev = strings_view(quoted_cols@);
        quoted_cols.push(q);
        assert(strings_view(quoted_cols@) =~= prev.push(quoted(all@[j as int]@)));
        j = j + 1;
        assert(strings_view(quoted_cols@) =~= strings_view(all@).take(j as int).map_values(|c: Seq<char>| quoted(c)));
    }
    assert(strings_view(all@).take(all.len() as int) =~= strings_view(all@));
    let cols_sql = join_strings(&quoted_cols, ", ");
    let values_sql = join_strings(&tuples, ", ");
    let mut sql = String::from_str("\n            WITH ins AS (\n                INSERT INTO \"");
    sql.append(meta.schema.as_str());
    sql.append("\".\"");
    sql.append(meta.name.as_str());
    sql.append("\" (");
    sql.append(cols_sql.as_str());
    sql.append(")\n                VALUES ");
    sql.append(values_sql.as_str());
    sql.append("\n                RETURNING *\n            )\n            SELECT row_to_json(ins) AS data\n            FROM ins\n            ");
    Ok((sql, binds))
}

} // verus!
