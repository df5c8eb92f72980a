//! Properties of the query language and of the generated statements that hold on
//! every input: the bounds of parsed options, that every column named in a
//! statement is a valid identifier of the table, that values are bound rather
//! than written into the SQL text and numbered in order, and that writes are never
//! unfiltered.

use vstd::prelude::*;
use vstd::string::*;

use super::delete::delete_sql;
use super::query::{operator_sql, placeholder, quoted, cast_for, pg_cast, texty, col_type, filter_sql, filters_of, is_identifier, is_reserved, parse_query, where_parts, where_sql};
use super::select::{order_clause, select_clause, select_list, select_sql};
use super::types::{ColumnMetaView, FilterOp, FilterView, QueryOptionsView, TableMetaView};
use super::update::{has_user_id, set_part, set_parts, update_sql};
use super::types::{bind_text, field, JsonBodyView, JsonValueView};
use super::insert::{
    casts_of, collect_columns, flat_keys, insert_columns, insert_rows_of, insert_sql, row_cells, rows_values,
    user_id_override, value_cell, Row,
};
use crate::text::{unicode_lowercase, insert_sorted, int_decimal, lemma_insert_sorted_contains, lemma_insert_sorted_sorted, strictly_sorted};

verus! {

/// Whether `c` is a valid identifier that names a column of the table.
pub open spec fn known_column(cols: Seq<ColumnMetaView>, c: Seq<char>) -> bool {
    is_identifier(c) && col_type(cols, c) is Some
}

/// Every filter of a parsed query names a non-reserved parameter and carries a value.
pub proof fn lemma_filters_of_shape(q: Seq<(Seq<char>, Seq<char>)>)
    ensures
        filters_of(q) matches Ok(fs) ==> forall|i: int|
            0 <= i < fs.len() ==> !is_reserved(#[trigger] fs[i].column) && fs[i].value is Some,
    decreases q.len(),
{
    if q.len() > 0 {
        lemma_filters_of_shape(q.drop_last());
        if let Ok(fs) = filters_of(q) {
            if let Ok(fs0) = filters_of(q.drop_last()) {
                assert forall|i: int| 0 <= i < fs.len() implies !is_reserved(#[trigger] fs[i].column)
                    && fs[i].value is Some by {
                    if i < fs0.len() {
                        assert(fs[i] == fs0[i]);
                    }
                }
            }
        }
    }
}

/// A parsed `limit` lies in `1..=1000`, a parsed `offset` is not negative, and the
/// reserved parameters (`select`, `order`, `limit`, `offset`) are never filters.
pub proof fn lemma_parse_bounds(q: Seq<(Seq<char>, Seq<char>)>)
    ensures
        parse_query(q) matches Ok(o) ==> {
            &&& (o.limit matches Some(l) ==> 1 <= l <= 1000)
            &&& (o.offset matches Some(x) ==> x >= 0)
            &&& forall|i: int|
                0 <= i < o.filters.len() ==> !is_reserved(#[trigger] o.filters[i].column)
                    && o.filters[i].value is Some
        },
{
    lemma_filters_of_shape(q);
}

/// Every filter of a `WHERE` fragment that was built names a known column, and each
/// gives one condition.
pub proof fn lemma_where_columns(cols: Seq<ColumnMetaView>, fs: Seq<FilterView>, k: nat)
    ensures
        where_parts(cols, fs, k).0 matches Ok(pieces) ==> pieces.len() == fs.len() && forall|i: int|
            0 <= i < fs.len() ==> known_column(cols, #[trigger] fs[i].column),
    decreases fs.len(),
{
    if fs.len() > 0 {
        lemma_where_columns(cols, fs.drop_last(), k);
        if where_parts(cols, fs, k).0 is Ok {
            assert forall|i: int| 0 <= i < fs.len() implies known_column(cols, #[trigger] fs[i].column) by {
                if i < fs.len() - 1 {
                    assert(fs[i] == fs.drop_last()[i]);
                }
            }
        }
    }
}

/// Whether a filter binds a value (every operator but `is`).
pub open spec fn binds_value(f: FilterView) -> bool {
    f.op != FilterOp::Is
}

/// The number of filters that bind a value.
pub open spec fn bind_count(fs: Seq<FilterView>) -> nat
    decreases fs.len(),
{
    if fs.len() == 0 {
        0
    } else {
        bind_count(fs.drop_last()) + if binds_value(fs.last()) { 1nat } else { 0nat }
    }
}

/// The cast of a filter's placeholder: `text` for patterns, else the column's cast.
pub open spec fn filter_cast(cols: Seq<ColumnMetaView>, f: FilterView) -> Seq<char> {
    if f.op == FilterOp::Like || f.op == FilterOp::ILike {
        "text"@
    } else {
        pg_cast(col_type(cols, f.column)->Some_0)
    }
}

/// The value a filter binds (the empty text for a pattern without value).
pub open spec fn filter_value(f: FilterView) -> Seq<char> {
    match f.value {
        Some(v) => v,
        None => Seq::empty(),
    }
}

/// Whether condition `i` of a `WHERE` and the values bound agree on numbering:
/// a filter that binds a value is the `j`-th to do so, names placeholder
/// `$(k + j + 1)`, and its value is bound at index `j`; an `is` filter names none.
pub open spec fn numbered(
    cols: Seq<ColumnMetaView>,
    fs: Seq<FilterView>,
    k: nat,
    pieces: Seq<Seq<char>>,
    binds: Seq<Seq<char>>,
    i: int,
) -> bool {
    let f = fs[i];
    let j = bind_count(fs.take(i));
    if binds_value(f) {
        &&& pieces[i] == quoted(f.column) + operator_sql(f.op) + placeholder(k + j + 1, filter_cast(cols, f))
        &&& binds[j as int] == filter_value(f)
    } else {
        pieces[i] == quoted(f.column) + " IS NULL"@ || pieces[i] == quoted(f.column) + " IS NOT NULL"@
    }
}

proof fn lemma_bind_count_step(fs: Seq<FilterView>, i: int)
    requires
        0 <= i < fs.len(),
    ensures
        bind_count(fs.take(i + 1)) == bind_count(fs.take(i)) + if binds_value(fs[i]) { 1nat } else { 0nat },
        bind_count(fs.take(i + 1)) <= bind_count(fs),
    decreases fs.len(),
{
    assert(fs.take(i + 1).drop_last() =~= fs.take(i));
    if i + 1 == fs.len() {
        assert(fs.take(i + 1) =~= fs);
    } else {
        let f0 = fs.drop_last();
        lemma_bind_count_step(f0, i);
        assert(f0.take(i + 1) =~= fs.take(i + 1));
    }
}

/// The placeholders of a `WHERE` fragment are numbered in order: the filters that
/// bind a value name `$(k + 1)`, `$(k + 2)`, ... in turn, each bound value sits at
/// its placeholder's index, and as many values are bound as filters bind.
pub proof fn lemma_where_numbering(cols: Seq<ColumnMetaView>, fs: Seq<FilterView>, k: nat)
    ensures
        where_parts(cols, fs, k).0 matches Ok(pieces) ==> {
            &&& where_parts(cols, fs, k).1.len() == bind_count(fs)
            &&& forall|i: int| 0 <= i < fs.len() ==> #[trigger] numbered(cols, fs, k, pieces, where_parts(cols, fs, k).1, i)
        },
    decreases fs.len(),
{
    if fs.len() > 0 {
        let f0 = fs.drop_last();
        lemma_where_numbering(cols, f0, k);
        lemma_where_columns(cols, fs, k);
        if let Ok(pieces) = where_parts(cols, fs, k).0 {
            let pieces0 = where_parts(cols, f0, k).0->Ok_0;
            let pushed0 = where_parts(cols, f0, k).1;
            let binds = where_parts(cols, fs, k).1;
            let n = fs.len() - 1;
            assert(fs.last() == fs[n]);
            assert(fs.take(n) =~= f0);
            assert forall|i: int| 0 <= i < fs.len() implies #[trigger] numbered(cols, fs, k, pieces, binds, i) by {
                if i < n {
                    assert(numbered(cols, f0, k, pieces0, pushed0, i));
                    assert(fs[i] == f0[i]);
                    assert(f0.take(i) =~= fs.take(i));
                    assert(pieces[i] == pieces0[i]);
                    lemma_bind_count_step(f0, i);
                    if binds_value(fs[i]) {
                        assert(binds[bind_count(fs.take(i)) as int] == pushed0[bind_count(fs.take(i)) as int]);
                    }
                } else {
                    assert(pieces[i] == pieces.last());
                    if binds_value(fs[i]) {
                        assert(binds[pushed0.len() as int] == filter_value(fs[i]));
                    }
                }
            }
        }
    }
}

/// The values bound by a `SELECT` are numbered `$1` to `$n` in order: first the
/// values of the filters that bind one, as `lemma_where_numbering` numbers them from
/// `$1`, then the `LIMIT`, then the `OFFSET` (whose markers the statement numbers
/// `$(nw + 1)` and the next).
pub proof fn lemma_select_numbering(meta: TableMetaView, opts: QueryOptionsView)
    ensures
        select_sql(meta, opts) matches Ok(x) ==> {
            let nw = bind_count(opts.filters);
            let nl: nat = if opts.limit is Some { 1 } else { 0 };
            &&& x.1.len() == nw + nl + if opts.offset is Some { 1nat } else { 0nat }
            &&& where_parts(meta.columns, opts.filters, 0).0 is Ok
            &&& forall|i: int|
                0 <= i < opts.filters.len() ==> #[trigger] numbered(
                    meta.columns,
                    opts.filters,
                    0,
                    where_parts(meta.columns, opts.filters, 0).0->Ok_0,
                    x.1,
                    i,
                )
            &&& (opts.limit matches Some(l) ==> x.1[nw as int] == int_decimal(l as int))
            &&& (opts.offset matches Some(o) ==> x.1[(nw + nl) as int] == int_decimal(o as int))
        },
{
    lemma_where_numbering(meta.columns, opts.filters, 0);
    if let Ok(x) = select_sql(meta, opts) {
        let fs = opts.filters;
        let pieces = where_parts(meta.columns, fs, 0).0->Ok_0;
        let wb = where_parts(meta.columns, fs, 0).1;
        assert forall|i: int| 0 <= i < fs.len() implies #[trigger] numbered(meta.columns, fs, 0, pieces, x.1, i) by {
            assert(numbered(meta.columns, fs, 0, pieces, wb, i));
            lemma_bind_count_step(fs, i);
            if binds_value(fs[i]) {
                assert(x.1[bind_count(fs.take(i)) as int] == wb[bind_count(fs.take(i)) as int]);
            }
        }
    }
}

/// Two lists of filters that differ at most in the values that are bound: same
/// columns, same operators, a value everywhere, and the same value for `is`.
pub open spec fn same_shape(a: Seq<FilterView>, b: Seq<FilterView>) -> bool {
    &&& a.len() == b.len()
    &&& forall|i: int|
        0 <= i < a.len() ==> {
            &&& (#[trigger] a[i]).column == b[i].column
            &&& a[i].op == b[i].op
            &&& a[i].value is Some
            &&& b[i].value is Some
            &&& (a[i].op == FilterOp::Is ==> a[i].value == b[i].value)
        }
}

proof fn lemma_filter_value_independent(cols: Seq<ColumnMetaView>, a: FilterView, b: FilterView, k: nat)
    requires
        a.column == b.column,
        a.op == b.op,
        a.value is Some,
        b.value is Some,
        a.op == FilterOp::Is ==> a.value == b.value,
    ensures
        filter_sql(cols, a, k) is Err ==> filter_sql(cols, a, k) == filter_sql(cols, b, k),
        filter_sql(cols, a, k) is Ok <==> filter_sql(cols, b, k) is Ok,
        filter_sql(cols, a, k) matches Ok(x) ==> filter_sql(cols, b, k) matches Ok(y) && x.0 == y.0
            && x.1.len() == y.1.len(),
{
}

/// Filter values never reach the text of a `WHERE` fragment: filters that differ only
/// in their bound values give the same text (or the same error) and as many values.
pub proof fn lemma_where_value_independent(cols: Seq<ColumnMetaView>, a: Seq<FilterView>, b: Seq<FilterView>, k: nat)
    requires
        same_shape(a, b),
    ensures
        where_parts(cols, a, k).0 == where_parts(cols, b, k).0,
        where_parts(cols, a, k).1.len() == where_parts(cols, b, k).1.len(),
    decreases a.len(),
{
    if a.len() > 0 {
        let (a0, b0) = (a.drop_last(), b.drop_last());
        assert(same_shape(a0, b0)) by {
            assert forall|i: int| 0 <= i < a0.len() implies {
                &&& (#[trigger] a0[i]).column == b0[i].column
                &&& a0[i].op == b0[i].op
                &&& a0[i].value is Some
                &&& b0[i].value is Some
                &&& (a0[i].op == FilterOp::Is ==> a0[i].value == b0[i].value)
            } by {
                assert(a0[i] == a[i]);
                assert(b0[i] == b[i]);
            }
        }
        lemma_where_value_independent(cols, a0, b0, k);
        let n = a.len() - 1;
        assert(a.last() == a[n]);
        assert(b.last() == b[n]);
        let pushed = where_parts(cols, a0, k).1;
        lemma_filter_value_independent(cols, a.last(), b.last(), k + pushed.len());
    }
}

/// Every column of a projection that was built is a known column.
pub proof fn lemma_select_list_columns(cols: Seq<ColumnMetaView>, sel: Seq<Seq<char>>)
    ensures
        select_list(cols, sel) is Ok ==> forall|i: int| 0 <= i < sel.len() ==> known_column(cols, #[trigger] sel[i]),
    decreases sel.len(),
{
    if sel.len() > 0 {
        lemma_select_list_columns(cols, sel.drop_last());
        if select_list(cols, sel) is Ok {
            assert forall|i: int| 0 <= i < sel.len() implies known_column(cols, #[trigger] sel[i]) by {
                if i < sel.len() - 1 {
                    assert(sel[i] == sel.drop_last()[i]);
                }
            }
        }
    }
}

/// A `SELECT` that was built names only known columns: in its projection, its
/// filters and its ordering.
pub proof fn lemma_select_columns(meta: TableMetaView, opts: QueryOptionsView)
    ensures
        select_sql(meta, opts) is Ok ==> {
            &&& (opts.select matches Some(s) ==> forall|i: int|
                0 <= i < s.len() ==> known_column(meta.columns, #[trigger] s[i]))
            &&& (opts.order_by matches Some(o) ==> known_column(meta.columns, o.0))
            &&& forall|i: int| 0 <= i < opts.filters.len() ==> known_column(meta.columns, #[trigger] opts.filters[i].column)
        },
{
    lemma_where_columns(meta.columns, opts.filters, 0);
    if let Some(s) = opts.select {
        lemma_select_list_columns(meta.columns, s);
    }
}

/// Query options that differ at most in the values that are bound: the same
/// projection and ordering, a limit and an offset in the same places, and filters of
/// the same shape.
pub open spec fn same_statement_shape(a: QueryOptionsView, b: QueryOptionsView) -> bool {
    &&& a.select == b.select
    &&& a.order_by == b.order_by
    &&& (a.limit is Some) == (b.limit is Some)
    &&& (a.offset is Some) == (b.offset is Some)
    &&& same_shape(a.filters, b.filters)
}

/// Values never reach the text of a `SELECT`: options that differ only in bound
/// values (filter values, limit, offset) give the same statement text (or the same
/// error) and as many bound values.
pub proof fn lemma_select_value_independent(meta: TableMetaView, a: QueryOptionsView, b: QueryOptionsView)
    requires
        same_statement_shape(a, b),
    ensures
        select_sql(meta, a) is Ok <==> select_sql(meta, b) is Ok,
        select_sql(meta, a) is Err ==> select_sql(meta, a) == select_sql(meta, b),
        select_sql(meta, a) matches Ok(x) ==> select_sql(meta, b) matches Ok(y) && x.0 == y.0
            && x.1.len() == y.1.len(),
{
    lemma_where_value_independent(meta.columns, a.filters, b.filters, 0);
}

/// A `DELETE` that was built has at least one filter, and its filters name known
/// columns.
pub proof fn lemma_delete_guarded(meta: TableMetaView, opts: QueryOptionsView)
    ensures
        delete_sql(meta, opts) is Ok ==> opts.filters.len() > 0 && forall|i: int|
            0 <= i < opts.filters.len() ==> known_column(meta.columns, #[trigger] opts.filters[i].column),
{
    lemma_where_columns(meta.columns, opts.filters, 0);
}

/// Values never reach the text of a `DELETE`.
pub proof fn lemma_delete_value_independent(meta: TableMetaView, a: QueryOptionsView, b: QueryOptionsView)
    requires
        same_shape(a.filters, b.filters),
    ensures
        delete_sql(meta, a) is Ok <==> delete_sql(meta, b) is Ok,
        delete_sql(meta, a) is Err ==> delete_sql(meta, a) == delete_sql(meta, b),
        delete_sql(meta, a) matches Ok(x) ==> delete_sql(meta, b) matches Ok(y) && x.0 == y.0
            && x.1.len() == y.1.len(),
{
    lemma_where_value_independent(meta.columns, a.filters, b.filters, 0);
}

/// Two lists of fields that differ at most in the values that are bound: the same
/// names in the same order, and `null` in the same places.
pub open spec fn same_fields_shape(a: Seq<(Seq<char>, JsonValueView)>, b: Seq<(Seq<char>, JsonValueView)>) -> bool {
    &&& a.len() == b.len()
    &&& forall|i: int| 0 <= i < a.len() ==> (#[trigger] a[i]).0 == b[i].0 && (a[i].1 is Null <==> b[i].1 is Null)
}

/// Values never reach the text of the assignments of an `UPDATE`.
pub proof fn lemma_set_parts_value_independent(
    meta: TableMetaView,
    a: Seq<(Seq<char>, JsonValueView)>,
    b: Seq<(Seq<char>, JsonValueView)>,
    authenticated: bool,
)
    requires
        same_fields_shape(a, b),
    ensures
        set_parts(meta, a, authenticated) is Ok <==> set_parts(meta, b, authenticated) is Ok,
        set_parts(meta, a, authenticated) is Err ==> set_parts(meta, a, authenticated) == set_parts(meta, b, authenticated),
        set_parts(meta, a, authenticated) matches Ok(x) ==> set_parts(meta, b, authenticated) matches Ok(y) && x.0 == y.0
            && x.1.len() == y.1.len(),
    decreases a.len(),
{
    if a.len() > 0 {
        let (a0, b0) = (a.drop_last(), b.drop_last());
        assert(same_fields_shape(a0, b0)) by {
            assert forall|i: int| 0 <= i < a0.len() implies (#[trigger] a0[i]).0 == b0[i].0 && (a0[i].1 is Null
                <==> b0[i].1 is Null) by {
                assert(a0[i] == a[i]);
                assert(b0[i] == b[i]);
            }
        }
        lemma_set_parts_value_independent(meta, a0, b0, authenticated);
        let n = a.len() - 1;
        assert(a.last() == a[n]);
        assert(b.last() == b[n]);
    }
}

/// Values never reach the text of an `UPDATE`: bodies whose fields differ only in
/// their non-null values, and filters that differ only in their bound values, give
/// the same statement text (or the same error) and as many bound values.
pub proof fn lemma_update_value_independent(
    meta: TableMetaView,
    fa: Seq<(Seq<char>, JsonValueView)>,
    fb: Seq<(Seq<char>, JsonValueView)>,
    a: QueryOptionsView,
    b: QueryOptionsView,
    authenticated: bool,
)
    requires
        same_fields_shape(fa, fb),
        same_shape(a.filters, b.filters),
    ensures
        ({
            let (ra, rb) = (
                update_sql(meta, JsonBodyView::Object(fa), a, authenticated),
                update_sql(meta, JsonBodyView::Object(fb), b, authenticated),
            );
            &&& ra is Ok <==> rb is Ok
            &&& ra is Err ==> ra == rb
            &&& ra matches Ok(x) ==> rb matches Ok(y) && x.0 == y.0 && x.1.len() == y.1.len()
        }),
{
    lemma_set_parts_value_independent(meta, fa, fb, authenticated);
    if let Ok((pa, ba)) = set_parts(meta, fa, authenticated) {
        let (pb, bb) = set_parts(meta, fb, authenticated)->Ok_0;
        lemma_where_value_independent(meta.columns, a.filters, b.filters, ba.len());
        assert(ba.len() == bb.len());
    }
}

proof fn lemma_field_shape(a: Row, b: Row, k: Seq<char>)
    requires
        same_fields_shape(a, b),
    ensures
        field(a, k) is None <==> field(b, k) is None,
        field(a, k) matches Some(v) ==> field(b, k) matches Some(w) && (v is Null <==> w is Null),
    decreases a.len(),
{
    if a.len() > 0 && a[0].0 != k {
        let (a1, b1) = (a.drop_first(), b.drop_first());
        assert(same_fields_shape(a1, b1)) by {
            assert forall|i: int| 0 <= i < a1.len() implies (#[trigger] a1[i]).0 == b1[i].0 && (a1[i].1 is Null
                <==> b1[i].1 is Null) by {
                assert(a1[i] == a[i + 1]);
                assert(b1[i] == b[i + 1]);
            }
        }
        lemma_field_shape(a1, b1, k);
    }
}

/// Whether the rows of two inserts differ at most in their non-null values.
pub open spec fn same_rows_shape(a: Seq<Row>, b: Seq<Row>) -> bool {
    &&& a.len() == b.len()
    &&& forall|i: int| 0 <= i < a.len() ==> same_fields_shape(#[trigger] a[i], b[i])
}

/// Whether two insert bodies differ at most in their non-null values.
pub open spec fn same_body_shape(a: JsonBodyView, b: JsonBodyView) -> bool {
    match (a, b) {
        (JsonBodyView::Object(x), JsonBodyView::Object(y)) => same_fields_shape(x, y),
        (JsonBodyView::Array(x), JsonBodyView::Array(y)) => {
            &&& x.len() == y.len()
            &&& forall|i: int|
                0 <= i < x.len() ==> (#[trigger] x[i] is None <==> y[i] is None) && (x[i] is Some ==> same_fields_shape(
                    x[i]->Some_0,
                    y[i]->Some_0,
                ))
        },
        (JsonBodyView::Other, JsonBodyView::Other) => true,
        _ => false,
    }
}

proof fn lemma_rows_of_shape(a: JsonBodyView, b: JsonBodyView)
    requires
        same_body_shape(a, b),
    ensures
        insert_rows_of(a) is Ok <==> insert_rows_of(b) is Ok,
        insert_rows_of(a) is Err ==> insert_rows_of(a) == insert_rows_of(b),
        insert_rows_of(a) matches Ok(x) ==> insert_rows_of(b) matches Ok(y) && same_rows_shape(x, y),
{
    if let (JsonBodyView::Array(x), JsonBodyView::Array(y)) = (a, b) {
        if exists|i: int| 0 <= i < x.len() && x[i] is None {
            let i = choose|i: int| 0 <= i < x.len() && x[i] is None;
            assert(y[i] is None);
        }
        if exists|i: int| 0 <= i < y.len() && y[i] is None {
            let i = choose|i: int| 0 <= i < y.len() && y[i] is None;
            assert(x[i] is None);
        }
    }
}

proof fn lemma_flat_keys_shape(a: Seq<Row>, b: Seq<Row>)
    requires
        same_rows_shape(a, b),
    ensures
        flat_keys(a) == flat_keys(b),
    decreases a.len(),
{
    if a.len() > 0 {
        let (a0, b0) = (a.drop_last(), b.drop_last());
        assert(same_rows_shape(a0, b0)) by {
            assert forall|i: int| 0 <= i < a0.len() implies same_fields_shape(#[trigger] a0[i], b0[i]) by {
                assert(a0[i] == a[i]);
                assert(b0[i] == b[i]);
            }
        }
        lemma_flat_keys_shape(a0, b0);
        let n = a.len() - 1;
        assert(same_fields_shape(a[n], b[n]));
        assert(a.last().map_values(|f: (Seq<char>, JsonValueView)| f.0) =~= b.last().map_values(
            |f: (Seq<char>, JsonValueView)| f.0,
        ));
    }
}

proof fn lemma_row_cells_shape(
    cols: Seq<ColumnMetaView>,
    a: Row,
    b: Row,
    cc: Seq<(Seq<char>, Seq<char>)>,
    authenticated: bool,
    uid: int,
    k: nat,
)
    requires
        same_fields_shape(a, b),
    ensures
        !(has_user_id(cols) && authenticated) ==> row_cells(cols, a, cc, authenticated, uid, k) is Ok
            && row_cells(cols, b, cc, authenticated, uid, k) is Ok,
        row_cells(cols, a, cc, authenticated, uid, k) matches Ok(x) ==> (row_cells(
            cols,
            b,
            cc,
            authenticated,
            uid,
            k,
        ) matches Ok(y) ==> x.0 == y.0 && x.1.len() == y.1.len()),
    decreases cc.len(),
{
    if cc.len() > 0 {
        lemma_row_cells_shape(cols, a, b, cc.drop_last(), authenticated, uid, k);
        lemma_field_shape(a, b, cc.last().0);
    }
}

proof fn lemma_rows_values_shape(
    cols: Seq<ColumnMetaView>,
    a: Seq<Row>,
    b: Seq<Row>,
    cc: Seq<(Seq<char>, Seq<char>)>,
    authenticated: bool,
    uid: int,
)
    requires
        same_rows_shape(a, b),
    ensures
        !(has_user_id(cols) && authenticated) ==> rows_values(cols, a, cc, authenticated, uid) is Ok
            && rows_values(cols, b, cc, authenticated, uid) is Ok,
        rows_values(cols, a, cc, authenticated, uid) matches Ok(x) ==> (rows_values(
            cols,
            b,
            cc,
            authenticated,
            uid,
        ) matches Ok(y) ==> x.0 == y.0 && x.1.len() == y.1.len()),
    decreases a.len(),
{
    if a.len() > 0 {
        let (a0, b0) = (a.drop_last(), b.drop_last());
        assert(same_rows_shape(a0, b0)) by {
            assert forall|i: int| 0 <= i < a0.len() implies same_fields_shape(#[trigger] a0[i], b0[i]) by {
                assert(a0[i] == a[i]);
                assert(b0[i] == b[i]);
            }
        }
        lemma_rows_values_shape(cols, a0, b0, cc, authenticated, uid);
        let n = a.len() - 1;
        assert(same_fields_shape(a[n], b[n]));
        assert(a.last() == a[n] && b.last() == b[n]);
        match (rows_values(cols, a0, cc, authenticated, uid), rows_values(cols, b0, cc, authenticated, uid)) {
            (Ok(x), Ok(y)) => {
                lemma_row_cells_shape(cols, a.last(), b.last(), cc, authenticated, uid, x.1.len());
            },
            (Ok(x), Err(_)) => {
                lemma_row_cells_shape(cols, a.last(), b.last(), cc, authenticated, uid, x.1.len());
            },
            (Err(_), Ok(y)) => {
                lemma_row_cells_shape(cols, a.last(), b.last(), cc, authenticated, uid, y.1.len());
            },
            _ => {},
        }
    }
}

/// Values never reach the text of an `INSERT`: bodies that differ only in their
/// non-null values give, when both are built, the same statement text and as many
/// bound values; except on a user-owned table with an authenticated user (where a
/// row may name another owner), one is built exactly when the other is, and they
/// fail with the same error.
pub proof fn lemma_insert_value_independent(
    meta: TableMetaView,
    a: JsonBodyView,
    b: JsonBodyView,
    authenticated: bool,
    uid: int,
)
    requires
        same_body_shape(a, b),
    ensures
        insert_sql(meta, a, authenticated, uid) matches Ok(x) ==> (insert_sql(meta, b, authenticated, uid) matches Ok(
            y,
        ) ==> x.0 == y.0 && x.1.len() == y.1.len()),
        !(has_user_id(meta.columns) && authenticated) ==> {
            &&& insert_sql(meta, a, authenticated, uid) is Ok <==> insert_sql(meta, b, authenticated, uid) is Ok
            &&& insert_sql(meta, a, authenticated, uid) is Err ==> insert_sql(meta, a, authenticated, uid)
                == insert_sql(meta, b, authenticated, uid)
        },
{
    lemma_rows_of_shape(a, b);
    if let Ok(ra) = insert_rows_of(a) {
        let rb = insert_rows_of(b)->Ok_0;
        lemma_flat_keys_shape(ra, rb);
        assert(insert_columns(meta.columns, ra, authenticated) == insert_columns(meta.columns, rb, authenticated));
        if let Ok(all) = insert_columns(meta.columns, ra, authenticated) {
            if let Ok(cc) = casts_of(meta.columns, all) {
                lemma_rows_values_shape(meta.columns, ra, rb, cc, authenticated, uid);
            }
        }
    }
}

/// An insert builds one `VALUES` tuple per row of the body, so that every object
/// of a bulk insert is inserted.
pub proof fn lemma_one_tuple_per_row(
    cols: Seq<ColumnMetaView>,
    rows: Seq<Row>,
    cc: Seq<(Seq<char>, Seq<char>)>,
    authenticated: bool,
    uid: int,
)
    ensures
        rows_values(cols, rows, cc, authenticated, uid) matches Ok(x) ==> x.0.len() == rows.len(),
    decreases rows.len(),
{
    if rows.len() > 0 {
        lemma_one_tuple_per_row(cols, rows.drop_last(), cc, authenticated, uid);
    }
}

/// Whether an `UPDATE` may set the field `name`: a known column that is not part of
/// the primary key, and not `user_id` of a user-owned table for an authenticated user.
pub open spec fn settable(meta: TableMetaView, name: Seq<char>, authenticated: bool) -> bool {
    &&& known_column(meta.columns, name)
    &&& !meta.primary_key.contains(name)
    &&& !(has_user_id(meta.columns) && authenticated && name == "user_id"@)
}

/// Every field of the assignments that were built may be set.
pub proof fn lemma_set_parts_settable(
    meta: TableMetaView,
    fields: Seq<(Seq<char>, JsonValueView)>,
    authenticated: bool,
)
    ensures
        set_parts(meta, fields, authenticated) matches Ok(r) ==> r.0.len() == fields.len() && forall|i: int|
            0 <= i < fields.len() ==> settable(meta, (#[trigger] fields[i]).0, authenticated),
    decreases fields.len(),
{
    if fields.len() > 0 {
        lemma_set_parts_settable(meta, fields.drop_last(), authenticated);
        if set_parts(meta, fields, authenticated) is Ok {
            assert forall|i: int| 0 <= i < fields.len() implies settable(meta, (#[trigger] fields[i]).0, authenticated) by {
                if i < fields.len() - 1 {
                    assert(fields[i] == fields.drop_last()[i]);
                }
            }
        }
    }
}

/// An `UPDATE` that was built has a non-empty object body whose fields may all be
/// set, and at least one filter, each naming a known column.
pub proof fn lemma_update_guarded(meta: TableMetaView, body: JsonBodyView, opts: QueryOptionsView, authenticated: bool)
    ensures
        update_sql(meta, body, opts, authenticated) is Ok ==> {
            &&& body matches JsonBodyView::Object(fields) && fields.len() > 0 && forall|i: int|
                0 <= i < fields.len() ==> settable(meta, (#[trigger] fields[i]).0, authenticated)
            &&& opts.filters.len() > 0
            &&& forall|i: int| 0 <= i < opts.filters.len() ==> known_column(meta.columns, #[trigger] opts.filters[i].column)
        },
{
    if let JsonBodyView::Object(fields) = body {
        lemma_set_parts_settable(meta, fields, authenticated);
        if let Ok((parts, set_binds)) = set_parts(meta, fields, authenticated) {
            lemma_where_columns(meta.columns, opts.filters, set_binds.len());
        }
    }
}

/// The columns collected from the keys of an insert: strictly increasing, each a
/// known column, and exactly the keys.
pub proof fn lemma_collect_columns(cols: Seq<ColumnMetaView>, keys: Seq<Seq<char>>)
    ensures
        collect_columns(cols, keys) matches Ok(acc) ==> {
            &&& strictly_sorted(acc)
            &&& forall|y: Seq<char>| #[trigger] acc.contains(y) <==> keys.contains(y)
            &&& forall|i: int| 0 <= i < acc.len() ==> known_column(cols, #[trigger] acc[i])
        },
    decreases keys.len(),
{
    if keys.len() > 0 {
        let k0 = keys.drop_last();
        lemma_collect_columns(cols, k0);
        if let Ok(acc) = collect_columns(cols, keys) {
            let prev = collect_columns(cols, k0)->Ok_0;
            let k = keys.last();
            assert(acc == insert_sorted(prev, k));
            lemma_insert_sorted_sorted(prev, k);
            assert forall|y: Seq<char>| #[trigger] acc.contains(y) <==> keys.contains(y) by {
                lemma_insert_sorted_contains(prev, k, y);
                if k0.contains(y) {
                    let i = choose|i: int| 0 <= i < k0.len() && k0[i] == y;
                    assert(keys[i] == y);
                }
                if keys.contains(y) && y != k {
                    let i = choose|i: int| 0 <= i < keys.len() && keys[i] == y;
                    assert(i < keys.len() - 1);
                    assert(k0[i] == y);
                }
                assert(keys[keys.len() - 1] == k);
            }
            assert forall|i: int| 0 <= i < acc.len() implies known_column(cols, #[trigger] acc[i]) by {
                assert(acc.contains(acc[i]));
                lemma_insert_sorted_contains(prev, k, acc[i]);
                if acc[i] != k {
                    let j = choose|j: int| 0 <= j < prev.len() && prev[j] == acc[i];
                    assert(known_column(cols, prev[j]));
                }
            }
        }
    }
}

/// The keys of the rows are all among `flat_keys`.
proof fn lemma_flat_keys_contains(rows: Seq<Row>, i: int, j: int)
    requires
        0 <= i < rows.len(),
        0 <= j < rows[i].len(),
    ensures
        flat_keys(rows).contains(rows[i][j].0),
    decreases rows.len(),
{
    let last = rows.last().map_values(|f: (Seq<char>, JsonValueView)| f.0);
    let fk = flat_keys(rows);
    assert(fk == flat_keys(rows.drop_last()) + last);
    if i == rows.len() - 1 {
        assert(last[j] == rows[i][j].0);
        assert(fk[flat_keys(rows.drop_last()).len() + j] == rows[i][j].0);
    } else {
        assert(rows.drop_last()[i] == rows[i]);
        lemma_flat_keys_contains(rows.drop_last(), i, j);
        let k = choose|k: int| 0 <= k < flat_keys(rows.drop_last()).len() && flat_keys(rows.drop_last())[k] == rows[i][j].0;
        assert(fk[k] == rows[i][j].0);
    }
}

/// The columns of an insert are strictly increasing (hence distinct), each names a
/// known column, every key of every row is among them, and on a user-owned table
/// with an authenticated user `user_id` is among them.
pub proof fn lemma_insert_columns(cols: Seq<ColumnMetaView>, rows: Seq<Row>, authenticated: bool)
    ensures
        insert_columns(cols, rows, authenticated) matches Ok(all) ==> {
            &&& strictly_sorted(all)
            &&& forall|i: int| 0 <= i < all.len() ==> known_column(cols, #[trigger] all[i])
            &&& forall|i: int, j: int|
                0 <= i < rows.len() && 0 <= j < rows[i].len() ==> all.contains(#[trigger] rows[i][j].0)
            &&& (has_user_id(cols) && authenticated ==> all.contains("user_id"@))
        },
{
    let keys = flat_keys(rows);
    lemma_collect_columns(cols, keys);
    if let Ok(all) = insert_columns(cols, rows, authenticated) {
        let acc = collect_columns(cols, keys)->Ok_0;
        assert forall|i: int, j: int| 0 <= i < rows.len() && 0 <= j < rows[i].len() implies all.contains(
            #[trigger] rows[i][j].0) by {
            lemma_flat_keys_contains(rows, i, j);
            assert(acc.contains(rows[i][j].0));
            if has_user_id(cols) && authenticated {
                lemma_insert_sorted_contains(acc, "user_id"@, rows[i][j].0);
            }
        }
        if has_user_id(cols) && authenticated {
            let u = "user_id"@;
            lemma_insert_sorted_sorted(acc, u);
            lemma_insert_sorted_contains(acc, u, u);
            assert(is_identifier(u)) by {
                reveal_strlit("user_id");
            }
            assert forall|i: int| 0 <= i < all.len() implies known_column(cols, #[trigger] all[i]) by {
                assert(all.contains(all[i]));
                lemma_insert_sorted_contains(acc, u, all[i]);
                if all[i] != u {
                    let j = choose|j: int| 0 <= j < acc.len() && acc[j] == all[i];
                    assert(known_column(cols, acc[j]));
                }
            }
        }
    }
}

/// On a user-owned table with an authenticated user, the `user_id` entry of a row
/// binds the user's id, and a row that names another user as owner is refused.
pub proof fn lemma_owner_bound(cols: Seq<ColumnMetaView>, row: Row, cast: Seq<char>, uid: int, k: nat)
    requires
        has_user_id(cols),
    ensures
        value_cell(cols, row, "user_id"@, cast, true, uid, k) matches Ok(x) ==> x.1 == seq![int_decimal(uid)],
        (field(row, "user_id"@) matches Some(v) && !(v is Null) && bind_text(v) != int_decimal(uid)) ==> (
        value_cell(cols, row, "user_id"@, cast, true, uid, k) matches Err(e) && e == user_id_override()),
{
}

proof fn lemma_cast_varchar()
    ensures
        cast_for("character varying"@) == "text"@,
{
    reveal_strlit("smallint");
    reveal_strlit("integer");
    reveal_strlit("bigint");
    reveal_strlit("real");
    reveal_strlit("double precision");
    reveal_strlit("numeric");
    reveal_strlit("decimal");
    reveal_strlit("boolean");
    reveal_strlit("character varying");
    reveal_strlit("character");
    reveal_strlit("text");
    reveal_strlit("citext");
    assert("smallint"@.len() == 8 && "integer"@.len() == 7 && "bigint"@.len() == 6 && "real"@.len() == 4);
    assert("double precision"@.len() == 16 && "numeric"@.len() == 7 && "decimal"@.len() == 7);
    assert("boolean"@.len() == 7 && "character varying"@.len() == 17 && "character"@.len() == 9);
    assert("text"@.len() == 4 && "citext"@.len() == 6);
}

proof fn lemma_cast_character()
    ensures
        cast_for("character"@) == "text"@,
{
    reveal_strlit("smallint");
    reveal_strlit("integer");
    reveal_strlit("bigint");
    reveal_strlit("real");
    reveal_strlit("double precision");
    reveal_strlit("numeric");
    reveal_strlit("decimal");
    reveal_strlit("boolean");
    reveal_strlit("character varying");
    reveal_strlit("character");
    reveal_strlit("text");
    reveal_strlit("citext");
    assert("smallint"@.len() == 8 && "integer"@.len() == 7 && "bigint"@.len() == 6 && "real"@.len() == 4);
    assert("double precision"@.len() == 16 && "numeric"@.len() == 7 && "decimal"@.len() == 7);
    assert("boolean"@.len() == 7 && "character varying"@.len() == 17 && "character"@.len() == 9);
    assert("text"@.len() == 4 && "citext"@.len() == 6);
}

proof fn lemma_cast_text()
    ensures
        cast_for("text"@) == "text"@,
{
    reveal_strlit("smallint");
    reveal_strlit("integer");
    reveal_strlit("bigint");
    reveal_strlit("real");
    reveal_strlit("double precision");
    reveal_strlit("numeric");
    reveal_strlit("decimal");
    reveal_strlit("boolean");
    reveal_strlit("character varying");
    reveal_strlit("character");
    reveal_strlit("text");
    reveal_strlit("citext");
    assert("smallint"@.len() == 8 && "integer"@.len() == 7 && "bigint"@.len() == 6 && "real"@.len() == 4);
    assert("double precision"@.len() == 16 && "numeric"@.len() == 7 && "decimal"@.len() == 7);
    assert("boolean"@.len() == 7 && "character varying"@.len() == 17 && "character"@.len() == 9);
    assert("text"@.len() == 4 && "citext"@.len() == 6);
    assert("text"@[0] != "real"@[0]);
}

proof fn lemma_cast_citext()
    ensures
        cast_for("citext"@) == "text"@,
{
    reveal_strlit("smallint");
    reveal_strlit("integer");
    reveal_strlit("bigint");
    reveal_strlit("real");
    reveal_strlit("double precision");
    reveal_strlit("numeric");
    reveal_strlit("decimal");
    reveal_strlit("boolean");
    reveal_strlit("character varying");
    reveal_strlit("character");
    reveal_strlit("text");
    reveal_strlit("citext");
    assert("smallint"@.len() == 8 && "integer"@.len() == 7 && "bigint"@.len() == 6 && "real"@.len() == 4);
    assert("double precision"@.len() == 16 && "numeric"@.len() == 7 && "decimal"@.len() == 7);
    assert("boolean"@.len() == 7 && "character varying"@.len() == 17 && "character"@.len() == 9);
    assert("text"@.len() == 4 && "citext"@.len() == 6);
    assert("citext"@[0] != "bigint"@[0]);
}

/// A text-like column (the only kind that `LIKE` / `ILIKE` accept) is cast as `text`.
pub proof fn lemma_texty_cast_text(dt: Seq<char>)
    ensures
        texty(dt) ==> pg_cast(dt) == "text"@,
{
    lemma_cast_varchar();
    lemma_cast_character();
    lemma_cast_text();
    lemma_cast_citext();
}

} // verus!
