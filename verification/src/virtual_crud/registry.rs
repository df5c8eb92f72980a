//! Registry decisions: which tables are exposed and whether they require
//! authentication.

use vstd::prelude::*;
use vstd::string::*;

use crate::text::{append_decimal, chars_of, decimal, is_digit, lemma_decimal_digits, push_char};
use crate::general::errors::{concat2, concat3, result_view, ApiError, ApiErrorView, ApiResult};
use super::db_errors::CrudOp;
use super::types::{ColumnMeta, OxydTableConfig, OxydTableConfigView, TableMeta, TableMetaView};

verus! {

/// The cache key of the registry's existence.
pub open spec fn registry_key() -> Seq<char> {
    "oxyd_internal._oxyd_tables"@
}

/// The cache key of the registry's existence.
pub fn oxyd_tables_exists_key() -> (r: &'static str)
    ensures
        r@ == registry_key(),
{
    "oxyd_internal._oxyd_tables"
}

/// The cache key of a table's metadata: the number of characters of the schema, a
/// `:`, the schema, a `.` and the table. The length makes the key tell every schema
/// and table apart, whatever characters they hold.
pub open spec fn meta_key(schema: Seq<char>, table: Seq<char>) -> Seq<char> {
    decimal(schema.len()) + ":"@ + schema + "."@ + table
}

/// The cache key of a table's metadata.
pub fn meta_cache_key(schema: &str, table: &str) -> (r: String)
    ensures
        r@ == meta_key(schema@, table@),
{
    let n = chars_of(schema).len();
    let mut r = String::new();
    append_decimal(&mut r, n as u128);
    push_char(&mut r, ':');
    r.append(schema);
    push_char(&mut r, '.');
    r.append(table);
    proof {
        reveal_strlit(":");
        reveal_strlit(".");
    }
    assert(r@ =~= meta_key(schema@, table@));
    r
}

/// Two tables share a metadata cache key only when they are the same table.
pub proof fn lemma_meta_key_injective(s1: Seq<char>, t1: Seq<char>, s2: Seq<char>, t2: Seq<char>)
    requires
        meta_key(s1, t1) == meta_key(s2, t2),
    ensures
        s1 == s2,
        t1 == t2,
{
    let (d1, d2) = (decimal(s1.len()), decimal(s2.len()));
    let k = meta_key(s1, t1);
    reveal_strlit(":");
    reveal_strlit(".");
    lemma_decimal_digits(s1.len());
    lemma_decimal_digits(s2.len());
    assert(k[d1.len() as int] == ':');
    assert(meta_key(s2, t2)[d2.len() as int] == ':');
    if d1.len() < d2.len() {
        assert(meta_key(s2, t2)[d1.len() as int] == d2[d1.len() as int]);
        assert(is_digit(d2[d1.len() as int]));
        assert(false);
    }
    if d2.len() < d1.len() {
        assert(k[d2.len() as int] == d1[d2.len() as int]);
        assert(is_digit(d1[d2.len() as int]));
        assert(false);
    }
    assert(d1 =~= k.take(d1.len() as int));
    assert(d2 =~= meta_key(s2, t2).take(d2.len() as int));
    assert(s1.len() == s2.len());
    let start: int = d1.len() as int + 1;
    assert(s1 =~= k.subrange(start, start + s1.len() as int));
    assert(s2 =~= meta_key(s2, t2).subrange(start, start + s2.len() as int));
    assert(t1 =~= k.skip(start + s1.len() as int + 1));
    assert(t2 =~= meta_key(s2, t2).skip(start + s2.len() as int + 1));
}

/// The configuration of a table that the registry does not list: not exposed,
/// authentication required, no operation allowed.
pub open spec fn locked_down(table: Seq<char>) -> OxydTableConfigView {
    OxydTableConfigView {
        table_name: table,
        is_exposed: false,
        require_auth: true,
        allow_insert: false,
        allow_update: false,
        allow_delete: false,
        description: None,
    }
}

/// The view of an optional configuration.
pub open spec fn config_view(c: Option<OxydTableConfig>) -> Option<OxydTableConfigView> {
    match c {
        Some(x) => Some(x@),
        None => None,
    }
}

/// The configuration of a table: none when the registry does not exist (development
/// mode), the registered row when there is one, else the locked-down configuration.
pub fn table_config_from(registry_exists: bool, row: Option<OxydTableConfig>, table: &str) -> (r: Option<OxydTableConfig>)
    ensures
        !registry_exists ==> r is None,
        registry_exists && row is Some ==> config_view(r) == config_view(row),
        registry_exists && row is None ==> config_view(r) == Some(locked_down(table@)),
{
    if !registry_exists {
        return None;
    }
    match row {
        Some(cfg) => Some(cfg),
        None => Some(OxydTableConfig {
            table_name: String::from_str(table),
            is_exposed: false,
            require_auth: true,
            allow_insert: false,
            allow_update: false,
            allow_delete: false,
            description: None,
        }),
    }
}

/// The error for a table that is not exposed.
pub open spec fn not_exposed(table: Seq<char>) -> ApiErrorView {
    ApiErrorView::NotFound("table '"@ + table + "' not exposed"@)
}

/// Whether a table may be served and, if so, whether it requires authentication:
/// without a registry every table is served without authentication; a table that is
/// not exposed is answered as not found.
pub fn ensure_exposed(cfg: &Option<OxydTableConfig>, table: &str) -> (r: ApiResult<bool>)
    ensures
        match config_view(*cfg) {
            None => r matches Ok(b) && !b,
            Some(c) => if c.is_exposed {
                r matches Ok(b) && b == c.require_auth
            } else {
                r matches Err(e) && e@ == not_exposed(table@)
            },
        },
{
    match cfg {
        None => Ok(false),
        Some(c) => {
            if !c.is_exposed {
                return Err(ApiError::NotFound(concat3("table '", table, "' not exposed")));
            }
            Ok(c.require_auth)
        },
    }
}

/// Whether a configuration enables an operation: reading always, writing as its
/// `allow_insert`, `allow_update` and `allow_delete` say.
pub open spec fn operation_allowed(c: OxydTableConfigView, op: CrudOp) -> bool {
    match op {
        CrudOp::Select => true,
        CrudOp::Insert => c.allow_insert,
        CrudOp::Update => c.allow_update,
        CrudOp::Delete => c.allow_delete,
    }
}

/// The error for an operation that the registry does not enable on a table.
pub open spec fn operation_disabled(op: CrudOp) -> ApiErrorView {
    ApiErrorView::Forbidden(
        match op {
            CrudOp::Select => "select"@,
            CrudOp::Insert => "insert"@,
            CrudOp::Update => "update"@,
            CrudOp::Delete => "delete"@,
        } + " is not enabled on this table"@,
    )
}

/// Whether the registry enables an operation on a table; without a registry
/// (development mode) every operation is enabled.
pub fn check_operation(cfg: &Option<OxydTableConfig>, op: CrudOp) -> (r: ApiResult<()>)
    ensures
        match config_view(*cfg) {
            None => r is Ok,
            Some(c) => if operation_allowed(c, op) {
                r is Ok
            } else {
                r matches Err(e) && e@ == operation_disabled(op)
            },
        },
{
    match cfg {
        None => Ok(()),
        Some(c) => {
            let (allowed, name) = match op {
                CrudOp::Select => (true, "select"),
                CrudOp::Insert => (c.allow_insert, "insert"),
                CrudOp::Update => (c.allow_update, "update"),
                CrudOp::Delete => (c.allow_delete, "delete"),
            };
            if allowed {
                Ok(())
            } else {
                Err(ApiError::Forbidden(concat2(name, " is not enabled on this table")))
            }
        },
    }
}

/// The error for a table that does not exist.
pub open spec fn table_missing(table: Seq<char>) -> ApiErrorView {
    ApiErrorView::NotFound("table '"@ + table + "' not found"@)
}

/// The metadata of `schema.table` from what the catalog returned: not found when
/// the table does not exist.
pub fn table_meta_from(
    exists: bool,
    schema: &str,
    table: &str,
    columns: Vec<ColumnMeta>,
    primary_key: Vec<String>,
) -> (r: ApiResult<TableMeta>)
    ensures
        !exists ==> (r matches Err(e) && e@ == table_missing(table@)),
        exists ==> (r matches Ok(m) && m.schema@ == schema@ && m.name@ == table@ && m.columns == columns
            && m.primary_key == primary_key),
{
    if !exists {
        return Err(ApiError::NotFound(concat3("table '", table, "' not found")));
    }
    Ok(TableMeta {
        schema: String::from_str(schema),
        name: String::from_str(table),
        primary_key: primary_key,
        columns: columns,
    })
}

} // verus!
