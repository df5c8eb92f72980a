use oxyd_core::auth::types::CurrentUser;
use oxyd_core::general::errors::ApiError;
use oxyd_core::virtual_crud::db_errors::{map_db_error, rls_context_failed, CrudOp, DbFailure};
use oxyd_core::virtual_crud::delete::build_delete_sql;
use oxyd_core::virtual_crud::insert::build_insert_sql;
use oxyd_core::virtual_crud::select::build_select_sql;
use oxyd_core::virtual_crud::types::{ColumnMeta, Filter, FilterOp, JsonBody, JsonValue, QueryOptions, TableMeta};
use oxyd_core::virtual_crud::update::build_update_sql;

fn col(name: &str, dt: &str) -> ColumnMeta {
    ColumnMeta { name: name.to_string(), data_type: dt.to_string(), is_nullable: true, has_default: false }
}

fn posts() -> TableMeta {
    TableMeta {
        schema: "public".to_string(),
        name: "posts".to_string(),
        primary_key: vec!["id".to_string()],
        columns: vec![
            col("id", "integer"),
            col("title", "text"),
            col("content", "text"),
            col("created_at", "timestamp with time zone"),
            col("user_id", "integer"),
        ],
    }
}

fn notes() -> TableMeta {
    TableMeta {
        schema: "app".to_string(),
        name: "notes".to_string(),
        primary_key: vec!["id".to_string()],
        columns: vec![col("id", "bigint"), col("body", "text")],
    }
}

fn filter(c: &str, op: FilterOp, v: &str) -> Filter {
    Filter { column: c.to_string(), op, value: Some(v.to_string()) }
}

fn user(id: i64) -> Option<CurrentUser> {
    Some(CurrentUser { id, email: format!("u{}@example.com", id) })
}

fn obj(fields: &[(&str, JsonValue)]) -> Vec<(String, JsonValue)> {
    fields.iter().map(|(k, v)| (k.to_string(), v.clone_value())).collect()
}

trait CloneValue {
    fn clone_value(&self) -> JsonValue;
}

impl CloneValue for JsonValue {
    fn clone_value(&self) -> JsonValue {
        match self {
            JsonValue::Null => JsonValue::Null,
            JsonValue::Str(s) => JsonValue::Str(s.clone()),
            JsonValue::Json(s) => JsonValue::Json(s.clone()),
        }
    }
}

fn s(v: &str) -> JsonValue {
    JsonValue::Str(v.to_string())
}

fn bad_request<T: std::fmt::Debug>(r: Result<T, ApiError>) -> String {
    match r {
        Err(ApiError::BadRequest(m)) => m,
        other => panic!("expected a bad request, got {:?}", other),
    }
}

fn select_text(select: &str, rest: &str) -> String {
    format!(
        "\n        SELECT row_to_json(t) AS data\n        FROM (\n            SELECT {}\n            FROM \"public\".\"posts\"\n            {}\n        ) t\n        ",
        select, rest
    )
}

#[test]
fn build_select_sql_full() {
    let opts = QueryOptions {
        select: Some(vec!["id".to_string(), "title".to_string()]),
        filters: vec![filter("id", FilterOp::Eq, "42")],
        order_by: Some(("created_at".to_string(), true)),
        limit: Some(10),
        offset: Some(20),
    };
    let (sql, binds) = build_select_sql(&posts(), &opts).unwrap();
    assert_eq!(sql, select_text("\"id\", \"title\"", " WHERE \"id\" = $1::int4 ORDER BY \"created_at\" DESC LIMIT $2 OFFSET $3"));
    assert_eq!(binds, vec!["42", "10", "20"]);
}

#[test]
fn build_select_sql_defaults_to_star() {
    let (sql, binds) = build_select_sql(&posts(), &QueryOptions::default()).unwrap();
    assert_eq!(sql, select_text("*", ""));
    assert!(binds.is_empty());
    let opts = QueryOptions { select: Some(vec![]), order_by: Some(("title".to_string(), false)), offset: Some(5), ..QueryOptions::default() };
    let (sql, binds) = build_select_sql(&posts(), &opts).unwrap();
    assert_eq!(sql, select_text("*", " ORDER BY \"title\" ASC OFFSET $1"));
    assert_eq!(binds, vec!["5"]);
}

#[test]
fn build_select_sql_limit_after_filters() {
    let opts = QueryOptions {
        filters: vec![filter("title", FilterOp::Like, "a%"), filter("user_id", FilterOp::Gt, "3")],
        limit: Some(1),
        ..QueryOptions::default()
    };
    let (sql, binds) = build_select_sql(&posts(), &opts).unwrap();
    assert_eq!(sql, select_text("*", " WHERE \"title\" LIKE $1::text AND \"user_id\" > $2::int4 LIMIT $3"));
    assert_eq!(binds, vec!["a%", "3", "1"]);
}

#[test]
fn build_select_sql_rejects_unknown_columns() {
    let o = QueryOptions { select: Some(vec!["id".to_string(), "secret".to_string()]), ..QueryOptions::default() };
    assert_eq!(bad_request(build_select_sql(&posts(), &o)), "unknown column 'secret'");
    let o = QueryOptions { select: Some(vec!["id\"--".to_string()]), ..QueryOptions::default() };
    assert_eq!(bad_request(build_select_sql(&posts(), &o)), "invalid identifier 'id\"--'");
    let o = QueryOptions { order_by: Some(("nope".to_string(), true)), ..QueryOptions::default() };
    assert_eq!(bad_request(build_select_sql(&posts(), &o)), "unknown column 'nope'");
    let o = QueryOptions { order_by: Some(("a b".to_string(), true)), ..QueryOptions::default() };
    assert_eq!(bad_request(build_select_sql(&posts(), &o)), "invalid identifier 'a b'");
}

#[test]
fn build_delete_sql_requires_filters() {
    assert_eq!(bad_request(build_delete_sql(&posts(), &QueryOptions::default())), "refuse DELETE without filters");
    let opts = QueryOptions { filters: vec![filter("id", FilterOp::Eq, "17")], ..QueryOptions::default() };
    let (sql, binds) = build_delete_sql(&posts(), &opts).unwrap();
    assert_eq!(
        sql,
        "\n        WITH deleted AS (\n            DELETE FROM \"public\".\"posts\"\n             WHERE \"id\" = $1::int4\n            RETURNING *\n        )\n        SELECT row_to_json(deleted) AS data\n        FROM deleted\n        "
    );
    assert_eq!(binds, vec!["17"]);
}

fn update_text(set: &str, wsql: &str) -> String {
    format!(
        "\n        WITH updated AS (\n            UPDATE \"public\".\"posts\"\n            SET {}\n            {}\n            RETURNING *\n        )\n        SELECT row_to_json(updated) AS data FROM updated\n        ",
        set, wsql
    )
}

#[test]
fn build_update_sql_sets_then_filters() {
    let body = JsonBody::Object(obj(&[("title", s("Updated title")), ("content", JsonValue::Null)]));
    let opts = QueryOptions { filters: vec![filter("id", FilterOp::Eq, "42")], ..QueryOptions::default() };
    let (sql, binds) = build_update_sql(&posts(), &body, &opts, &user(1)).unwrap();
    assert_eq!(sql, update_text("\"title\" = $1::text, \"content\" = NULL", " WHERE \"id\" = $2::int4"));
    assert_eq!(binds, vec!["Updated title", "42"]);
}

#[test]
fn build_update_sql_guards() {
    let opts = QueryOptions { filters: vec![filter("id", FilterOp::Eq, "42")], ..QueryOptions::default() };
    let body = JsonBody::Object(obj(&[("title", s("x"))]));
    assert_eq!(bad_request(build_update_sql(&posts(), &body, &QueryOptions::default(), &user(1))), "refuse UPDATE without filters");
    let empty = JsonBody::Object(vec![]);
    assert_eq!(bad_request(build_update_sql(&posts(), &empty, &opts, &user(1))), "no fields to update");
    assert_eq!(bad_request(build_update_sql(&posts(), &JsonBody::Other, &opts, &user(1))), "request body must be a JSON object");
    let pk = JsonBody::Object(obj(&[("id", JsonValue::Json("5".to_string()))]));
    assert_eq!(bad_request(build_update_sql(&posts(), &pk, &opts, &user(1))), "cannot update primary key column 'id'");
    let owner = JsonBody::Object(obj(&[("user_id", JsonValue::Json("2".to_string()))]));
    assert_eq!(
        bad_request(build_update_sql(&posts(), &owner, &opts, &user(1))),
        "cannot update user_id; it is bound to the authenticated user"
    );
    let unknown = JsonBody::Object(obj(&[("nope", s("x"))]));
    assert_eq!(bad_request(build_update_sql(&posts(), &unknown, &opts, &user(1))), "unknown column 'nope'");
}

#[test]
fn build_update_sql_anonymous_may_set_user_id() {
    let opts = QueryOptions { filters: vec![filter("id", FilterOp::Eq, "42")], ..QueryOptions::default() };
    let owner = JsonBody::Object(obj(&[("user_id", JsonValue::Json("2".to_string()))]));
    let (sql, binds) = build_update_sql(&posts(), &owner, &opts, &None).unwrap();
    assert_eq!(sql, update_text("\"user_id\" = $1::int4", " WHERE \"id\" = $2::int4"));
    assert_eq!(binds, vec!["2", "42"]);
}

fn insert_text(table: &str, cols: &str, values: &str) -> String {
    format!(
        "\n            WITH ins AS (\n                INSERT INTO {} ({})\n                VALUES {}\n                RETURNING *\n            )\n            SELECT row_to_json(ins) AS data\n            FROM ins\n            ",
        table, cols, values
    )
}

#[test]
fn build_insert_sql_forces_owner() {
    let body = JsonBody::Object(obj(&[("title", s("Hello")), ("content", s("First post"))]));
    let (sql, binds) = build_insert_sql(&posts(), &body, &user(7)).unwrap();
    assert_eq!(
        sql,
        insert_text("\"public\".\"posts\"", "\"content\", \"title\", \"user_id\"", "($1::text, $2::text, $3::int4)")
    );
    assert_eq!(binds, vec!["First post", "Hello", "7"]);
}

#[test]
fn build_insert_sql_bulk_with_defaults() {
    let body = JsonBody::Array(vec![Some(obj(&[("title", s("A"))])), Some(obj(&[("title", s("B")), ("content", JsonValue::Null)]))]);
    let (sql, binds) = build_insert_sql(&posts(), &body, &user(3)).unwrap();
    assert_eq!(
        sql,
        insert_text(
            "\"public\".\"posts\"",
            "\"content\", \"title\", \"user_id\"",
            "(DEFAULT, $1::text, $2::int4), (NULL, $3::text, $4::int4)"
        )
    );
    assert_eq!(binds, vec!["A", "3", "B", "3"]);
}

#[test]
fn build_insert_sql_anonymous() {
    let body = JsonBody::Array(vec![Some(obj(&[("body", s("x"))])), Some(obj(&[("id", JsonValue::Json("9".to_string()))]))]);
    let (sql, binds) = build_insert_sql(&notes(), &body, &None).unwrap();
    assert_eq!(sql, insert_text("\"app\".\"notes\"", "\"body\", \"id\"", "($1::text, DEFAULT), (DEFAULT, $2::int8)"));
    assert_eq!(binds, vec!["x", "9"]);
}

#[test]
fn build_insert_sql_default_values() {
    let (sql, binds) = build_insert_sql(&notes(), &JsonBody::Object(vec![]), &None).unwrap();
    assert_eq!(
        sql,
        "\n            WITH ins AS (\n                INSERT INTO \"app\".\"notes\" DEFAULT VALUES\n                RETURNING *\n            )\n            SELECT row_to_json(ins) AS data\n            FROM ins\n            "
    );
    assert!(binds.is_empty());
}

#[test]
fn build_insert_sql_one_default_row_per_empty_object() {
    let body = JsonBody::Array(vec![Some(vec![]), Some(vec![])]);
    let (sql, binds) = build_insert_sql(&notes(), &body, &None).unwrap();
    assert_eq!(
        sql,
        "\n            WITH ins AS (\n                INSERT INTO \"app\".\"notes\"\n                SELECT FROM generate_series(1, 2)\n                RETURNING *\n            )\n            SELECT row_to_json(ins) AS data\n            FROM ins\n            "
    );
    assert!(binds.is_empty());
    let (sql, _) = build_insert_sql(&notes(), &JsonBody::Array(vec![Some(vec![])]), &None).unwrap();
    assert!(sql.contains("DEFAULT VALUES"));
}

#[test]
fn virtual_crud_rejects_explicit_user_id_override() {
    let body = JsonBody::Object(obj(&[("title", s("malicious")), ("content", s("trying to impersonate")), ("user_id", JsonValue::Json("999999".to_string()))]));
    assert_eq!(
        bad_request(build_insert_sql(&posts(), &body, &user(1))),
        "cannot override user_id; it is bound to the authenticated user"
    );
    let same = JsonBody::Object(obj(&[("title", s("mine")), ("user_id", JsonValue::Json("1".to_string()))]));
    let (_, binds) = build_insert_sql(&posts(), &same, &user(1)).unwrap();
    assert_eq!(binds, vec!["mine", "1"]);
    let null_owner = JsonBody::Object(obj(&[("user_id", JsonValue::Null)]));
    let (_, binds) = build_insert_sql(&posts(), &null_owner, &user(1)).unwrap();
    assert_eq!(binds, vec!["1"]);
}

#[test]
fn build_insert_sql_body_errors() {
    assert_eq!(bad_request(build_insert_sql(&posts(), &JsonBody::Array(vec![]), &None)), "empty array for bulk insert");
    assert_eq!(
        bad_request(build_insert_sql(&posts(), &JsonBody::Array(vec![Some(vec![]), None]), &None)),
        "bulk insert expects array of JSON objects"
    );
    assert_eq!(
        bad_request(build_insert_sql(&posts(), &JsonBody::Other, &None)),
        "request body must be a JSON object or array of objects"
    );
    let unknown = JsonBody::Object(obj(&[("status", s("draft"))]));
    assert_eq!(bad_request(build_insert_sql(&posts(), &unknown, &None)), "unknown column 'status'");
}

fn db(code: Option<&str>, message: &str) -> DbFailure {
    DbFailure::Database { code: code.map(|c| c.to_string()), message: message.to_string() }
}

#[test]
fn db_errors_map_to_api_errors() {
    let m = |op, f: &DbFailure| map_db_error(op, f, "public", "posts").into_response();
    assert_eq!(m(CrudOp::Select, &db(Some("22P02"), "invalid input")), (400, "invalid input".to_string()));
    assert_eq!(m(CrudOp::Insert, &db(Some("22007"), "bad date")), (400, "bad date".to_string()));
    assert_eq!(m(CrudOp::Select, &db(Some("42883"), "no operator")), (400, "no operator".to_string()));
    assert_eq!(m(CrudOp::Insert, &db(Some("42883"), "no operator")), (500, "database error".to_string()));
    assert_eq!(m(CrudOp::Select, &db(Some("42703"), "column x")), (400, "unknown column/expression: column x".to_string()));
    assert_eq!(m(CrudOp::Insert, &db(Some("42703"), "column x")), (500, "database error".to_string()));
    assert_eq!(m(CrudOp::Insert, &db(Some("23505"), "duplicate key")), (400, "duplicate key".to_string()));
    assert_eq!(m(CrudOp::Update, &db(Some("23514"), "check")), (400, "check".to_string()));
    assert_eq!(m(CrudOp::Delete, &db(Some("23503"), "fk")), (500, "database error".to_string()));
    assert_eq!(m(CrudOp::Delete, &db(Some("42P01"), "missing")), (404, "table \"public\".\"posts\" not found".to_string()));
    assert_eq!(m(CrudOp::Select, &db(None, "no code")), (500, "database error".to_string()));
    assert_eq!(m(CrudOp::Update, &DbFailure::Other), (500, "internal error".to_string()));
    assert_eq!(rls_context_failed().into_response(), (500, "failed to set RLS context".to_string()));
}
