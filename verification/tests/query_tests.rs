use oxyd_core::general::errors::ApiError;
use oxyd_core::virtual_crud::query::{build_where_sql, is_texty, parse_query_options, pg_cast_of, validate_ident};
use oxyd_core::virtual_crud::types::{ColumnMeta, Filter, FilterOp, QueryOptions, QueryParams, TableMeta};

fn params(pairs: &[(&str, &str)]) -> QueryParams {
    let mut q = QueryParams::new();
    for (k, v) in pairs {
        q.insert(k.to_string(), v.to_string());
    }
    q
}

fn col(name: &str, dt: &str) -> ColumnMeta {
    ColumnMeta { name: name.to_string(), data_type: dt.to_string(), is_nullable: true, has_default: false }
}

fn posts() -> TableMeta {
    TableMeta {
        schema: "public".to_string(),
        name: "posts".to_string(),
        primary_key: vec!["id".to_string()],
        columns: vec![
            col("id", "integer"),
            col("title", "text"),
            col("created_at", "timestamp with time zone"),
            col("user_id", "integer"),
        ],
    }
}

fn filter(c: &str, op: FilterOp, v: Option<&str>) -> Filter {
    Filter { column: c.to_string(), op, value: v.map(|s| s.to_string()) }
}

fn bad_request(r: Result<String, ApiError>) -> String {
    match r {
        Err(ApiError::BadRequest(m)) => m,
        other => panic!("expected a bad request, got {:?}", other),
    }
}

#[test]
fn validate_ident_accepts_identifiers() {
    assert!(validate_ident("id").is_ok());
    assert!(validate_ident("_private").is_ok());
    assert!(validate_ident("Created_At2").is_ok());
}

#[test]
fn validate_ident_rejects_injection() {
    for bad in ["", "1abc", "id;drop", "a-b", "na me", "\"id\"", "é"] {
        match validate_ident(bad) {
            Err(ApiError::BadRequest(m)) => assert_eq!(m, format!("invalid identifier '{}'", bad)),
            other => panic!("{:?} accepted: {:?}", bad, other),
        }
    }
}

#[test]
fn pg_cast_of_maps_types() {
    assert_eq!(pg_cast_of("integer"), "int4");
    assert_eq!(pg_cast_of("INTEGER"), "int4");
    assert_eq!(pg_cast_of("smallint"), "int2");
    assert_eq!(pg_cast_of("bigint"), "int8");
    assert_eq!(pg_cast_of("real"), "float4");
    assert_eq!(pg_cast_of("double precision"), "float8");
    assert_eq!(pg_cast_of("decimal"), "numeric");
    assert_eq!(pg_cast_of("boolean"), "bool");
    assert_eq!(pg_cast_of("character varying"), "text");
    assert_eq!(pg_cast_of("uuid"), "uuid");
    assert_eq!(pg_cast_of("timestamp with time zone"), "timestamptz");
    assert_eq!(pg_cast_of("Timestamp Without Time Zone"), "timestamp");
    assert_eq!(pg_cast_of("date"), "date");
    assert_eq!(pg_cast_of("time without time zone"), "time");
    assert_eq!(pg_cast_of("jsonb"), "jsonb");
    assert_eq!(pg_cast_of("json"), "json");
    assert_eq!(pg_cast_of("tsvector"), "text");
}

#[test]
fn is_texty_detects_text_types() {
    assert!(is_texty("text"));
    assert!(is_texty("Character Varying"));
    assert!(is_texty("citext"));
    assert!(is_texty("character"));
    assert!(!is_texty("integer"));
    assert!(!is_texty("jsonb"));
}

#[test]
fn parse_select_order_limit_offset() {
    let q = params(&[("select", " id, title ,,"), ("order", "created_at.DESC"), ("limit", "5000"), ("offset", "-3")]);
    let o = parse_query_options(&q).unwrap();
    assert_eq!(o.select, Some(vec!["id".to_string(), "title".to_string()]));
    assert_eq!(o.order_by, Some(("created_at".to_string(), true)));
    assert_eq!(o.limit, Some(1000));
    assert_eq!(o.offset, Some(0));
    assert!(o.filters.is_empty());
}

#[test]
fn parse_defaults_and_edge_values() {
    let o = parse_query_options(&params(&[("order", "title"), ("limit", "0"), ("offset", "abc"), ("select", " , ")])).unwrap();
    assert_eq!(o.order_by, Some(("title".to_string(), false)));
    assert_eq!(o.limit, Some(1));
    assert_eq!(o.offset, None);
    assert_eq!(o.select, None);
    let o = parse_query_options(&params(&[("limit", "+20"), ("order", ".desc")])).unwrap();
    assert_eq!(o.limit, Some(20));
    assert_eq!(o.order_by, None);
    let o = parse_query_options(&QueryParams::new()).unwrap();
    assert!(o.select.is_none() && o.order_by.is_none() && o.limit.is_none() && o.offset.is_none());
}

#[test]
fn parse_filters_in_order() {
    let q = params(&[("id", "eq.42"), ("title", "ilike.*foo*"), ("deleted_at", "is.not.null"), ("n", "7"), ("limit", "10")]);
    let o = parse_query_options(&q).unwrap();
    assert_eq!(o.filters.len(), 4);
    assert_eq!(o.filters[0].column, "id");
    assert_eq!(o.filters[0].op, FilterOp::Eq);
    assert_eq!(o.filters[0].value.as_deref(), Some("42"));
    assert_eq!(o.filters[1].op, FilterOp::ILike);
    assert_eq!(o.filters[1].value.as_deref(), Some("*foo*"));
    assert_eq!(o.filters[2].op, FilterOp::Is);
    assert_eq!(o.filters[2].value.as_deref(), Some("not.null"));
    assert_eq!(o.filters[3].op, FilterOp::Eq);
    assert_eq!(o.filters[3].value.as_deref(), Some("7"));
    assert_eq!(o.limit, Some(10));
}

#[test]
fn parse_all_operators() {
    let ops = [("eq", FilterOp::Eq), ("neq", FilterOp::Neq), ("gt", FilterOp::Gt), ("gte", FilterOp::Gte),
        ("lt", FilterOp::Lt), ("lte", FilterOp::Lte), ("like", FilterOp::Like), ("ilike", FilterOp::ILike), ("is", FilterOp::Is)];
    for (name, op) in ops {
        let o = parse_query_options(&params(&[("c", &format!("{}.v", name))])).unwrap();
        assert_eq!(o.filters[0].op, op);
    }
}

#[test]
fn parse_rejects_unknown_operator() {
    match parse_query_options(&params(&[("id", "between.1")])) {
        Err(ApiError::BadRequest(m)) => assert_eq!(m, "unsupported operator 'between'"),
        other => panic!("{:?}", other),
    }
}

#[test]
fn parse_later_value_replaces_earlier() {
    let o = parse_query_options(&params(&[("id", "eq.1"), ("id", "gt.2")])).unwrap();
    assert_eq!(o.filters.len(), 1);
    assert_eq!(o.filters[0].op, FilterOp::Gt);
    assert_eq!(o.filters[0].value.as_deref(), Some("2"));
}

#[test]
fn where_sql_example() {
    let opts = QueryOptions {
        filters: vec![filter("id", FilterOp::Eq, Some("42")), filter("title", FilterOp::ILike, Some("*x*"))],
        ..QueryOptions::default()
    };
    let mut binds = Vec::new();
    let w = build_where_sql(&posts(), &opts, &mut binds).unwrap();
    assert_eq!(w, " WHERE \"id\" = $1::int4 AND \"title\" ILIKE $2::text");
    assert_eq!(binds, vec!["42".to_string(), "*x*".to_string()]);
}

#[test]
fn where_sql_all_comparisons_and_is() {
    let opts = QueryOptions {
        filters: vec![
            filter("id", FilterOp::Neq, Some("1")),
            filter("id", FilterOp::Gt, Some("2")),
            filter("created_at", FilterOp::Gte, Some("2024-01-01")),
            filter("id", FilterOp::Lt, Some("9")),
            filter("id", FilterOp::Lte, Some("8")),
            filter("title", FilterOp::Like, Some("a%")),
            filter("user_id", FilterOp::Is, Some("null")),
            filter("title", FilterOp::Is, Some("not.null")),
        ],
        ..QueryOptions::default()
    };
    let mut binds = vec!["pre".to_string()];
    let w = build_where_sql(&posts(), &opts, &mut binds).unwrap();
    assert_eq!(
        w,
        " WHERE \"id\" <> $2::int4 AND \"id\" > $3::int4 AND \"created_at\" >= $4::timestamptz AND \"id\" < $5::int4 AND \"id\" <= $6::int4 AND \"title\" LIKE $7::text AND \"user_id\" IS NULL AND \"title\" IS NOT NULL"
    );
    assert_eq!(binds, vec!["pre", "1", "2", "2024-01-01", "9", "8", "a%"]);
}

#[test]
fn where_sql_without_filters_is_empty() {
    let mut binds = Vec::new();
    assert_eq!(build_where_sql(&posts(), &QueryOptions::default(), &mut binds).unwrap(), "");
    assert!(binds.is_empty());
}

#[test]
fn where_sql_errors() {
    let mut binds = Vec::new();
    let o = |f: Filter| QueryOptions { filters: vec![f], ..QueryOptions::default() };
    assert_eq!(bad_request(build_where_sql(&posts(), &o(filter("bogus", FilterOp::Eq, Some("1"))), &mut binds)), "unknown column 'bogus'");
    assert_eq!(bad_request(build_where_sql(&posts(), &o(filter("id;x", FilterOp::Eq, Some("1"))), &mut binds)), "invalid identifier 'id;x'");
    assert_eq!(bad_request(build_where_sql(&posts(), &o(filter("id", FilterOp::Eq, None)), &mut binds)), "missing value for filter on 'id'");
    assert_eq!(
        bad_request(build_where_sql(&posts(), &o(filter("id", FilterOp::Like, Some("1%"))), &mut binds)),
        "LIKE not supported on non-text column 'id' (type: integer)"
    );
    assert_eq!(
        bad_request(build_where_sql(&posts(), &o(filter("id", FilterOp::ILike, Some("1%"))), &mut binds)),
        "ILIKE not supported on non-text column 'id' (type: integer)"
    );
    assert_eq!(
        bad_request(build_where_sql(&posts(), &o(filter("id", FilterOp::Is, Some("true"))), &mut binds)),
        "is.true not supported (use 'is.null' or 'is.not.null')"
    );
    assert_eq!(
        bad_request(build_where_sql(&posts(), &o(filter("id", FilterOp::Is, None)), &mut binds)),
        "is.? not supported (use 'is.null' or 'is.not.null')"
    );
}

#[test]
fn where_sql_values_never_in_text() {
    let evil = "1; DROP TABLE posts; --";
    let opts = QueryOptions { filters: vec![filter("title", FilterOp::Eq, Some(evil))], ..QueryOptions::default() };
    let mut binds = Vec::new();
    let w = build_where_sql(&posts(), &opts, &mut binds).unwrap();
    assert_eq!(w, " WHERE \"title\" = $1::text");
    assert_eq!(binds, vec![evil.to_string()]);
}
