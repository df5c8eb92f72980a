use oxyd_core::auth::types::CurrentUser;
use oxyd_core::general::errors::ApiError;
use oxyd_core::virtual_crud::db_errors::CrudOp;
use oxyd_core::virtual_crud::registry::{check_operation, ensure_exposed, meta_cache_key, oxyd_tables_exists_key, table_config_from, table_meta_from};
use oxyd_core::virtual_crud::routes::{authorize_request, check_access, default_schema};
use oxyd_core::virtual_crud::types::{ColumnMeta, OxydTableConfig};

fn cfg(table: &str, exposed: bool, auth: bool) -> OxydTableConfig {
    OxydTableConfig {
        table_name: table.to_string(),
        is_exposed: exposed,
        require_auth: auth,
        allow_insert: true,
        allow_update: true,
        allow_delete: true,
        description: Some("Blog posts exposed via virtual CRUD".to_string()),
    }
}

#[test]
fn dev_mode_exposes_everything_without_auth() {
    let c = table_config_from(false, Some(cfg("posts", false, true)), "posts");
    assert!(c.is_none());
    assert!(matches!(ensure_exposed(&c, "posts"), Ok(false)));
}

#[test]
fn registered_table_config_is_used() {
    let c = table_config_from(true, Some(cfg("posts", true, true)), "posts").unwrap();
    assert!(c.is_exposed && c.require_auth);
    assert!(matches!(ensure_exposed(&Some(c), "posts"), Ok(true)));
    let open = table_config_from(true, Some(cfg("news", true, false)), "news");
    assert!(matches!(ensure_exposed(&open, "news"), Ok(false)));
}

#[test]
fn unregistered_table_is_locked_down() {
    let c = table_config_from(true, None, "secrets").unwrap();
    assert_eq!(c.table_name, "secrets");
    assert!(!c.is_exposed && c.require_auth && !c.allow_insert && !c.allow_update && !c.allow_delete);
    assert!(c.description.is_none());
    match ensure_exposed(&Some(c), "secrets") {
        Err(e) => assert_eq!(e.into_response(), (404, "table 'secrets' not exposed".to_string())),
        Ok(b) => panic!("exposed: {}", b),
    }
}

#[test]
fn cache_keys() {
    assert_eq!(oxyd_tables_exists_key(), "oxyd_internal._oxyd_tables");
    assert_eq!(meta_cache_key("public", "posts"), "6:public.posts");
    assert_ne!(meta_cache_key("a.b", "c"), meta_cache_key("a", "b.c"));
    assert_eq!(meta_cache_key("", "t"), "0:.t");
    assert_eq!(default_schema(), "public");
}

#[test]
fn table_meta_from_catalog() {
    let cols = vec![ColumnMeta { name: "id".to_string(), data_type: "integer".to_string(), is_nullable: false, has_default: true }];
    let m = table_meta_from(true, "public", "posts", cols, vec!["id".to_string()]).unwrap();
    assert_eq!((m.schema.as_str(), m.name.as_str()), ("public", "posts"));
    assert_eq!(m.primary_key, vec!["id".to_string()]);
    assert_eq!(m.columns.len(), 1);
    match table_meta_from(false, "public", "ghost", vec![], vec![]) {
        Err(ApiError::NotFound(msg)) => assert_eq!(msg, "table 'ghost' not found"),
        other => panic!("{:?}", other),
    }
}

#[test]
fn check_access_requires_user_only_when_configured() {
    let u = Some(CurrentUser { id: 1, email: "a@b.c".to_string() });
    assert!(check_access(true, &u).is_ok());
    assert!(check_access(false, &None).is_ok());
    assert!(check_access(false, &u).is_ok());
    match check_access(true, &None) {
        Err(e) => assert_eq!(e.into_response(), (401, "Authentication required".to_string())),
        Ok(()) => panic!("anonymous access allowed"),
    }
}

#[test]
fn into_response_status_codes() {
    let cases = vec![
        (ApiError::BadRequest("a".to_string()), 400),
        (ApiError::Unauthorized("b".to_string()), 401),
        (ApiError::Forbidden("c".to_string()), 403),
        (ApiError::Conflict("d".to_string()), 409),
        (ApiError::NotFound("e".to_string()), 404),
        (ApiError::Internal("f".to_string()), 500),
    ];
    let messages = ["a", "b", "c", "d", "e", "f"];
    for ((e, code), m) in cases.into_iter().zip(messages) {
        assert_eq!(e.into_response(), (code, m.to_string()));
    }
}

fn flags(insert: bool, update: bool, delete: bool) -> OxydTableConfig {
    OxydTableConfig { allow_insert: insert, allow_update: update, allow_delete: delete, ..cfg("posts", true, false) }
}

#[test]
fn operations_follow_registry_flags() {
    let ro = Some(flags(false, false, false));
    assert!(check_operation(&ro, CrudOp::Select).is_ok());
    for (op, name) in [(CrudOp::Insert, "insert"), (CrudOp::Update, "update"), (CrudOp::Delete, "delete")] {
        match check_operation(&ro, op) {
            Err(e) => assert_eq!(e.into_response(), (403, format!("{} is not enabled on this table", name))),
            Ok(()) => panic!("{} allowed", name),
        }
    }
    let rw = Some(flags(true, true, true));
    for op in [CrudOp::Select, CrudOp::Insert, CrudOp::Update, CrudOp::Delete] {
        assert!(check_operation(&rw, op).is_ok());
        assert!(check_operation(&None, op).is_ok());
    }
    assert!(check_operation(&Some(flags(false, true, false)), CrudOp::Update).is_ok());
}

#[test]
fn requests_are_authorized_in_order() {
    let u = Some(CurrentUser { id: 1, email: "a@b.c".to_string() });
    let hidden = Some(OxydTableConfig { is_exposed: false, ..flags(false, false, false) });
    assert_eq!(authorize_request(&hidden, "posts", CrudOp::Insert, &u).unwrap_err().into_response().0, 404);
    let private_ro = Some(OxydTableConfig { require_auth: true, ..flags(false, false, false) });
    assert_eq!(authorize_request(&private_ro, "posts", CrudOp::Insert, &None).unwrap_err().into_response().0, 401);
    assert_eq!(authorize_request(&private_ro, "posts", CrudOp::Insert, &u).unwrap_err().into_response().0, 403);
    assert_eq!(authorize_request(&private_ro, "posts", CrudOp::Delete, &u).unwrap_err().into_response().0, 403);
    assert!(authorize_request(&private_ro, "posts", CrudOp::Select, &u).is_ok());
    assert!(authorize_request(&None, "anything", CrudOp::Delete, &None).is_ok());
    assert!(authorize_request(&Some(flags(true, false, false)), "posts", CrudOp::Insert, &None).is_ok());
}
