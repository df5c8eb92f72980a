//! PostgREST-style virtual CRUD: query parsing, SQL builders, registry decisions.

pub mod types;
pub mod query;
pub mod select;
pub mod delete;
pub mod update;
pub mod insert;
pub mod db_errors;
pub mod registry;
pub mod routes;
pub mod laws;
pub mod placeholders;
pub mod outcomes;
