//! Verified core of a PostgREST-style virtual CRUD layer with JWT-style authentication:
//! query-string parsing, identifier validation, SQL generation with numbered
//! placeholders, registry decisions and authentication decisions.

pub mod text;
pub mod general;
pub mod virtual_crud;
pub mod auth;
