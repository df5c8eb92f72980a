//! Authentication: token claims, password and refresh-token handling, and the
//! decisions taken on a request's credentials.

pub mod errors;
pub mod types;
pub mod crypto;
pub mod service;
pub mod extract;
pub mod outcomes;
