//! Shared error type.

pub mod errors;
