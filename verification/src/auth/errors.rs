//! The error type shared with the rest of the API.

pub use crate::general::errors::{ApiError, ApiResult};
