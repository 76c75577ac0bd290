//! Values exchanged with clients of the request API.

pub mod error;

pub use error::{ApiError, ApiResult, Response, ResponseObject};
