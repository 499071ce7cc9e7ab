//! An in-memory todo service: a record store keyed by id, a validated
//! priority type, JSON framing for the records, and the request handlers
//! that tie them together.

pub mod num;
pub mod priority;
pub mod record;
pub mod store;
pub mod json;
pub mod service;

pub use service::rocket;
