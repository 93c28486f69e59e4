//! A small CRUD service core: a record store over (id, text) rows, the
//! routing of HTTP method/path pairs to store operations, the uniform
//! translation of store failures into responses, and the JSON wire format
//! for records, all with verified contracts.

pub mod chars;
pub mod error;
pub mod numerals;
pub mod record;
pub mod json;
pub mod response;
pub mod router;
pub mod service;
pub mod store;
