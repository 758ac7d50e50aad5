//! Search core of a developer-profile search engine: validation of query
//! parameters, query construction, term classification and keyword
//! aggregation.

pub mod classify;
pub mod config;
pub mod endpoint;
pub mod error;
pub mod guard;
pub mod keywords;
pub mod order;
pub mod query;
pub mod route;
pub mod template;
pub mod text;
pub mod tokens;
pub mod transport;
