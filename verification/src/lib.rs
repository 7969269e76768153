//! Request-to-SQL pipeline for a REST interface over a relational catalog:
//! filter/select/order grammars, schema-aware SQL generation, session
//! prologues, response shaping, and change-feed subscription bookkeeping.

pub mod auth;
pub mod config;
pub mod error;
pub mod filters;
pub mod handlers;
pub mod jsonval;
pub mod laws;
pub mod num;
pub mod openapi;
pub mod query;
pub mod realtime;
pub mod response;
pub mod schema;
pub mod select;
pub mod text;
pub mod types;
