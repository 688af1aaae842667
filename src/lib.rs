//! Routes topic-addressed payloads to declarative extraction rules and turns
//! each payload into a named record of typed fields and tags.

pub mod config;
pub mod json;
pub mod text;
pub mod topic;
