pub mod explain;
pub mod json;
pub mod paint;
pub mod plan_grammar;
pub mod profile;
pub mod query;
pub mod table;
pub mod text;
