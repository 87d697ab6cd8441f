//! A verified core for a Redmine command-line client: a JSON document model
//! and the issue, template, request and session logic built on it.

pub mod json;
pub mod text;
pub mod json_text;
pub mod issue;
pub mod requests;
pub mod template;
pub mod session;
pub mod file_ops;
