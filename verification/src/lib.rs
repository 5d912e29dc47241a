//! Web surface of a skills manager: the decisions behind its HTTP endpoints.

pub mod batch;
pub mod error;
pub mod handlers;
pub mod local_skills;
pub mod path;
pub mod records;
pub mod resolve;
pub mod server;
pub mod text;
pub mod write_handlers;
