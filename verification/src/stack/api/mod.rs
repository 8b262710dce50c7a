//! The API gateway and what hangs on it.

pub mod api_definition;
pub mod deployment;
pub mod domain_name;
pub mod endpoint;
pub mod error;
pub mod gateway;
pub mod laws;
pub mod path_tree;
pub mod stage;
