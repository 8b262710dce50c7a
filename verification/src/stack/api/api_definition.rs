//! The definition of an endpoint, as the stack takes it.

pub use crate::cloud::api::ApiDefinition;
