//! Compiles declarative API endpoint definitions into a dependency-ordered
//! set of infrastructure resource blocks and renders them as text.
//!
//! * [`stack`] holds the resource model and the compiler: the intermediate
//!   representation and its serializer ([`stack::tf`]), the path resolver
//!   ([`stack::api::path_tree`]), the gateway with its endpoints, stage and
//!   deployment ([`stack::api`]), what holds of every compilation
//!   ([`stack::api::laws`], [`stack::tf_laws`]), and the reader that takes
//!   named values back from their text ([`stack::tf_read`]).
//! * [`compile`] groups the endpoints of a configuration by domain and
//!   compiles one document for each.
//! * [`config`], [`cloud`] and [`cloud_config`] hold the configuration: the
//!   variables, the definitions of the endpoints and how they are loaded
//!   and checked.
//! * [`api`] and [`tf_generation`] fill templates and tell generated files
//!   from others.
//! * [`text`] holds the text primitives that everything else is built on.
//!
//! Every identifier in a document is derived from what the resource stands
//! for, and every sequence is written in a fixed order, so the same input
//! always gives the same document.

pub mod api;
pub mod cloud;
pub mod cloud_config;
pub mod compile;
pub mod config;
pub mod stack;
pub mod text;
pub mod tf_generation;
