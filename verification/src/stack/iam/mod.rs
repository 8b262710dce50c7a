//! Identity and access management.

pub mod role;
