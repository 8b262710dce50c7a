//! The configuration of a deployment.

use crate::config::api::api_config::ApiConfig;
use crate::config::loading::api::ApiConfigRaw;
pub use crate::text::{all_distinct, lowercase_names, lowercased};
use crate::text::{distinct, texts};
use vstd::prelude::*;

verus! {

/// The configuration as it is written: the APIs, if any are named.
#[derive(Clone, Debug)]
pub struct CloudConfigRaw {
    pub api: Option<Vec<ApiConfigRaw>>,
}

/// The configuration with everything loaded.
#[derive(Clone, Debug)]
pub struct CloudConfig {
    pub api: Vec<ApiConfig>,
}

/// Checks that names differ, whatever their capitalization.
pub trait NameUniquenessChecker {
    /// The names to check.
    spec fn spec_names(&self) -> Seq<Seq<char>>;

    /// Whether no two names are the same once put in lower case.
    fn check_all_unique_names(self) -> (unique: bool)
        ensures
            unique == distinct(lowercased(self.spec_names())),
    ;
}

impl<'a> NameUniquenessChecker for &'a Vec<String> {
    open spec fn spec_names(&self) -> Seq<Seq<char>> {
        texts(self@)
    }

    fn check_all_unique_names(self) -> (unique: bool) {
        let lower = lowercase_names(self);
        all_distinct(&lower)
    }
}

} // verus!
