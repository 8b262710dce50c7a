//! Loading the configuration.

use crate::cloud::api::ApiDefinitionError;
use crate::config::cloud_config::CloudConfig;
use crate::config::loading::api::{
    first_failing_at, load_api_configs, load_error, loaded, sources_below_root, ApiSource,
};
use crate::config::ConfigVariables;
use vstd::prelude::*;

pub mod api;

verus! {

/// Loads the configuration of a deployment: every API that the
/// configuration names, in order, each from the files found under its root.
/// The first API that cannot be loaded ends the loading with its error.
pub fn load_configs(sources: Vec<ApiSource>, vars: &ConfigVariables) -> (r: Result<
    CloudConfig,
    ApiDefinitionError,
>)
    requires
        sources_below_root(sources@),
    ensures
        match r {
            Ok(config) => config.api.len() == sources.len() && forall|i: int|
                0 <= i < config.api.len() ==> loaded(
                    &sources[i].config,
                    vars@,
                    sources[i].files@,
                    #[trigger] &config.api[i],
                ),
            Err(e) => exists|i: int|
                first_failing_at(sources@, vars@, i) && load_error(
                    &sources[i].config,
                    vars@,
                    sources[i].files@,
                ) == Some(e@),
        },
{
    match load_api_configs(sources, vars) {
        Ok(api) => Ok(CloudConfig { api }),
        Err(e) => Err(e),
    }
}

} // verus!
