//! The definitions of the endpoints of an API.

use crate::cloud::api::{ApiDefinition, ApiDefinitionError, DefinitionErrorView};
use crate::config::api::api_config::{ApiConfig, EndpointView};
use crate::config::loading::api::{
    below_root, create_api_definitions, definitions, prefix_text, EndpointFile,
};
use crate::config::ConfigVariables;
use crate::text::texts;
use vstd::prelude::*;

pub mod api_config;

verus! {

/// Whether a definition is this endpoint, in an API that lies at `root`.
pub open spec fn defines(definition: &ApiDefinition, endpoint: EndpointView, root: Seq<char>) -> bool {
    &&& definition.name@ == endpoint.name
    &&& definition.method == endpoint.method
    &&& definition.route@ == endpoint.route
    &&& definition.file@ == endpoint.file
    &&& definition.root@ == root
    &&& texts(definition.read@) == endpoint.read
    &&& texts(definition.write@) == endpoint.write
}

/// Loads the definitions of an API from the files found under its root:
/// each endpoint that the files define, with the root of the API.
pub fn load_definitions(
    api_config: &ApiConfig,
    variables: &ConfigVariables,
    files: &Vec<EndpointFile>,
) -> (r: Result<Vec<ApiDefinition>, ApiDefinitionError>)
    requires
        below_root(api_config.root@, files@),
    ensures
        match r {
            Ok(listed) => definitions(
                api_config.root@,
                prefix_text(api_config.prefix),
                variables@,
                files@,
            ) matches Ok(endpoints) && listed.len() == endpoints.len() && forall|i: int|
                0 <= i < listed.len() ==> defines(
                    #[trigger] &listed[i],
                    endpoints[i],
                    api_config.root@,
                ),
            Err(e) => definitions(
                api_config.root@,
                prefix_text(api_config.prefix),
                variables@,
                files@,
            ) == Err::<Seq<EndpointView>, DefinitionErrorView>(e@),
        },
{
    let mut endpoints = match create_api_definitions(api_config, variables, files) {
        Ok(endpoints) => endpoints,
        Err(e) => {
            return Err(e);
        },
    };
    let ghost views = crate::config::api::api_config::endpoint_views(endpoints@);
    let n = endpoints.len();
    let mut reversed: Vec<ApiDefinition> = Vec::new();
    // The endpoints are taken from the end, so the definitions come out
    // last first.
    while endpoints.len() > 0
        invariant
            endpoints.len() + reversed.len() == n,
            n == views.len(),
            forall|k: int| 0 <= k < endpoints.len() ==> (#[trigger] endpoints[k])@ == views[k],
            forall|k: int|
                0 <= k < reversed.len() ==> defines(
                    #[trigger] &reversed[k],
                    views[n - 1 - k],
                    api_config.root@,
                ),
        decreases endpoints.len(),
    {
        let endpoint = endpoints.pop().unwrap();
        reversed.push(
            ApiDefinition {
                name: endpoint.name,
                method: endpoint.method,
                route: endpoint.route,
                file: endpoint.file,
                root: api_config.root.clone(),
                read: endpoint.read,
                write: endpoint.write,
            },
        );
    }
    let mut listed: Vec<ApiDefinition> = Vec::new();
    while reversed.len() > 0
        invariant
            listed.len() + reversed.len() == n,
            n == views.len(),
            forall|k: int|
                0 <= k < reversed.len() ==> defines(
                    #[trigger] &reversed[k],
                    views[n - 1 - k],
                    api_config.root@,
                ),
            forall|k: int|
                0 <= k < listed.len() ==> defines(#[trigger] &listed[k], views[k], api_config.root@),
        decreases reversed.len(),
    {
        assert(defines(
            &reversed[reversed.len() - 1],
            views[n - 1 - (reversed.len() - 1)],
            api_config.root@,
        ));
        let definition = reversed.pop().unwrap();
        listed.push(definition);
    }
    Ok(listed)
}

} // verus!
