//! An API and its endpoints, as loaded.

use crate::cloud::api::HttpMethod;
use crate::text::texts;
use vstd::prelude::*;

verus! {

/// An API: where its definitions lie, the domain under which it is served,
/// what every route begins with, and its endpoints.
#[derive(Clone, Debug)]
pub struct ApiConfig {
    pub name: String,
    pub root: String,
    pub domain: String,
    pub prefix: Option<String>,
    pub endpoints: Vec<ApiEndpoint>,
}

/// An endpoint of an API, as loaded.
#[derive(Clone, Debug)]
pub struct ApiEndpoint {
    pub name: String,
    pub method: HttpMethod,
    pub route: String,
    pub file: String,
    pub read: Vec<String>,
    pub write: Vec<String>,
}

/// What a loaded endpoint says.
pub struct EndpointView {
    pub name: Seq<char>,
    pub method: HttpMethod,
    pub route: Seq<char>,
    pub file: Seq<char>,
    pub read: Seq<Seq<char>>,
    pub write: Seq<Seq<char>>,
}

impl View for ApiEndpoint {
    type V = EndpointView;

    open spec fn view(&self) -> EndpointView {
        EndpointView {
            name: self.name@,
            method: self.method,
            route: self.route@,
            file: self.file@,
            read: texts(self.read@),
            write: texts(self.write@),
        }
    }
}

/// What each of the endpoints says.
pub open spec fn endpoint_views(endpoints: Seq<ApiEndpoint>) -> Seq<EndpointView> {
    Seq::new(endpoints.len(), |i: int| endpoints[i]@)
}

} // verus!
