//! What a deployment is made of, as the definitions describe it.

use crate::cloud::api::ApiEndpoint;
use vstd::prelude::*;

pub mod api;

verus! {

/// The APIs of one deployment.
pub struct Cloud {
    apis: Vec<ApiEndpoint>,
}

impl Cloud {
    /// The endpoints held.
    pub closed spec fn spec_apis(&self) -> Seq<ApiEndpoint> {
        self.apis@
    }

    /// A deployment without endpoints.
    pub fn new() -> (c: Self)
        ensures
            c.spec_apis() == Seq::<ApiEndpoint>::empty(),
    {
        Cloud { apis: Vec::new() }
    }

    /// Replaces the endpoints held.
    pub fn set_apis(&mut self, apis: Vec<ApiEndpoint>)
        ensures
            final(self).spec_apis() == apis@,
    {
        self.apis = apis;
    }

    /// The endpoints held.
    pub fn apis(&self) -> (apis: &Vec<ApiEndpoint>)
        ensures
            apis@ == self.spec_apis(),
    {
        &self.apis
    }
}

impl Default for Cloud {
    fn default() -> (c: Self)
        ensures
            c.spec_apis() == Seq::<ApiEndpoint>::empty(),
    {
        Cloud::new()
    }
}

} // verus!
