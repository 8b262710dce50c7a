//! The provider block: where the stack is deployed.

use crate::stack::tf::Terraform;
use vstd::prelude::*;
use vstd::string::*;

verus! {

/// A region of the cloud provider.
#[derive(Clone, Copy, Debug, PartialEq, Eq, Structural)]
pub enum Region {
    UsEast1,
}

impl Default for Region {
    fn default() -> (r: Self)
        ensures
            r == Region::UsEast1,
    {
        Region::UsEast1
    }
}

impl Region {
    /// The provider's name for the region.
    pub open spec fn spec_tf_string(&self) -> Seq<char> {
        match self {
            Region::UsEast1 => "us-east-1"@,
        }
    }

    /// The provider's name for the region.
    pub fn to_tf_string(&self) -> (s: &'static str)
        ensures
            s@ == self.spec_tf_string(),
    {
        match self {
            Region::UsEast1 => "us-east-1",
        }
    }
}

/// The cloud provider, set to one region.
#[derive(Clone, Copy, Debug)]
pub struct Provider {
    pub region: Region,
}

impl Provider {
    /// The text of the provider block.
    pub open spec fn spec_terraform(&self) -> Seq<char> {
        "provider \"aws\" {\n    region = \""@ + self.region.spec_tf_string() + "\"\n}"@
    }

    /// Renders the provider block.
    pub fn create_terraform(&self) -> (tf: Terraform)
        ensures
            tf@ == self.spec_terraform(),
    {
        let mut s = "provider \"aws\" {\n    region = \"".to_owned();
        s.append(self.region.to_tf_string());
        s.append("\"\n}");
        Terraform(s)
    }
}

} // verus!
