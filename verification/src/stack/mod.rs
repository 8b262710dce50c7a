//! The resource model: what is deployed, and how each resource is written
//! down as a block of configuration.

use std::rc::Rc;
use vstd::prelude::*;

pub mod api;
pub mod iam;
pub mod lambda;
pub mod region;
pub mod tf;
pub mod tf_laws;
pub mod tf_read;

verus! {

/// A value that many resources refer to. It never changes once it is made.
pub type Shared<T> = Rc<T>;

/// Makes a value that can be referred to from many places.
pub fn shared<T>(t: T) -> (s: Shared<T>)
    ensures
        *s == t,
{
    Rc::new(t)
}

/// Calls `Rc::clone`: another handle to the same value.
#[verifier::external_body]
pub(crate) fn share<T>(s: &Shared<T>) -> (r: Shared<T>)
    ensures
        r == *s,
{
    Rc::clone(s)
}

} // verus!
