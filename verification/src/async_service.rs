//! The bucket record of the task-based (asynchronous) service listing,
//! kept separate from the blocking variant's record as callers name them
//! by module.

use vstd::prelude::*;

verus! {

/// One bucket of a bucket listing.
#[derive(Clone, Debug, PartialEq, Eq)]
pub struct Bucket {
    pub name: String,
    pub creation_date: String,
    pub location: String,
    pub extranet_endpoint: String,
    pub intranet_endpoint: String,
    pub storage_class: String,
}

impl Bucket {
    pub fn new(
        name: String,
        creation_date: String,
        location: String,
        extranet_endpoint: String,
        intranet_endpoint: String,
        storage_class: String,
    ) -> (r: Bucket)
        ensures
            r.name@ == name@,
            r.creation_date@ == creation_date@,
            r.location@ == location@,
            r.extranet_endpoint@ == extranet_endpoint@,
            r.intranet_endpoint@ == intranet_endpoint@,
            r.storage_class@ == storage_class@,
    {
        Bucket { name, creation_date, location, extranet_endpoint, intranet_endpoint,
            storage_class }
    }

    pub fn name(&self) -> (r: &str)
        ensures
            r@ == self.name@,
    {
        self.name.as_str()
    }

    pub fn creation_date(&self) -> (r: &str)
        ensures
            r@ == self.creation_date@,
    {
        self.creation_date.as_str()
    }

    pub fn location(&self) -> (r: &str)
        ensures
            r@ == self.location@,
    {
        self.location.as_str()
    }

    pub fn extranet_endpoint(&self) -> (r: &str)
        ensures
            r@ == self.extranet_endpoint@,
    {
        self.extranet_endpoint.as_str()
    }

    pub fn intranet_endpoint(&self) -> (r: &str)
        ensures
            r@ == self.intranet_endpoint@,
    {
        self.intranet_endpoint.as_str()
    }

    pub fn storage_class(&self) -> (r: &str)
        ensures
            r@ == self.storage_class@,
    {
        self.storage_class.as_str()
    }
}

} // verus!
