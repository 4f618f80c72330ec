//! Typed records decoded from bucket-listing (service) responses.

use vstd::prelude::*;

use crate::object::Owner;

verus! {

/// A bucket-listing response: the listing window, its owner, and the
/// buckets.
#[derive(Clone, Debug, PartialEq, Eq)]
pub struct ListBuckets {
    pub prefix: String,
    pub marker: String,
    pub max_keys: String,
    pub is_truncated: bool,
    pub next_marker: String,
    pub owner: Owner,
    pub buckets: Vec<Bucket>,
}

impl ListBuckets {
    pub fn new(
        prefix: String,
        marker: String,
        max_keys: String,
        is_truncated: bool,
        next_marker: String,
        owner: Owner,
        buckets: Vec<Bucket>,
    ) -> (r: ListBuckets)
        ensures
            r.prefix@ == prefix@,
            r.marker@ == marker@,
            r.max_keys@ == max_keys@,
            r.is_truncated == is_truncated,
            r.next_marker@ == next_marker@,
            r.owner == owner,
            r.buckets@ == buckets@,
    {
        ListBuckets { prefix, marker, max_keys, is_truncated, next_marker, owner, buckets }
    }

    pub fn prefix(&self) -> (r: &str)
        ensures
            r@ == self.prefix@,
    {
        self.prefix.as_str()
    }

    pub fn marker(&self) -> (r: &str)
        ensures
            r@ == self.marker@,
    {
        self.marker.as_str()
    }

    pub fn max_keys(&self) -> (r: &str)
        ensures
            r@ == self.max_keys@,
    {
        self.max_keys.as_str()
    }

    pub fn is_truncated(&self) -> (r: bool)
        ensures
            r == self.is_truncated,
    {
        self.is_truncated
    }

    pub fn next_marker(&self) -> (r: &str)
        ensures
            r@ == self.next_marker@,
    {
        self.next_marker.as_str()
    }

    pub fn id(&self) -> (r: &str)
        ensures
            r@ == self.owner.id@,
    {
        self.owner.id.as_str()
    }

    pub fn display_name(&self) -> (r: &str)
        ensures
            r@ == self.owner.display_name@,
    {
        self.owner.display_name.as_str()
    }

    pub fn buckets(&self) -> (r: &Vec<Bucket>)
        ensures
            r@ == self.buckets@,
    {
        &self.buckets
    }
}

/// One bucket of a bucket listing.
#[derive(Clone, Debug, PartialEq, Eq)]
pub struct Bucket {
    pub name: String,
    pub creation_date: String,
    pub location: String,
    pub extranet_endpoint: String,
    pub intranet_endpoint: String,
    pub storage_class: String,
}

impl Bucket {
    pub fn new(
        name: String,
        creation_date: String,
        location: String,
        extranet_endpoint: String,
        intranet_endpoint: String,
        storage_class: String,
    ) -> (r: Bucket)
        ensures
            r.name@ == name@,
            r.creation_date@ == creation_date@,
            r.location@ == location@,
            r.extranet_endpoint@ == extranet_endpoint@,
            r.intranet_endpoint@ == intranet_endpoint@,
            r.storage_class@ == storage_class@,
    {
        Bucket { name, creation_date, location, extranet_endpoint, intranet_endpoint,
            storage_class }
    }

    pub fn name(&self) -> (r: &str)
        ensures
            r@ == self.name@,
    {
        self.name.as_str()
    }

    pub fn creation_date(&self) -> (r: &str)
        ensures
            r@ == self.creation_date@,
    {
        self.creation_date.as_str()
    }

    pub fn location(&self) -> (r: &str)
        ensures
            r@ == self.location@,
    {
        self.location.as_str()
    }

    pub fn extranet_endpoint(&self) -> (r: &str)
        ensures
            r@ == self.extranet_endpoint@,
    {
        self.extranet_endpoint.as_str()
    }

    pub fn intranet_endpoint(&self) -> (r: &str)
        ensures
            r@ == self.intranet_endpoint@,
    {
        self.intranet_endpoint.as_str()
    }

    pub fn storage_class(&self) -> (r: &str)
        ensures
            r@ == self.storage_class@,
    {
        self.storage_class.as_str()
    }
}

} // verus!
