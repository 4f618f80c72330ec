//! Typed records decoded from object-listing responses, and the reader
//! that pulls the grant out of an ACL response body.

use vstd::prelude::*;
use vstd::string::StrSliceExecFns;

use crate::chars::{find_first, find_last, find_sub, find_sub_last, lemma_find_first, trim_spaces, trim_str};

verus! {

/// A common prefix entry of a delimited listing.
#[derive(Clone, Debug, PartialEq, Eq)]
pub struct CommonPrefix {
    pub prefix: String,
}

/// The owner of an object or a bucket.
#[derive(Clone, Debug, PartialEq, Eq, Default)]
pub struct Owner {
    pub id: String,
    pub display_name: String,
}

/// One object of a listing.
#[derive(Clone, Debug, PartialEq, Eq)]
pub struct Object {
    pub key: String,
    pub last_modified: String,
    pub size: usize,
    pub e_tag: String,
    pub type_: String,
    pub storage_class: String,
    pub owner: Owner,
}

impl Object {
    pub fn new(
        key: String,
        last_modified: String,
        size: usize,
        e_tag: String,
        type_: String,
        storage_class: String,
        owner: Owner,
    ) -> (r: Object)
        ensures
            r.key@ == key@,
            r.last_modified@ == last_modified@,
            r.size == size,
            r.e_tag@ == e_tag@,
            r.type_@ == type_@,
            r.storage_class@ == storage_class@,
            r.owner == owner,
    {
        Object { key, last_modified, size, e_tag, type_, storage_class, owner }
    }

    pub fn key(&self) -> (r: &str)
        ensures
            r@ == self.key@,
    {
        self.key.as_str()
    }

    pub fn last_modified(&self) -> (r: &str)
        ensures
            r@ == self.last_modified@,
    {
        self.last_modified.as_str()
    }

    pub fn size(&self) -> (r: usize)
        ensures
            r == self.size,
    {
        self.size
    }

    pub fn e_tag(&self) -> (r: &str)
        ensures
            r@ == self.e_tag@,
    {
        self.e_tag.as_str()
    }

    pub fn type_(&self) -> (r: &str)
        ensures
            r@ == self.type_@,
    {
        self.type_.as_str()
    }

    pub fn storage_class(&self) -> (r: &str)
        ensures
            r@ == self.storage_class@,
    {
        self.storage_class.as_str()
    }

    pub fn id(&self) -> (r: &str)
        ensures
            r@ == self.owner.id@,
    {
        self.owner.id.as_str()
    }

    pub fn display_name(&self) -> (r: &str)
        ensures
            r@ == self.owner.display_name@,
    {
        self.owner.display_name.as_str()
    }
}

/// An object-listing response: the listing window and its entries.
#[derive(Clone, Debug, PartialEq, Eq)]
pub struct ListObjects {
    pub name: String,
    pub delimiter: String,
    pub prefix: String,
    pub marker: String,
    pub max_keys: String,
    pub is_truncated: bool,
    pub contents: Vec<Object>,
    pub common_prefixes: Vec<CommonPrefix>,
}

impl ListObjects {
    pub fn new(
        name: String,
        delimiter: String,
        prefix: String,
        marker: String,
        max_keys: String,
        is_truncated: bool,
        contents: Vec<Object>,
        common_prefixes: Vec<CommonPrefix>,
    ) -> (r: ListObjects)
        ensures
            r.name@ == name@,
            r.delimiter@ == delimiter@,
            r.prefix@ == prefix@,
            r.marker@ == marker@,
            r.max_keys@ == max_keys@,
            r.is_truncated == is_truncated,
            r.contents@ == contents@,
            r.common_prefixes@ == common_prefixes@,
    {
        ListObjects {
            name,
            delimiter,
            prefix,
            marker,
            max_keys,
            is_truncated,
            contents,
            common_prefixes,
        }
    }

    pub fn name(&self) -> (r: &str)
        ensures
            r@ == self.name@,
    {
        self.name.as_str()
    }

    pub fn delimiter(&self) -> (r: &str)
        ensures
            r@ == self.delimiter@,
    {
        self.delimiter.as_str()
    }

    pub fn prefix(&self) -> (r: &str)
        ensures
            r@ == self.prefix@,
    {
        self.prefix.as_str()
    }

    pub fn marker(&self) -> (r: &str)
        ensures
            r@ == self.marker@,
    {
        self.marker.as_str()
    }

    pub fn max_keys(&self) -> (r: &str)
        ensures
            r@ == self.max_keys@,
    {
        self.max_keys.as_str()
    }

    pub fn is_truncated(&self) -> (r: bool)
        ensures
            r == self.is_truncated,
    {
        self.is_truncated
    }

    pub fn contents(&self) -> (r: &Vec<Object>)
        ensures
            r@ == self.contents@,
    {
        &self.contents
    }

    pub fn common_prefixes(&self) -> (r: &Vec<CommonPrefix>)
        ensures
            r@ == self.common_prefixes@,
    {
        &self.common_prefixes
    }
}

/// The grant of an ACL response body: the text between the last
/// `<Grant>` and the first `</Grant>` that follows it, trimmed of the
/// surrounding XML white space (a reader that visits the grant elements
/// in order and keeps the latest sees the last one).  Empty when the body
/// has no `<Grant>`; nothing when the last one is never closed.
pub open spec fn grant_of(body: Seq<char>) -> Option<Seq<char>> {
    match find_last(body, "<Grant>"@) {
        Option::Some(i) => {
            let rest = body.skip(i + "<Grant>"@.len());
            match find_first(rest, "</Grant>"@) {
                Option::Some(j) => Some(trim_spaces(rest.take(j))),
                Option::None => None,
            }
        },
        Option::None => Some(Seq::empty()),
    }
}

/// Pulls the grant text out of an ACL response body.
pub fn extract_grant(body: &str) -> (r: Option<String>)
    ensures
        match r {
            Some(g) => grant_of(body@) == Some(g@),
            None => grant_of(body@) is None,
        },
{
    let n = body.unicode_len();
    match find_sub_last(body, "<Grant>") {
        Option::Some(i) => {
            proof {
                crate::chars::lemma_find_last(body@, "<Grant>"@);
            }
            let start = i + "<Grant>".unicode_len();
            let rest = body.substring_char(start, n);
            proof {
                assert(rest@ =~= body@.skip(i + "<Grant>"@.len()));
            }
            match find_sub(rest, "</Grant>") {
                Option::Some(j) => {
                    proof {
                        lemma_find_first(rest@, "</Grant>"@);
                    }
                    let g = rest.substring_char(0, j);
                    proof {
                        assert(g@ =~= rest@.take(j as int));
                    }
                    Some(trim_str(g))
                },
                Option::None => None,
            }
        },
        Option::None => Some(String::new()),
    }
}

} // verus!
