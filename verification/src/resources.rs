//! Resource (query) parameters and their canonical encoding.
//!
//! A resource parameter set maps a name to an optional value.  Two strings
//! are derived from it: the *signable* string, over the parameters whose
//! names are on the fixed allow-list of sub-resources, and the *query*
//! string, over all parameters.  Both sort entries by name (ties broken by
//! value) and join them as `key` or `key=value` with `&` separators.
//! Neither performs any URL escaping: callers must pre-encode names and
//! values when they need to.

use vstd::prelude::*;
use vstd::seq_lib::lemma_sorted_unique;
use vstd::string::StringExecFns;

use crate::chars::str_eq;
use crate::sorting::{entry_le_rel, lemma_entry_le_total_ordering, lemma_filter_to_multiset, sort_entries};

verus! {

/// Whether a parameter name is one of the canonical sub-resources that
/// take part in the signature.
pub open spec fn is_signable_key(k: Seq<char>) -> bool {
    ||| k == "acl"@
    ||| k == "uploads"@
    ||| k == "location"@
    ||| k == "cors"@
    ||| k == "logging"@
    ||| k == "website"@
    ||| k == "referer"@
    ||| k == "lifecycle"@
    ||| k == "delete"@
    ||| k == "append"@
    ||| k == "tagging"@
    ||| k == "objectMeta"@
    ||| k == "uploadId"@
    ||| k == "partNumber"@
    ||| k == "security-token"@
    ||| k == "position"@
    ||| k == "img"@
    ||| k == "style"@
    ||| k == "styleName"@
    ||| k == "replication"@
    ||| k == "replicationProgress"@
    ||| k == "replicationLocation"@
    ||| k == "cname"@
    ||| k == "bucketInfo"@
    ||| k == "comp"@
    ||| k == "qos"@
    ||| k == "live"@
    ||| k == "status"@
    ||| k == "vod"@
    ||| k == "startTime"@
    ||| k == "endTime"@
    ||| k == "symlink"@
    ||| k == "x-oss-process"@
    ||| k == "response-content-type"@
    ||| k == "response-content-language"@
    ||| k == "response-expires"@
    ||| k == "response-cache-control"@
    ||| k == "response-content-disposition"@
    ||| k == "response-content-encoding"@
    ||| k == "udf"@
    ||| k == "udfName"@
    ||| k == "udfImage"@
    ||| k == "udfId"@
    ||| k == "udfImageDesc"@
    ||| k == "udfApplication"@
    ||| k == "udfApplicationLog"@
    ||| k == "restore"@
    ||| k == "callback"@
    ||| k == "callback-var"@
}

pub open spec fn signable_pred() -> spec_fn((Seq<char>, Option<Seq<char>>)) -> bool {
    |e: (Seq<char>, Option<Seq<char>>)| is_signable_key(e.0)
}

/// Decides allow-list membership of a parameter name.
pub fn check_signable_key(k: &str) -> (r: bool)
    ensures
        r == is_signable_key(k@),
{
    str_eq(k, "acl") || str_eq(k, "uploads") || str_eq(k, "location") || str_eq(k, "cors")
        || str_eq(k, "logging") || str_eq(k, "website") || str_eq(k, "referer") || str_eq(
        k,
        "lifecycle",
    ) || str_eq(k, "delete") || str_eq(k, "append") || str_eq(k, "tagging") || str_eq(
        k,
        "objectMeta",
    ) || str_eq(k, "uploadId") || str_eq(k, "partNumber") || str_eq(k, "security-token") || str_eq(
        k,
        "position",
    ) || str_eq(k, "img") || str_eq(k, "style") || str_eq(k, "styleName") || str_eq(
        k,
        "replication",
    ) || str_eq(k, "replicationProgress") || str_eq(k, "replicationLocation") || str_eq(k, "cname")
        || str_eq(k, "bucketInfo") || str_eq(k, "comp") || str_eq(k, "qos") || str_eq(k, "live")
        || str_eq(k, "status") || str_eq(k, "vod") || str_eq(k, "startTime") || str_eq(k, "endTime")
        || str_eq(k, "symlink") || str_eq(k, "x-oss-process") || str_eq(k, "response-content-type")
        || str_eq(k, "response-content-language") || str_eq(k, "response-expires") || str_eq(
        k,
        "response-cache-control",
    ) || str_eq(k, "response-content-disposition") || str_eq(k, "response-content-encoding")
        || str_eq(k, "udf") || str_eq(k, "udfName") || str_eq(k, "udfImage") || str_eq(k, "udfId")
        || str_eq(k, "udfImageDesc") || str_eq(k, "udfApplication") || str_eq(
        k,
        "udfApplicationLog",
    ) || str_eq(k, "restore") || str_eq(k, "callback") || str_eq(k, "callback-var")
}

/// How one entry is rendered: `key` alone, or `key=value`.
pub open spec fn render_entry(e: (Seq<char>, Option<Seq<char>>)) -> Seq<char> {
    match e.1 {
        Option::Some(v) => e.0 + "="@ + v,
        Option::None => e.0,
    }
}

/// Joins rendered entries with `&` separators.
pub open spec fn join_amp(rs: Seq<Seq<char>>) -> Seq<char>
    decreases rs.len(),
{
    if rs.len() == 0 {
        Seq::empty()
    } else if rs.len() == 1 {
        rs[0]
    } else {
        join_amp(rs.drop_last()) + "&"@ + rs.last()
    }
}

/// The canonical (sorted) order of an entry sequence.
pub open spec fn canonical_entries(
    s: Seq<(Seq<char>, Option<Seq<char>>)>,
) -> Seq<(Seq<char>, Option<Seq<char>>)> {
    s.sort_by(entry_le_rel())
}

/// The query string: all entries, sorted and joined.
pub open spec fn query_spec(s: Seq<(Seq<char>, Option<Seq<char>>)>) -> Seq<char> {
    join_amp(canonical_entries(s).map_values(|e: (Seq<char>, Option<Seq<char>>)| render_entry(e)))
}

/// The signable string: the allow-listed entries, sorted and joined.
pub open spec fn signable_spec(s: Seq<(Seq<char>, Option<Seq<char>>)>) -> Seq<char> {
    query_spec(s.filter(signable_pred()))
}

/// A resource parameter set: parameter names with optional values, kept in
/// insertion order.  Inserting an existing name replaces its value.
#[derive(Debug, Clone, PartialEq, Eq)]
pub struct ResourceMap {
    entries: Vec<(String, Option<String>)>,
}

impl View for ResourceMap {
    type V = Seq<(Seq<char>, Option<Seq<char>>)>;

    closed spec fn view(&self) -> Seq<(Seq<char>, Option<Seq<char>>)> {
        self.entries.deep_view()
    }
}

/// The position of the first entry with name `k`, if any.
pub open spec fn key_index(s: Seq<(Seq<char>, Option<Seq<char>>)>, k: Seq<char>) -> Option<int>
    decreases s.len(),
{
    if s.len() == 0 {
        None
    } else if s[0].0 == k {
        Some(0)
    } else {
        match key_index(s.drop_first(), k) {
            Some(i) => Some(i + 1),
            None => None,
        }
    }
}

pub proof fn lemma_key_index(s: Seq<(Seq<char>, Option<Seq<char>>)>, k: Seq<char>)
    ensures
        match key_index(s, k) {
            Some(i) => 0 <= i < s.len() && s[i].0 == k && forall|j: int|
                0 <= j < i ==> (#[trigger] s[j]).0 != k,
            None => forall|j: int| 0 <= j < s.len() ==> (#[trigger] s[j]).0 != k,
        },
    decreases s.len(),
{
    if s.len() > 0 && s[0].0 != k {
        lemma_key_index(s.drop_first(), k);
        assert(forall|j: int|
            1 <= j < s.len() ==> #[trigger] s[j] == s.drop_first()[j - 1]);
    }
}

/// Inserting a value for a name: the first entry with that name is
/// replaced, or a new entry is appended.
pub open spec fn upsert(
    s: Seq<(Seq<char>, Option<Seq<char>>)>,
    k: Seq<char>,
    v: Option<Seq<char>>,
) -> Seq<(Seq<char>, Option<Seq<char>>)> {
    match key_index(s, k) {
        Some(i) => s.update(i, (k, v)),
        None => s.push((k, v)),
    }
}

fn clone_entry(e: &(String, Option<String>)) -> (r: (String, Option<String>))
    ensures
        r.deep_view() == e.deep_view(),
{
    (
        e.0.clone(),
        match &e.1 {
            Option::Some(v) => Option::Some(v.clone()),
            Option::None => Option::None,
        },
    )
}

impl ResourceMap {
    /// An empty parameter set.
    pub fn new() -> (r: ResourceMap)
        ensures
            r@ == Seq::<(Seq<char>, Option<Seq<char>>)>::empty(),
    {
        let r = ResourceMap { entries: Vec::new() };
        proof {
            assert(r@ =~= Seq::<(Seq<char>, Option<Seq<char>>)>::empty());
        }
        r
    }

    /// A parameter set holding exactly the given entries, in their order.
    pub fn from_entries(entries: Vec<(String, Option<String>)>) -> (r: ResourceMap)
        ensures
            r@ == entries.deep_view(),
    {
        ResourceMap { entries }
    }

    /// Sets the value of a parameter: replaces the value of an entry that
    /// already carries the name, or appends a new entry.
    pub fn insert(&mut self, k: String, v: Option<String>)
        ensures
            final(self)@ == upsert(old(self)@, k@, v.deep_view()),
    {
        proof {
            lemma_key_index(self@, k@);
        }
        let n = self.entries.len();
        let mut i: usize = 0;
        while i < n
            invariant
                n == self@.len(),
                i <= n,
                self@ == old(self)@,
                self@ == self.entries.deep_view(),
                forall|j: int| 0 <= j < i ==> (#[trigger] self@[j]).0 != k@,
            decreases n - i,
        {
            if str_eq(self.entries[i].0.as_str(), k.as_str()) {
                let ghost before = self@;
                proof {
                    assert(before[i as int].0 == k@);
                    lemma_key_index(before, k@);
                    match key_index(before, k@) {
                        Some(i0) => {
                            if i0 < i {
                                assert(before[i0].0 != k@);
                            }
                        },
                        None => {
                            assert(before[i as int].0 != k@);
                        },
                    }
                }
                let _ = self.entries.remove(i);
                self.entries.insert(i, (k, v));
                proof {
                    assert(key_index(before, k@) == Some(i as int));
                    assert(self.entries.deep_view() =~= before.update(i as int, (k@, v.deep_view())));
                }
                return ;
            }
            i += 1;
        }
        let ghost before = self@;
        self.entries.push((k, v));
        proof {
            lemma_key_index(before, k@);
            match key_index(before, k@) {
                Some(i0) => {
                    assert(before[i0].0 != k@);
                },
                None => (),
            }
            assert(key_index(before, k@) is None);
            assert(self.entries.deep_view() =~= before.push((k@, v.deep_view())));
        }
    }
}

/// Renders already-sorted entries, joined with `&`.
fn render_joined(v: &Vec<(String, Option<String>)>) -> (r: String)
    ensures
        r@ == join_amp(
            v.deep_view().map_values(|e: (Seq<char>, Option<Seq<char>>)| render_entry(e)),
        ),
{
    let ghost renders = v.deep_view().map_values(
        |e: (Seq<char>, Option<Seq<char>>)| render_entry(e),
    );
    let n = v.len();
    let mut out = String::new();
    let mut i: usize = 0;
    proof {
        assert(renders.take(0) =~= Seq::<Seq<char>>::empty());
    }
    while i < n
        invariant
            n == v@.len(),
            i <= n,
            renders == v.deep_view().map_values(
                |e: (Seq<char>, Option<Seq<char>>)| render_entry(e),
            ),
            out@ == join_amp(renders.take(i as int)),
        decreases n - i,
    {
        let e = &v[i];
        let ghost before = out@;
        if i > 0 {
            out.append("&");
        }
        out.append(e.0.as_str());
        match &e.1 {
            Option::Some(val) => {
                out.append("=");
                out.append(val.as_str());
            },
            Option::None => {},
        }
        proof {
            let dv = v.deep_view()[i as int];
            assert(renders[i as int] == render_entry(dv));
            assert(renders.take(i + 1).drop_last() =~= renders.take(i as int));
            assert(renders.take(i + 1).last() == renders[i as int]);
            if i == 0 {
                assert(out@ =~= render_entry(dv));
                assert(join_amp(renders.take(1)) == renders.take(1)[0]);
                assert(renders.take(1)[0] == renders[0]);
            } else {
                assert(out@ =~= before + "&"@ + render_entry(dv));
                assert(join_amp(renders.take(i + 1)) == join_amp(renders.take(i as int)) + "&"@
                    + renders[i as int]);
            }
        }
        i += 1;
    }
    proof {
        assert(renders.take(n as int) =~= renders);
    }
    out
}

impl ResourceMap {
    /// The signable resource string: allow-listed parameters only, sorted
    /// by name (ties by value) and joined with `&`, no escaping.
    pub fn signable_str(&self) -> (r: String)
        ensures
            r@ == signable_spec(self@),
    {
        let n = self.entries.len();
        let mut kept: Vec<(String, Option<String>)> = Vec::new();
        let mut i: usize = 0;
        proof {
            reveal(Seq::filter);
            assert(self@.take(0) =~= Seq::<(Seq<char>, Option<Seq<char>>)>::empty());
            assert(kept.deep_view() =~= self@.take(0).filter(signable_pred()));
        }
        while i < n
            invariant
                n == self@.len(),
                i <= n,
                self@ == self.entries.deep_view(),
                kept.deep_view() == self@.take(i as int).filter(signable_pred()),
            decreases n - i,
        {
            let e = &self.entries[i];
            let ghost prefix = self@.take(i as int);
            let ghost next = self@.take(i + 1);
            proof {
                assert(next.drop_last() =~= prefix);
                assert(next.last() == self@[i as int]);
            }
            if check_signable_key(e.0.as_str()) {
                let ghost before = kept.deep_view();
                let copy = clone_entry(e);
                kept.push(copy);
                proof {
                    reveal(Seq::filter);
                    assert(kept.deep_view() =~= before.push(self@[i as int]));
                    assert(next.filter(signable_pred()) == prefix.filter(signable_pred()).push(
                        self@[i as int],
                    ));
                }
            } else {
                proof {
                    reveal(Seq::filter);
                    assert(next.filter(signable_pred()) == prefix.filter(signable_pred()));
                }
            }
            i += 1;
        }
        proof {
            assert(self@.take(n as int) =~= self@);
        }
        let sorted = sort_entries(kept);
        render_joined(&sorted)
    }

    /// The query string: all parameters, sorted by name (ties by value)
    /// and joined with `&`, no escaping.
    pub fn query_str(&self) -> (r: String)
        ensures
            r@ == query_spec(self@),
    {
        let n = self.entries.len();
        let mut all: Vec<(String, Option<String>)> = Vec::new();
        let mut i: usize = 0;
        while i < n
            invariant
                n == self@.len(),
                i <= n,
                self@ == self.entries.deep_view(),
                all.deep_view() == self@.take(i as int),
            decreases n - i,
        {
            let copy = clone_entry(&self.entries[i]);
            let ghost before = all.deep_view();
            all.push(copy);
            proof {
                assert(all.deep_view() =~= before.push(self@[i as int]));
                assert(self@.take(i + 1) =~= self@.take(i as int).push(self@[i as int]));
            }
            i += 1;
        }
        proof {
            assert(self@.take(n as int) =~= self@);
        }
        let sorted = sort_entries(all);
        render_joined(&sorted)
    }

    /// Both canonical strings of a parameter set: the signable resource
    /// string over the allow-listed parameters, and the query string over
    /// all of them.
    pub fn encode_resources(&self) -> (r: (String, String))
        ensures
            r.0@ == signable_spec(self@),
            r.1@ == query_spec(self@),
    {
        (self.signable_str(), self.query_str())
    }
}

/// An empty parameter set encodes to a pair of empty strings.
pub proof fn lemma_encode_empty()
    ensures
        signable_spec(Seq::<(Seq<char>, Option<Seq<char>>)>::empty()) == Seq::<char>::empty(),
        query_spec(Seq::<(Seq<char>, Option<Seq<char>>)>::empty()) == Seq::<char>::empty(),
{
    reveal(Seq::filter);
    let e = Seq::<(Seq<char>, Option<Seq<char>>)>::empty();
    assert(e.filter(signable_pred()) =~= e);
    lemma_entry_le_total_ordering();
    let rel = entry_le_rel();
    e.lemma_sort_by_ensures(rel);
    vstd::seq_lib::to_multiset_len(e);
    vstd::seq_lib::to_multiset_len(e.sort_by(rel));
    assert(e.sort_by(rel) =~= e);
    assert(e.map_values(|en: (Seq<char>, Option<Seq<char>>)| render_entry(en)) =~= Seq::<
        Seq<char>,
    >::empty());
}

/// Law: the encoded strings do not depend on insertion order.  Two
/// parameter sequences carrying the same entries, in whatever order,
/// encode to the same signable string and the same query string.
pub proof fn lemma_encode_order_invariant(
    s1: Seq<(Seq<char>, Option<Seq<char>>)>,
    s2: Seq<(Seq<char>, Option<Seq<char>>)>,
)
    requires
        s1.to_multiset() == s2.to_multiset(),
    ensures
        query_spec(s1) == query_spec(s2),
        signable_spec(s1) == signable_spec(s2),
{
    lemma_entry_le_total_ordering();
    let rel = entry_le_rel();
    s1.lemma_sort_by_ensures(rel);
    s2.lemma_sort_by_ensures(rel);
    lemma_sorted_unique(s1.sort_by(rel), s2.sort_by(rel), rel);
    assert(canonical_entries(s1) == canonical_entries(s2));
    let f1 = s1.filter(signable_pred());
    let f2 = s2.filter(signable_pred());
    lemma_filter_to_multiset(s1, signable_pred());
    lemma_filter_to_multiset(s2, signable_pred());
    assert(f1.to_multiset() == f2.to_multiset());
    f1.lemma_sort_by_ensures(rel);
    f2.lemma_sort_by_ensures(rel);
    lemma_sorted_unique(f1.sort_by(rel), f2.sort_by(rel), rel);
    assert(canonical_entries(f1) == canonical_entries(f2));
}

/// Law: a parameter whose name is not on the allow-list never reaches the
/// signable string, while the query entries gain exactly that entry.
pub proof fn lemma_signable_ignores_unlisted(
    s: Seq<(Seq<char>, Option<Seq<char>>)>,
    e: (Seq<char>, Option<Seq<char>>),
)
    requires
        !is_signable_key(e.0),
    ensures
        signable_spec(s.push(e)) == signable_spec(s),
        canonical_entries(s.push(e)).to_multiset() == canonical_entries(s).to_multiset().insert(e),
{
    broadcast use vstd::multiset::group_multiset_axioms;

    reveal(Seq::filter);
    lemma_entry_le_total_ordering();
    let pred = signable_pred();
    assert(s.push(e).drop_last() =~= s);
    assert(s.push(e).last() == e);
    assert(!pred(e));
    assert(s.push(e).filter(pred) == s.filter(pred));
    let rel = entry_le_rel();
    s.lemma_sort_by_ensures(rel);
    s.push(e).lemma_sort_by_ensures(rel);
    vstd::seq_lib::to_multiset_build(s, e);
    assert(canonical_entries(s.push(e)).to_multiset() =~= canonical_entries(
        s,
    ).to_multiset().insert(e));
}

} // verus!
