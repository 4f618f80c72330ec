//! HTTP header sets.
//!
//! A `Headers` value maps header names to values.  Names are validated
//! against the HTTP token character class and stored lower-cased (header
//! names are case-insensitive on the wire); values are validated against
//! the header value character class.  Validation happens at construction
//! time, before any signing, so the signer only ever sees representable
//! headers.

use vstd::prelude::*;

use crate::chars::{
    check_token_char, check_value_char, is_token_char, is_value_char, lower_char, lower_seq,
    lower_str, str_eq,
};
use crate::errors::{Error, HttpError};

verus! {

/// A representable header name: non-empty, token characters only.
pub open spec fn valid_header_name(n: Seq<char>) -> bool {
    n.len() > 0 && forall|i: int| 0 <= i < n.len() ==> is_token_char(#[trigger] n[i])
}

/// A representable header value: value characters only.
pub open spec fn valid_header_value(v: Seq<char>) -> bool {
    forall|i: int| 0 <= i < v.len() ==> is_value_char(#[trigger] v[i])
}

/// No two entries carry the same name.
pub open spec fn unique_names(h: Seq<(Seq<char>, Seq<char>)>) -> bool {
    forall|i: int, j: int|
        0 <= i < j < h.len() ==> (#[trigger] h[i]).0 != (#[trigger] h[j]).0
}

/// Every entry holds a valid, lower-cased name and a valid value, and no
/// name occurs twice.
pub open spec fn headers_wf(h: Seq<(Seq<char>, Seq<char>)>) -> bool {
    unique_names(h) && forall|i: int|
        0 <= i < h.len() ==> valid_header_name((#[trigger] h[i]).0) && h[i].0 == lower_seq(h[i].0)
            && valid_header_value(h[i].1)
}

/// The value of the first entry carrying the given name, if any.
pub open spec fn header_lookup(h: Seq<(Seq<char>, Seq<char>)>, n: Seq<char>) -> Option<Seq<char>>
    decreases h.len(),
{
    if h.len() == 0 {
        None
    } else if h[0].0 == n {
        Some(h[0].1)
    } else {
        header_lookup(h.drop_first(), n)
    }
}

/// The position of the first entry carrying the given name, if any.
pub open spec fn header_index(h: Seq<(Seq<char>, Seq<char>)>, n: Seq<char>) -> Option<int>
    decreases h.len(),
{
    if h.len() == 0 {
        None
    } else if h[0].0 == n {
        Some(0)
    } else {
        match header_index(h.drop_first(), n) {
            Some(i) => Some(i + 1),
            None => None,
        }
    }
}

/// Setting a header: the first entry with the name is replaced, or a new
/// entry is appended.
pub open spec fn header_upsert(
    h: Seq<(Seq<char>, Seq<char>)>,
    n: Seq<char>,
    v: Seq<char>,
) -> Seq<(Seq<char>, Seq<char>)> {
    match header_index(h, n) {
        Some(i) => h.update(i, (n, v)),
        None => h.push((n, v)),
    }
}

pub proof fn lemma_header_index(h: Seq<(Seq<char>, Seq<char>)>, n: Seq<char>)
    ensures
        match header_index(h, n) {
            Some(i) => 0 <= i < h.len() && h[i].0 == n && header_lookup(h, n) == Some(h[i].1)
                && forall|j: int| 0 <= j < i ==> (#[trigger] h[j]).0 != n,
            None => header_lookup(h, n) is None && forall|j: int|
                0 <= j < h.len() ==> (#[trigger] h[j]).0 != n,
        },
    decreases h.len(),
{
    if h.len() > 0 && h[0].0 != n {
        lemma_header_index(h.drop_first(), n);
        assert(forall|j: int| 1 <= j < h.len() ==> #[trigger] h[j] == h.drop_first()[j - 1]);
    }
}

/// Setting one header does not change what lookups of other names see.
pub proof fn lemma_upsert_preserves_other(
    h: Seq<(Seq<char>, Seq<char>)>,
    n1: Seq<char>,
    v: Seq<char>,
    n2: Seq<char>,
)
    requires
        n1 != n2,
    ensures
        header_lookup(header_upsert(h, n1, v), n2) == header_lookup(h, n2),
{
    lemma_header_index(h, n1);
    let u = header_upsert(h, n1, v);
    lemma_header_index(h, n2);
    lemma_header_index(u, n2);
    match header_index(h, n1) {
        Option::Some(i) => {
            assert(h[i].0 == n1);
            assert(u == h.update(i, (n1, v)));
            assert forall|j: int| 0 <= j < h.len() implies (#[trigger] u[j]).0 == h[j].0 by {
                if j != i {
                    assert(u[j] == h[j]);
                }
            }
            match (header_index(h, n2), header_index(u, n2)) {
                (Option::Some(a), Option::Some(b)) => {
                    if a < b {
                        assert(u[a].0 != n2);
                    }
                    if b < a {
                        assert(h[b].0 != n2);
                        assert(u[b].0 == n2);
                    }
                    assert(a == b);
                    assert(a != i);
                    assert(u[a] == h[a]);
                },
                (Option::Some(a), Option::None) => {
                    assert(u[a].0 == n2);
                },
                (Option::None, Option::Some(b)) => {
                    assert(h[b].0 == u[b].0);
                },
                (Option::None, Option::None) => (),
            }
        },
        Option::None => {
            assert(u == h.push((n1, v)));
            assert(forall|j: int| 0 <= j < h.len() ==> #[trigger] u[j] == h[j]);
            assert(u[h.len() as int].0 == n1);
            match (header_index(h, n2), header_index(u, n2)) {
                (Option::Some(a), Option::Some(b)) => {
                    if a < b {
                        assert(u[a].0 != n2);
                    }
                    if b < a {
                        assert(u[b].0 == n2);
                        assert(h[b].0 != n2);
                    }
                    assert(a == b);
                },
                (Option::Some(a), Option::None) => {
                    assert(u[a].0 == n2);
                },
                (Option::None, Option::Some(b)) => {
                    if b < h.len() {
                        assert(h[b].0 == u[b].0);
                    } else {
                        assert(u[b].0 == n1);
                    }
                },
                (Option::None, Option::None) => (),
            }
        },
    }
}

/// A caller that supplies no `Content-MD5` pair collects a header set
/// without one: lookups of a name that no pair lowers to find nothing.
pub proof fn lemma_collect_without_name(ps: Seq<(Seq<char>, Seq<char>)>, n: Seq<char>)
    requires
        forall|j: int| 0 <= j < ps.len() ==> lower_seq((#[trigger] ps[j]).0) != n,
    ensures
        header_lookup(collect_headers(ps), n) is None,
    decreases ps.len(),
{
    if ps.len() == 0 {
        assert(header_lookup(collect_headers(ps), n) is None);
    } else {
        let butlast = ps.drop_last();
        assert(forall|j: int|
            0 <= j < butlast.len() ==> #[trigger] butlast[j] == ps[j]);
        lemma_collect_without_name(butlast, n);
        lemma_upsert_preserves_other(
            collect_headers(butlast),
            lower_seq(ps.last().0),
            ps.last().1,
            n,
        );
    }
}

/// Lower-casing a valid header name keeps it valid and is idempotent.
pub proof fn lemma_lower_name_valid(n: Seq<char>)
    requires
        valid_header_name(n),
    ensures
        valid_header_name(lower_seq(n)),
        lower_seq(lower_seq(n)) == lower_seq(n),
{
    assert forall|i: int| 0 <= i < lower_seq(n).len() implies is_token_char(
        #[trigger] lower_seq(n)[i],
    ) by {
        assert(is_token_char(n[i]));
    }
    assert(lower_seq(lower_seq(n)) =~= lower_seq(n)) by {
        assert forall|i: int| 0 <= i < n.len() implies lower_char(lower_char(n[i])) == lower_char(
            #[trigger] n[i],
        ) by {}
    }
}

/// An HTTP header set: names (stored lower-cased) mapped to values, in
/// insertion order.  Setting an existing name replaces its value.
#[derive(Debug, Clone, PartialEq, Eq)]
pub struct Headers {
    entries: Vec<(String, String)>,
}

impl View for Headers {
    type V = Seq<(Seq<char>, Seq<char>)>;

    closed spec fn view(&self) -> Seq<(Seq<char>, Seq<char>)> {
        self.entries.deep_view()
    }
}

impl Headers {
    /// Every stored entry is validated and lower-cased.
    pub open spec fn wf(&self) -> bool {
        headers_wf(self@)
    }

    /// An empty header set.
    pub fn new() -> (r: Headers)
        ensures
            r@ == Seq::<(Seq<char>, Seq<char>)>::empty(),
            r.wf(),
    {
        let r = Headers { entries: Vec::new() };
        proof {
            assert(r@ =~= Seq::<(Seq<char>, Seq<char>)>::empty());
        }
        r
    }

    /// The number of headers held.
    pub fn len(&self) -> (r: usize)
        ensures
            r == self@.len(),
    {
        self.entries.len()
    }

    /// The entry at a position, name first.
    pub fn entry_at(&self, i: usize) -> (r: (&String, &String))
        requires
            i < self@.len(),
        ensures
            r.0@ == self@[i as int].0,
            r.1@ == self@[i as int].1,
    {
        let e = &self.entries[i];
        (&e.0, &e.1)
    }

    /// Sets a header.  The name is checked against the token character
    /// class and stored lower-cased; the value is checked against the
    /// value character class.  An unrepresentable name or value leaves
    /// the set unchanged and reports which of the two was at fault.
    pub fn insert(&mut self, name: &str, value: &str) -> (r: Result<(), Error>)
        ensures
            r is Ok <==> (valid_header_name(name@) && valid_header_value(value@)),
            r is Ok ==> final(self)@ == header_upsert(old(self)@, lower_seq(name@), value@),
            r is Err ==> final(self)@ == old(self)@,
            r matches Err(e) ==> (if !valid_header_name(name@) {
                e matches Error::Http(HttpError::HttpInvalidHeaderName(n)) && n@ == name@
            } else {
                e matches Error::Http(HttpError::HttpInvalidHeaderValue(v)) && v@ == value@
            }),
            old(self).wf() ==> final(self).wf(),
    {
        if !check_header_name(name) {
            return Err(Error::Http(HttpError::HttpInvalidHeaderName(name.to_owned())));
        }
        if !check_header_value(value) {
            return Err(Error::Http(HttpError::HttpInvalidHeaderValue(value.to_owned())));
        }
        let lowered = lower_str(name);
        proof {
            lemma_header_index(self@, lowered@);
            lemma_lower_name_valid(name@);
        }
        let n = self.entries.len();
        let mut i: usize = 0;
        while i < n
            invariant
                n == self@.len(),
                i <= n,
                self@ == old(self)@,
                self@ == self.entries.deep_view(),
                lowered@ == lower_seq(name@),
                valid_header_name(name@),
                valid_header_value(value@),
                forall|j: int| 0 <= j < i ==> (#[trigger] self@[j]).0 != lowered@,
            decreases n - i,
        {
            if str_eq(self.entries[i].0.as_str(), lowered.as_str()) {
                let ghost before = self@;
                proof {
                    lemma_lower_name_valid(name@);
                    assert(before[i as int].0 == lowered@);
                    lemma_header_index(before, lowered@);
                    match header_index(before, lowered@) {
                        Some(i0) => {
                            if i0 < i {
                                assert(before[i0].0 != lowered@);
                            }
                        },
                        None => {
                            assert(before[i as int].0 != lowered@);
                        },
                    }
                }
                let _ = self.entries.remove(i);
                self.entries.insert(i, (lowered, value.to_owned()));
                proof {
                    assert(header_index(before, lowered@) == Some(i as int));
                    assert(self.entries.deep_view() =~= before.update(
                        i as int,
                        (lower_seq(name@), value@),
                    ));
                    if headers_wf(before) {
                        assert forall|j: int| 0 <= j < self@.len() implies valid_header_name(
                            (#[trigger] self@[j]).0,
                        ) && self@[j].0 == lower_seq(self@[j].0) && valid_header_value(
                            self@[j].1,
                        ) by {
                            if j != i {
                                assert(self@[j] == before[j]);
                            }
                        }
                        assert(unique_names(self@)) by {
                            assert forall|j1: int, j2: int|
                                0 <= j1 < j2 < self@.len() implies (#[trigger] self@[j1]).0 != (
                            #[trigger] self@[j2]).0 by {
                                assert(self@[j1].0 == before[j1].0);
                                assert(self@[j2].0 == before[j2].0);
                            }
                        }
                    }
                }
                return Ok(());
            }
            i += 1;
        }
        let ghost before = self@;
        self.entries.push((lowered, value.to_owned()));
        proof {
            lemma_lower_name_valid(name@);
            lemma_header_index(before, lowered@);
            match header_index(before, lowered@) {
                Some(i0) => {
                    assert(before[i0].0 != lowered@);
                },
                None => (),
            }
            assert(header_index(before, lowered@) is None);
            assert(self.entries.deep_view() =~= before.push((lower_seq(name@), value@)));
            if headers_wf(before) {
                assert forall|j: int| 0 <= j < self@.len() implies valid_header_name(
                    (#[trigger] self@[j]).0,
                ) && self@[j].0 == lower_seq(self@[j].0) && valid_header_value(self@[j].1) by {
                    if j < before.len() {
                        assert(self@[j] == before[j]);
                    }
                }
                assert(unique_names(self@)) by {
                    assert forall|j1: int, j2: int|
                        0 <= j1 < j2 < self@.len() implies (#[trigger] self@[j1]).0 != (
                    #[trigger] self@[j2]).0 by {
                        if j2 < before.len() {
                            assert(self@[j1] == before[j1]);
                            assert(self@[j2] == before[j2]);
                        } else {
                            assert(self@[j1] == before[j1]);
                            assert(self@[j2].0 == lowered@);
                        }
                    }
                }
            }
        }
        Ok(())
    }

    /// Looks a header up by name, case-insensitively: the query name is
    /// lower-cased before the (lower-cased) stored names are scanned.
    pub fn get(&self, name: &str) -> (r: Option<&String>)
        ensures
            match r {
                Some(v) => header_lookup(self@, lower_seq(name@)) == Some(v@),
                None => header_lookup(self@, lower_seq(name@)) is None,
            },
    {
        let lowered = lower_str(name);
        let n = self.entries.len();
        let mut i: usize = 0;
        while i < n
            invariant
                n == self@.len(),
                i <= n,
                self@ == self.entries.deep_view(),
                lowered@ == lower_seq(name@),
                forall|j: int| 0 <= j < i ==> (#[trigger] self@[j]).0 != lowered@,
            decreases n - i,
        {
            if str_eq(self.entries[i].0.as_str(), lowered.as_str()) {
                proof {
                    lemma_header_index(self@, lowered@);
                    match header_index(self@, lowered@) {
                        Some(i0) => {
                            if i0 < i {
                                assert(self@[i0].0 != lowered@);
                            }
                            if i0 > i {
                                assert(self@[i as int].0 != lowered@);
                            }
                        },
                        None => {
                            assert(self@[i as int].0 != lowered@);
                        },
                    }
                    assert(header_index(self@, lowered@) == Some(i as int));
                }
                return Some(&self.entries[i].1);
            }
            i += 1;
        }
        proof {
            lemma_header_index(self@, lowered@);
            match header_index(self@, lowered@) {
                Some(i0) => {
                    assert(self@[i0].0 != lowered@);
                },
                None => (),
            }
        }
        None
    }
}

/// Decides whether a string is a representable header name.
pub fn check_header_name(name: &str) -> (r: bool)
    ensures
        r == valid_header_name(name@),
{
    let n = name.unicode_len();
    if n == 0 {
        return false;
    }
    let mut i: usize = 0;
    while i < n
        invariant
            n == name@.len(),
            i <= n,
            forall|j: int| 0 <= j < i ==> is_token_char(#[trigger] name@[j]),
        decreases n - i,
    {
        if !check_token_char(name.get_char(i)) {
            return false;
        }
        i += 1;
    }
    true
}

/// Decides whether a string is a representable header value.
pub fn check_header_value(value: &str) -> (r: bool)
    ensures
        r == valid_header_value(value@),
{
    let n = value.unicode_len();
    let mut i: usize = 0;
    while i < n
        invariant
            n == value@.len(),
            i <= n,
            forall|j: int| 0 <= j < i ==> is_value_char(#[trigger] value@[j]),
        decreases n - i,
    {
        if !check_value_char(value.get_char(i)) {
            return false;
        }
        i += 1;
    }
    true
}

/// The position of the first pair that cannot be represented as a header,
/// if any.
pub open spec fn first_invalid(ps: Seq<(Seq<char>, Seq<char>)>) -> Option<int>
    decreases ps.len(),
{
    if ps.len() == 0 {
        None
    } else if !(valid_header_name(ps[0].0) && valid_header_value(ps[0].1)) {
        Some(0)
    } else {
        match first_invalid(ps.drop_first()) {
            Some(i) => Some(i + 1),
            None => None,
        }
    }
}

pub proof fn lemma_first_invalid(ps: Seq<(Seq<char>, Seq<char>)>)
    ensures
        match first_invalid(ps) {
            Some(i) => 0 <= i < ps.len() && !(valid_header_name(ps[i].0) && valid_header_value(
                ps[i].1,
            )) && forall|j: int|
                0 <= j < i ==> valid_header_name((#[trigger] ps[j]).0) && valid_header_value(
                    ps[j].1,
                ),
            None => forall|j: int|
                0 <= j < ps.len() ==> valid_header_name((#[trigger] ps[j]).0)
                    && valid_header_value(ps[j].1),
        },
    decreases ps.len(),
{
    if ps.len() > 0 && valid_header_name(ps[0].0) && valid_header_value(ps[0].1) {
        lemma_first_invalid(ps.drop_first());
        assert(forall|j: int| 1 <= j < ps.len() ==> #[trigger] ps[j] == ps.drop_first()[j - 1]);
    }
}

/// The header set that collecting the given pairs in order produces, when
/// every pair is representable.
pub open spec fn collect_headers(ps: Seq<(Seq<char>, Seq<char>)>) -> Seq<(Seq<char>, Seq<char>)>
    decreases ps.len(),
{
    if ps.len() == 0 {
        Seq::empty()
    } else {
        header_upsert(collect_headers(ps.drop_last()), lower_seq(ps.last().0), ps.last().1)
    }
}

/// Builds a header set from name/value pairs: every pair is validated, the
/// first unrepresentable one fails the whole conversion with the header
/// error that names it.
pub fn to_headers(pairs: Vec<(String, String)>) -> (r: Result<Headers, Error>)
    ensures
        r is Ok <==> first_invalid(pairs.deep_view()) is None,
        r matches Ok(h) ==> h@ == collect_headers(pairs.deep_view()) && h.wf(),
        r matches Err(e) ==> (match first_invalid(pairs.deep_view()) {
            Some(i) => {
                if !valid_header_name(pairs.deep_view()[i].0) {
                    e matches Error::Http(HttpError::HttpInvalidHeaderName(n)) && n@
                        == pairs.deep_view()[i].0
                } else {
                    e matches Error::Http(HttpError::HttpInvalidHeaderValue(v)) && v@
                        == pairs.deep_view()[i].1
                }
            },
            None => false,
        }),
{
    let ghost ps = pairs.deep_view();
    proof {
        lemma_first_invalid(ps);
    }
    let mut h = Headers::new();
    let n = pairs.len();
    let mut i: usize = 0;
    proof {
        assert(ps.take(0) =~= Seq::<(Seq<char>, Seq<char>)>::empty());
    }
    while i < n
        invariant
            n == ps.len(),
            i <= n,
            ps == pairs.deep_view(),
            h@ == collect_headers(ps.take(i as int)),
            h.wf(),
            forall|j: int|
                0 <= j < i ==> valid_header_name((#[trigger] ps[j]).0) && valid_header_value(
                    ps[j].1,
                ),
        decreases n - i,
    {
        let pair = &pairs[i];
        let res = h.insert(pair.0.as_str(), pair.1.as_str());
        proof {
            assert(ps[i as int] == (pair.0@, pair.1@));
        }
        match res {
            Ok(_) => {
                proof {
                    assert(ps.take(i + 1).drop_last() =~= ps.take(i as int));
                    assert(ps.take(i + 1).last() == ps[i as int]);
                }
            },
            Err(e) => {
                proof {
                    lemma_first_invalid(ps);
                    match first_invalid(ps) {
                        Some(fi) => {
                            if fi < i {
                                assert(valid_header_name(ps[fi].0) && valid_header_value(
                                    ps[fi].1,
                                ));
                            }
                            if fi > i {
                                assert(valid_header_name(ps[i as int].0) && valid_header_value(
                                    ps[i as int].1,
                                ));
                            }
                        },
                        None => {
                            assert(valid_header_name(ps[i as int].0) && valid_header_value(
                                ps[i as int].1,
                            ));
                        },
                    }
                    assert(first_invalid(ps) == Some(i as int));
                }
                return Err(e);
            },
        }
        i += 1;
    }
    proof {
        assert(ps.take(n as int) =~= ps);
        lemma_first_invalid(ps);
        match first_invalid(ps) {
            Some(fi) => {
                assert(valid_header_name(ps[fi].0) && valid_header_value(ps[fi].1));
            },
            None => (),
        }
    }
    Ok(h)
}

} // verus!
