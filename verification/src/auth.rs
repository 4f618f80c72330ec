//! Request signing.
//!
//! The signer composes the canonical string-to-sign — verb, content hash,
//! content type, date, the sorted vendor (`x-oss-`) headers, and the
//! canonical resource — computes its HMAC-SHA1 tag keyed by the secret
//! key, and wraps the base64 tag in an authorization value.

use vstd::prelude::*;
use vstd::string::StringExecFns;
use vstd::utf8::encode_utf8;

use vstd::seq_lib::lemma_sorted_unique;

use crate::chars::{contains_seq, contains_sub, is_value_char, lower_seq};
use crate::headers::{
    header_index, header_lookup, lemma_header_index, unique_names, valid_header_value, Headers,
};
use crate::sorting::{
    entry_le_rel, lemma_entry_le_total_ordering, lemma_filter_to_multiset,
    lemma_map_values_multiset, sort_entries,
};

verus! {

/// What HMAC-SHA1 returns for a key and a message: a function of the two
/// byte strings alone.
pub uninterp spec fn hmac_sha1_of(key: Seq<u8>, msg: Seq<u8>) -> Seq<u8>;

/// Relies on the hmac crate's `Hmac<Sha1>`: `new_from_slice` accepts a
/// key of any length, `update` absorbs the message, `finalize` yields the
/// 20-byte tag.
#[verifier::external_body]
fn hmac_sha1(key: &[u8], msg: &[u8]) -> (r: Vec<u8>)
    ensures
        r@ == hmac_sha1_of(key@, msg@),
        r@.len() == 20,
{
    let mut mac = <hmac::Hmac<sha1::Sha1> as hmac::Mac>::new_from_slice(key).expect(
        "HMAC accepts any key length",
    );
    hmac::Mac::update(&mut mac, msg);
    hmac::Mac::finalize(mac).into_bytes().to_vec()
}

/// What base64 encoding (standard alphabet, padded) returns for a byte
/// string: a function of the bytes alone.
pub uninterp spec fn base64_of(bytes: Seq<u8>) -> Seq<char>;

/// The characters base64 output is made of: the standard alphabet and the
/// `=` pad.
pub open spec fn is_base64_char(c: char) -> bool {
    ('A' <= c && c <= 'Z') || ('a' <= c && c <= 'z') || ('0' <= c && c <= '9') || c == '+' || c
        == '/' || c == '='
}

/// Relies on `base64::encode` (the standard, padded config): four output
/// characters from the standard alphabet for every three input bytes; it
/// aborts when that output length cannot be represented.
#[verifier::external_body]
fn base64_encode(bytes: &[u8]) -> (r: String)
    requires
        4 * ((bytes@.len() + 2) / 3) <= usize::MAX,
    ensures
        r@ == base64_of(bytes@),
        r@.len() == 4 * ((bytes@.len() + 2) / 3),
        forall|i: int| 0 <= i < r@.len() ==> is_base64_char(r@[i]),
{
    base64::encode(bytes)
}

/// The canonical resource path: `/bucket/object`, or `/` alone when the
/// bucket is empty, with `?resources` appended when there are signable
/// resources.
pub open spec fn canonical_resource_spec(
    bucket: Seq<char>,
    object: Seq<char>,
    oss_resources: Seq<char>,
) -> Seq<char> {
    let suffix = if oss_resources.len() > 0 {
        "?"@ + oss_resources
    } else {
        Seq::<char>::empty()
    };
    if bucket.len() == 0 {
        "/"@ + suffix
    } else {
        "/"@ + bucket + "/"@ + object + suffix
    }
}

/// Builds the canonical resource path that takes part in the signature.
pub fn get_oss_resource_str(bucket: &str, object: &str, oss_resources: &str) -> (r: String)
    ensures
        r@ == canonical_resource_spec(bucket@, object@, oss_resources@),
{
    let mut out = String::new();
    out.append("/");
    if !bucket.is_empty() {
        out.append(bucket);
        out.append("/");
        out.append(object);
    }
    if !oss_resources.is_empty() {
        out.append("?");
        out.append(oss_resources);
    }
    proof {
        assert(out@ =~= canonical_resource_spec(bucket@, object@, oss_resources@));
    }
    out
}

/// Whether a header (by its stored, lower-cased name) takes part in the
/// signature: its name contains the vendor prefix.
pub open spec fn is_vendor_name(n: Seq<char>) -> bool {
    contains_seq(n, "x-oss-"@)
}

pub open spec fn vendor_pred() -> spec_fn((Seq<char>, Seq<char>)) -> bool {
    |e: (Seq<char>, Seq<char>)| is_vendor_name(e.0)
}

pub open spec fn opt_entry_fn() -> spec_fn((Seq<char>, Seq<char>)) -> (
    Seq<char>,
    Option<Seq<char>>,
) {
    |e: (Seq<char>, Seq<char>)| (e.0, Some(e.1))
}

/// One line of the canonicalized vendor header block.
pub open spec fn render_header_line(e: (Seq<char>, Option<Seq<char>>)) -> Seq<char> {
    e.0 + ":"@ + (match e.1 {
        Option::Some(v) => v,
        Option::None => Seq::<char>::empty(),
    }) + "\n"@
}

pub open spec fn concat_lines(rs: Seq<Seq<char>>) -> Seq<char>
    decreases rs.len(),
{
    if rs.len() == 0 {
        Seq::empty()
    } else {
        concat_lines(rs.drop_last()) + rs.last()
    }
}

/// The canonicalized vendor header block: the headers whose names carry
/// the vendor prefix, sorted, each rendered as `name:value` and a
/// newline.
pub open spec fn vendor_block(h: Seq<(Seq<char>, Seq<char>)>) -> Seq<char> {
    concat_lines(
        h.filter(vendor_pred()).map_values(opt_entry_fn()).sort_by(entry_le_rel()).map_values(
            |e: (Seq<char>, Option<Seq<char>>)| render_header_line(e),
        ),
    )
}

/// Collects, sorts and renders the vendor headers of a header set.
pub fn canonicalized_headers(headers: &Headers) -> (r: String)
    ensures
        r@ == vendor_block(headers@),
{
    let n = headers.len();
    let mut vendors: Vec<(String, Option<String>)> = Vec::new();
    let mut i: usize = 0;
    proof {
        reveal(Seq::filter);
        assert(headers@.take(0) =~= Seq::<(Seq<char>, Seq<char>)>::empty());
        assert(vendors.deep_view() =~= headers@.take(0).filter(vendor_pred()).map_values(
            opt_entry_fn(),
        ));
    }
    while i < n
        invariant
            n == headers@.len(),
            i <= n,
            vendors.deep_view() == headers@.take(i as int).filter(vendor_pred()).map_values(
                opt_entry_fn(),
            ),
        decreases n - i,
    {
        let (name, value) = headers.entry_at(i);
        let ghost prefix = headers@.take(i as int);
        let ghost next = headers@.take(i + 1);
        proof {
            reveal(Seq::filter);
            assert(next.drop_last() =~= prefix);
            assert(next.last() == headers@[i as int]);
        }
        if contains_sub(name.as_str(), "x-oss-") {
            let ghost before = vendors.deep_view();
            vendors.push((name.clone(), Some(value.clone())));
            proof {
                assert(vendors.deep_view() =~= before.push(
                    (headers@[i as int].0, Some(headers@[i as int].1)),
                ));
                assert(next.filter(vendor_pred()) == prefix.filter(vendor_pred()).push(
                    headers@[i as int],
                ));
                assert(next.filter(vendor_pred()).map_values(opt_entry_fn()) =~= prefix.filter(
                    vendor_pred(),
                ).map_values(opt_entry_fn()).push((headers@[i as int].0, Some(
                    headers@[i as int].1,
                ))));
            }
        } else {
            proof {
                assert(next.filter(vendor_pred()) == prefix.filter(vendor_pred()));
            }
        }
        i += 1;
    }
    proof {
        assert(headers@.take(n as int) =~= headers@);
    }
    let sorted = sort_entries(vendors);
    let ghost renders = sorted.deep_view().map_values(
        |e: (Seq<char>, Option<Seq<char>>)| render_header_line(e),
    );
    let m = sorted.len();
    let mut out = String::new();
    let mut j: usize = 0;
    proof {
        assert(renders.take(0) =~= Seq::<Seq<char>>::empty());
    }
    while j < m
        invariant
            m == sorted@.len(),
            j <= m,
            renders == sorted.deep_view().map_values(
                |e: (Seq<char>, Option<Seq<char>>)| render_header_line(e),
            ),
            out@ == concat_lines(renders.take(j as int)),
        decreases m - j,
    {
        let e = &sorted[j];
        let ghost before = out@;
        out.append(e.0.as_str());
        out.append(":");
        match &e.1 {
            Option::Some(v) => {
                out.append(v.as_str());
            },
            Option::None => {},
        }
        out.append("\n");
        proof {
            let dv = sorted.deep_view()[j as int];
            assert(renders[j as int] == render_header_line(dv));
            assert(renders.take(j + 1).drop_last() =~= renders.take(j as int));
            assert(renders.take(j + 1).last() == renders[j as int]);
            assert(out@ =~= before + render_header_line(dv));
            assert(concat_lines(renders.take(j + 1)) == concat_lines(renders.take(j as int))
                + renders[j as int]);
        }
        j += 1;
    }
    proof {
        assert(renders.take(m as int) =~= renders);
    }
    out
}

pub open spec fn or_empty(o: Option<Seq<char>>) -> Seq<char> {
    match o {
        Option::Some(v) => v,
        Option::None => Seq::empty(),
    }
}

/// The content hash field of the string-to-sign: the base64 encoding of
/// the raw `Content-MD5` header value's bytes (re-encoding the raw value
/// is what the service expects), or empty when the header is absent.
pub open spec fn md5_field(h: Seq<(Seq<char>, Seq<char>)>) -> Seq<char> {
    match header_lookup(h, "content-md5"@) {
        Option::Some(v) => base64_of(encode_utf8(v)),
        Option::None => Seq::empty(),
    }
}

/// The canonical string that is signed: the newline-joined sequence of
/// verb, content hash, content type, date, the vendor header block, and
/// the canonical resource.
pub open spec fn string_to_sign(
    verb: Seq<char>,
    bucket: Seq<char>,
    object: Seq<char>,
    oss_resources: Seq<char>,
    h: Seq<(Seq<char>, Seq<char>)>,
) -> Seq<char> {
    verb + "\n"@ + md5_field(h) + "\n"@ + or_empty(header_lookup(h, "content-type"@)) + "\n"@
        + or_empty(header_lookup(h, "date"@)) + "\n"@ + vendor_block(h) + canonical_resource_spec(
        bucket,
        object,
        oss_resources,
    )
}

/// The authorization value: `OSS key_id:signature`, where the signature
/// is the base64 HMAC-SHA1 tag of the string-to-sign, keyed by the
/// secret key.
pub open spec fn sign_spec(
    verb: Seq<char>,
    key_id: Seq<char>,
    key_secret: Seq<char>,
    bucket: Seq<char>,
    object: Seq<char>,
    oss_resources: Seq<char>,
    h: Seq<(Seq<char>, Seq<char>)>,
) -> Seq<char> {
    "OSS "@ + key_id + ":"@ + base64_of(
        hmac_sha1_of(
            encode_utf8(key_secret),
            encode_utf8(string_to_sign(verb, bucket, object, oss_resources, h)),
        ),
    )
}

/// The bound under which a `Content-MD5` value can be re-encoded: its
/// base64 form must be representable in memory.
pub open spec fn md5_encodable(h: Seq<(Seq<char>, Seq<char>)>) -> bool {
    match header_lookup(h, "content-md5"@) {
        Option::Some(v) => 4 * ((encode_utf8(v).len() + 2) / 3) <= usize::MAX,
        Option::None => true,
    }
}

/// Computes the authorization value for a request.
///
/// The headers are read case-insensitively: `Date`, `Content-Type` and
/// `Content-MD5` default to empty when absent, and every header whose
/// name carries the vendor prefix joins the canonical block.  The result
/// is a pure function of the arguments: fixed inputs (a fixed date header
/// among them) give a fixed signature.
pub fn sign(
    verb: &str,
    key_id: &str,
    key_secret: &str,
    bucket: &str,
    object: &str,
    oss_resources: &str,
    headers: &Headers,
) -> (r: String)
    requires
        md5_encodable(headers@),
    ensures
        r@ == sign_spec(verb@, key_id@, key_secret@, bucket@, object@, oss_resources@, headers@),
        valid_header_value(r@) <==> valid_header_value(key_id@),
{
    proof {
        reveal_strlit("date");
        reveal_strlit("content-type");
        reveal_strlit("content-md5");
        reveal_strlit("");
        assert(lower_seq("date"@) =~= "date"@);
        assert(lower_seq("content-type"@) =~= "content-type"@);
        assert(lower_seq("content-md5"@) =~= "content-md5"@);
        assert(""@ =~= Seq::<char>::empty());
    }
    let date_s: &str = match headers.get("date") {
        Option::Some(v) => v.as_str(),
        Option::None => "",
    };
    let ctype_s: &str = match headers.get("content-type") {
        Option::Some(v) => v.as_str(),
        Option::None => "",
    };
    let md5_b64: String = match headers.get("content-md5") {
        Option::Some(v) => base64_encode(v.as_str().as_bytes()),
        Option::None => String::new(),
    };
    let vendor = canonicalized_headers(headers);
    let resource = get_oss_resource_str(bucket, object, oss_resources);
    let mut sts = String::new();
    sts.append(verb);
    sts.append("\n");
    sts.append(md5_b64.as_str());
    sts.append("\n");
    sts.append(ctype_s);
    sts.append("\n");
    sts.append(date_s);
    sts.append("\n");
    sts.append(vendor.as_str());
    sts.append(resource.as_str());
    proof {
        assert(sts@ =~= string_to_sign(verb@, bucket@, object@, oss_resources@, headers@));
    }
    let digest = hmac_sha1(key_secret.as_bytes(), sts.as_str().as_bytes());
    let signature = base64_encode(digest.as_slice());
    let mut out = String::new();
    out.append("OSS ");
    out.append(key_id);
    out.append(":");
    out.append(signature.as_str());
    proof {
        assert(out@ =~= sign_spec(
            verb@,
            key_id@,
            key_secret@,
            bucket@,
            object@,
            oss_resources@,
            headers@,
        ));
        reveal_strlit("OSS ");
        reveal_strlit(":");
        let kid = key_id@;
        let sg = signature@;
        assert(out@ =~= "OSS "@ + kid + ":"@ + sg);
        assert(out@.len() == 4 + kid.len() + 1 + sg.len());
        assert forall|i: int| 0 <= i < sg.len() implies is_value_char(#[trigger] sg[i]) by {
            assert(is_base64_char(sg[i]));
        }
        if valid_header_value(out@) {
            assert forall|i: int| 0 <= i < kid.len() implies is_value_char(#[trigger] kid[i]) by {
                assert(out@[4 + i] == kid[i]);
                assert(is_value_char(out@[4 + i]));
            }
        }
        if valid_header_value(kid) {
            assert forall|k: int| 0 <= k < out@.len() implies is_value_char(
                #[trigger] out@[k],
            ) by {
                if k < 4 {
                    assert(out@[k] == "OSS "@[k]);
                } else if k < 4 + kid.len() {
                    assert(out@[k] == kid[k - 4]);
                } else if k == 4 + kid.len() {
                    assert(out@[k] == ":"@[0]);
                } else {
                    assert(out@[k] == sg[k - (5 + kid.len())]);
                }
            }
        }
    }
    out
}

/// A hit of `header_lookup` names an entry of the set.
proof fn lemma_lookup_contains(h: Seq<(Seq<char>, Seq<char>)>, n: Seq<char>)
    ensures
        match header_lookup(h, n) {
            Option::Some(v) => h.contains((n, v)),
            Option::None => true,
        },
{
    lemma_header_index(h, n);
    match header_index(h, n) {
        Option::Some(i) => {
            assert(h[i] == (h[i].0, h[i].1));
            assert(h[i] == (n, h[i].1));
            assert(h.contains((n, h[i].1)));
        },
        Option::None => (),
    }
}

/// With unique names, an entry of the set is exactly what `header_lookup`
/// returns for its name.
proof fn lemma_contains_lookup(h: Seq<(Seq<char>, Seq<char>)>, n: Seq<char>, v: Seq<char>)
    requires
        unique_names(h),
        h.contains((n, v)),
    ensures
        header_lookup(h, n) == Some(v),
{
    let j = choose|j: int| 0 <= j < h.len() && h[j] == (n, v);
    lemma_header_index(h, n);
    match header_index(h, n) {
        Option::Some(i) => {
            if i < j {
                assert(h[i].0 != h[j].0);
            }
            if j < i {
                assert(h[j].0 != h[i].0);
            }
            assert(i == j);
        },
        Option::None => {
            assert(h[j].0 != n);
        },
    }
}

/// Law (lookup half of sort invariance): permuting a header set with
/// unique names changes no lookup.
pub proof fn lemma_lookup_order_invariant(
    h1: Seq<(Seq<char>, Seq<char>)>,
    h2: Seq<(Seq<char>, Seq<char>)>,
    n: Seq<char>,
)
    requires
        unique_names(h1),
        unique_names(h2),
        h1.to_multiset() == h2.to_multiset(),
    ensures
        header_lookup(h1, n) == header_lookup(h2, n),
{
    lemma_lookup_contains(h1, n);
    lemma_lookup_contains(h2, n);
    match header_lookup(h1, n) {
        Option::Some(v) => {
            vstd::seq_lib::to_multiset_contains(h1, (n, v));
            vstd::seq_lib::to_multiset_contains(h2, (n, v));
            lemma_contains_lookup(h2, n, v);
        },
        Option::None => {
            match header_lookup(h2, n) {
                Option::Some(v) => {
                    vstd::seq_lib::to_multiset_contains(h1, (n, v));
                    vstd::seq_lib::to_multiset_contains(h2, (n, v));
                    lemma_contains_lookup(h1, n, v);
                },
                Option::None => (),
            }
        },
    }
}

/// Law (vendor half of sort invariance): permuting a header set does not
/// change the canonicalized vendor block.
pub proof fn lemma_vendor_block_order_invariant(
    h1: Seq<(Seq<char>, Seq<char>)>,
    h2: Seq<(Seq<char>, Seq<char>)>,
)
    requires
        h1.to_multiset() == h2.to_multiset(),
    ensures
        vendor_block(h1) == vendor_block(h2),
{
    lemma_filter_to_multiset(h1, vendor_pred());
    lemma_filter_to_multiset(h2, vendor_pred());
    let m1 = h1.filter(vendor_pred()).map_values(opt_entry_fn());
    let m2 = h2.filter(vendor_pred()).map_values(opt_entry_fn());
    lemma_map_values_multiset(h1.filter(vendor_pred()), h2.filter(vendor_pred()), opt_entry_fn());
    lemma_entry_le_total_ordering();
    let rel = entry_le_rel();
    m1.lemma_sort_by_ensures(rel);
    m2.lemma_sort_by_ensures(rel);
    lemma_sorted_unique(m1.sort_by(rel), m2.sort_by(rel), rel);
    assert(m1.sort_by(rel) == m2.sort_by(rel));
}

/// Law: permuting the headers of a request does not change its signature.
/// Two header sets with unique names that carry the same entries, in
/// whatever order, sign every request identically.
pub proof fn lemma_sign_order_invariant(
    verb: Seq<char>,
    key_id: Seq<char>,
    key_secret: Seq<char>,
    bucket: Seq<char>,
    object: Seq<char>,
    oss_resources: Seq<char>,
    h1: Seq<(Seq<char>, Seq<char>)>,
    h2: Seq<(Seq<char>, Seq<char>)>,
)
    requires
        unique_names(h1),
        unique_names(h2),
        h1.to_multiset() == h2.to_multiset(),
    ensures
        sign_spec(verb, key_id, key_secret, bucket, object, oss_resources, h1) == sign_spec(
            verb,
            key_id,
            key_secret,
            bucket,
            object,
            oss_resources,
            h2,
        ),
{
    lemma_lookup_order_invariant(h1, h2, "date"@);
    lemma_lookup_order_invariant(h1, h2, "content-type"@);
    lemma_lookup_order_invariant(h1, h2, "content-md5"@);
    lemma_vendor_block_order_invariant(h1, h2);
}

/// Law: a header whose name carries the vendor prefix joins the
/// canonicalized entries — adding it adds exactly its entry to what is
/// sorted into the block.
pub proof fn lemma_vendor_header_included(
    h: Seq<(Seq<char>, Seq<char>)>,
    e: (Seq<char>, Seq<char>),
)
    requires
        is_vendor_name(e.0),
    ensures
        h.push(e).filter(vendor_pred()).map_values(opt_entry_fn()).sort_by(
            entry_le_rel(),
        ).to_multiset() == h.filter(vendor_pred()).map_values(opt_entry_fn()).sort_by(
            entry_le_rel(),
        ).to_multiset().insert((e.0, Some(e.1))),
{
    broadcast use vstd::multiset::group_multiset_axioms;

    reveal(Seq::filter);
    lemma_entry_le_total_ordering();
    let rel = entry_le_rel();
    assert(h.push(e).drop_last() =~= h);
    assert(h.push(e).last() == e);
    assert(h.push(e).filter(vendor_pred()) == h.filter(vendor_pred()).push(e));
    let m0 = h.filter(vendor_pred()).map_values(opt_entry_fn());
    let m1 = h.push(e).filter(vendor_pred()).map_values(opt_entry_fn());
    assert(m1 =~= m0.push((e.0, Some(e.1))));
    m0.lemma_sort_by_ensures(rel);
    m1.lemma_sort_by_ensures(rel);
    vstd::seq_lib::to_multiset_build(m0, (e.0, Some(e.1)));
    assert(m1.sort_by(rel).to_multiset() =~= m0.sort_by(rel).to_multiset().insert(
        (e.0, Some(e.1)),
    ));
}

/// Law: a header whose name does not carry the vendor prefix never
/// reaches the canonicalized vendor block.
pub proof fn lemma_vendor_ignores_non_vendor(
    h: Seq<(Seq<char>, Seq<char>)>,
    e: (Seq<char>, Seq<char>),
)
    requires
        !is_vendor_name(e.0),
    ensures
        vendor_block(h.push(e)) == vendor_block(h),
{
    reveal(Seq::filter);
    assert(h.push(e).drop_last() =~= h);
    assert(h.push(e).last() == e);
    assert(h.push(e).filter(vendor_pred()) == h.filter(vendor_pred()));
}

} // verus!
