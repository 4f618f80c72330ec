//! The client: credentials, endpoint and bucket, and the request builder
//! that turns an operation into a ready-to-send URL and header set.

use vstd::prelude::*;
use vstd::string::StringExecFns;

use crate::auth::{md5_encodable, sign, sign_spec};
use crate::chars::{lower_seq, matches_at, remove_first, remove_first_spec, str_starts_with};
use crate::digits::{parse_usize, parse_usize_spec};
use crate::errors::{Error, HttpError, ObjectError};
use crate::headers::{
    collect_headers, first_invalid, header_lookup, header_upsert, to_headers, valid_header_name,
    valid_header_value, Headers,
};
use crate::resources::{query_spec, signable_spec, ResourceMap};

verus! {

/// The abstract state of a client: its credentials, endpoint and bucket.
pub ghost struct OssView {
    pub key_id: Seq<char>,
    pub key_secret: Seq<char>,
    pub endpoint: Seq<char>,
    pub bucket: Seq<char>,
}

/// A client: one fixed credential pair, an endpoint, and the bucket that
/// requests address (swappable with `set_bucket`).
pub struct OSS {
    key_id: String,
    key_secret: String,
    endpoint: String,
    bucket: String,
}

impl View for OSS {
    type V = OssView;

    closed spec fn view(&self) -> OssView {
        OssView {
            key_id: self.key_id@,
            key_secret: self.key_secret@,
            endpoint: self.endpoint@,
            bucket: self.bucket@,
        }
    }
}

/// The HTTP verb of an operation.
#[derive(Clone, Copy, Debug, PartialEq, Eq, Structural)]
pub enum RequestType {
    Get,
    Put,
    Delete,
    Head,
    Post,
}

impl RequestType {
    pub open spec fn verb_spec(&self) -> Seq<char> {
        match self {
            RequestType::Get => "GET"@,
            RequestType::Put => "PUT"@,
            RequestType::Delete => "DELETE"@,
            RequestType::Head => "HEAD"@,
            RequestType::Post => "POST"@,
        }
    }

    /// The verb on the wire.
    pub fn as_str(&self) -> (r: &str)
        ensures
            r@ == self.verb_spec(),
    {
        match self {
            RequestType::Get => "GET",
            RequestType::Put => "PUT",
            RequestType::Delete => "DELETE",
            RequestType::Head => "HEAD",
            RequestType::Post => "POST",
        }
    }
}

/// The virtual-hosted URL of an object: the endpoint's scheme (`http://`
/// assumed when the endpoint does not start with `https`), the bucket as
/// a subdomain of the endpoint with its scheme prefix stripped, the
/// object path, and the query string.
pub open spec fn host_spec(
    endpoint: Seq<char>,
    bucket: Seq<char>,
    object: Seq<char>,
    resources_str: Seq<char>,
) -> Seq<char> {
    if matches_at(endpoint, "https"@, 0) {
        "https://"@ + bucket + "."@ + remove_first_spec(endpoint, "https://"@) + "/"@ + object
            + "?"@ + resources_str
    } else {
        "http://"@ + bucket + "."@ + remove_first_spec(endpoint, "http://"@) + "/"@ + object + "?"@
            + resources_str
    }
}

impl OSS {
    /// A client over a fixed credential pair, endpoint and bucket.
    pub fn new(key_id: String, key_secret: String, endpoint: String, bucket: String) -> (r: OSS)
        ensures
            r@ == (OssView {
                key_id: key_id@,
                key_secret: key_secret@,
                endpoint: endpoint@,
                bucket: bucket@,
            }),
    {
        OSS { key_id, key_secret, endpoint, bucket }
    }

    pub fn bucket(&self) -> (r: &str)
        ensures
            r@ == self@.bucket,
    {
        self.bucket.as_str()
    }

    pub fn endpoint(&self) -> (r: &str)
        ensures
            r@ == self@.endpoint,
    {
        self.endpoint.as_str()
    }

    pub fn key_id(&self) -> (r: &str)
        ensures
            r@ == self@.key_id,
    {
        self.key_id.as_str()
    }

    pub fn key_secret(&self) -> (r: &str)
        ensures
            r@ == self@.key_secret,
    {
        self.key_secret.as_str()
    }

    /// Points the client at another bucket.
    pub fn set_bucket(&mut self, bucket: String)
        ensures
            final(self)@ == (OssView { bucket: bucket@, ..old(self)@ }),
    {
        self.bucket = bucket;
    }

    /// The URL a request goes to.
    pub fn host(&self, bucket: &str, object: &str, resources_str: &str) -> (r: String)
        ensures
            r@ == host_spec(self@.endpoint, bucket@, object@, resources_str@),
    {
        let https = str_starts_with(self.endpoint.as_str(), "https");
        let stripped = if https {
            remove_first(self.endpoint.as_str(), "https://")
        } else {
            remove_first(self.endpoint.as_str(), "http://")
        };
        let mut out = String::new();
        if https {
            out.append("https://");
        } else {
            out.append("http://");
        }
        out.append(bucket);
        out.append(".");
        out.append(stripped.as_str());
        out.append("/");
        out.append(object);
        out.append("?");
        out.append(resources_str);
        proof {
            assert(out@ =~= host_spec(self@.endpoint, bucket@, object@, resources_str@));
        }
        out
    }

    /// Relies on chrono's `Utc::now` and `DateTime::format`: the current
    /// UTC time in the RFC 1123 shape `Tue, 01 Jun 2021 12:00:00 GMT`.
    /// Which time comes back depends on the clock; whatever it is, this
    /// fixed, locale-free format renders it as printable ASCII, so the
    /// result can always stand in a header value.
    #[verifier::external_body]
    pub fn date(&self) -> (r: String)
        ensures
            valid_header_value(r@),
    {
        let now: chrono::DateTime<chrono::Utc> = chrono::Utc::now();
        now.format("%a, %d %b %Y %T GMT").to_string()
    }

    /// The signable resource string of a parameter set.
    pub fn get_resources_str(&self, params: &ResourceMap) -> (r: String)
        ensures
            r@ == signable_spec(params@),
    {
        params.signable_str()
    }

    /// The query string of a parameter set.
    pub fn get_params_str(&self, params: &ResourceMap) -> (r: String)
        ensures
            r@ == query_spec(params@),
    {
        params.query_str()
    }

    /// The authorization value for a request against this service.
    pub fn oss_sign(
        &self,
        verb: &str,
        key_id: &str,
        key_secret: &str,
        bucket: &str,
        object: &str,
        oss_resources: &str,
        headers: &Headers,
    ) -> (r: String)
        requires
            md5_encodable(headers@),
        ensures
            r@ == sign_spec(
                verb@,
                key_id@,
                key_secret@,
                bucket@,
                object@,
                oss_resources@,
                headers@,
            ),
            valid_header_value(r@) <==> valid_header_value(key_id@),
    {
        sign(verb, key_id, key_secret, bucket, object, oss_resources, headers)
    }
}

/// The header pairs an optional caller-supplied list stands for.
pub open spec fn pairs_view(headers: Option<Vec<(String, String)>>) -> Seq<(Seq<char>, Seq<char>)> {
    match headers {
        Option::Some(h) => h.deep_view(),
        Option::None => Seq::empty(),
    }
}

/// The parameter entries an optional resource set stands for.
pub open spec fn resources_view(resources: Option<&ResourceMap>) -> Seq<
    (Seq<char>, Option<Seq<char>>),
> {
    match resources {
        Option::Some(rm) => rm@,
        Option::None => Seq::empty(),
    }
}

/// What building a request must yield, for a given date string.
///
/// The produced header set is the caller's headers with `Date` set to the
/// date and `Authorization` set to the signature over the headers as they
/// stand with the date in place; the URL addresses the client's bucket
/// and the object, carrying the full query string.  Building fails
/// exactly on a header pair that cannot be represented, on an
/// unrepresentable date value, and on a key identifier that cannot stand
/// in a header value; the error names the offending string.
pub open spec fn build_result_matches(
    v: OssView,
    req_type: RequestType,
    object: Seq<char>,
    ps: Seq<(Seq<char>, Seq<char>)>,
    rv: Seq<(Seq<char>, Option<Seq<char>>)>,
    date: Seq<char>,
    r: Result<(String, Headers), Error>,
) -> bool {
    let hs1 = header_upsert(collect_headers(ps), "date"@, date);
    let auth = sign_spec(
        req_type.verb_spec(),
        v.key_id,
        v.key_secret,
        v.bucket,
        object,
        signable_spec(rv),
        hs1,
    );
    let hs2 = header_upsert(hs1, "authorization"@, auth);
    &&& (r is Ok <==> (first_invalid(ps) is None && valid_header_value(date)
        && valid_header_value(v.key_id)))
    &&& (r matches Ok(p) ==> p.0@ == host_spec(v.endpoint, v.bucket, object, query_spec(rv))
        && p.1@ == hs2 && p.1.wf())
    &&& (r matches Err(e) ==> (match first_invalid(ps) {
        Option::Some(i) => {
            if !valid_header_name(ps[i].0) {
                e matches Error::Http(HttpError::HttpInvalidHeaderName(n)) && n@ == ps[i].0
            } else {
                e matches Error::Http(HttpError::HttpInvalidHeaderValue(vv)) && vv@ == ps[i].1
            }
        },
        Option::None => {
            if !valid_header_value(date) {
                e matches Error::Http(HttpError::HttpInvalidHeaderValue(vv)) && vv@ == date
            } else {
                e matches Error::Http(HttpError::HttpInvalidHeaderValue(vv)) && vv@ == auth
            }
        },
    }))
}

impl OSS {
    /// Builds a request with an injected date: the URL to send it to and
    /// the header set carrying the date and the authorization value.
    /// Fixed arguments (the date among them) give a fixed result.
    pub fn build_request_with_date(
        &self,
        req_type: RequestType,
        object_name: &str,
        headers: Option<Vec<(String, String)>>,
        resources: Option<&ResourceMap>,
        date: &str,
    ) -> (r: Result<(String, Headers), Error>)
        requires
            md5_encodable(collect_headers(pairs_view(headers))),
        ensures
            build_result_matches(
                self@,
                req_type,
                object_name@,
                pairs_view(headers),
                resources_view(resources),
                date@,
                r,
            ),
    {
        let ghost ps = pairs_view(headers);
        let ghost rv = resources_view(resources);
        proof {
            reveal_strlit("Date");
            reveal_strlit("date");
            reveal_strlit("Authorization");
            reveal_strlit("authorization");
            reveal_strlit("content-md5");
            assert(lower_seq("Date"@) =~= "date"@);
            assert(lower_seq("Authorization"@) =~= "authorization"@);
            assert(valid_header_name("Date"@));
            assert(valid_header_name("Authorization"@));
            assert("date"@ != "content-md5"@);
            crate::resources::lemma_encode_empty();
        }
        let (resources_str, params_str) = match resources {
            Option::Some(rm) => (rm.signable_str(), rm.query_str()),
            Option::None => (String::new(), String::new()),
        };
        let host = self.host(self.bucket(), object_name, params_str.as_str());
        let mut hdrs = match headers {
            Option::Some(hv) => {
                match to_headers(hv) {
                    Ok(h) => h,
                    Err(e) => {
                        return Err(e);
                    },
                }
            },
            Option::None => Headers::new(),
        };
        let ghost hs0 = collect_headers(ps);
        proof {
            if headers is None {
                assert(hdrs@ =~= collect_headers(ps));
            }
            crate::headers::lemma_first_invalid(ps);
        }
        match hdrs.insert("Date", date) {
            Ok(_) => (),
            Err(e) => {
                return Err(e);
            },
        }
        let ghost hs1 = header_upsert(hs0, "date"@, date@);
        proof {
            assert(hdrs@ == hs1);
            crate::headers::lemma_upsert_preserves_other(hs0, "date"@, date@, "content-md5"@);
            assert(md5_encodable(hs1));
        }
        let authorization = sign(
            req_type.as_str(),
            self.key_id.as_str(),
            self.key_secret.as_str(),
            self.bucket.as_str(),
            object_name,
            resources_str.as_str(),
            &hdrs,
        );
        match hdrs.insert("Authorization", authorization.as_str()) {
            Ok(_) => (),
            Err(e) => {
                return Err(e);
            },
        }
        Ok((host, hdrs))
    }

    /// Builds a request as of now: reads the clock once, dates the request
    /// with it, and signs.  The result is what building with some
    /// representable date string yields; since the clock always hands one
    /// back, building succeeds exactly when the caller's header pairs and
    /// the key identifier are representable.
    pub fn build_request(
        &self,
        req_type: RequestType,
        object_name: &str,
        headers: Option<Vec<(String, String)>>,
        resources: Option<&ResourceMap>,
    ) -> (r: Result<(String, Headers), Error>)
        requires
            md5_encodable(collect_headers(pairs_view(headers))),
        ensures
            r is Ok <==> (first_invalid(pairs_view(headers)) is None && valid_header_value(
                self@.key_id,
            )),
            exists|d: Seq<char>|
                valid_header_value(d) && #[trigger] build_result_matches(
                    self@,
                    req_type,
                    object_name@,
                    pairs_view(headers),
                    resources_view(resources),
                    d,
                    r,
                ),
    {
        let ghost ps = pairs_view(headers);
        let ghost rv = resources_view(resources);
        let date = self.date();
        let r = self.build_request_with_date(req_type, object_name, headers, resources,
            date.as_str());
        proof {
            assert(build_result_matches(self@, req_type, object_name@, ps, rv, date@, r));
        }
        r
    }
}

/// What httpdate's `parse_http_date` accepts: the seconds since the Unix
/// epoch for a string in one of the three HTTP date formats (their years
/// range from 1970 up), nothing otherwise.  A function of the string
/// alone.
pub uninterp spec fn http_date_of(s: Seq<char>) -> Option<u64>;

/// Relies on `httpdate::parse_http_date` (accepted dates lie at or after
/// the epoch, so the conversion to seconds cannot fail) and on std's
/// `duration_since`.
#[verifier::external_body]
fn parse_http_date_secs(s: &str) -> (r: Option<u64>)
    ensures
        r == http_date_of(s@),
{
    match httpdate::parse_http_date(s) {
        Ok(t) => t.duration_since(std::time::UNIX_EPOCH).ok().map(|d| d.as_secs()),
        Err(_) => None,
    }
}

/// Object metadata read from the headers of a head-object response.
#[derive(Debug, Clone, PartialEq, Eq)]
pub struct ObjectMeta {
    /// The last modified time, in seconds since the Unix epoch.
    pub last_modified: u64,
    /// The size in bytes of the object.
    pub size: usize,
    /// 128-bit RFC 1864 MD5.  Present only for normal files; multipart
    /// and appendable files carry an empty value.
    pub md5: String,
}

/// Why reading object metadata out of a header set failed, in the order
/// the fields are read: a missing or unparsable `Last-Modified`, then a
/// missing or unparsable `Content-Length`, then a missing `Content-Md5`.
pub open spec fn meta_err_msg(h: Seq<(Seq<char>, Seq<char>)>) -> Seq<char> {
    if header_lookup(h, "last-modified"@) is None {
        "can not find Last-Modified in head response"@
    } else if http_date_of(header_lookup(h, "last-modified"@)->Some_0) is None {
        "cannot parse to system time"@
    } else if header_lookup(h, "content-length"@) is None {
        "can not find Content-Length in head response"@
    } else if parse_usize_spec(header_lookup(h, "content-length"@)->Some_0) is None {
        "cannot parse to number"@
    } else {
        "can not find Content-Md5 in head response"@
    }
}

/// Whether a header set carries complete, parsable object metadata.
pub open spec fn meta_ok(h: Seq<(Seq<char>, Seq<char>)>) -> bool {
    &&& header_lookup(h, "last-modified"@) is Some
    &&& http_date_of(header_lookup(h, "last-modified"@)->Some_0) is Some
    &&& header_lookup(h, "content-length"@) is Some
    &&& parse_usize_spec(header_lookup(h, "content-length"@)->Some_0) is Some
    &&& header_lookup(h, "content-md5"@) is Some
}

impl ObjectMeta {
    /// Reads object metadata from response headers: the modification
    /// time from `Last-Modified`, the size from `Content-Length`, the
    /// hash from `Content-Md5`.  A missing header is an error distinct
    /// from an unparsable one; the message names what went wrong.
    pub fn from_header_map(header: &Headers) -> (r: Result<ObjectMeta, Error>)
        ensures
            r is Ok <==> meta_ok(header@),
            r matches Ok(m) ==> {
                &&& http_date_of(header_lookup(header@, "last-modified"@)->Some_0) == Some(
                    m.last_modified,
                )
                &&& parse_usize_spec(header_lookup(header@, "content-length"@)->Some_0) == Some(
                    m.size as int,
                )
                &&& header_lookup(header@, "content-md5"@) == Some(m.md5@)
            },
            r matches Err(e) ==> e matches Error::Object(ObjectError::HeadError { msg }) && msg@
                == meta_err_msg(header@),
    {
        proof {
            reveal_strlit("Last-Modified");
            reveal_strlit("last-modified");
            reveal_strlit("Content-Length");
            reveal_strlit("content-length");
            reveal_strlit("Content-Md5");
            reveal_strlit("content-md5");
            assert(lower_seq("Last-Modified"@) =~= "last-modified"@);
            assert(lower_seq("Content-Length"@) =~= "content-length"@);
            assert(lower_seq("Content-Md5"@) =~= "content-md5"@);
        }
        let lm = match header.get("Last-Modified") {
            Option::Some(v) => v,
            Option::None => {
                return Err(Error::Object(ObjectError::HeadError {
                    msg: "can not find Last-Modified in head response".to_owned(),
                }));
            },
        };
        let last_modified = match parse_http_date_secs(lm.as_str()) {
            Option::Some(t) => t,
            Option::None => {
                return Err(Error::Object(ObjectError::HeadError {
                    msg: "cannot parse to system time".to_owned(),
                }));
            },
        };
        let cl = match header.get("Content-Length") {
            Option::Some(v) => v,
            Option::None => {
                return Err(Error::Object(ObjectError::HeadError {
                    msg: "can not find Content-Length in head response".to_owned(),
                }));
            },
        };
        let size = match parse_usize(cl.as_str()) {
            Option::Some(n) => n,
            Option::None => {
                return Err(Error::Object(ObjectError::HeadError {
                    msg: "cannot parse to number".to_owned(),
                }));
            },
        };
        let md5 = match header.get("Content-Md5") {
            Option::Some(v) => v.clone(),
            Option::None => {
                return Err(Error::Object(ObjectError::HeadError {
                    msg: "can not find Content-Md5 in head response".to_owned(),
                }));
            },
        };
        Ok(ObjectMeta { last_modified, size, md5 })
    }
}

} // verus!
