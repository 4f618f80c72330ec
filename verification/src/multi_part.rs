//! Typed records decoded from multipart-upload responses.

use vstd::prelude::*;

verus! {

/// The response to initiating a multipart upload.
#[derive(Debug, Clone, PartialEq, Eq)]
pub struct InitiateMultipartUploadResult {
    pub bucket: String,
    pub key: String,
    pub upload_id: String,
}

/// The response to completing a multipart upload.
#[derive(Debug, Clone, PartialEq, Eq)]
pub struct CompleteMultipartUploadResult {
    pub location: String,
    pub bucket: String,
    pub key: String,
    pub e_tag: String,
}

} // verus!
