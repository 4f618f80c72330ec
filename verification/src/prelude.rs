//! The names most callers want in scope.

pub use crate::errors::{Error, HttpError, ObjectError, OpKind};
pub use crate::headers::{to_headers, Headers};
pub use crate::multi_part::{CompleteMultipartUploadResult, InitiateMultipartUploadResult};
pub use crate::object::{CommonPrefix, ListObjects, Object, Owner};
pub use crate::oss::{ObjectMeta, RequestType, OSS};
pub use crate::resources::ResourceMap;
pub use crate::service::{Bucket, ListBuckets};
