//! Error types, and the mapping from an HTTP response status to the typed
//! error of the operation that observed it.

use vstd::prelude::*;
use vstd::string::StringExecFns;

use crate::digits::{dec_repr, u16_to_dec};

verus! {

/// A per-operation protocol error, carrying a message that names the
/// operation and the observed status code.
#[derive(Debug, Clone, PartialEq, Eq)]
pub enum ObjectError {
    PutError { msg: String },
    GetError { msg: String },
    CopyError { msg: String },
    DeleteError { msg: String },
    HeadError { msg: String },
    PostError { msg: String },
}

/// A header that cannot be represented on the wire: an invalid name or an
/// invalid value.  Carries the offending string.
#[derive(Debug, Clone, PartialEq, Eq)]
pub enum HttpError {
    HttpInvalidHeaderValue(String),
    HttpInvalidHeaderName(String),
}

/// The error type of the library.
#[derive(Debug, Clone, PartialEq, Eq)]
pub enum Error {
    Object(ObjectError),
    Http(HttpError),
}

/// The kind of object operation that observed a response.
#[derive(Debug, Clone, Copy, PartialEq, Eq, Structural)]
pub enum OpKind {
    Get,
    Put,
    Copy,
    Delete,
    Head,
    Post,
}

/// The message an operation reports for a failing status.
pub open spec fn status_msg_spec(op: OpKind, status: u16) -> Seq<char> {
    (match op {
        OpKind::Get => "can not get object, status code: "@,
        OpKind::Put => "can not put object, status code: "@,
        OpKind::Copy => "can not copy object, status code: "@,
        OpKind::Delete => "can not delete object, status code: "@,
        OpKind::Head => "can not head object, status code: "@,
        OpKind::Post => "can not post object, status code: "@,
    }) + dec_repr(status as int)
}

/// The typed error for a failing status: the variant follows the
/// operation kind, the message carries the status code.
pub open spec fn is_status_error(e: Error, op: OpKind, status: u16) -> bool {
    match (op, e) {
        (OpKind::Get, Error::Object(ObjectError::GetError { msg })) => msg@ == status_msg_spec(
            op,
            status,
        ),
        (OpKind::Put, Error::Object(ObjectError::PutError { msg })) => msg@ == status_msg_spec(
            op,
            status,
        ),
        (OpKind::Copy, Error::Object(ObjectError::CopyError { msg })) => msg@ == status_msg_spec(
            op,
            status,
        ),
        (OpKind::Delete, Error::Object(ObjectError::DeleteError { msg })) => msg@
            == status_msg_spec(op, status),
        (OpKind::Head, Error::Object(ObjectError::HeadError { msg })) => msg@ == status_msg_spec(
            op,
            status,
        ),
        (OpKind::Post, Error::Object(ObjectError::PostError { msg })) => msg@ == status_msg_spec(
            op,
            status,
        ),
        _ => false,
    }
}

/// Maps a response status to the operation's outcome: a status in the
/// 2xx range is success, any other status is the typed protocol error of
/// the operation, carrying the status code.
pub fn check_status(op: OpKind, status: u16) -> (r: Result<(), Error>)
    ensures
        r is Ok <==> 200 <= status < 300,
        r matches Err(e) ==> is_status_error(e, op, status),
{
    if 200 <= status && status < 300 {
        return Ok(());
    }
    let mut msg = match op {
        OpKind::Get => "can not get object, status code: ",
        OpKind::Put => "can not put object, status code: ",
        OpKind::Copy => "can not copy object, status code: ",
        OpKind::Delete => "can not delete object, status code: ",
        OpKind::Head => "can not head object, status code: ",
        OpKind::Post => "can not post object, status code: ",
    }.to_owned();
    let num = u16_to_dec(status);
    msg.append(num.as_str());
    let e = match op {
        OpKind::Get => ObjectError::GetError { msg },
        OpKind::Put => ObjectError::PutError { msg },
        OpKind::Copy => ObjectError::CopyError { msg },
        OpKind::Delete => ObjectError::DeleteError { msg },
        OpKind::Head => ObjectError::HeadError { msg },
        OpKind::Post => ObjectError::PostError { msg },
    };
    Err(Error::Object(e))
}

} // verus!
