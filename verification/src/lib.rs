//! Client-side core for an S3-style object-storage REST API.
//!
//! The crate builds correctly authenticated HTTP request descriptors:
//! it canonicalizes query resources, collects and orders the headers
//! that take part in authentication, computes the HMAC-SHA1 signature
//! of the canonical string, and assembles the final URL and header set.
//! Transport (actually sending the request) and XML decoding of bodies
//! are left to callers.

pub mod auth;
pub mod async_service;
pub mod chars;
pub mod digits;
pub mod error;
pub mod errors;
pub mod headers;
pub mod multi_part;
pub mod object;
pub mod oss;
pub mod prelude;
pub mod resources;
pub mod service;
pub mod sorting;
