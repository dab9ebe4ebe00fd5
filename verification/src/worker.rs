//! The work handed to the sender and what it reports back.
use vstd::prelude::*;

use crate::http::HttpError;
use crate::models::{Request, ResponseMeta};

verus! {

/// A send: its id, the request with variables substituted, and the time it
/// may take in seconds.
pub struct Job {
    pub id: u64,
    pub request: Request,
    pub timeout_secs: u64,
}

/// The outcome of the send with id `id`.
pub struct JobResult {
    pub id: u64,
    pub result: Result<ResponseMeta, HttpError>,
}

} // verus!
