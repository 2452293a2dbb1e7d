//! What is known of a remote file before and while it is cached.
use vstd::prelude::*;

verus! {

/// A `Content-Range` of a response: bytes `start..=end` of a resource of
/// `full` bytes.
#[derive(Clone, Debug, PartialEq)]
pub struct HttpContentRange {
    pub start: u64,
    pub end: u64,
    pub full: u64,
}

/// The headers of a remote file that the cache keeps.
#[derive(Clone, Debug, PartialEq)]
pub struct RemoteFileInfo {
    pub content_type: String,
    pub content_length: u64,
    pub accept_ranges: bool,
    pub content_range: Option<HttpContentRange>,
}

/// The length of the whole resource: that of the content range when there is
/// one, else the content length.
pub open spec fn full_length(info: RemoteFileInfo) -> u64 {
    match info.content_range {
        Some(cr) => cr.full,
        None => info.content_length,
    }
}

impl RemoteFileInfo {
    pub fn full(&self) -> (n: u64)
        ensures
            n == full_length(*self),
    {
        match &self.content_range {
            Some(cr) => cr.full,
            None => self.content_length,
        }
    }
}

} // verus!
