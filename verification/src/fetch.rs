//! Fetch capability: the crawler's view of an HTTP client. The library
//! never talks to the network itself; a binary supplies an implementation
//! of `Fetch`, and the worker loop is verified for every outcome a fetch
//! can have.

use vstd::prelude::*;

verus! {

/// A failed fetch: any non-success status or transport failure, carried as
/// a message. The crawler treats every failure the same way — the URL is
/// abandoned and the loop goes on.
#[derive(Debug)]
pub struct FetchError {
    pub message: String,
}

/// The capability of fetching the text behind a URL. Nothing is promised
/// of the result: the network decides what comes back, and the crawler is
/// verified for every possible answer.
pub trait Fetch: Sized {
    fn new() -> Self;

    fn get(&self, url: &str) -> Result<String, FetchError>;
}

} // verus!
