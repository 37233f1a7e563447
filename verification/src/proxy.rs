//! The decisions a forwarding proxy makes between its network reads and
//! writes: which upstream servers are still usable and which one a random
//! draw selects, and which response status each request-parsing failure
//! maps to. The reads and writes themselves, and the random draw, happen
//! outside the library, which only ever receives plain values.

use vstd::prelude::*;

verus! {

/// Why a request could not be read from a client, stripped to the
/// classification the proxy answers with.
#[derive(Clone, Copy, Debug, PartialEq, Eq, Structural)]
pub enum RequestError {
    /// The client hung up before a whole request arrived; carries the
    /// number of bytes that did arrive.
    IncompleteRequest(usize),
    /// The bytes do not form a valid request.
    MalformedRequest,
    /// The declared content length is not a number.
    InvalidContentLength,
    /// The body does not match the declared content length.
    ContentLengthMismatch,
    /// The body exceeds the size the proxy accepts.
    RequestBodyTooLarge,
    /// Reading from the connection itself failed.
    ConnectionError,
}

/// The response status code for a request-reading failure: malformed
/// input in any form is a bad request, an oversized body is payload too
/// large, and a connection failure is service unavailable.
pub open spec fn spec_error_status(e: RequestError) -> u16 {
    match e {
        RequestError::IncompleteRequest(_) => 400,
        RequestError::MalformedRequest => 400,
        RequestError::InvalidContentLength => 400,
        RequestError::ContentLengthMismatch => 400,
        RequestError::RequestBodyTooLarge => 413,
        RequestError::ConnectionError => 503,
    }
}

/// Maps a request-reading failure to the response status code sent back.
pub fn error_status(e: RequestError) -> (r: u16)
    ensures
        r == spec_error_status(e),
{
    match e {
        RequestError::IncompleteRequest(_) => 400,
        RequestError::MalformedRequest => 400,
        RequestError::InvalidContentLength => 400,
        RequestError::ContentLengthMismatch => 400,
        RequestError::RequestBodyTooLarge => 413,
        RequestError::ConnectionError => 503,
    }
}

/// The indexes of the upstreams not marked dead in `dead[..upto]`, in
/// order.
pub open spec fn spec_alive(dead: Seq<bool>, upto: int) -> Seq<usize>
    decreases upto,
{
    if upto <= 0 || upto > dead.len() {
        Seq::empty()
    } else {
        let prefix = spec_alive(dead, upto - 1);
        if dead[upto - 1] {
            prefix
        } else {
            prefix.push((upto - 1) as usize)
        }
    }
}

/// The indexes of the upstreams not marked dead, in increasing order.
pub fn alive_upstreams(dead: &Vec<bool>) -> (r: Vec<usize>)
    ensures
        r@ == spec_alive(dead@, dead@.len() as int),
{
    let mut out: Vec<usize> = Vec::new();
    let mut i: usize = 0;
    while i < dead.len()
        invariant
            i <= dead@.len(),
            out@ == spec_alive(dead@, i as int),
        decreases dead@.len() - i,
    {
        if !dead[i] {
            out.push(i);
        }
        i = i + 1;
    }
    out
}

/// Picks the upstream a random draw `k` selects among the live ones, or
/// none exactly when every upstream is marked dead. The draw is taken
/// modulo the number of live upstreams, so any draw is a valid one.
pub fn choose_upstream(dead: &Vec<bool>, k: usize) -> (r: Option<usize>)
    ensures
        ({
            let alive = spec_alive(dead@, dead@.len() as int);
            match r {
                Some(idx) => alive.len() > 0 && idx == alive[k as int % alive.len() as int],
                None => alive.len() == 0,
            }
        }),
{
    let alive = alive_upstreams(dead);
    if alive.len() == 0 {
        None
    } else {
        Some(alive[k % alive.len()])
    }
}

} // verus!
