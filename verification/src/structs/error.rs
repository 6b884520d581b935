//! The two ways in which a request can fail.

use vstd::prelude::*;

verus! {

/// Why a request got no file for an answer.
#[derive(Debug, Clone, Copy, PartialEq, Eq, Structural)]
pub enum Error {
    /// Nothing that can be served stands at the requested path.
    FileNotFound,
    /// The request has no well-formed request line.
    BadRequest,
}

} // verus!
