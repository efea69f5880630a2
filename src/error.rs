//! The library's error type.

use vstd::prelude::*;

verus! {

/// An opaque error, used for every failure: it carries no detail, so that a
/// failed decryption reveals nothing about why it failed.
#[derive(Debug, Eq, PartialEq)]
pub struct Error;

impl Error {
    /// How the error is shown in messages.
    pub fn description(&self) -> &'static str {
        "miscreant::error::Error"
    }
}

} // verus!
