//! The `arcsys` standard error type.

use vstd::prelude::*;

verus! {

/// The `arcsys` standard error type
#[derive(Debug, Clone, PartialEq, Eq)]
pub enum Error {
    /// A parser failure: the input bytes do not form a valid file
    Parser(String),
    /// A rebuilder failure
    Rebuilder(String),
    /// Pac file has no entries
    NoPacEntries,
}

impl Error {
    /// True for parser failures; used by contracts that promise a
    /// parse error without pinning the message text.
    pub open spec fn is_parser(self) -> bool {
        self is Parser
    }
}

} // verus!
