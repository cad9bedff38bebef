//! Failures that the session commands report to their caller.
use vstd::prelude::*;

verus! {

/// Why a command did not go through.
#[derive(Clone, Copy, Debug, PartialEq, Eq, Structural)]
pub enum CommandError {
    /// Pasted text gave no sample.
    NoValidData,
    /// A history position past the end.
    InvalidIndex(usize),
}

} // verus!
