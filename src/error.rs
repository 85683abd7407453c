//! Failures of the typed accessor and the display-settings protocol.

use vstd::prelude::*;

verus! {

/// Why a read of the document failed.
#[derive(Debug, Clone, Copy, PartialEq, Eq, Structural)]
pub enum Errors {
    /// The key, or the value within it, does not exist.
    KeyMissing,
    /// The value exists but is not of the expected kind.
    WrongFormat,
    /// Two places that must hold the same setting disagree.
    Inconsistent,
}

} // verus!
