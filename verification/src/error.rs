//! The failures that end a run.

use vstd::prelude::*;

verus! {

/// Why a run cannot go on. A malformed name is none of these: it is passed
/// over. Nor is an empty block directory: its coverage is height 0.
#[derive(Debug, Clone, Copy, PartialEq, Eq)]
pub enum SyncError {
    /// A strictly forward policy and an explicit start were both asked for.
    PolicyConflict,
    /// The copier could not be started, or what it wrote is no text.
    CopierInvocationFailure,
}

} // verus!
