//! Version comparator: staleness is decided by raw string equality, since
//! upstream version strings are not guaranteed to parse as semantic
//! versions.  Any difference, including a downgrade, counts as outdated.

use vstd::prelude::*;

use crate::text;

verus! {

/// Unit type grouping the version comparison policy.
pub struct Version;

impl Version {
    /// An installed version is outdated exactly when it differs, byte for
    /// byte, from the upstream-reported version.  In particular
    /// `is_outdated(v, v)` is false for every `v`.
    pub fn is_outdated(installed: &str, upstream: &str) -> (r: bool)
        ensures
            r == (installed@ != upstream@),
    {
        !text::str_eq(installed, upstream)
    }
}

} // verus!
