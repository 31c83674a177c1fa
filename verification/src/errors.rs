//! Errors the resolution logic can surface to the user.

use vstd::prelude::*;

verus! {

/// Why a name-resolution operation failed.
#[derive(Clone, Copy, Debug, PartialEq, Eq, Structural)]
pub enum ResolveError {
    /// The requested package is installed under no resolvable name: it
    /// matched neither exactly nor through a tracked name confirmed by the
    /// database.
    PackageNotInstalled,
    /// The given URL does not name a package repository on the source host.
    InvalidAurUrl,
}

} // verus!
