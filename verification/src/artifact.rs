//! Artifact Name Resolver: given what a build output directory holds, pick
//! the package name the build actually produced, which may differ from the
//! name the user requested.  Inspection of the directory and the metadata
//! query on each artifact file happen outside the library; the results come
//! in as probes.

use vstd::prelude::*;

use crate::db::PackageIdent;
use crate::text;

verus! {

/// One file of a build output directory together with the identity its
/// embedded metadata reported, or `None` when the query failed or the file
/// carries no metadata.
pub struct ArtifactProbe {
    pub file_name: String,
    pub identity: Option<PackageIdent>,
}

/// The file carries the packaging extension of an installable artifact.
pub open spec fn is_package_file(file: Seq<char>) -> bool {
    text::ends_with(file, ".pkg.tar.zst"@)
}

/// The file is the artifact of a debug-symbol companion package.
pub open spec fn is_debug_file(file: Seq<char>) -> bool {
    text::ends_with(file, "-debug.pkg.tar.zst"@)
}

/// The package name is a debug-symbol companion's.
pub open spec fn is_debug_name(name: Seq<char>) -> bool {
    text::ends_with(name, "-debug"@)
}

/// Decides whether a file name carries the packaging extension.
pub fn file_is_package(file: &str) -> (r: bool)
    ensures
        r == is_package_file(file@),
{
    text::ends_with_str(file, ".pkg.tar.zst")
}

/// Decides whether a file name is a debug companion's artifact.
pub fn file_is_debug(file: &str) -> (r: bool)
    ensures
        r == is_debug_file(file@),
{
    text::ends_with_str(file, "-debug.pkg.tar.zst")
}

/// Decides whether a package name is a debug companion's.
pub fn name_is_debug(name: &str) -> (r: bool)
    ensures
        r == is_debug_name(name@),
{
    text::ends_with_str(name, "-debug")
}

/// The probe names an installable artifact whose identity query succeeded
/// and which is not a debug companion: a candidate for the primary produced
/// name.
pub open spec fn primary_candidate(p: ArtifactProbe) -> bool {
    &&& is_package_file(p.file_name@)
    &&& p.identity is Some
    &&& !is_debug_name(p.identity->Some_0.name@)
}

/// The name the build produced: the first primary candidate's, or the
/// requested name when there is none.
pub open spec fn resolved_name(probes: Seq<ArtifactProbe>, requested: Seq<char>) -> Seq<char>
    decreases probes.len(),
{
    if probes.len() == 0 {
        requested
    } else if primary_candidate(probes[0]) {
        probes[0].identity->Some_0.name@
    } else {
        resolved_name(probes.skip(1), requested)
    }
}

/// Resolves the name a build actually produced from the probes of its
/// output directory.  Name resolution is best-effort enrichment, never a
/// correctness gate: when no artifact yields a usable name the requested
/// name stands, and a debug companion's name never overrides the primary
/// selection.
pub fn resolve_produced_name(probes: &Vec<ArtifactProbe>, requested: &str) -> (r: String)
    ensures
        r@ == resolved_name(probes@, requested@),
{
    let n = probes.len();
    let mut i: usize = 0;
    proof {
        assert(probes@.skip(0) =~= probes@);
    }
    while i < n
        invariant
            n == probes@.len(),
            0 <= i <= n,
            resolved_name(probes@, requested@) == resolved_name(probes@.skip(i as int), requested@),
        decreases n - i,
    {
        let ghost tail = probes@.skip(i as int);
        proof {
            assert(tail[0] == probes@[i as int]);
            assert(tail.skip(1) =~= probes@.skip(i as int + 1));
        }
        if file_is_package(probes[i].file_name.as_str()) {
            match &probes[i].identity {
                Option::Some(ident) => {
                    if !name_is_debug(ident.name.as_str()) {
                        return ident.name.clone();
                    }
                },
                Option::None => {},
            }
        }
        proof {
            assert(!primary_candidate(tail[0]));
        }
        i += 1;
    }
    proof {
        assert(probes@.skip(n as int) =~= Seq::<ArtifactProbe>::empty());
    }
    requested.to_owned()
}

} // verus!
