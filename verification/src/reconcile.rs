//! Reconciliation Engine: aligns the tracked-name set with the live
//! database before acting on it.  Every operation takes the database's
//! answers as a snapshot of plain values; the engine decides, and the
//! caller performs the subprocess work.

use vstd::prelude::*;

use crate::artifact;
use crate::artifact::ArtifactProbe;
use crate::db::DbView;
use crate::errors::ResolveError;
use crate::text;
use crate::tracker::PackageTracker;
use crate::version::Version;

verus! {

/// What one presence query of the live database reported.
#[derive(Clone, Copy, Debug, PartialEq, Eq, Structural)]
pub enum Presence {
    /// The database reported the name installed.
    Installed,
    /// The database reported the name absent.
    Absent,
    /// The query itself failed; nothing is known about the name.
    Unknown,
}

/// The answer of one presence query.
pub struct DbAnswer {
    pub name: String,
    pub presence: Presence,
}

/// The first answer recorded for a name.
pub open spec fn answer_for(answers: Seq<DbAnswer>, n: Seq<char>) -> Option<Presence>
    decreases answers.len(),
{
    if answers.len() == 0 {
        Option::None
    } else if answers[0].name@ == n {
        Option::Some(answers[0].presence)
    } else {
        answer_for(answers.skip(1), n)
    }
}

/// The answers confirm the name absent.
pub open spec fn says_absent(answers: Seq<DbAnswer>, n: Seq<char>) -> bool {
    answer_for(answers, n) == Option::Some(Presence::Absent)
}

/// The tracked names cleanup keeps: exactly those not confirmed absent.
pub open spec fn cleanup_kept(store: Set<Seq<char>>, answers: Seq<DbAnswer>) -> Set<Seq<char>> {
    store.filter(|n: Seq<char>| !says_absent(answers, n))
}

/// Two names plausibly refer to the same package when either contains the
/// other.
pub open spec fn fuzzy_match(tracked_name: Seq<char>, requested: Seq<char>) -> bool {
    text::contains_seq(tracked_name, requested) || text::contains_seq(requested, tracked_name)
}

/// The first tracked name, in storage (sorted) order, that the database
/// confirms installed and that fuzzy-matches the request.  Taking the first
/// of the sorted names makes the acknowledged ambiguity of fuzzy matching a
/// deterministic policy.
pub open spec fn first_match(
    names: Seq<Seq<char>>,
    requested: Seq<char>,
    installed: Map<Seq<char>, Seq<char>>,
) -> Option<Seq<char>>
    decreases names.len(),
{
    if names.len() == 0 {
        Option::None
    } else if installed.dom().contains(names[0]) && fuzzy_match(names[0], requested) {
        Option::Some(names[0])
    } else {
        first_match(names.skip(1), requested, installed)
    }
}

/// The source directory recorded for a removal: the first directory named
/// like the resolved package or like the request, else the request itself.
pub open spec fn dir_pick(dirs: Seq<Seq<char>>, resolved: Seq<char>, requested: Seq<char>) -> Seq<
    char,
>
    decreases dirs.len(),
{
    if dirs.len() == 0 {
        requested
    } else if dirs[0] == resolved || dirs[0] == requested {
        dirs[0]
    } else {
        dir_pick(dirs.skip(1), resolved, requested)
    }
}

/// The database-confirmed identity a removal request resolved to.
pub struct ResolvedIdentity {
    pub requested_name: String,
    pub matched_tracked_name: Option<String>,
    pub installed_database_name: String,
    pub source_directory_name: String,
}

/// The upstream metadata answer for one package: the version upstream
/// reports, or `None` when the lookup failed or found nothing.
pub struct UpstreamAnswer {
    pub name: String,
    pub version: Option<String>,
}

/// The first upstream answer recorded for a name, when it carries a
/// version.
pub open spec fn upstream_for(answers: Seq<UpstreamAnswer>, n: Seq<char>) -> Option<Seq<char>>
    decreases answers.len(),
{
    if answers.len() == 0 {
        Option::None
    } else if answers[0].name@ == n {
        match answers[0].version {
            Option::Some(v) => Option::Some(v@),
            Option::None => Option::None,
        }
    } else {
        upstream_for(answers.skip(1), n)
    }
}

/// One entry of an update plan, derived fresh on every run and never
/// persisted.
pub struct UpdatePlan {
    pub base_name: String,
    pub installed_version: String,
    pub upstream_version: String,
    pub needs_update: bool,
}

/// The plain values of a plan entry.
pub open spec fn plan_view(p: UpdatePlan) -> (Seq<char>, Seq<char>, Seq<char>, bool) {
    (p.base_name@, p.installed_version@, p.upstream_version@, p.needs_update)
}

/// The outcome of update planning: one plan entry per base that could be
/// planned, and the bases skipped, each under its reason.
pub struct UpdateReport {
    pub plans: Vec<UpdatePlan>,
    pub not_installed: Vec<String>,
    pub metadata_missing: Vec<String>,
}

/// The base name of a tracked name: the debug-companion suffix stripped,
/// when one is there and at least one character precedes it.
pub open spec fn base_of(n: Seq<char>) -> Seq<char> {
    if artifact::is_debug_name(n) && n.len() > "-debug"@.len() {
        n.take(n.len() - "-debug"@.len())
    } else {
        n
    }
}

/// The bases of a tracked set: every tracked name with its debug suffix
/// stripped; a debug companion shares an update cycle with its base.
pub open spec fn bases_of(store: Set<Seq<char>>) -> Set<Seq<char>> {
    Set::new(|b: Seq<char>| exists|a: Seq<char>| store.contains(a) && b == base_of(a))
}

/// The plan entries for a list of base names, in order: one per base the
/// database holds installed and upstream knows, with `needs_update` exactly
/// when the two version strings differ.
pub open spec fn planned_entries(
    bases: Seq<Seq<char>>,
    installed: Map<Seq<char>, Seq<char>>,
    upstream: Seq<UpstreamAnswer>,
) -> Seq<(Seq<char>, Seq<char>, Seq<char>, bool)>
    decreases bases.len(),
{
    if bases.len() == 0 {
        Seq::empty()
    } else {
        let rest = planned_entries(bases.skip(1), installed, upstream);
        let b = bases[0];
        if installed.dom().contains(b) {
            match upstream_for(upstream, b) {
                Option::Some(uv) => seq![(b, installed[b], uv, installed[b] != uv)] + rest,
                Option::None => rest,
            }
        } else {
            rest
        }
    }
}

/// The bases skipped because the database does not hold them installed.
pub open spec fn skipped_not_installed(
    bases: Seq<Seq<char>>,
    installed: Map<Seq<char>, Seq<char>>,
) -> Seq<Seq<char>>
    decreases bases.len(),
{
    if bases.len() == 0 {
        Seq::empty()
    } else {
        let rest = skipped_not_installed(bases.skip(1), installed);
        if !installed.dom().contains(bases[0]) {
            seq![bases[0]] + rest
        } else {
            rest
        }
    }
}

/// The installed bases skipped because upstream metadata is unavailable.
pub open spec fn skipped_no_metadata(
    bases: Seq<Seq<char>>,
    installed: Map<Seq<char>, Seq<char>>,
    upstream: Seq<UpstreamAnswer>,
) -> Seq<Seq<char>>
    decreases bases.len(),
{
    if bases.len() == 0 {
        Seq::empty()
    } else {
        let rest = skipped_no_metadata(bases.skip(1), installed, upstream);
        if installed.dom().contains(bases[0]) && upstream_for(upstream, bases[0]) is None {
            seq![bases[0]] + rest
        } else {
            rest
        }
    }
}

/// The probe names an installable, non-debug artifact file whose identity
/// query succeeded and whose package the database confirms installed.
pub open spec fn listing_candidate(p: ArtifactProbe, installed: Map<Seq<char>, Seq<char>>) -> bool {
    &&& artifact::is_package_file(p.file_name@)
    &&& !artifact::is_debug_file(p.file_name@)
    &&& p.identity is Some
    &&& installed.dom().contains(p.identity->Some_0.name@)
}

/// The first candidate's package name; with `only_nondebug`, only one whose
/// package name is not a debug companion's counts.
pub open spec fn first_candidate(
    probes: Seq<ArtifactProbe>,
    installed: Map<Seq<char>, Seq<char>>,
    only_nondebug: bool,
) -> Option<Seq<char>>
    decreases probes.len(),
{
    if probes.len() == 0 {
        Option::None
    } else if listing_candidate(probes[0], installed) && (!only_nondebug || !artifact::is_debug_name(
        probes[0].identity->Some_0.name@,
    )) {
        Option::Some(probes[0].identity->Some_0.name@)
    } else {
        first_candidate(probes.skip(1), installed, only_nondebug)
    }
}

/// What one source directory under the download location holds.
pub struct SourceDirListing {
    pub name: String,
    pub has_descriptor: bool,
    pub artifacts: Vec<ArtifactProbe>,
}

/// The database-confirmed name a directory's build produced, preferring a
/// non-debug package name; `None` when the directory holds no build
/// descriptor or none of its artifacts is confirmed installed.
pub open spec fn dir_listed_name(d: SourceDirListing, installed: Map<Seq<char>, Seq<char>>) -> Option<
    Seq<char>,
> {
    if !d.has_descriptor {
        Option::None
    } else {
        match first_candidate(d.artifacts@, installed, true) {
            Option::Some(n) => Option::Some(n),
            Option::None => first_candidate(d.artifacts@, installed, false),
        }
    }
}

/// The listing entries for the source directories, in order: directory
/// name, confirmed produced name, and installed version.
pub open spec fn listed_entries(
    dirs: Seq<SourceDirListing>,
    installed: Map<Seq<char>, Seq<char>>,
) -> Seq<(Seq<char>, Seq<char>, Seq<char>)>
    decreases dirs.len(),
{
    if dirs.len() == 0 {
        Seq::empty()
    } else {
        let rest = listed_entries(dirs.skip(1), installed);
        match dir_listed_name(dirs[0], installed) {
            Option::Some(n) => seq![(dirs[0].name@, n, installed[n])] + rest,
            Option::None => rest,
        }
    }
}

/// The plain values of a listing entry.
pub open spec fn listing_view(e: ListingEntry) -> (Seq<char>, Seq<char>, Seq<char>) {
    (e.directory_name@, e.package_name@, e.installed_version@)
}

/// One listed package: the directory it was built in, the confirmed
/// produced name, and the installed version.
pub struct ListingEntry {
    pub directory_name: String,
    pub package_name: String,
    pub installed_version: String,
}

fn find_answer(answers: &Vec<DbAnswer>, name: &str) -> (r: Option<Presence>)
    ensures
        r == answer_for(answers@, name@),
{
    let n = answers.len();
    let mut i: usize = 0;
    proof {
        assert(answers@.skip(0) =~= answers@);
    }
    while i < n
        invariant
            n == answers@.len(),
            0 <= i <= n,
            answer_for(answers@, name@) == answer_for(answers@.skip(i as int), name@),
        decreases n - i,
    {
        let ghost tail = answers@.skip(i as int);
        proof {
            assert(tail[0] == answers@[i as int]);
            assert(tail.skip(1) =~= answers@.skip(i as int + 1));
        }
        if text::str_eq(answers[i].name.as_str(), name) {
            return Option::Some(answers[i].presence);
        }
        i += 1;
    }
    proof {
        assert(answers@.skip(n as int) =~= Seq::<DbAnswer>::empty());
    }
    Option::None
}

fn find_upstream(answers: &Vec<UpstreamAnswer>, name: &str) -> (r: Option<String>)
    ensures
        match r {
            Option::Some(v) => upstream_for(answers@, name@) == Option::Some(v@),
            Option::None => upstream_for(answers@, name@) is None,
        },
{
    let n = answers.len();
    let mut i: usize = 0;
    proof {
        assert(answers@.skip(0) =~= answers@);
    }
    while i < n
        invariant
            n == answers@.len(),
            0 <= i <= n,
            upstream_for(answers@, name@) == upstream_for(answers@.skip(i as int), name@),
        decreases n - i,
    {
        let ghost tail = answers@.skip(i as int);
        proof {
            assert(tail[0] == answers@[i as int]);
            assert(tail.skip(1) =~= answers@.skip(i as int + 1));
        }
        if text::str_eq(answers[i].name.as_str(), name) {
            return match &answers[i].version {
                Option::Some(v) => Option::Some(v.clone()),
                Option::None => Option::None,
            };
        }
        i += 1;
    }
    proof {
        assert(answers@.skip(n as int) =~= Seq::<UpstreamAnswer>::empty());
    }
    Option::None
}

fn pick_source_dir(dirs: &Vec<String>, resolved: &str, requested: &str) -> (r: String)
    ensures
        r@ == dir_pick(text::views_of(dirs@), resolved@, requested@),
{
    let n = dirs.len();
    let ghost dv = text::views_of(dirs@);
    let mut i: usize = 0;
    proof {
        assert(dv.skip(0) =~= dv);
    }
    while i < n
        invariant
            n == dv.len(),
            dv == text::views_of(dirs@),
            0 <= i <= n,
            dir_pick(dv, resolved@, requested@) == dir_pick(dv.skip(i as int), resolved@, requested@),
        decreases n - i,
    {
        let ghost tail = dv.skip(i as int);
        proof {
            assert(tail[0] == dv[i as int]);
            assert(dv[i as int] == dirs@[i as int]@);
            assert(tail.skip(1) =~= dv.skip(i as int + 1));
        }
        if text::str_eq(dirs[i].as_str(), resolved) || text::str_eq(dirs[i].as_str(), requested) {
            return dirs[i].clone();
        }
        i += 1;
    }
    proof {
        assert(dv.skip(n as int) =~= Seq::<Seq<char>>::empty());
    }
    requested.to_owned()
}

fn find_candidate(probes: &Vec<ArtifactProbe>, db: &DbView, only_nondebug: bool) -> (r: Option<
    (String, String),
>)
    ensures
        match r {
            Option::Some(nv) => first_candidate(probes@, db@, only_nondebug) == Option::Some(nv.0@)
                && db@.dom().contains(nv.0@) && nv.1@ == db@[nv.0@],
            Option::None => first_candidate(probes@, db@, only_nondebug) is None,
        },
{
    let n = probes.len();
    let mut i: usize = 0;
    proof {
        assert(probes@.skip(0) =~= probes@);
    }
    while i < n
        invariant
            n == probes@.len(),
            0 <= i <= n,
            first_candidate(probes@, db@, only_nondebug) == first_candidate(
                probes@.skip(i as int),
                db@,
                only_nondebug,
            ),
        decreases n - i,
    {
        let ghost tail = probes@.skip(i as int);
        proof {
            assert(tail[0] == probes@[i as int]);
            assert(tail.skip(1) =~= probes@.skip(i as int + 1));
        }
        let p = &probes[i];
        if artifact::file_is_package(p.file_name.as_str()) && !artifact::file_is_debug(
            p.file_name.as_str(),
        ) {
            match &p.identity {
                Option::Some(ident) => {
                    if !only_nondebug || !artifact::name_is_debug(ident.name.as_str()) {
                        match db.installed_version(ident.name.as_str()) {
                            Option::Some(v) => {
                                return Option::Some((ident.name.clone(), v));
                            },
                            Option::None => {},
                        }
                    }
                },
                Option::None => {},
            }
        }
        proof {
            assert(!(listing_candidate(tail[0], db@) && (!only_nondebug || !artifact::is_debug_name(
                tail[0].identity->Some_0.name@,
            ))));
        }
        i += 1;
    }
    proof {
        assert(probes@.skip(n as int) =~= Seq::<ArtifactProbe>::empty());
    }
    Option::None
}

/// Unit type grouping the reconciliation operations.
pub struct PackageManager;

impl PackageManager {
    /// Prunes the Tracking Store against the database's presence answers:
    /// every tracked name the answers confirm absent is dropped, and
    /// returned in storage order; a failed query for one name never blocks
    /// the pruning of another.
    pub fn cleanup_tracking(store: &PackageTracker, answers: &Vec<DbAnswer>) -> (r: (
        PackageTracker,
        Vec<String>,
    ))
        requires
            store.wf(),
        ensures
            r.0.wf(),
            r.0@ == cleanup_kept(store@, answers@),
            forall|j: int|
                0 <= j < r.1@.len() ==> store@.contains(#[trigger] r.1@[j]@) && says_absent(
                    answers@,
                    r.1@[j]@,
                ),
            forall|n: Seq<char>|
                store@.contains(n) && says_absent(answers@, n) ==> exists|j: int|
                    0 <= j < r.1@.len() && #[trigger] r.1@[j]@ == n,
    {
        let n = store.len();
        let mut kept = PackageTracker::new();
        let mut removed: Vec<String> = Vec::new();
        let mut i: usize = 0;
        proof {
            assert(kept@ =~= cleanup_kept(store.names_seq().take(0).to_set(), answers@));
        }
        while i < n
            invariant
                store.wf(),
                n == store.names_seq().len(),
                0 <= i <= n,
                kept.wf(),
                kept@ == cleanup_kept(store.names_seq().take(i as int).to_set(), answers@),
                forall|j: int|
                    0 <= j < removed@.len() ==> store@.contains(#[trigger] removed@[j]@)
                        && says_absent(answers@, removed@[j]@),
                forall|m: Seq<char>|
                    store.names_seq().take(i as int).to_set().contains(m) && says_absent(
                        answers@,
                        m,
                    ) ==> exists|j: int| 0 <= j < removed@.len() && #[trigger] removed@[j]@ == m,
            decreases n - i,
        {
            let ghost pre = store.names_seq().take(i as int);
            let ghost cur = store.names_seq()[i as int];
            proof {
                assert(store.names_seq().take(i as int + 1) =~= pre.push(cur));
                pre.lemma_push_to_set_commute(cur);
                assert(store.names_seq().contains(cur));
            }
            let name = store.get(i);
            let ans = find_answer(answers, name.as_str());
            let absent = match ans {
                Option::Some(Presence::Absent) => true,
                _ => false,
            };
            let ghost removed_pre = removed@;
            if absent {
                removed.push(name.clone());
                proof {
                    assert(kept@ =~= cleanup_kept(
                        store.names_seq().take(i as int + 1).to_set(),
                        answers@,
                    ));
                    assert forall|m: Seq<char>|
                        store.names_seq().take(i as int + 1).to_set().contains(m) && says_absent(
                            answers@,
                            m,
                        ) implies exists|j: int|
                        0 <= j < removed@.len() && #[trigger] removed@[j]@ == m by {
                        if m == cur {
                            assert(removed@[removed@.len() - 1]@ == m);
                        } else {
                            assert(pre.to_set().contains(m));
                            let j = choose|j: int|
                                0 <= j < removed_pre.len() && #[trigger] removed_pre[j]@ == m;
                            assert(removed@[j]@ == m);
                        }
                    }
                }
            } else {
                kept.add(name.as_str());
                proof {
                    assert(kept@ =~= cleanup_kept(
                        store.names_seq().take(i as int + 1).to_set(),
                        answers@,
                    ));
                    assert forall|m: Seq<char>|
                        store.names_seq().take(i as int + 1).to_set().contains(m) && says_absent(
                            answers@,
                            m,
                        ) implies exists|j: int|
                        0 <= j < removed@.len() && #[trigger] removed@[j]@ == m by {
                        assert(m != cur);
                        assert(pre.to_set().contains(m));
                        let j = choose|j: int|
                            0 <= j < removed_pre.len() && #[trigger] removed_pre[j]@ == m;
                        assert(removed@[j]@ == m);
                    }
                }
            }
            i += 1;
        }
        proof {
            assert(store.names_seq().take(n as int) =~= store.names_seq());
            assert forall|m: Seq<char>|
                store@.contains(m) && says_absent(answers@, m) implies exists|j: int|
                0 <= j < removed@.len() && #[trigger] removed@[j]@ == m by {
                assert(store.names_seq().take(n as int).to_set().contains(m));
            }
        }
        let r = (kept, removed);
        proof {
            assert forall|m: Seq<char>|
                store@.contains(m) && says_absent(answers@, m) implies exists|j: int|
                0 <= j < r.1@.len() && #[trigger] r.1@[j]@ == m by {
                let j = choose|j: int| 0 <= j < r.1@.len() && #[trigger] r.1@[j]@ == m;
                assert(r.1@[j]@ == m);
            }
        }
        r
    }

    /// Resolves which installed package a removal request refers to.
    /// First an exact database match; then the first tracked name, in
    /// sorted order, that the database confirms installed and that
    /// contains, or is contained in, the request.  The returned identity is
    /// always confirmed installed at the moment of resolution; when neither
    /// tier confirms a name, the request fails and nothing may be removed.
    pub fn resolve_for_removal(
        requested: &str,
        store: &PackageTracker,
        db: &DbView,
        source_dirs: &Vec<String>,
    ) -> (r: Result<ResolvedIdentity, ResolveError>)
        requires
            store.wf(),
        ensures
            match r {
                Result::Ok(id) => {
                    &&& db@.dom().contains(id.installed_database_name@)
                    &&& id.requested_name@ == requested@
                    &&& if db@.dom().contains(requested@) {
                        &&& id.installed_database_name@ == requested@
                        &&& id.matched_tracked_name is None
                        &&& id.source_directory_name@ == requested@
                    } else {
                        &&& first_match(store.names_seq(), requested@, db@) == Option::Some(
                            id.installed_database_name@,
                        )
                        &&& id.matched_tracked_name is Some
                        &&& id.matched_tracked_name->Some_0@ == id.installed_database_name@
                        &&& id.source_directory_name@ == dir_pick(
                            text::views_of(source_dirs@),
                            id.installed_database_name@,
                            requested@,
                        )
                    }
                },
                Result::Err(e) => {
                    &&& e == ResolveError::PackageNotInstalled
                    &&& !db@.dom().contains(requested@)
                    &&& first_match(store.names_seq(), requested@, db@) is None
                },
            },
    {
        if db.is_installed(requested) {
            return Result::Ok(
                ResolvedIdentity {
                    requested_name: requested.to_owned(),
                    matched_tracked_name: Option::None,
                    installed_database_name: requested.to_owned(),
                    source_directory_name: requested.to_owned(),
                },
            );
        }
        let n = store.len();
        let mut i: usize = 0;
        proof {
            assert(store.names_seq().skip(0) =~= store.names_seq());
        }
        while i < n
            invariant
                store.wf(),
                n == store.names_seq().len(),
                0 <= i <= n,
                !db@.dom().contains(requested@),
                first_match(store.names_seq(), requested@, db@) == first_match(
                    store.names_seq().skip(i as int),
                    requested@,
                    db@,
                ),
            decreases n - i,
        {
            let ghost tail = store.names_seq().skip(i as int);
            proof {
                assert(tail[0] == store.names_seq()[i as int]);
                assert(tail.skip(1) =~= store.names_seq().skip(i as int + 1));
            }
            let name = store.get(i);
            if db.is_installed(name.as_str()) {
                if text::contains_substr(name.as_str(), requested) || text::contains_substr(
                    requested,
                    name.as_str(),
                ) {
                    proof {
                        assert(first_match(tail, requested@, db@) == Option::Some(tail[0]));
                    }
                    let dir = pick_source_dir(source_dirs, name.as_str(), requested);
                    return Result::Ok(
                        ResolvedIdentity {
                            requested_name: requested.to_owned(),
                            matched_tracked_name: Option::Some(name.clone()),
                            installed_database_name: name.clone(),
                            source_directory_name: dir,
                        },
                    );
                }
            }
            i += 1;
        }
        proof {
            assert(store.names_seq().skip(n as int) =~= Seq::<Seq<char>>::empty());
        }
        Result::Err(ResolveError::PackageNotInstalled)
    }

    /// The debug companion of a package name.
    pub fn debug_companion_name(name: &str) -> (r: String)
        ensures
            r@ == name@ + "-debug"@,
    {
        let mut s = name.to_owned();
        s.append("-debug");
        s
    }

    /// The debug companion scheduled for removal alongside a resolved
    /// primary package: its name, when the database confirms it installed.
    /// Removing the companion is best-effort and never blocks the primary
    /// removal.
    pub fn companion_to_remove(resolved: &str, db: &DbView) -> (r: Option<String>)
        ensures
            match r {
                Option::Some(c) => c@ == resolved@ + "-debug"@ && db@.dom().contains(c@),
                Option::None => !db@.dom().contains(resolved@ + "-debug"@),
            },
    {
        let c = Self::debug_companion_name(resolved);
        if db.is_installed(c.as_str()) {
            Option::Some(c)
        } else {
            Option::None
        }
    }

    /// After a removal, every name variant that could refer to the removed
    /// package leaves the Tracking Store: the requested name and the
    /// resolved database name.  Over-removal is safe because absence is the
    /// default state; a stale leftover is repaired by the next cleanup.
    pub fn untrack_after_removal(tracker: &mut PackageTracker, requested: &str, resolved: &str)
        requires
            old(tracker).wf(),
        ensures
            final(tracker).wf(),
            final(tracker)@ == old(tracker)@.remove(requested@).remove(resolved@),
    {
        tracker.remove(requested);
        tracker.remove(resolved);
    }

    /// The base names of the tracked set, each once, sorted: debug
    /// companions are folded into their base so that base and companion
    /// share one update cycle.
    pub fn base_names(store: &PackageTracker) -> (r: PackageTracker)
        requires
            store.wf(),
        ensures
            r.wf(),
            r@ == bases_of(store@),
    {
        let n = store.len();
        let mut bases = PackageTracker::new();
        let mut i: usize = 0;
        while i < n
            invariant
                store.wf(),
                n == store.names_seq().len(),
                0 <= i <= n,
                bases.wf(),
                forall|b: Seq<char>|
                    bases@.contains(b) <==> exists|k: int|
                        0 <= k < i && b == base_of(#[trigger] store.names_seq()[k]),
            decreases n - i,
        {
            let name = store.get(i);
            let base = base_name_of(name.as_str());
            proof {
                assert(store.names_seq().contains(store.names_seq()[i as int]));
                lemma_base_of_valid(store.names_seq()[i as int]);
            }
            bases.add(base.as_str());
            i += 1;
        }
        proof {
            assert forall|b: Seq<char>| bases@.contains(b) implies bases_of(store@).contains(
                b,
            ) by {
                let k = choose|k: int|
                    0 <= k < n && b == base_of(#[trigger] store.names_seq()[k]);
                assert(store.names_seq().contains(store.names_seq()[k]));
                assert(store@.contains(store.names_seq()[k]));
            }
            assert forall|b: Seq<char>| bases_of(store@).contains(b) implies bases@.contains(
                b,
            ) by {
                let a = choose|a: Seq<char>| store@.contains(a) && b == base_of(a);
                let k = choose|k: int|
                    0 <= k < store.names_seq().len() && store.names_seq()[k] == a;
                assert(b == base_of(store.names_seq()[k]));
            }
            assert(bases@ =~= bases_of(store@));
        }
        bases
    }

    /// Builds the update plan for a list of base names against the
    /// database snapshot and the upstream answers.  A base not installed is
    /// skipped, not an error; an installed base without upstream metadata
    /// is skipped under a warning; every other base gets one entry whose
    /// `needs_update` holds exactly when the installed and upstream version
    /// strings differ.
    pub fn plan_updates(bases: &PackageTracker, db: &DbView, upstream: &Vec<UpstreamAnswer>) -> (r:
        UpdateReport)
        requires
            bases.wf(),
        ensures
            r.plans@.map_values(|p: UpdatePlan| plan_view(p)) == planned_entries(
                bases.names_seq(),
                db@,
                upstream@,
            ),
            text::views_of(r.not_installed@) == skipped_not_installed(bases.names_seq(), db@),
            text::views_of(r.metadata_missing@) == skipped_no_metadata(
                bases.names_seq(),
                db@,
                upstream@,
            ),
    {
        let n = bases.len();
        let mut plans: Vec<UpdatePlan> = Vec::new();
        let mut not_installed: Vec<String> = Vec::new();
        let mut metadata_missing: Vec<String> = Vec::new();
        let mut i: usize = 0;
        proof {
            assert(bases.names_seq().skip(0) =~= bases.names_seq());
            assert(plans@.map_values(|p: UpdatePlan| plan_view(p)) =~= Seq::<
                (Seq<char>, Seq<char>, Seq<char>, bool),
            >::empty());
            assert(text::views_of(not_installed@) =~= Seq::<Seq<char>>::empty());
            assert(text::views_of(metadata_missing@) =~= Seq::<Seq<char>>::empty());
        }
        while i < n
            invariant
                bases.wf(),
                n == bases.names_seq().len(),
                0 <= i <= n,
                plans@.map_values(|p: UpdatePlan| plan_view(p)) + planned_entries(
                    bases.names_seq().skip(i as int),
                    db@,
                    upstream@,
                ) == planned_entries(bases.names_seq(), db@, upstream@),
                text::views_of(not_installed@) + skipped_not_installed(
                    bases.names_seq().skip(i as int),
                    db@,
                ) == skipped_not_installed(bases.names_seq(), db@),
                text::views_of(metadata_missing@) + skipped_no_metadata(
                    bases.names_seq().skip(i as int),
                    db@,
                    upstream@,
                ) == skipped_no_metadata(bases.names_seq(), db@, upstream@),
            decreases n - i,
        {
            let ghost tail = bases.names_seq().skip(i as int);
            proof {
                assert(tail[0] == bases.names_seq()[i as int]);
                assert(tail.skip(1) =~= bases.names_seq().skip(i as int + 1));
            }
            let name = bases.get(i);
            let ghost plans_pre = plans@.map_values(|p: UpdatePlan| plan_view(p));
            let ghost ni_pre = text::views_of(not_installed@);
            let ghost mm_pre = text::views_of(metadata_missing@);
            match db.installed_version(name.as_str()) {
                Option::Some(installed_version) => {
                    match find_upstream(upstream, name.as_str()) {
                        Option::Some(upstream_version) => {
                            let needs_update = Version::is_outdated(
                                installed_version.as_str(),
                                upstream_version.as_str(),
                            );
                            let entry = UpdatePlan {
                                base_name: name.clone(),
                                installed_version,
                                upstream_version,
                                needs_update,
                            };
                            let ghost ev = plan_view(entry);
                            plans.push(entry);
                            proof {
                                assert(plans@.map_values(|p: UpdatePlan| plan_view(p)) =~= plans_pre
                                    + seq![ev]);
                                assert(plans_pre + seq![ev] + planned_entries(
                                    tail.skip(1),
                                    db@,
                                    upstream@,
                                ) =~= plans_pre + planned_entries(tail, db@, upstream@));
                            }
                        },
                        Option::None => {
                            metadata_missing.push(name.clone());
                            proof {
                                assert(text::views_of(metadata_missing@) =~= mm_pre + seq![
                                    bases.names_seq()[i as int],
                                ]);
                                assert(mm_pre + seq![tail[0]] + skipped_no_metadata(
                                    tail.skip(1),
                                    db@,
                                    upstream@,
                                ) =~= mm_pre + skipped_no_metadata(tail, db@, upstream@));
                            }
                        },
                    }
                },
                Option::None => {
                    not_installed.push(name.clone());
                    proof {
                        assert(text::views_of(not_installed@) =~= ni_pre + seq![
                            bases.names_seq()[i as int],
                        ]);
                        assert(ni_pre + seq![tail[0]] + skipped_not_installed(tail.skip(1), db@)
                            =~= ni_pre + skipped_not_installed(tail, db@));
                    }
                },
            }
            i += 1;
        }
        proof {
            assert(bases.names_seq().skip(n as int) =~= Seq::<Seq<char>>::empty());
            assert(plans@.map_values(|p: UpdatePlan| plan_view(p)) + Seq::<
                (Seq<char>, Seq<char>, Seq<char>, bool),
            >::empty() =~= plans@.map_values(|p: UpdatePlan| plan_view(p)));
            assert(text::views_of(not_installed@) + Seq::<Seq<char>>::empty() =~= text::views_of(
                not_installed@,
            ));
            assert(text::views_of(metadata_missing@) + Seq::<Seq<char>>::empty() =~= text::views_of(
                metadata_missing@,
            ));
        }
        UpdateReport { plans, not_installed, metadata_missing }
    }

    /// Recovers, for every source directory that holds a build descriptor,
    /// the package its build produced, keeping a directory only when the
    /// database independently confirms the produced package installed;
    /// directories whose build was never installed are silently excluded.
    pub fn resolve_for_listing(dirs: &Vec<SourceDirListing>, db: &DbView) -> (r: Vec<ListingEntry>)
        ensures
            r@.map_values(|e: ListingEntry| listing_view(e)) == listed_entries(dirs@, db@),
    {
        let n = dirs.len();
        let mut out: Vec<ListingEntry> = Vec::new();
        let mut i: usize = 0;
        proof {
            assert(dirs@.skip(0) =~= dirs@);
            assert(out@.map_values(|e: ListingEntry| listing_view(e)) =~= Seq::<
                (Seq<char>, Seq<char>, Seq<char>),
            >::empty());
        }
        while i < n
            invariant
                n == dirs@.len(),
                0 <= i <= n,
                out@.map_values(|e: ListingEntry| listing_view(e)) + listed_entries(
                    dirs@.skip(i as int),
                    db@,
                ) == listed_entries(dirs@, db@),
            decreases n - i,
        {
            let ghost tail = dirs@.skip(i as int);
            proof {
                assert(tail[0] == dirs@[i as int]);
                assert(tail.skip(1) =~= dirs@.skip(i as int + 1));
            }
            let ghost out_pre = out@.map_values(|e: ListingEntry| listing_view(e));
            let d = &dirs[i];
            if d.has_descriptor {
                let mut found = find_candidate(&d.artifacts, db, true);
                if found.is_none() {
                    found = find_candidate(&d.artifacts, db, false);
                }
                match found {
                    Option::Some(nv) => {
                        let entry = ListingEntry {
                            directory_name: d.name.clone(),
                            package_name: nv.0,
                            installed_version: nv.1,
                        };
                        let ghost ev = listing_view(entry);
                        out.push(entry);
                        proof {
                            assert(out@.map_values(|e: ListingEntry| listing_view(e)) =~= out_pre
                                + seq![ev]);
                            assert(out_pre + seq![ev] + listed_entries(tail.skip(1), db@) =~= out_pre
                                + listed_entries(tail, db@));
                        }
                    },
                    Option::None => {},
                }
            }
            i += 1;
        }
        proof {
            assert(dirs@.skip(n as int) =~= Seq::<SourceDirListing>::empty());
            assert(out@.map_values(|e: ListingEntry| listing_view(e)) + Seq::<
                (Seq<char>, Seq<char>, Seq<char>),
            >::empty() =~= out@.map_values(|e: ListingEntry| listing_view(e)));
        }
        out
    }
}

/// A valid name's base is a valid name.
proof fn lemma_base_of_valid(n: Seq<char>)
    requires
        text::valid_name(n),
    ensures
        text::valid_name(base_of(n)),
{
    reveal_strlit("-debug");
    if artifact::is_debug_name(n) && n.len() > "-debug"@.len() {
        assert forall|i: int| 0 <= i < base_of(n).len() implies base_of(n)[i] != '\n' by {
            assert(base_of(n)[i] == n[i]);
        }
    }
}

/// Strips the debug-companion suffix when one is there and something
/// precedes it.
fn base_name_of(name: &str) -> (r: String)
    ensures
        r@ == base_of(name@),
{
    proof {
        reveal_strlit("-debug");
    }
    let len = name.unicode_len();
    if artifact::name_is_debug(name) && len > 6 {
        let base = name.substring_char(0, len - 6);
        proof {
            assert(base@ =~= base_of(name@));
        }
        base.to_owned()
    } else {
        name.to_owned()
    }
}

/// After cleanup, a kept name was reported installed or its query failed;
/// when the answers reflect the database for every tracked name, every name
/// still in the Tracking Store is installed.
pub proof fn lemma_cleanup_respects_database(
    store: Set<Seq<char>>,
    answers: Seq<DbAnswer>,
    installed: Set<Seq<char>>,
)
    requires
        forall|n: Seq<char>|
            store.contains(n) ==> answer_for(answers, n) == Option::Some(
                if installed.contains(n) {
                    Presence::Installed
                } else {
                    Presence::Absent
                },
            ),
    ensures
        forall|n: Seq<char>|
            cleanup_kept(store, answers).contains(n) ==> installed.contains(n),
{
    assert forall|n: Seq<char>|
        cleanup_kept(store, answers).contains(n) implies installed.contains(n) by {
        assert(store.contains(n));
        assert(!says_absent(answers, n));
    }
}

/// A name the answers confirm absent is dropped by cleanup, whatever the
/// other answers say: a failed query for one name never blocks the pruning
/// of another.
pub proof fn lemma_cleanup_drops_absent(
    store: Set<Seq<char>>,
    answers: Seq<DbAnswer>,
    n: Seq<char>,
)
    requires
        says_absent(answers, n),
    ensures
        !cleanup_kept(store, answers).contains(n),
{
}

} // verus!
