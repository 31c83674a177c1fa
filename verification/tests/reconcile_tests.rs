use rauri::artifact::ArtifactProbe;
use rauri::db::{DbView, PackageIdent};
use rauri::errors::ResolveError;
use rauri::reconcile::{
    DbAnswer, PackageManager, Presence, SourceDirListing, UpstreamAnswer,
};
use rauri::tracker::PackageTracker;

fn answer(name: &str, presence: Presence) -> DbAnswer {
    DbAnswer { name: name.to_string(), presence }
}

fn upstream(name: &str, version: Option<&str>) -> UpstreamAnswer {
    UpstreamAnswer { name: name.to_string(), version: version.map(|v| v.to_string()) }
}

#[test]
fn cleanup_drops_names_the_database_lost() {
    let mut store = PackageTracker::new();
    store.add("gone");
    store.add("here");
    let answers = vec![
        answer("gone", Presence::Absent),
        answer("here", Presence::Installed),
    ];
    let (kept, removed) = PackageManager::cleanup_tracking(&store, &answers);
    assert!(!kept.is_tracked("gone"));
    assert!(kept.is_tracked("here"));
    assert_eq!(removed, vec!["gone".to_string()]);
}

#[test]
fn cleanup_survives_a_failed_query_for_another_name() {
    let mut store = PackageTracker::new();
    store.add("gone");
    store.add("here");
    store.add("unreachable");
    let answers = vec![
        answer("gone", Presence::Absent),
        answer("here", Presence::Installed),
        answer("unreachable", Presence::Unknown),
    ];
    let (kept, removed) = PackageManager::cleanup_tracking(&store, &answers);
    assert!(!kept.is_tracked("gone"));
    assert!(kept.is_tracked("here"));
    assert!(kept.is_tracked("unreachable"));
    assert_eq!(removed, vec!["gone".to_string()]);
}

#[test]
fn exact_match_wins_over_tracked_names() {
    let mut store = PackageTracker::new();
    store.add("foo-git");
    let mut db = DbView::new();
    db.record_installed("foo", "1.0");
    db.record_installed("foo-git", "1.0");
    let dirs: Vec<String> = Vec::new();
    let id = PackageManager::resolve_for_removal("foo", &store, &db, &dirs).unwrap();
    assert_eq!(id.requested_name, "foo");
    assert_eq!(id.installed_database_name, "foo");
    assert!(id.matched_tracked_name.is_none());
    assert_eq!(id.source_directory_name, "foo");
}

#[test]
fn fuzzy_match_resolves_a_renamed_package() {
    let mut store = PackageTracker::new();
    store.add("foo-git");
    let mut db = DbView::new();
    db.record_installed("foo-git", "1.0");
    db.record_installed("foo-git-debug", "1.0");
    let dirs = vec!["other".to_string(), "foo-git".to_string()];
    let id = PackageManager::resolve_for_removal("foo", &store, &db, &dirs).unwrap();
    assert_eq!(id.installed_database_name, "foo-git");
    assert_eq!(id.matched_tracked_name.as_deref(), Some("foo-git"));
    assert_eq!(id.source_directory_name, "foo-git");

    let companion = PackageManager::companion_to_remove(&id.installed_database_name, &db);
    assert_eq!(companion.as_deref(), Some("foo-git-debug"));

    let mut after = store;
    PackageManager::untrack_after_removal(
        &mut after,
        &id.requested_name,
        &id.installed_database_name,
    );
    assert!(!after.is_tracked("foo"));
    assert!(!after.is_tracked("foo-git"));
}

#[test]
fn fuzzy_match_requires_database_confirmation() {
    let mut store = PackageTracker::new();
    store.add("foo-git");
    let db = DbView::new();
    let dirs: Vec<String> = Vec::new();
    match PackageManager::resolve_for_removal("foo", &store, &db, &dirs) {
        Ok(_) => panic!("resolution should fail without database confirmation"),
        Err(err) => assert_eq!(err, ResolveError::PackageNotInstalled),
    }
}

#[test]
fn no_companion_is_scheduled_when_none_is_installed() {
    let mut db = DbView::new();
    db.record_installed("foo", "1.0");
    assert!(PackageManager::companion_to_remove("foo", &db).is_none());
}

#[test]
fn debug_companion_shares_the_update_cycle_of_its_base() {
    let mut store = PackageTracker::new();
    store.add("foo-debug");
    store.add("foo");
    let bases = PackageManager::base_names(&store);
    assert_eq!(bases.len(), 1);
    assert!(bases.is_tracked("foo"));

    let mut db = DbView::new();
    db.record_installed("foo", "1.0");
    let answers = vec![upstream("foo", Some("1.1"))];
    let report = PackageManager::plan_updates(&bases, &db, &answers);
    assert_eq!(report.plans.len(), 1);
    assert_eq!(report.plans[0].base_name, "foo");
    assert_eq!(report.plans[0].installed_version, "1.0");
    assert_eq!(report.plans[0].upstream_version, "1.1");
    assert!(report.plans[0].needs_update);
    assert!(report.not_installed.is_empty());
    assert!(report.metadata_missing.is_empty());
}

#[test]
fn up_to_date_packages_need_no_update() {
    let mut bases = PackageTracker::new();
    bases.add("foo");
    let mut db = DbView::new();
    db.record_installed("foo", "1.0");
    let answers = vec![upstream("foo", Some("1.0"))];
    let report = PackageManager::plan_updates(&bases, &db, &answers);
    assert_eq!(report.plans.len(), 1);
    assert!(!report.plans[0].needs_update);
}

#[test]
fn planning_skips_without_aborting() {
    let mut bases = PackageTracker::new();
    bases.add("absent");
    bases.add("nometa");
    bases.add("ok");
    let mut db = DbView::new();
    db.record_installed("nometa", "1.0");
    db.record_installed("ok", "1.0");
    let answers = vec![upstream("ok", Some("2.0")), upstream("nometa", None)];
    let report = PackageManager::plan_updates(&bases, &db, &answers);
    assert_eq!(report.plans.len(), 1);
    assert_eq!(report.plans[0].base_name, "ok");
    assert!(report.plans[0].needs_update);
    assert_eq!(report.not_installed, vec!["absent".to_string()]);
    assert_eq!(report.metadata_missing, vec!["nometa".to_string()]);
}

fn probe(file_name: &str, identity: Option<(&str, &str)>) -> ArtifactProbe {
    ArtifactProbe {
        file_name: file_name.to_string(),
        identity: identity.map(|(n, v)| PackageIdent {
            name: n.to_string(),
            version: v.to_string(),
        }),
    }
}

fn dir(name: &str, has_descriptor: bool, artifacts: Vec<ArtifactProbe>) -> SourceDirListing {
    SourceDirListing { name: name.to_string(), has_descriptor, artifacts }
}

#[test]
fn listing_keeps_only_database_confirmed_builds() {
    let mut db = DbView::new();
    db.record_installed("foo", "1.2");
    let dirs = vec![
        dir(
            "foo-git",
            true,
            vec![probe("foo-1.2-x86_64.pkg.tar.zst", Some(("foo", "1.2")))],
        ),
        dir(
            "never-installed",
            true,
            vec![probe("bar-1.0-x86_64.pkg.tar.zst", Some(("bar", "1.0")))],
        ),
        dir("no-descriptor", false, Vec::new()),
    ];
    let entries = PackageManager::resolve_for_listing(&dirs, &db);
    assert_eq!(entries.len(), 1);
    assert_eq!(entries[0].directory_name, "foo-git");
    assert_eq!(entries[0].package_name, "foo");
    assert_eq!(entries[0].installed_version, "1.2");
}

#[test]
fn listing_prefers_a_non_debug_package_name() {
    let mut db = DbView::new();
    db.record_installed("foo", "1.0");
    db.record_installed("foo-debug", "1.0");
    let dirs = vec![dir(
        "foo",
        true,
        vec![
            probe("odd-debug-name.pkg.tar.zst", Some(("foo-debug", "1.0"))),
            probe("foo-1.0-x86_64.pkg.tar.zst", Some(("foo", "1.0"))),
        ],
    )];
    let entries = PackageManager::resolve_for_listing(&dirs, &db);
    assert_eq!(entries.len(), 1);
    assert_eq!(entries[0].package_name, "foo");
}

#[test]
fn listing_reports_the_installed_version() {
    let mut db = DbView::new();
    db.record_installed("foo", "2.0");
    let dirs = vec![dir(
        "foo",
        true,
        vec![probe("foo-1.0-x86_64.pkg.tar.zst", Some(("foo", "1.0")))],
    )];
    let entries = PackageManager::resolve_for_listing(&dirs, &db);
    assert_eq!(entries[0].installed_version, "2.0");
}

#[test]
fn listing_excludes_debug_artifact_files() {
    let mut db = DbView::new();
    db.record_installed("foo-debug", "1.0");
    let dirs = vec![dir(
        "foo",
        true,
        vec![probe(
            "foo-1.0-x86_64-debug.pkg.tar.zst",
            Some(("foo-debug", "1.0")),
        )],
    )];
    let entries = PackageManager::resolve_for_listing(&dirs, &db);
    assert!(entries.is_empty());
}

#[test]
fn debug_companion_name_is_suffixed() {
    assert_eq!(PackageManager::debug_companion_name("foo"), "foo-debug");
}
