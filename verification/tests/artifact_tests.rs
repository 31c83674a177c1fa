use rauri::artifact::{resolve_produced_name, ArtifactProbe};
use rauri::db::PackageIdent;

fn probe(file_name: &str, identity: Option<(&str, &str)>) -> ArtifactProbe {
    ArtifactProbe {
        file_name: file_name.to_string(),
        identity: identity.map(|(n, v)| PackageIdent {
            name: n.to_string(),
            version: v.to_string(),
        }),
    }
}

#[test]
fn no_artifacts_falls_back_to_requested() {
    let probes: Vec<ArtifactProbe> = Vec::new();
    assert_eq!(resolve_produced_name(&probes, "requested"), "requested");
}

#[test]
fn single_artifact_names_the_build() {
    let probes = vec![probe("yay-12.0-x86_64.pkg.tar.zst", Some(("yay", "12.0")))];
    assert_eq!(resolve_produced_name(&probes, "yay-git"), "yay");
}

#[test]
fn debug_artifact_never_overrides_primary() {
    let probes = vec![
        probe("foo-debug-1.0-x86_64.pkg.tar.zst", Some(("foo-debug", "1.0"))),
        probe("foo-1.0-x86_64.pkg.tar.zst", Some(("foo", "1.0"))),
    ];
    assert_eq!(resolve_produced_name(&probes, "foo-git"), "foo");
}

#[test]
fn only_debug_artifacts_fall_back_to_requested() {
    let probes = vec![probe(
        "foo-debug-1.0-x86_64.pkg.tar.zst",
        Some(("foo-debug", "1.0")),
    )];
    assert_eq!(resolve_produced_name(&probes, "foo-git"), "foo-git");
}

#[test]
fn failed_identity_queries_are_skipped() {
    let probes = vec![
        probe("broken-1.0-x86_64.pkg.tar.zst", None),
        probe("bar-2.0-x86_64.pkg.tar.zst", Some(("bar", "2.0"))),
    ];
    assert_eq!(resolve_produced_name(&probes, "bar-git"), "bar");
}

#[test]
fn files_without_package_extension_are_ignored() {
    let probes = vec![
        probe("PKGBUILD", Some(("wrong", "0"))),
        probe("notes.txt", Some(("wrong", "0"))),
    ];
    assert_eq!(resolve_produced_name(&probes, "asked"), "asked");
}
