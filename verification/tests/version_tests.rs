use rauri::version::Version;

#[test]
fn same_version_is_not_outdated() {
    assert!(!Version::is_outdated("1.2.3-1", "1.2.3-1"));
    assert!(!Version::is_outdated("", ""));
    assert!(!Version::is_outdated("not-a-semver", "not-a-semver"));
}

#[test]
fn any_difference_is_outdated() {
    assert!(Version::is_outdated("1.0", "1.1"));
    assert!(Version::is_outdated("1.0-1", "1.0-2"));
}

#[test]
fn a_downgrade_counts_as_outdated() {
    assert!(Version::is_outdated("2.0", "1.0"));
}
