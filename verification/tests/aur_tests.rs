use rauri::aur::Aur;
use rauri::errors::ResolveError;

#[test]
fn recognizes_aur_urls() {
    assert!(Aur::is_aur_url("https://aur.archlinux.org/yay.git"));
    assert!(Aur::is_aur_url("aur.archlinux.org/paru-bin.git"));
    assert!(!Aur::is_aur_url("https://example.com/yay.git"));
    assert!(!Aur::is_aur_url("https://aur.archlinux.org/yay"));
    assert!(!Aur::is_aur_url(""));
}

#[test]
fn extracts_package_name() {
    assert_eq!(
        Aur::extract_package_name("https://aur.archlinux.org/yay.git").unwrap(),
        "yay"
    );
    assert_eq!(
        Aur::extract_package_name("aur.archlinux.org/paru-bin.git").unwrap(),
        "paru-bin"
    );
}

#[test]
fn extraction_keeps_the_longest_name() {
    assert_eq!(
        Aur::extract_package_name("https://aur.archlinux.org/foo.git.git").unwrap(),
        "foo.git"
    );
}

#[test]
fn extraction_stops_at_path_separator() {
    assert_eq!(
        Aur::extract_package_name("https://aur.archlinux.org/yay.git/info").unwrap(),
        "yay"
    );
}

#[test]
fn invalid_urls_are_rejected() {
    assert_eq!(
        Aur::extract_package_name("https://example.com/yay.git").unwrap_err(),
        ResolveError::InvalidAurUrl
    );
    assert_eq!(
        Aur::extract_package_name("https://aur.archlinux.org/.git").unwrap_err(),
        ResolveError::InvalidAurUrl
    );
    assert_eq!(
        Aur::extract_package_name("https://aur.archlinux.org/yay").unwrap_err(),
        ResolveError::InvalidAurUrl
    );
    assert_eq!(
        Aur::extract_package_name("").unwrap_err(),
        ResolveError::InvalidAurUrl
    );
}
