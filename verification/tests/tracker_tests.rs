use rauri::tracker::PackageTracker;

#[test]
fn add_remove_is_tracked() {
    let mut t = PackageTracker::new();
    assert!(!t.is_tracked("foo"));
    t.add("foo");
    assert!(t.is_tracked("foo"));
    t.add("bar");
    assert!(t.is_tracked("bar"));
    assert_eq!(t.len(), 2);
    t.remove("foo");
    assert!(!t.is_tracked("foo"));
    assert!(t.is_tracked("bar"));
    t.remove("foo");
    assert!(!t.is_tracked("foo"));
    assert_eq!(t.len(), 1);
}

#[test]
fn add_is_idempotent() {
    let mut t = PackageTracker::new();
    t.add("foo");
    t.add("foo");
    assert_eq!(t.len(), 1);
    t.remove("foo");
    assert!(!t.is_tracked("foo"));
    assert_eq!(t.len(), 0);
}

#[test]
fn save_sorts_names() {
    let mut t = PackageTracker::new();
    t.add("zeta");
    t.add("alpha");
    t.add("middle");
    assert_eq!(t.save(), "alpha\nmiddle\nzeta\n");
}

#[test]
fn save_empty_store() {
    let t = PackageTracker::new();
    assert_eq!(t.save(), "");
}

#[test]
fn load_save_round_trip() {
    let mut t = PackageTracker::new();
    t.add("paru");
    t.add("yay");
    t.add("foo-debug");
    let text = t.save();
    let back = PackageTracker::load(Some(text.as_str()));
    assert_eq!(back.len(), 3);
    assert!(back.is_tracked("paru"));
    assert!(back.is_tracked("yay"));
    assert!(back.is_tracked("foo-debug"));
    assert_eq!(back.save(), text);
}

#[test]
fn load_absent_record_means_empty() {
    let t = PackageTracker::load(None);
    assert_eq!(t.len(), 0);
}

#[test]
fn load_normalizes_unsorted_and_duplicates() {
    let t = PackageTracker::load(Some("b\na\n\nb\n"));
    assert_eq!(t.len(), 2);
    assert!(t.is_tracked("a"));
    assert!(t.is_tracked("b"));
    assert_eq!(t.save(), "a\nb\n");
}

#[test]
fn load_without_trailing_separator() {
    let t = PackageTracker::load(Some("a\nb"));
    assert_eq!(t.len(), 2);
    assert!(t.is_tracked("b"));
}
