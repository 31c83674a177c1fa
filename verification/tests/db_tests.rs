use rauri::db::DbView;

#[test]
fn records_and_reports_presence() {
    let mut db = DbView::new();
    assert!(!db.is_installed("yay"));
    db.record_installed("yay", "12.0");
    assert!(db.is_installed("yay"));
    assert!(!db.is_installed("paru"));
    assert_eq!(db.installed_version("yay").unwrap(), "12.0");
    assert!(db.installed_version("paru").is_none());
}

#[test]
fn a_later_answer_overrides_an_earlier_one() {
    let mut db = DbView::new();
    db.record_installed("yay", "11.0");
    db.record_installed("yay", "12.0");
    assert_eq!(db.installed_version("yay").unwrap(), "12.0");
}
