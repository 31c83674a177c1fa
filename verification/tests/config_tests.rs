use rauri::config::{default_use_color, Config};

#[test]
fn color_is_on_by_default() {
    assert!(default_use_color());
}

#[test]
fn new_config_carries_the_download_dir() {
    let c = Config::new("/home/user/Downloads/aur".to_string());
    assert_eq!(c.download_dir, "/home/user/Downloads/aur");
    assert!(c.use_color);
    assert!(c.editor.is_none());
}
