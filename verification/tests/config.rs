use nvmd::config::{Config, ConfigError};
use nvmd::render::settings::{config_path, legacy_viewer_path, KeyConfig, MarkdownPreset};

#[test]
fn relative_paths_resolve_against_the_current_directory() {
    let config = Config::new("notes/today.md".to_owned(), Some("/home/me".to_owned())).expect("config");
    assert_eq!(config.markdown_path, "/home/me/notes/today.md");
    assert_eq!(config.file_name(), "today.md");
    let absolute = Config::new("/srv/a.md".to_owned(), None).expect("config");
    assert_eq!(absolute.markdown_path, "/srv/a.md");
}

#[test]
fn relative_path_without_current_directory_fails() {
    assert_eq!(
        Config::new("a.md".to_owned(), None).err(),
        Some(ConfigError::CurrentDirUnavailable)
    );
}

#[test]
fn fallback_config_has_a_placeholder_name() {
    let config = Config::fallback();
    assert_eq!(config.markdown_path, "<startup failed>");
    assert_eq!(config.file_name(), "<startup failed>");
    let root = Config::new("/".to_owned(), None).expect("config");
    assert_eq!(root.file_name(), "Markdown");
}

#[test]
fn defaults_to_dark_preset() {
    assert_eq!(MarkdownPreset::default(), MarkdownPreset::Dark);
}

#[test]
fn theme_toggle_alternates_light_and_dark() {
    assert_eq!(MarkdownPreset::Dark.toggled(), MarkdownPreset::Light);
    assert_eq!(MarkdownPreset::Light.toggled(), MarkdownPreset::Dark);
    assert_eq!(MarkdownPreset::Unknown.toggled(), MarkdownPreset::Light);
}

#[test]
fn default_keys_are_vim_like() {
    let keys = KeyConfig::default();
    assert_eq!(
        [keys.scroll_down.as_str(), keys.scroll_up.as_str(), keys.palette.as_str(), keys.quit.as_str(), keys.toc.as_str(), keys.search.as_str()],
        ["j", "k", ":", "q", "t", "/"]
    );
}

#[test]
fn settings_files_live_in_the_configuration_directory() {
    if let Some(path) = config_path() {
        assert!(path.ends_with("/config.toml"));
    }
    if let Some(path) = legacy_viewer_path() {
        assert!(path.ends_with("/viewer.toml"));
    }
}

#[test]
fn images_resolve_against_the_document_directory() {
    let config = Config::new("/docs/readme.md".to_owned(), None).unwrap();
    assert_eq!(config.resolve_image_path("img/a.png"), "/docs/img/a.png");
    assert_eq!(config.resolve_image_path("/abs/b.png"), "/abs/b.png");
}
