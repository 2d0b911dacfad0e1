use hyper_loader::config::{
    config_source, default_config_path, load_config, ConfigNotice, ConfigRead,
};
use hyper_loader::settings::FileConfig;

fn bytes(text: &str) -> Option<Vec<u8>> {
    Some(text.as_bytes().to_vec())
}

#[test]
fn default_path_below_the_config_directory() {
    assert_eq!(
        default_config_path(bytes("/etc/xdg"), bytes("/home/me")),
        bytes("/etc/xdg/hyper-loader/config.toml")
    );
    assert_eq!(
        default_config_path(bytes("/etc/xdg/"), None),
        bytes("/etc/xdg/hyper-loader/config.toml")
    );
}

#[test]
fn default_path_below_the_home_directory() {
    let expected = bytes("/home/me/.config/hyper-loader/config.toml");
    assert_eq!(default_config_path(None, bytes("/home/me")), expected);
    assert_eq!(default_config_path(bytes(""), bytes("/home/me")), expected);
    assert_eq!(default_config_path(None, bytes("/home/me/")), expected);
    assert_eq!(
        default_config_path(None, bytes("")),
        bytes(".config/hyper-loader/config.toml")
    );
}

#[test]
fn no_default_path_without_directories() {
    assert_eq!(default_config_path(None, None), None);
    assert_eq!(default_config_path(bytes(""), None), None);
}

#[test]
fn default_path_agrees_with_path_join() {
    for home in ["/", "/home/me", "rel", "a//", ""] {
        let path = std::path::PathBuf::from(home).join(".config/hyper-loader/config.toml");
        let text = path.to_str().unwrap();
        assert_eq!(default_config_path(None, bytes(home)), bytes(text));
    }
}

#[test]
fn explicit_path_goes_first() {
    let source = config_source(bytes("my.toml"), bytes("/x"), bytes("/h")).unwrap();
    assert_eq!(source.path, b"my.toml".to_vec());
    assert!(source.explicit);
    let source = config_source(None, bytes("/x"), bytes("/h")).unwrap();
    assert_eq!(source.path, b"/x/hyper-loader/config.toml".to_vec());
    assert!(!source.explicit);
    assert!(config_source(None, None, None).is_none());
}

#[test]
fn missing_config_matters_only_if_asked_for() {
    let (config, notice) = load_config(false, ConfigRead::Unreadable);
    assert!(config.accent.is_none() && config.fade_ms.is_none());
    assert_eq!(notice, None);
    let (config, notice) = load_config(true, ConfigRead::Unreadable);
    assert!(config.glitch.is_none() && config.overlay_alpha.is_none());
    assert_eq!(notice, Some(ConfigNotice::NotFound));
}

#[test]
fn malformed_config_is_reported() {
    for explicit in [false, true] {
        let (config, notice) = load_config(explicit, ConfigRead::Malformed);
        assert!(config.gif.is_none() && config.no_counter.is_none() && config.accent2.is_none());
        assert_eq!(notice, Some(ConfigNotice::Malformed));
    }
}

#[test]
fn parsed_config_is_kept() {
    let mut parsed = FileConfig::default();
    parsed.fade_ms = Some(42);
    let (config, notice) = load_config(true, ConfigRead::Parsed(parsed));
    assert_eq!(config.fade_ms, Some(42));
    assert_eq!(notice, None);
}
