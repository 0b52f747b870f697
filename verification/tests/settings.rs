use quickclipboard::settings::{
    ensure_settings_loaded, get_data_directory, resolve_initial_settings, with_custom_storage,
    with_default_storage, AppSettings, SettingsState, DEFAULT_OPACITY_BITS,
};

#[test]
fn resolve_initial_settings_keeps_loaded_settings() {
    let expected = AppSettings::default();
    let (settings, load_error) = resolve_initial_settings(Ok(expected.clone()));

    assert_eq!(settings.language, expected.language);
    assert!(load_error.is_none());
}

#[test]
fn resolve_initial_settings_preserves_error_instead_of_silent_success() {
    let (settings, load_error) = resolve_initial_settings(Err("bad json".to_string()));
    let defaults = AppSettings::default();

    assert_eq!(settings.language, defaults.language);
    assert_eq!(settings.use_custom_storage, defaults.use_custom_storage);
    assert_eq!(settings.custom_storage_path, defaults.custom_storage_path);
    assert_eq!(load_error.as_deref(), Some("bad json"));
}

#[test]
fn ensure_settings_loaded_returns_explicit_error() {
    let result = ensure_settings_loaded(&Some("bad json".to_string()));

    assert!(result.is_err());
    let message = result.err().unwrap_or_default();
    assert!(message.contains("设置加载失败"));
    assert!(message.contains("bad json"));
}

#[test]
fn defaults_match_the_application() {
    let s = AppSettings::default();
    assert_eq!(s.language, "zh-CN");
    assert_eq!(s.history_limit, 100);
    assert_eq!(f64::from_bits(s.opacity_bits), 0.9);
    assert_eq!(s.opacity_bits, DEFAULT_OPACITY_BITS);
    assert!(s.start_hidden);
    assert!(!s.use_custom_storage);
    assert!(s.custom_storage_path.is_none());
    assert!(s.hotkeys_enabled);
}

#[test]
fn data_directory_needs_loaded_settings() {
    assert_eq!(get_data_directory(&None, Ok("D:/q".to_string())), Ok("D:/q".to_string()));
    assert_eq!(get_data_directory(&None, Err("x".to_string())), Err("x".to_string()));
    let e = get_data_directory(&Some("bad".to_string()), Ok("D:/q".to_string())).unwrap_err();
    assert_eq!(e, "设置加载失败，请修复 settings.json 后重试: bad");
}

#[test]
fn storage_location_in_settings() {
    let s = with_custom_storage(AppSettings::default(), "D:/data");
    assert!(s.use_custom_storage);
    assert_eq!(s.custom_storage_path.as_deref(), Some("D:/data"));
    let d = with_default_storage(s);
    assert!(!d.use_custom_storage);
    assert!(d.custom_storage_path.is_none());
}

#[test]
fn settings_state_read_after_update() {
    let mut state = SettingsState::from_load(Err("broken".to_string()));
    assert!(state.ensure_loaded().is_err());
    let mut next = AppSettings::default();
    next.history_limit = 500;
    let failed = state.update_settings(next.clone(), Err("disk full".to_string()));
    assert_eq!(failed, Err("disk full".to_string()));
    assert_eq!(state.get_settings().history_limit, 100);
    assert!(state.ensure_loaded().is_err());
    assert!(state.update_settings(next, Ok(())).is_ok());
    assert_eq!(state.get_settings().history_limit, 500);
    assert!(state.ensure_loaded().is_ok());
    let mut other = AppSettings::default();
    other.theme = "dark".to_string();
    state.replace_settings(other);
    assert_eq!(state.get_settings().theme, "dark");
}
