use quickclipboard::hotkey::{
    is_already_registered_error, map_registration_error, normalize_shortcut,
    number_shortcut_bindings, number_shortcut_item, number_shortcuts_failure_status,
    quickpaste_action, recovery_failure_message, HotkeyActivation, HotkeyManager,
    HotkeyRequest, PasteKeyAction, QuickPasteAction,
};
use quickclipboard::settings::AppSettings;
use std::cell::RefCell;

#[test]
fn registration_errors_map_to_codes() {
    assert!(is_already_registered_error("HotKey Already Registered by another app"));
    assert_eq!(map_registration_error("hotkey already registered"), "CONFLICT");
    assert_eq!(map_registration_error("invalid key"), "REGISTRATION_FAILED");
    assert_eq!(recovery_failure_message("a", "b"), "a (自动恢复后仍失败: b)");
}

#[test]
fn shortcuts_are_normalised_for_parsing() {
    assert_eq!(normalize_shortcut("Win+Ctrl+V"), "Super+Control+V");
}

#[test]
fn number_shortcuts_cover_one_to_nine() {
    let b = number_shortcut_bindings("Ctrl");
    assert_eq!(b.len(), 9);
    assert_eq!(b[0], ("number_1".to_string(), "Ctrl+1".to_string()));
    assert_eq!(b[8], ("number_9".to_string(), "Ctrl+9".to_string()));
    let failed = vec!["Ctrl+1".to_string(), "Ctrl+2".to_string()];
    let st = number_shortcuts_failure_status(&failed, true).unwrap();
    assert_eq!(st.id, "number_shortcuts");
    assert_eq!(st.shortcut, "Ctrl+1, Ctrl+2");
    assert!(!st.success);
    assert_eq!(st.error.as_deref(), Some("CONFLICT"));
    assert!(number_shortcuts_failure_status(&vec![], false).is_none());
}

#[test]
fn number_shortcut_picks_the_item() {
    let ids = vec![11, 22, 33];
    assert_eq!(number_shortcut_item(&ids, 1), Ok(22));
    assert_eq!(number_shortcut_item(&ids, 4).unwrap_err(), "剪贴板项索引 5 超出范围（共 3 项）");
}

#[test]
fn toggle_hotkey_registration_is_recorded() {
    let mut m = HotkeyManager::new();
    let released = RefCell::new(Vec::new());
    let r = m.register_toggle_hotkey("Ctrl+Shift+V", true, |_s: &str| Ok(()), |s: &str| released.borrow_mut().push(s.to_string()));
    assert!(r.is_ok());
    let statuses = m.get_shortcut_statuses();
    assert_eq!(statuses.len(), 1);
    assert_eq!(statuses[0].id, "toggle");
    assert!(statuses[0].success);
    let r = m.register_toggle_hotkey("Alt+V", true, |_s: &str| Ok(()), |s: &str| released.borrow_mut().push(s.to_string()));
    assert!(r.is_ok());
    assert_eq!(released.borrow().clone(), vec!["Ctrl+Shift+V".to_string()]);
    assert_eq!(m.get_shortcut_statuses()[0].shortcut, "Alt+V");
}

#[test]
fn taken_shortcut_is_freed_and_retried() {
    let mut m = HotkeyManager::new();
    let attempts = RefCell::new(0);
    let r = m.register_shortcut(
        "toggle",
        "Ctrl+V",
        true,
        |_s: &str| {
            *attempts.borrow_mut() += 1;
            Err("HotKey already registered".to_string())
        },
        |_s: &str| {},
    );
    assert_eq!(*attempts.borrow(), 2);
    assert_eq!(
        r.unwrap_err(),
        "注册快捷键失败: HotKey already registered (自动恢复后仍失败: HotKey already registered)"
    );
    let st = m.get_shortcut_statuses();
    assert_eq!(st[0].error.as_deref(), Some("CONFLICT"));
    let other = m.register_shortcut("x", "Bad", true, |_s: &str| Err("parse failed".to_string()), |_s: &str| {});
    assert_eq!(other.unwrap_err(), "注册快捷键失败: parse failed");
}

#[test]
fn registration_needs_the_application() {
    let mut m = HotkeyManager::new();
    let r = m.register_toggle_hotkey("Ctrl+V", false, |_s: &str| Ok(()), |_s: &str| {});
    assert_eq!(r.unwrap_err(), "热键管理器未初始化");
    assert!(m.get_shortcut_statuses().is_empty());
    let q = m.register_quickpaste_hotkey("Ctrl+`", true, |_s: &str| Err("bad".to_string()), |_s: &str| {});
    assert_eq!(q.unwrap_err(), "注册便捷粘贴快捷键失败: bad");
}

#[test]
fn unregister_all_forgets_every_shortcut() {
    let mut m = HotkeyManager::new();
    assert!(m.register_shortcut("a", "Ctrl+A", true, |_s: &str| Ok(()), |_s: &str| {}).is_ok());
    assert!(m.register_shortcut("b", "Ctrl+B", true, |_s: &str| Ok(()), |_s: &str| {}).is_ok());
    let freed = m.unregister_all(true);
    assert_eq!(freed, vec!["Ctrl+A".to_string(), "Ctrl+B".to_string()]);
    assert!(m.get_shortcut_statuses().is_empty());
    assert!(m.unregister_all(true).is_empty());
}

#[test]
fn paste_keys_fire_once_per_press() {
    let mut m = HotkeyManager::new();
    assert!(m.try_activate_key("number_1"));
    assert!(!m.try_activate_key("number_1"));
    assert!(m.is_key_active("number_1"));
    m.deactivate_key("number_1");
    assert!(!m.is_key_active("number_1"));
    assert!(matches!(m.paste_key_event("number_2", true), PasteKeyAction::PasteItem));
    assert!(matches!(m.paste_key_event("number_2", true), PasteKeyAction::RepeatPaste));
    assert!(matches!(m.paste_key_event("number_2", false), PasteKeyAction::Ignore));
}

#[test]
fn quickpaste_reacts_to_press_and_release() {
    assert_eq!(quickpaste_action(true, false, false, false), QuickPasteAction::Show);
    assert_eq!(quickpaste_action(true, false, true, true), QuickPasteAction::Ignore);
    assert_eq!(quickpaste_action(false, false, false, true), QuickPasteAction::Hide);
    assert_eq!(quickpaste_action(false, false, true, true), QuickPasteAction::Ignore);
    assert_eq!(quickpaste_action(true, true, false, false), QuickPasteAction::Ignore);
}

#[test]
fn foreground_sync_converges() {
    let mut m = HotkeyManager::new();
    assert!(m.sync_hotkeys_for_foreground(true, true));
    assert_eq!(m.next_sync_target(), HotkeyActivation::Inactive);
    assert!(!m.sync_hotkeys_for_foreground(true, true));
    assert!(!m.finish_sync_round(HotkeyActivation::Inactive));
    assert!(m.is_foreground_globally_disabled());
}

#[test]
fn reload_asks_for_configured_shortcuts() {
    let mut m = HotkeyManager::new();
    let settings = AppSettings::default();
    let (freed, requests) = m.reload_from_settings(&settings, true);
    assert!(freed.is_empty());
    assert!(matches!(&requests[0], HotkeyRequest::Toggle(s) if s == &settings.toggle_shortcut));
    assert!(m.is_hotkeys_enabled());
}

#[test]
fn number_shortcuts_register_and_report_failures() {
    let mut m = HotkeyManager::new();
    let r = m.register_number_shortcuts(
        "Ctrl",
        true,
        |s: &str| if s == "Ctrl+3" { Err("HotKey already registered".to_string()) } else { Ok(()) },
        |_s: &str| {},
    );
    assert!(r.is_ok());
    let st = m.get_shortcut_statuses();
    assert_eq!(st.len(), 1);
    assert_eq!(st[0].id, "number_shortcuts");
    assert_eq!(st[0].shortcut, "Ctrl+3");
    assert_eq!(st[0].error.as_deref(), Some("CONFLICT"));
    let released = RefCell::new(Vec::new());
    let again = m.register_number_shortcuts("AltF", true, |_s: &str| Ok(()), |s: &str| released.borrow_mut().push(s.to_string()));
    assert!(again.is_ok());
    assert_eq!(released.borrow().len(), 8);
    assert!(m.get_shortcut_statuses().is_empty());
    let freed = m.unregister_number_shortcuts();
    assert_eq!(freed.len(), 9);
    assert_eq!(freed[0], ("number_1".to_string(), "Alt+F1".to_string()));
    assert_eq!(
        m.register_number_shortcuts("Ctrl", false, |_s: &str| Ok(()), |_s: &str| {}).unwrap_err(),
        "热键管理器未初始化"
    );
}

#[test]
fn other_shortcuts_register_under_their_ids() {
    let mut m = HotkeyManager::new();
    assert!(m.register_toggle_clipboard_monitor_hotkey("Ctrl+Shift+Z", true, |_s: &str| Ok(()), |_s: &str| {}).is_ok());
    assert!(m.register_toggle_paste_with_format_hotkey("Ctrl+Shift+X", true, |_s: &str| Ok(()), |_s: &str| {}).is_ok());
    let e = m.register_paste_plain_text_hotkey("Ctrl+Shift+V", true, |_s: &str| Err("no".to_string()), |_s: &str| {});
    assert_eq!(e.unwrap_err(), "注册纯文本粘贴快捷键失败: no");
    let mut ids: Vec<String> = m.get_shortcut_statuses().into_iter().map(|s| s.id).collect();
    ids.sort();
    assert_eq!(ids, vec!["paste_plain_text", "toggle_clipboard_monitor", "toggle_paste_with_format"]);
}

#[test]
fn enabling_reloads_only_when_off() {
    let mut m = HotkeyManager::new();
    let settings = AppSettings::default();
    assert!(m.enable_hotkeys(&settings, true).is_none());
    assert!(m.register_shortcut("a", "Ctrl+A", true, |_s: &str| Ok(()), |_s: &str| {}).is_ok());
    assert_eq!(m.disable_hotkeys(true), Some(vec!["Ctrl+A".to_string()]));
    assert!(!m.is_hotkeys_enabled());
    assert!(m.disable_hotkeys(true).is_none());
    let (freed, requests) = m.enable_hotkeys(&settings, true).unwrap();
    assert!(freed.is_empty());
    assert!(matches!(&requests[0], HotkeyRequest::Toggle(s) if s == &settings.toggle_shortcut));
    assert!(m.is_hotkeys_enabled());
}
