//! The application settings, their defaults, and the handling of a failed load.
use vstd::prelude::*;
use crate::text::{concat, owned};

verus! {

/// The application settings.
///
/// The window opacity is kept as the bit pattern of its `f64` value
/// (`f64::to_bits`), so that the settings hold plain integers only.
#[derive(Debug, Clone)]
pub struct AppSettings {
    pub auto_start: bool,
    pub run_as_admin: bool,
    pub start_hidden: bool,
    pub history_limit: u64,
    pub language: String,
    pub theme: String,
    pub dark_theme_style: String,
    pub opacity_bits: u64,
    pub toggle_shortcut: String,
    pub number_shortcuts: bool,
    pub number_shortcuts_modifier: String,
    pub clipboard_monitor: bool,
    pub ignore_duplicates: bool,
    pub save_images: bool,
    pub image_preview: bool,
    pub text_preview: bool,
    pub image_max_size_mb: u32,
    pub image_max_width: u32,
    pub image_max_height: u32,
    pub quickpaste_enabled: bool,
    pub quickpaste_shortcut: String,
    pub quickpaste_paste_on_modifier_release: bool,
    pub quickpaste_window_width: u32,
    pub quickpaste_window_height: u32,
    pub mouse_middle_button_enabled: bool,
    pub mouse_middle_button_modifier: String,
    pub mouse_middle_button_trigger: String,
    pub mouse_middle_button_long_press_ms: u32,
    pub clipboard_animation_enabled: bool,
    pub ui_animation_enabled: bool,
    pub auto_scroll_to_top_on_show: bool,
    pub auto_clear_search: bool,
    pub app_filter_enabled: bool,
    pub app_filter_mode: String,
    pub app_filter_list: Vec<String>,
    pub app_filter_effect: String,
    pub window_position_mode: String,
    pub remember_window_size: bool,
    pub saved_window_position: Option<(i32, i32)>,
    pub saved_window_size: Option<(u32, u32)>,
    pub edge_hide_enabled: bool,
    pub edge_snap_position: Option<(i32, i32)>,
    pub edge_hide_offset: i32,
    pub auto_focus_search: bool,
    pub title_bar_position: String,
    pub paste_with_format: bool,
    pub paste_shortcut_mode: String,
    pub paste_to_top: bool,
    pub show_badges: bool,
    pub show_source_icon: bool,
    pub hotkeys_enabled: bool,
    pub navigate_up_shortcut: String,
    pub navigate_down_shortcut: String,
    pub tab_left_shortcut: String,
    pub tab_right_shortcut: String,
    pub focus_search_shortcut: String,
    pub hide_window_shortcut: String,
    pub execute_item_shortcut: String,
    pub previous_group_shortcut: String,
    pub next_group_shortcut: String,
    pub toggle_pin_shortcut: String,
    pub toggle_clipboard_monitor_shortcut: String,
    pub toggle_paste_with_format_shortcut: String,
    pub paste_plain_text_shortcut: String,
    pub custom_storage_path: Option<String>,
    pub use_custom_storage: bool,
}

/// The contents of [`AppSettings`], strings taken by their characters.
pub struct SettingsView {
    pub auto_start: bool,
    pub run_as_admin: bool,
    pub start_hidden: bool,
    pub history_limit: u64,
    pub language: Seq<char>,
    pub theme: Seq<char>,
    pub dark_theme_style: Seq<char>,
    pub opacity_bits: u64,
    pub toggle_shortcut: Seq<char>,
    pub number_shortcuts: bool,
    pub number_shortcuts_modifier: Seq<char>,
    pub clipboard_monitor: bool,
    pub ignore_duplicates: bool,
    pub save_images: bool,
    pub image_preview: bool,
    pub text_preview: bool,
    pub image_max_size_mb: u32,
    pub image_max_width: u32,
    pub image_max_height: u32,
    pub quickpaste_enabled: bool,
    pub quickpaste_shortcut: Seq<char>,
    pub quickpaste_paste_on_modifier_release: bool,
    pub quickpaste_window_width: u32,
    pub quickpaste_window_height: u32,
    pub mouse_middle_button_enabled: bool,
    pub mouse_middle_button_modifier: Seq<char>,
    pub mouse_middle_button_trigger: Seq<char>,
    pub mouse_middle_button_long_press_ms: u32,
    pub clipboard_animation_enabled: bool,
    pub ui_animation_enabled: bool,
    pub auto_scroll_to_top_on_show: bool,
    pub auto_clear_search: bool,
    pub app_filter_enabled: bool,
    pub app_filter_mode: Seq<char>,
    pub app_filter_list: Seq<Seq<char>>,
    pub app_filter_effect: Seq<char>,
    pub window_position_mode: Seq<char>,
    pub remember_window_size: bool,
    pub saved_window_position: Option<(i32, i32)>,
    pub saved_window_size: Option<(u32, u32)>,
    pub edge_hide_enabled: bool,
    pub edge_snap_position: Option<(i32, i32)>,
    pub edge_hide_offset: i32,
    pub auto_focus_search: bool,
    pub title_bar_position: Seq<char>,
    pub paste_with_format: bool,
    pub paste_shortcut_mode: Seq<char>,
    pub paste_to_top: bool,
    pub show_badges: bool,
    pub show_source_icon: bool,
    pub hotkeys_enabled: bool,
    pub navigate_up_shortcut: Seq<char>,
    pub navigate_down_shortcut: Seq<char>,
    pub tab_left_shortcut: Seq<char>,
    pub tab_right_shortcut: Seq<char>,
    pub focus_search_shortcut: Seq<char>,
    pub hide_window_shortcut: Seq<char>,
    pub execute_item_shortcut: Seq<char>,
    pub previous_group_shortcut: Seq<char>,
    pub next_group_shortcut: Seq<char>,
    pub toggle_pin_shortcut: Seq<char>,
    pub toggle_clipboard_monitor_shortcut: Seq<char>,
    pub toggle_paste_with_format_shortcut: Seq<char>,
    pub paste_plain_text_shortcut: Seq<char>,
    pub custom_storage_path: Option<Seq<char>>,
    pub use_custom_storage: bool,
}

/// The characters of each string.
pub open spec fn string_views(s: Seq<String>) -> Seq<Seq<char>> {
    s.map_values(|x: String| x@)
}

/// The view of an optional string.
pub open spec fn optional_view(o: Option<String>) -> Option<Seq<char>> {
    match o {
        Some(s) => Some(s@),
        None => None,
    }
}

impl View for AppSettings {
    type V = SettingsView;

    open spec fn view(&self) -> SettingsView {
        SettingsView {
            auto_start: self.auto_start,
            run_as_admin: self.run_as_admin,
            start_hidden: self.start_hidden,
            history_limit: self.history_limit,
            language: self.language@,
            theme: self.theme@,
            dark_theme_style: self.dark_theme_style@,
            opacity_bits: self.opacity_bits,
            toggle_shortcut: self.toggle_shortcut@,
            number_shortcuts: self.number_shortcuts,
            number_shortcuts_modifier: self.number_shortcuts_modifier@,
            clipboard_monitor: self.clipboard_monitor,
            ignore_duplicates: self.ignore_duplicates,
            save_images: self.save_images,
            image_preview: self.image_preview,
            text_preview: self.text_preview,
            image_max_size_mb: self.image_max_size_mb,
            image_max_width: self.image_max_width,
            image_max_height: self.image_max_height,
            quickpaste_enabled: self.quickpaste_enabled,
            quickpaste_shortcut: self.quickpaste_shortcut@,
            quickpaste_paste_on_modifier_release: self.quickpaste_paste_on_modifier_release,
            quickpaste_window_width: self.quickpaste_window_width,
            quickpaste_window_height: self.quickpaste_window_height,
            mouse_middle_button_enabled: self.mouse_middle_button_enabled,
            mouse_middle_button_modifier: self.mouse_middle_button_modifier@,
            mouse_middle_button_trigger: self.mouse_middle_button_trigger@,
            mouse_middle_button_long_press_ms: self.mouse_middle_button_long_press_ms,
            clipboard_animation_enabled: self.clipboard_animation_enabled,
            ui_animation_enabled: self.ui_animation_enabled,
            auto_scroll_to_top_on_show: self.auto_scroll_to_top_on_show,
            auto_clear_search: self.auto_clear_search,
            app_filter_enabled: self.app_filter_enabled,
            app_filter_mode: self.app_filter_mode@,
            app_filter_list: string_views(self.app_filter_list@),
            app_filter_effect: self.app_filter_effect@,
            window_position_mode: self.window_position_mode@,
            remember_window_size: self.remember_window_size,
            saved_window_position: self.saved_window_position,
            saved_window_size: self.saved_window_size,
            edge_hide_enabled: self.edge_hide_enabled,
            edge_snap_position: self.edge_snap_position,
            edge_hide_offset: self.edge_hide_offset,
            auto_focus_search: self.auto_focus_search,
            title_bar_position: self.title_bar_position@,
            paste_with_format: self.paste_with_format,
            paste_shortcut_mode: self.paste_shortcut_mode@,
            paste_to_top: self.paste_to_top,
            show_badges: self.show_badges,
            show_source_icon: self.show_source_icon,
            hotkeys_enabled: self.hotkeys_enabled,
            navigate_up_shortcut: self.navigate_up_shortcut@,
            navigate_down_shortcut: self.navigate_down_shortcut@,
            tab_left_shortcut: self.tab_left_shortcut@,
            tab_right_shortcut: self.tab_right_shortcut@,
            focus_search_shortcut: self.focus_search_shortcut@,
            hide_window_shortcut: self.hide_window_shortcut@,
            execute_item_shortcut: self.execute_item_shortcut@,
            previous_group_shortcut: self.previous_group_shortcut@,
            next_group_shortcut: self.next_group_shortcut@,
            toggle_pin_shortcut: self.toggle_pin_shortcut@,
            toggle_clipboard_monitor_shortcut: self.toggle_clipboard_monitor_shortcut@,
            toggle_paste_with_format_shortcut: self.toggle_paste_with_format_shortcut@,
            paste_plain_text_shortcut: self.paste_plain_text_shortcut@,
            custom_storage_path: optional_view(self.custom_storage_path),
            use_custom_storage: self.use_custom_storage,
        }
    }
}

/// The bit pattern of the default opacity, 0.9.
pub const DEFAULT_OPACITY_BITS: u64 = 0x3FEC_CCCC_CCCC_CCCD;

/// The default settings.
pub open spec fn default_settings() -> SettingsView {
    SettingsView {
        auto_start: false,
        run_as_admin: false,
        start_hidden: true,
        history_limit: 100,
        language: "zh-CN"@,
        theme: "light"@,
        dark_theme_style: "classic"@,
        opacity_bits: DEFAULT_OPACITY_BITS,
        toggle_shortcut: "Shift+Space"@,
        number_shortcuts: true,
        number_shortcuts_modifier: "Ctrl"@,
        clipboard_monitor: true,
        ignore_duplicates: true,
        save_images: true,
        image_preview: false,
        text_preview: false,
        image_max_size_mb: 15,
        image_max_width: 4096,
        image_max_height: 4096,
        quickpaste_enabled: true,
        quickpaste_shortcut: "Ctrl+`"@,
        quickpaste_paste_on_modifier_release: false,
        quickpaste_window_width: 300,
        quickpaste_window_height: 400,
        mouse_middle_button_enabled: false,
        mouse_middle_button_modifier: "None"@,
        mouse_middle_button_trigger: "short_press"@,
        mouse_middle_button_long_press_ms: 300,
        clipboard_animation_enabled: true,
        ui_animation_enabled: true,
        auto_scroll_to_top_on_show: false,
        auto_clear_search: false,
        app_filter_enabled: false,
        app_filter_mode: "blacklist"@,
        app_filter_list: Seq::empty(),
        app_filter_effect: "clipboard_only"@,
        window_position_mode: "smart"@,
        remember_window_size: false,
        saved_window_position: None,
        saved_window_size: None,
        edge_hide_enabled: true,
        edge_snap_position: None,
        edge_hide_offset: 3,
        auto_focus_search: false,
        title_bar_position: "top"@,
        paste_with_format: true,
        paste_shortcut_mode: "ctrl_v"@,
        paste_to_top: false,
        show_badges: true,
        show_source_icon: true,
        hotkeys_enabled: true,
        navigate_up_shortcut: "ArrowUp"@,
        navigate_down_shortcut: "ArrowDown"@,
        tab_left_shortcut: "ArrowLeft"@,
        tab_right_shortcut: "ArrowRight"@,
        focus_search_shortcut: "Tab"@,
        hide_window_shortcut: "Escape"@,
        execute_item_shortcut: "Ctrl+Enter"@,
        previous_group_shortcut: "Ctrl+ArrowUp"@,
        next_group_shortcut: "Ctrl+ArrowDown"@,
        toggle_pin_shortcut: "Ctrl+P"@,
        toggle_clipboard_monitor_shortcut: "Ctrl+Shift+Z"@,
        toggle_paste_with_format_shortcut: "Ctrl+Shift+X"@,
        paste_plain_text_shortcut: Seq::empty(),
        custom_storage_path: None,
        use_custom_storage: false,
    }
}

impl Default for AppSettings {
    fn default() -> (r: AppSettings)
        ensures
            r@ == default_settings(),
    {
        let r = AppSettings {
            auto_start: false,
            run_as_admin: false,
            start_hidden: true,
            history_limit: 100,
            language: owned("zh-CN"),
            theme: owned("light"),
            dark_theme_style: owned("classic"),
            opacity_bits: DEFAULT_OPACITY_BITS,
            toggle_shortcut: owned("Shift+Space"),
            number_shortcuts: true,
            number_shortcuts_modifier: owned("Ctrl"),
            clipboard_monitor: true,
            ignore_duplicates: true,
            save_images: true,
            image_preview: false,
            text_preview: false,
            image_max_size_mb: 15,
            image_max_width: 4096,
            image_max_height: 4096,
            quickpaste_enabled: true,
            quickpaste_shortcut: owned("Ctrl+`"),
            quickpaste_paste_on_modifier_release: false,
            quickpaste_window_width: 300,
            quickpaste_window_height: 400,
            mouse_middle_button_enabled: false,
            mouse_middle_button_modifier: owned("None"),
            mouse_middle_button_trigger: owned("short_press"),
            mouse_middle_button_long_press_ms: 300,
            clipboard_animation_enabled: true,
            ui_animation_enabled: true,
            auto_scroll_to_top_on_show: false,
            auto_clear_search: false,
            app_filter_enabled: false,
            app_filter_mode: owned("blacklist"),
            app_filter_list: Vec::new(),
            app_filter_effect: owned("clipboard_only"),
            window_position_mode: owned("smart"),
            remember_window_size: false,
            saved_window_position: None,
            saved_window_size: None,
            edge_hide_enabled: true,
            edge_snap_position: None,
            edge_hide_offset: 3,
            auto_focus_search: false,
            title_bar_position: owned("top"),
            paste_with_format: true,
            paste_shortcut_mode: owned("ctrl_v"),
            paste_to_top: false,
            show_badges: true,
            show_source_icon: true,
            hotkeys_enabled: true,
            navigate_up_shortcut: owned("ArrowUp"),
            navigate_down_shortcut: owned("ArrowDown"),
            tab_left_shortcut: owned("ArrowLeft"),
            tab_right_shortcut: owned("ArrowRight"),
            focus_search_shortcut: owned("Tab"),
            hide_window_shortcut: owned("Escape"),
            execute_item_shortcut: owned("Ctrl+Enter"),
            previous_group_shortcut: owned("Ctrl+ArrowUp"),
            next_group_shortcut: owned("Ctrl+ArrowDown"),
            toggle_pin_shortcut: owned("Ctrl+P"),
            toggle_clipboard_monitor_shortcut: owned("Ctrl+Shift+Z"),
            toggle_paste_with_format_shortcut: owned("Ctrl+Shift+X"),
            paste_plain_text_shortcut: String::new(),
            custom_storage_path: None,
            use_custom_storage: false,
        };
        assert(string_views(r.app_filter_list@) =~= Seq::<Seq<char>>::empty());
        r
    }
}

/// The settings to start with and the load error, if any: the loaded settings
/// when loading succeeded, the defaults together with the error otherwise.
pub fn resolve_initial_settings(load_result: Result<AppSettings, String>) -> (r: (
    AppSettings,
    Option<String>,
))
    ensures
        match load_result {
            Ok(s) => r.0@ == s@ && r.1 is None,
            Err(e) => r.0@ == default_settings() && (r.1 matches Some(m) && m@ == e@),
        },
{
    match load_result {
        Ok(settings) => (settings, None),
        Err(error) => (AppSettings::default(), Some(error)),
    }
}

/// The message that reports unusable settings.
pub open spec fn settings_load_failure(error: Seq<char>) -> Seq<char> {
    "设置加载失败，请修复 settings.json 后重试: "@ + error
}

/// Refuses to go on when the settings could not be loaded.
pub fn ensure_settings_loaded(load_error: &Option<String>) -> (r: Result<(), String>)
    ensures
        match load_error {
            None => r is Ok,
            Some(e) => r matches Err(m) && m@ == settings_load_failure(e@),
        },
{
    match load_error {
        Some(error) => Err(concat("设置加载失败，请修复 settings.json 后重试: ", error.as_str())),
        None => Ok(()),
    }
}

/// The data directory, when the settings were loaded: `storage_dir` is where the
/// settings place the data.
pub fn get_data_directory(load_error: &Option<String>, storage_dir: Result<String, String>) -> (r:
    Result<String, String>)
    ensures
        match load_error {
            Some(e) => r matches Err(m) && m@ == settings_load_failure(e@),
            None => match storage_dir {
                Ok(d) => r matches Ok(x) && x@ == d@,
                Err(e) => r matches Err(x) && x@ == e@,
            },
        },
{
    match ensure_settings_loaded(load_error) {
        Err(e) => Err(e),
        Ok(()) => storage_dir,
    }
}

/// The settings with the data kept in a custom directory.
pub fn with_custom_storage(settings: AppSettings, dir: &str) -> (r: AppSettings)
    ensures
        r@ == (SettingsView {
            use_custom_storage: true,
            custom_storage_path: Some(dir@),
            ..settings@
        }),
{
    let mut s = settings;
    s.use_custom_storage = true;
    s.custom_storage_path = Some(owned(dir));
    s
}

/// The settings with the data kept in the default directory.
pub fn with_default_storage(settings: AppSettings) -> (r: AppSettings)
    ensures
        r@ == (SettingsView { use_custom_storage: false, custom_storage_path: None, ..settings@ }),
{
    let mut s = settings;
    s.use_custom_storage = false;
    s.custom_storage_path = None;
    s
}

/// The settings in force and the error that made loading them fail, if any.
pub struct SettingsState {
    settings: AppSettings,
    load_error: Option<String>,
}

impl SettingsState {
    /// The settings in force.
    pub closed spec fn current(&self) -> SettingsView {
        self.settings@
    }

    /// The error that made loading the settings fail, if it still stands.
    pub closed spec fn load_failure(&self) -> Option<Seq<char>> {
        optional_view(self.load_error)
    }

    /// The state after loading the settings (see [`resolve_initial_settings`]).
    pub fn from_load(load_result: Result<AppSettings, String>) -> (r: SettingsState)
        ensures
            match load_result {
                Ok(s) => r.current() == s@ && r.load_failure() is None,
                Err(e) => r.current() == default_settings() && r.load_failure() == Some(e@),
            },
    {
        let (settings, load_error) = resolve_initial_settings(load_result);
        SettingsState { settings, load_error }
    }

    /// The settings in force.
    pub fn get_settings(&self) -> (r: &AppSettings)
        ensures
            r@ == self.current(),
    {
        &self.settings
    }

    /// Puts settings in force without saving them; a load failure no longer stands.
    pub fn replace_settings(&mut self, settings: AppSettings)
        ensures
            final(self).current() == settings@,
            final(self).load_failure() is None,
    {
        self.settings = settings;
        self.load_error = None;
    }

    /// Puts settings in force once saving them succeeded (`saved` is how saving
    /// went); when it failed, nothing changes and the error comes back.
    pub fn update_settings(&mut self, settings: AppSettings, saved: Result<(), String>) -> (r: Result<
        (),
        String,
    >)
        ensures
            match saved {
                Ok(()) => r is Ok && final(self).current() == settings@
                    && final(self).load_failure() is None,
                Err(e) => (r matches Err(m) && m@ == e@) && final(self).current()
                    == old(self).current() && final(self).load_failure() == old(self).load_failure(),
            },
    {
        match saved {
            Ok(()) => {
                self.settings = settings;
                self.load_error = None;
                Ok(())
            },
            Err(e) => Err(e),
        }
    }

    /// Refuses to go on while a load failure stands (see [`ensure_settings_loaded`]).
    pub fn ensure_loaded(&self) -> (r: Result<(), String>)
        ensures
            match self.load_failure() {
                None => r is Ok,
                Some(e) => r matches Err(m) && m@ == settings_load_failure(e),
            },
    {
        ensure_settings_loaded(&self.load_error)
    }
}

} // verus!
