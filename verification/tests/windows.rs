use quickclipboard::focus::{
    process_name_from_path, query_process_path_and_name, should_track_window, FocusTracker,
};
use quickclipboard::main_window::{
    edge_trigger_distance, finalize_hide_normal_window, hide_main_window, hide_normal_window,
    is_mouse_near_edge, show_main_window, show_normal_plan, sleep_or_stopped,
    toggle_main_window_visibility, EdgeAction, EdgeGeometry, EdgeMonitorControl, EdgeMonitorLoop,
    HideAction, MainWindowState, Placement, ShowAction, SnapEdge, StartMonitor, ToggleAction,
    VisibilityRequests, WaitOutcome, WindowState,
};
use quickclipboard::settings::AppSettings;

fn state(visible: bool, snapped: bool, hidden: bool) -> MainWindowState {
    MainWindowState {
        state: if visible { WindowState::Visible } else { WindowState::Hidden },
        is_snapped: snapped,
        is_hidden: hidden,
        is_pinned: false,
        is_dragging: false,
        snap_edge: SnapEdge::Left,
    }
}

#[test]
fn process_names_come_from_the_executable() {
    assert_eq!(process_name_from_path("C:\\Program Files\\Code\\Code.exe"), "Code.exe");
    assert_eq!(process_name_from_path("C:\\"), "C:\\");
    assert_eq!(
        query_process_path_and_name(Some("D:/apps/x.exe".to_string())),
        Some(("D:/apps/x.exe".to_string(), "x.exe".to_string()))
    );
    assert_eq!(query_process_path_and_name(None), None);
}

#[test]
fn system_windows_are_not_remembered() {
    assert!(!should_track_window("Shell_TrayWnd", "x"));
    assert!(!should_track_window("Windows.UI.Core.CoreWindow", "x"));
    assert!(!should_track_window("Chrome_WidgetWin_1", "快速剪贴板"));
    assert!(should_track_window("Notepad", "untitled"));
}

#[test]
fn focus_tracker_remembers_other_windows() {
    let mut t = FocusTracker::new();
    assert!(t.begin_listening(vec![10, 20, 10]));
    assert!(!t.begin_listening(vec![]));
    assert!(!t.on_foreground_changed(10, "Main", "QuickClipboard"));
    assert!(!t.on_foreground_changed(0, "Notepad", "a"));
    assert!(t.on_foreground_changed(42, "Notepad", "a"));
    assert_eq!(t.get_last_focus_hwnd(), Some(42));
    t.add_excluded_hwnd(42);
    t.add_excluded_hwnd(42);
    assert!(!t.on_foreground_changed(42, "Notepad", "a"));
    t.set_listener_thread(77);
    assert_eq!(t.stop_focus_listener(), Some(77));
    assert_eq!(t.stop_focus_listener(), None);
}

#[test]
fn foreground_app_is_cached_by_window() {
    let mut t = FocusTracker::new();
    assert!(t.cached_foreground_info(5).is_none());
    let info = t
        .get_foreground_app_info(5, 100, "title".to_string(), Some(("C:/a.exe".to_string(), "a.exe".to_string())))
        .unwrap();
    assert_eq!(info.process_name, "a.exe");
    assert_eq!(t.cached_foreground_info(5).unwrap().window_title, "title");
    assert!(t.cached_foreground_info(6).is_none());
    assert!(t.get_foreground_app_info(6, 0, String::new(), None).is_none());
}

#[test]
fn only_the_latest_visibility_request_counts() {
    let mut r = VisibilityRequests::new();
    let first = r.next_visibility_request_id();
    let second = r.next_visibility_request_id();
    assert_eq!((first, second), (1, 2));
    assert!(!r.is_visibility_request_current(first));
    assert!(r.is_visibility_request_current(second));
}

#[test]
fn showing_and_hiding_the_main_window() {
    let mut r = VisibilityRequests::new();
    assert_eq!(show_main_window(&mut r, &state(false, true, true), false), (1, ShowAction::ShowSnapped));
    assert_eq!(
        show_main_window(&mut r, &state(true, true, false), false),
        (2, ShowAction::ShowNormal { restore_from_snap: true })
    );
    assert_eq!(show_main_window(&mut r, &state(false, false, false), true), (3, ShowAction::Skip));
    assert_eq!(hide_main_window(&state(true, false, false), true), HideAction::Skip);
    assert_eq!(hide_main_window(&state(true, true, false), false), HideAction::HideSnapped);
    assert_eq!(hide_main_window(&state(true, true, true), false), HideAction::Skip);
    assert_eq!(hide_main_window(&state(true, false, false), false), HideAction::HideNormal);
    assert_eq!(hide_normal_window(&mut r, true), (4, Some(200)));
    assert_eq!(hide_normal_window(&mut r, false), (5, None));
}

#[test]
fn toggling_the_main_window() {
    assert_eq!(toggle_main_window_visibility(true, false, false, &state(true, false, false)), ToggleAction::LeaveLowMemory);
    assert_eq!(toggle_main_window_visibility(false, false, false, &state(true, false, false)), ToggleAction::Skip);
    assert_eq!(toggle_main_window_visibility(false, true, false, &state(true, false, false)), ToggleAction::Hide);
    assert_eq!(toggle_main_window_visibility(false, true, false, &state(false, false, false)), ToggleAction::Show);
    assert_eq!(toggle_main_window_visibility(false, true, false, &state(true, true, true)), ToggleAction::Show);
}

#[test]
fn window_placement_follows_settings() {
    let mut s = AppSettings::default();
    s.window_position_mode = "remember".to_string();
    s.saved_window_position = Some((10, 20));
    s.remember_window_size = true;
    s.saved_window_size = Some((300, 400));
    let plan = show_normal_plan(&s, &state(false, false, false));
    assert_eq!(plan.placement, Placement::At(10, 20));
    assert_eq!(plan.size, Some((300, 400)));
    assert!(plan.animate);
    s.window_position_mode = "center".to_string();
    assert_eq!(show_normal_plan(&s, &state(true, false, false)).placement, Placement::Center);
    s.window_position_mode = "smart".to_string();
    assert_eq!(show_normal_plan(&s, &state(true, false, false)).placement, Placement::AtCursor);
}

#[test]
fn finishing_a_hide_saves_the_geometry() {
    let mut r = VisibilityRequests::new();
    let (id, _) = hide_normal_window(&mut r, false);
    let mut s = AppSettings::default();
    s.window_position_mode = "remember".to_string();
    s.remember_window_size = true;
    let done = finalize_hide_normal_window(&r, id, s.clone(), Some((5, 6)), Some((7, 8)), false).unwrap();
    let saved = done.settings.unwrap();
    assert_eq!(saved.saved_window_position, Some((5, 6)));
    assert_eq!(saved.saved_window_size, Some((7, 8)));
    assert!(done.drop_always_on_top);
    assert!(finalize_hide_normal_window(&r, id + 1, s, None, None, true).is_none());
}

#[test]
fn edge_distance_and_nearness() {
    assert_eq!(edge_trigger_distance(3, 5), 15);
    assert_eq!(edge_trigger_distance(20, 5), 25);
    let g = EdgeGeometry {
        cursor_x: 12,
        cursor_y: 500,
        win_x: -290,
        win_y: 100,
        win_width: 300,
        win_height: 600,
        monitor_x: 0,
        monitor_y: 0,
        monitor_w: 1920,
        monitor_h: 1080,
    };
    assert!(is_mouse_near_edge(&g, SnapEdge::Left, 15));
    let far = EdgeGeometry { cursor_x: 400, ..g };
    assert!(!is_mouse_near_edge(&far, SnapEdge::Left, 15));
    assert!(!is_mouse_near_edge(&far, SnapEdge::NoEdge, 15));
    let inside = EdgeGeometry { cursor_x: 0, ..g };
    assert!(is_mouse_near_edge(&inside, SnapEdge::NoEdge, 15));
}

#[test]
fn edge_monitor_rounds() {
    let mut m = EdgeMonitorLoop::new();
    let mut st = state(true, true, true);
    let step = m.step(true, &st, Some(true), false);
    assert_eq!(step.action, EdgeAction::Nothing);
    assert_eq!(step.wait_ms, 50);
    st.is_hidden = false;
    let step = m.step(true, &st, Some(true), false);
    assert_eq!(step.action, EdgeAction::Nothing);
    let step = m.step(true, &st, Some(false), false);
    assert_eq!(step.action, EdgeAction::HideSnapped);
    assert_eq!(m.step(false, &st, None, false).wait_ms, 100);
    assert!(sleep_or_stopped(WaitOutcome::Signalled));
    assert!(!sleep_or_stopped(WaitOutcome::TimedOut));
}

#[test]
fn edge_monitor_start_and_stop() {
    let mut c = EdgeMonitorControl::new();
    assert_eq!(c.start_edge_monitoring(), StartMonitor::Start { stop_previous: false });
    assert_eq!(c.start_edge_monitoring(), StartMonitor::AlreadyRunning);
    c.loop_finished();
    assert!(!c.is_active());
    assert_eq!(c.start_edge_monitoring(), StartMonitor::Start { stop_previous: true });
    assert!(c.stop_edge_monitoring());
    assert!(!c.stop_edge_monitoring());
}
