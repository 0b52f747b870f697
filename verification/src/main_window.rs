//! The main window: when it shows and hides, where it appears, and when a
//! window snapped to a screen edge slides out or back.
use vstd::prelude::*;
use crate::settings::{AppSettings, SettingsView};
use crate::text::str_eq;

verus! {

/// Whether the main window is shown.
#[derive(Clone, Copy, Debug, PartialEq, Eq, Structural)]
pub enum WindowState {
    Visible,
    Hidden,
}

/// The screen edge that the window is snapped to.
#[derive(Clone, Copy, Debug, PartialEq, Eq, Structural)]
pub enum SnapEdge {
    Left,
    Right,
    Top,
    Bottom,
    NoEdge,
}

/// The state of the main window.
#[derive(Clone, Copy, Debug, PartialEq, Eq, Structural)]
pub struct MainWindowState {
    pub state: WindowState,
    pub is_snapped: bool,
    pub is_hidden: bool,
    pub is_pinned: bool,
    pub is_dragging: bool,
    pub snap_edge: SnapEdge,
}

// ---------------------------------------------------------------------------
// Show and hide requests.

/// The number of the latest request to show or hide the window; a delayed
/// part of an older request is dropped.
pub struct VisibilityRequests {
    current: u64,
}

impl VisibilityRequests {
    /// The number of the latest request.
    pub closed spec fn current(&self) -> u64 {
        self.current
    }

    /// No request yet.
    pub fn new() -> (r: VisibilityRequests)
        ensures
            r.current() == 0,
    {
        VisibilityRequests { current: 0 }
    }

    /// Numbers a new request: one more than the latest, which it becomes.
    pub fn next_visibility_request_id(&mut self) -> (r: u64)
        requires
            old(self).current() < u64::MAX,
        ensures
            r == old(self).current() + 1,
            final(self).current() == r,
    {
        self.current = self.current + 1;
        self.current
    }

    /// Whether a request is still the latest one.
    pub fn is_visibility_request_current(&self, request_id: u64) -> (r: bool)
        ensures
            r == (self.current() == request_id),
    {
        self.current == request_id
    }
}

/// Whether the main window is on screen: visible and not slid into an edge.
pub fn main_window_shown(state: &MainWindowState) -> (r: bool)
    ensures
        r == (state.state == WindowState::Visible && !state.is_hidden),
{
    match state.state {
        WindowState::Visible => !state.is_hidden,
        WindowState::Hidden => false,
    }
}

/// What showing the main window does.
#[derive(Clone, Copy, Debug, PartialEq, Eq, Structural)]
pub enum ShowAction {
    /// Nothing: the foreground application disables the window.
    Skip,
    /// Slide the snapped window out of its edge.
    ShowSnapped,
    /// Show the window in place (after leaving the edge when `restore_from_snap`),
    /// below other windows for a moment, then on top again if the request is
    /// still the latest.
    ShowNormal { restore_from_snap: bool },
}

/// The action for showing the window.
pub open spec fn show_action(state: MainWindowState, front_app_disabled: bool) -> ShowAction {
    if front_app_disabled {
        ShowAction::Skip
    } else if state.is_snapped && state.is_hidden {
        ShowAction::ShowSnapped
    } else {
        ShowAction::ShowNormal { restore_from_snap: state.is_snapped && !state.is_hidden }
    }
}

/// Shows the main window: a new request is numbered first, then the action is chosen.
pub fn show_main_window(
    requests: &mut VisibilityRequests,
    state: &MainWindowState,
    front_app_disabled: bool,
) -> (r: (u64, ShowAction))
    requires
        old(requests).current() < u64::MAX,
    ensures
        r.0 == old(requests).current() + 1,
        final(requests).current() == r.0,
        r.1 == show_action(*state, front_app_disabled),
{
    let request_id = requests.next_visibility_request_id();
    if front_app_disabled {
        return (request_id, ShowAction::Skip);
    }
    if state.is_snapped && state.is_hidden {
        return (request_id, ShowAction::ShowSnapped);
    }
    (request_id, ShowAction::ShowNormal { restore_from_snap: state.is_snapped && !state.is_hidden })
}

/// What hiding the main window does.
#[derive(Clone, Copy, Debug, PartialEq, Eq, Structural)]
pub enum HideAction {
    /// Nothing: a context menu is open, or the snapped window is already hidden.
    Skip,
    /// Slide the snapped window into its edge.
    HideSnapped,
    /// Hide the window (see [`hide_normal_window`]).
    HideNormal,
}

/// The action for hiding the window.
pub open spec fn hide_action(state: MainWindowState, context_menu_visible: bool) -> HideAction {
    if context_menu_visible {
        HideAction::Skip
    } else if state.is_snapped {
        if state.is_hidden {
            HideAction::Skip
        } else {
            HideAction::HideSnapped
        }
    } else {
        HideAction::HideNormal
    }
}

/// Chooses how to hide the main window.
pub fn hide_main_window(state: &MainWindowState, context_menu_visible: bool) -> (r: HideAction)
    ensures
        r == hide_action(*state, context_menu_visible),
{
    if context_menu_visible {
        return HideAction::Skip;
    }
    if state.is_snapped {
        if !state.is_hidden {
            return HideAction::HideSnapped;
        }
        return HideAction::Skip;
    }
    HideAction::HideNormal
}

/// What the toggle shortcut does.
#[derive(Clone, Copy, Debug, PartialEq, Eq, Structural)]
pub enum ToggleAction {
    /// Leave the low-memory mode, then show the window if there is one.
    LeaveLowMemory,
    /// Nothing: there is no window, or the foreground application disables it.
    Skip,
    Show,
    Hide,
}

/// Whether the toggle shows the window: it is snapped and hidden, or not visible.
pub open spec fn toggle_shows(state: MainWindowState) -> bool {
    state.is_snapped && state.is_hidden || state.state != WindowState::Visible
}

/// Chooses what the toggle shortcut does.
pub fn toggle_main_window_visibility(
    low_memory_mode: bool,
    has_window: bool,
    front_app_disabled: bool,
    state: &MainWindowState,
) -> (r: ToggleAction)
    ensures
        r == (if low_memory_mode {
            ToggleAction::LeaveLowMemory
        } else if !has_window || front_app_disabled {
            ToggleAction::Skip
        } else if toggle_shows(*state) {
            ToggleAction::Show
        } else {
            ToggleAction::Hide
        }),
{
    if low_memory_mode {
        return ToggleAction::LeaveLowMemory;
    }
    if !has_window || front_app_disabled {
        return ToggleAction::Skip;
    }
    let visible = match state.state {
        WindowState::Visible => true,
        WindowState::Hidden => false,
    };
    if state.is_snapped && state.is_hidden || !visible {
        ToggleAction::Show
    } else {
        ToggleAction::Hide
    }
}

/// Where the window appears.
#[derive(Clone, Copy, Debug, PartialEq, Eq, Structural)]
pub enum Placement {
    At(i32, i32),
    AtCursor,
    Center,
}

/// How the window is shown in place.
#[derive(Clone, Copy, Debug)]
pub struct ShowNormalPlan {
    pub placement: Placement,
    /// The size to restore, if any.
    pub size: Option<(u32, u32)>,
    /// Whether the show animation runs (the window was not visible).
    pub animate: bool,
}

/// Where the window appears: at the saved position in `remember` mode (at the
/// cursor when none is saved), centred in `center` mode, at the cursor otherwise.
pub open spec fn placement_for(s: SettingsView) -> Placement {
    if s.window_position_mode == "remember"@ {
        match s.saved_window_position {
            Some((x, y)) => Placement::At(x, y),
            None => Placement::AtCursor,
        }
    } else if s.window_position_mode == "center"@ {
        Placement::Center
    } else {
        Placement::AtCursor
    }
}

/// Plans showing the window in place.
pub fn show_normal_plan(settings: &AppSettings, state: &MainWindowState) -> (r: ShowNormalPlan)
    ensures
        r.placement == placement_for(settings@),
        r.size == (if settings@.remember_window_size {
            settings@.saved_window_size
        } else {
            None
        }),
        r.animate == (state.state != WindowState::Visible),
{
    let placement = if str_eq(settings.window_position_mode.as_str(), "remember") {
        match settings.saved_window_position {
            Some((x, y)) => Placement::At(x, y),
            None => Placement::AtCursor,
        }
    } else if str_eq(settings.window_position_mode.as_str(), "center") {
        Placement::Center
    } else {
        Placement::AtCursor
    };
    let size = if settings.remember_window_size {
        settings.saved_window_size
    } else {
        None
    };
    let animate = match state.state {
        WindowState::Visible => false,
        WindowState::Hidden => true,
    };
    ShowNormalPlan { placement, size, animate }
}

/// Starts hiding the window in place: a new request is numbered; with the
/// animation on, the rest waits 200 ms.
pub fn hide_normal_window(requests: &mut VisibilityRequests, animation_enabled: bool) -> (r: (
    u64,
    Option<u64>,
))
    requires
        old(requests).current() < u64::MAX,
    ensures
        r.0 == old(requests).current() + 1,
        final(requests).current() == r.0,
        r.1 == (if animation_enabled {
            Some(200u64)
        } else {
            None
        }),
{
    let request_id = requests.next_visibility_request_id();
    if animation_enabled {
        (request_id, Some(200))
    } else {
        (request_id, None)
    }
}

/// The settings with the window's position (and, when sizes are remembered, its
/// size) saved, in `remember` mode; unchanged otherwise.
pub open spec fn remembered_geometry(
    s: SettingsView,
    position: Option<(i32, i32)>,
    size: Option<(u32, u32)>,
) -> Option<SettingsView> {
    match position {
        Some(p) if s.window_position_mode == "remember"@ => Some(
            SettingsView {
                saved_window_position: Some(p),
                saved_window_size: if s.remember_window_size && size is Some {
                    size
                } else {
                    s.saved_window_size
                },
                ..s
            },
        ),
        _ => None,
    }
}

/// What finishing a hide does.
pub struct FinalizeHide {
    /// The settings to save, when the window's geometry is remembered.
    pub settings: Option<AppSettings>,
    /// Whether the window leaves the top of the stack (it is not pinned).
    pub drop_always_on_top: bool,
}

/// Finishes hiding the window, unless a newer request came meanwhile: saves
/// its geometry in `remember` mode and lets it leave the top unless pinned.
pub fn finalize_hide_normal_window(
    requests: &VisibilityRequests,
    request_id: u64,
    settings: AppSettings,
    position: Option<(i32, i32)>,
    size: Option<(u32, u32)>,
    pinned: bool,
) -> (r: Option<FinalizeHide>)
    ensures
        requests.current() != request_id ==> r is None,
        requests.current() == request_id ==> (r matches Some(f) && f.drop_always_on_top == !pinned
            && match remembered_geometry(settings@, position, size) {
            Some(v) => f.settings matches Some(s) && s@ == v,
            None => f.settings is None,
        }),
{
    if !requests.is_visibility_request_current(request_id) {
        return None;
    }
    let remember = str_eq(settings.window_position_mode.as_str(), "remember");
    let saved = match position {
        Some(p) => {
            if remember {
                let keep_size = settings.remember_window_size;
                let s = with_saved_position(settings, p);
                match size {
                    Some(z) => {
                        if keep_size {
                            Some(with_saved_size(s, z))
                        } else {
                            Some(s)
                        }
                    },
                    None => Some(s),
                }
            } else {
                None
            }
        },
        None => None,
    };
    Some(FinalizeHide { settings: saved, drop_always_on_top: !pinned })
}

fn with_saved_position(settings: AppSettings, p: (i32, i32)) -> (r: AppSettings)
    ensures
        r@ == (SettingsView { saved_window_position: Some(p), ..settings@ }),
{
    let mut s = settings;
    s.saved_window_position = Some(p);
    s
}

fn with_saved_size(settings: AppSettings, z: (u32, u32)) -> (r: AppSettings)
    ensures
        r@ == (SettingsView { saved_window_size: Some(z), ..settings@ }),
{
    let mut s = settings;
    s.saved_window_size = Some(z);
    s
}

// ---------------------------------------------------------------------------
// Sliding out of and back into a screen edge.

/// The distance from the edge within which the cursor brings the window out:
/// the configured offset (at least 10) plus the window's content inset.
pub open spec fn trigger_distance(edge_hide_offset: i32, content_inset: i32) -> int {
    (if edge_hide_offset >= 10 {
        edge_hide_offset as int
    } else {
        10
    }) + content_inset
}

/// The distance from the edge within which the cursor brings the window out.
pub fn edge_trigger_distance(edge_hide_offset: i32, content_inset: i32) -> (r: i32)
    requires
        i32::MIN <= trigger_distance(edge_hide_offset, content_inset) <= i32::MAX,
    ensures
        r == trigger_distance(edge_hide_offset, content_inset),
{
    let base: i32 = if edge_hide_offset >= 10 {
        edge_hide_offset
    } else {
        10
    };
    base + content_inset
}

/// Where the cursor, the window and its monitor are, in screen pixels.
#[derive(Clone, Copy, Debug)]
pub struct EdgeGeometry {
    pub cursor_x: i32,
    pub cursor_y: i32,
    pub win_x: i32,
    pub win_y: i32,
    pub win_width: u32,
    pub win_height: u32,
    pub monitor_x: i32,
    pub monitor_y: i32,
    pub monitor_w: i32,
    pub monitor_h: i32,
}

/// Whether the sums that the edge test forms fit in `i32`.
pub open spec fn geometry_fits(g: EdgeGeometry, trigger: i32) -> bool {
    &&& g.win_width <= i32::MAX && g.win_height <= i32::MAX
    &&& g.win_x + g.win_width <= i32::MAX && g.win_y + g.win_height <= i32::MAX
    &&& i32::MIN <= g.monitor_x + g.monitor_w <= i32::MAX
    &&& i32::MIN <= g.monitor_y + g.monitor_h <= i32::MAX
    &&& i32::MIN <= g.monitor_x + trigger <= i32::MAX
    &&& i32::MIN <= g.monitor_y + trigger <= i32::MAX
    &&& i32::MIN <= g.monitor_x + g.monitor_w - trigger <= i32::MAX
    &&& i32::MIN <= g.monitor_y + g.monitor_h - trigger <= i32::MAX
}

/// Whether the cursor is over the window, or within `trigger` of the edge the
/// window is snapped to and alongside the window.
pub open spec fn near_edge(g: EdgeGeometry, edge: SnapEdge, trigger: i32) -> bool {
    let in_window = g.cursor_x >= g.win_x && g.cursor_x <= g.win_x + g.win_width && g.cursor_y
        >= g.win_y && g.cursor_y <= g.win_y + g.win_height;
    let along_y = g.cursor_y >= g.win_y && g.cursor_y <= g.win_y + g.win_height;
    let along_x = g.cursor_x >= g.win_x && g.cursor_x <= g.win_x + g.win_width;
    let near = match edge {
        SnapEdge::Left => g.cursor_x <= g.monitor_x + trigger && along_y,
        SnapEdge::Right => g.cursor_x >= g.monitor_x + g.monitor_w - trigger && along_y,
        SnapEdge::Top => g.cursor_y <= g.monitor_y + trigger && along_x,
        SnapEdge::Bottom => g.cursor_y >= g.monitor_y + g.monitor_h - trigger && along_x,
        SnapEdge::NoEdge => false,
    };
    near || in_window
}

/// Whether the cursor is near the edge the window is snapped to (see [`near_edge`]).
pub fn is_mouse_near_edge(g: &EdgeGeometry, edge: SnapEdge, trigger: i32) -> (r: bool)
    requires
        geometry_fits(*g, trigger),
    ensures
        r == near_edge(*g, edge, trigger),
{
    let right_of_window = g.win_x + g.win_width as i32;
    let bottom_of_window = g.win_y + g.win_height as i32;
    let monitor_right = g.monitor_x + g.monitor_w;
    let monitor_bottom = g.monitor_y + g.monitor_h;
    let mouse_in_window = g.cursor_x >= g.win_x && g.cursor_x <= right_of_window && g.cursor_y
        >= g.win_y && g.cursor_y <= bottom_of_window;
    let along_y = g.cursor_y >= g.win_y && g.cursor_y <= bottom_of_window;
    let along_x = g.cursor_x >= g.win_x && g.cursor_x <= right_of_window;
    let is_near = match edge {
        SnapEdge::Left => g.cursor_x <= g.monitor_x + trigger && along_y,
        SnapEdge::Right => g.cursor_x >= monitor_right - trigger && along_y,
        SnapEdge::Top => g.cursor_y <= g.monitor_y + trigger && along_x,
        SnapEdge::Bottom => g.cursor_y >= monitor_bottom - trigger && along_x,
        SnapEdge::NoEdge => false,
    };
    is_near || mouse_in_window
}

/// What one round of the edge monitor does to the window.
#[derive(Clone, Copy, Debug, PartialEq, Eq, Structural)]
pub enum EdgeAction {
    Nothing,
    /// Slide the window out of its edge.
    ShowSnapped,
    /// Slide the window into its edge.
    HideSnapped,
}

/// One round of the edge monitor: what it does, and how long it then waits.
#[derive(Clone, Copy, Debug, PartialEq, Eq, Structural)]
pub struct EdgeStep {
    pub action: EdgeAction,
    pub wait_ms: u64,
}

/// What the edge monitor remembers between rounds.
#[derive(Clone, Copy, Debug, PartialEq, Eq, Structural)]
pub struct EdgeMonitorLoop {
    pub last_near: bool,
    pub last_hidden: bool,
}

/// One round of the edge monitor, as a function of what it remembers and what
/// it sees: the step and what it remembers next.
pub open spec fn edge_round(
    m: EdgeMonitorLoop,
    window_present: bool,
    state: MainWindowState,
    near: Option<bool>,
    front_app_disabled: bool,
) -> (EdgeStep, EdgeMonitorLoop) {
    let wait = |ms: u64| EdgeStep { action: EdgeAction::Nothing, wait_ms: ms };
    if !window_present {
        (wait(100), m)
    } else if !state.is_snapped || state.is_dragging {
        (wait(100), m)
    } else if m.last_hidden != state.is_hidden {
        (
            wait(50),
            EdgeMonitorLoop {
                last_near: match near {
                    Some(n) => n,
                    None => m.last_near,
                },
                last_hidden: state.is_hidden,
            },
        )
    } else {
        match near {
            None => (wait(100), m),
            Some(n) => if n == m.last_near {
                (wait(50), m)
            } else {
                let action = if n && state.is_hidden {
                    if front_app_disabled {
                        EdgeAction::Nothing
                    } else {
                        EdgeAction::ShowSnapped
                    }
                } else if !n && !state.is_hidden && !state.is_pinned {
                    EdgeAction::HideSnapped
                } else {
                    EdgeAction::Nothing
                };
                (EdgeStep { action, wait_ms: 50 }, EdgeMonitorLoop { last_near: n, ..m })
            },
        }
    }
}

impl EdgeMonitorLoop {
    /// The state before the first round: not near, not hidden.
    pub fn new() -> (r: EdgeMonitorLoop)
        ensures
            r == (EdgeMonitorLoop { last_near: false, last_hidden: false }),
    {
        EdgeMonitorLoop { last_near: false, last_hidden: false }
    }

    /// One round of the edge monitor (see [`edge_round`]). `near` is whether the
    /// cursor is near the edge, none when that could not be found out.
    pub fn step(
        &mut self,
        window_present: bool,
        state: &MainWindowState,
        near: Option<bool>,
        front_app_disabled: bool,
    ) -> (r: EdgeStep)
        ensures
            (r, *final(self)) == edge_round(
                *old(self),
                window_present,
                *state,
                near,
                front_app_disabled,
            ),
    {
        let idle = EdgeStep { action: EdgeAction::Nothing, wait_ms: 100 };
        if !window_present {
            return idle;
        }
        if !state.is_snapped || state.is_dragging {
            return idle;
        }
        if self.last_hidden != state.is_hidden {
            self.last_hidden = state.is_hidden;
            match near {
                Some(n) => {
                    self.last_near = n;
                },
                None => {},
            }
            return EdgeStep { action: EdgeAction::Nothing, wait_ms: 50 };
        }
        let is_near = match near {
            Some(n) => n,
            None => {
                return idle;
            },
        };
        if is_near == self.last_near {
            return EdgeStep { action: EdgeAction::Nothing, wait_ms: 50 };
        }
        let action = if is_near && state.is_hidden {
            if front_app_disabled {
                EdgeAction::Nothing
            } else {
                EdgeAction::ShowSnapped
            }
        } else if !is_near && !state.is_hidden && !state.is_pinned {
            EdgeAction::HideSnapped
        } else {
            EdgeAction::Nothing
        };
        self.last_near = is_near;
        EdgeStep { action, wait_ms: 50 }
    }
}

/// How a wait of the edge monitor ended.
#[derive(Clone, Copy, Debug, PartialEq, Eq, Structural)]
pub enum WaitOutcome {
    /// The stop signal came.
    Signalled,
    /// The stop channel is gone.
    Disconnected,
    /// The time ran out.
    TimedOut,
}

/// Whether the monitor must stop after a wait: unless the time simply ran out.
pub fn sleep_or_stopped(outcome: WaitOutcome) -> (r: bool)
    ensures
        r == (outcome != WaitOutcome::TimedOut),
{
    match outcome {
        WaitOutcome::Signalled | WaitOutcome::Disconnected => true,
        WaitOutcome::TimedOut => false,
    }
}

/// Whether the edge monitor is meant to run and whether its thread exists.
pub struct EdgeMonitorControl {
    active: bool,
    has_runtime: bool,
}

/// What starting the edge monitor does.
#[derive(Clone, Copy, Debug, PartialEq, Eq, Structural)]
pub enum StartMonitor {
    /// Nothing: it already runs.
    AlreadyRunning,
    /// Start a thread, after stopping the old one when `stop_previous`.
    Start { stop_previous: bool },
}

impl EdgeMonitorControl {
    /// Whether the monitor is meant to run.
    pub closed spec fn active(&self) -> bool {
        self.active
    }

    /// Whether a monitor thread exists.
    pub closed spec fn has_runtime(&self) -> bool {
        self.has_runtime
    }

    /// No monitor.
    pub fn new() -> (r: EdgeMonitorControl)
        ensures
            !r.active(),
            !r.has_runtime(),
    {
        EdgeMonitorControl { active: false, has_runtime: false }
    }

    /// Starts the monitor unless it already runs.
    pub fn start_edge_monitoring(&mut self) -> (r: StartMonitor)
        ensures
            old(self).active() && old(self).has_runtime() ==> r == StartMonitor::AlreadyRunning
                && final(self).active() && final(self).has_runtime(),
            !(old(self).active() && old(self).has_runtime()) ==> r == (StartMonitor::Start {
                stop_previous: old(self).has_runtime(),
            }) && final(self).active() && final(self).has_runtime(),
    {
        if self.active && self.has_runtime {
            return StartMonitor::AlreadyRunning;
        }
        let stop_previous = self.has_runtime;
        self.active = true;
        self.has_runtime = true;
        StartMonitor::Start { stop_previous }
    }

    /// Stops the monitor; returns whether a thread must be stopped.
    pub fn stop_edge_monitoring(&mut self) -> (r: bool)
        ensures
            r == old(self).has_runtime(),
            !final(self).active(),
            !final(self).has_runtime(),
    {
        self.active = false;
        let had = self.has_runtime;
        self.has_runtime = false;
        had
    }

    /// The monitor's loop ended by itself.
    pub fn loop_finished(&mut self)
        ensures
            !final(self).active(),
            final(self).has_runtime() == old(self).has_runtime(),
    {
        self.active = false;
    }

    /// Whether the monitor is meant to run.
    pub fn is_active(&self) -> (r: bool)
        ensures
            r == self.active(),
    {
        self.active
    }
}

// ---------------------------------------------------------------------------
// Laws.

/// Only the latest show or hide request counts: once a newer request has been
/// numbered, an older one is no longer current, so its delayed part is dropped.
pub proof fn newer_request_supersedes(current: u64, older: u64)
    requires
        older <= current,
        current < u64::MAX,
    ensures
        current + 1 != older,
{
}

/// The cursor over the window always counts as near the edge, whatever the edge.
pub proof fn cursor_over_window_is_near(g: EdgeGeometry, edge: SnapEdge, trigger: i32)
    requires
        g.win_x <= g.cursor_x <= g.win_x + g.win_width,
        g.win_y <= g.cursor_y <= g.win_y + g.win_height,
    ensures
        near_edge(g, edge, trigger),
{
}

/// The edge monitor acts only when the cursor's nearness changed, and never
/// while the window is not snapped or is being dragged.
pub proof fn edge_monitor_acts_on_change_only(
    m: EdgeMonitorLoop,
    window_present: bool,
    state: MainWindowState,
    near: Option<bool>,
    front_app_disabled: bool,
)
    ensures
        ({
            let (step, _) = edge_round(m, window_present, state, near, front_app_disabled);
            step.action != EdgeAction::Nothing ==> window_present && state.is_snapped
                && !state.is_dragging && m.last_hidden == state.is_hidden && near == Some(
                !m.last_near,
            )
        }),
{
}

} // verus!
