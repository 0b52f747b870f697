//! Tracking of the window that had the focus before ours, and of the
//! application in the foreground.
use vstd::prelude::*;
use crate::paths::{file_name, file_name_of};
use crate::text::{chars_of, has_prefix, owned, starts_with, str_eq, string_from};

verus! {

/// The application that owns the foreground window.
#[derive(Debug, Clone)]
pub struct ForegroundAppInfo {
    pub process_name: String,
    pub process_path: String,
    pub window_title: String,
}

/// The contents of a [`ForegroundAppInfo`].
pub struct ForegroundView {
    pub process_name: Seq<char>,
    pub process_path: Seq<char>,
    pub window_title: Seq<char>,
}

impl View for ForegroundAppInfo {
    type V = ForegroundView;

    open spec fn view(&self) -> ForegroundView {
        ForegroundView {
            process_name: self.process_name@,
            process_path: self.process_path@,
            window_title: self.window_title@,
        }
    }
}

impl ForegroundAppInfo {
    /// A copy with the same contents.
    pub fn duplicate(&self) -> (r: ForegroundAppInfo)
        ensures
            r@ == self@,
    {
        ForegroundAppInfo {
            process_name: self.process_name.clone(),
            process_path: self.process_path.clone(),
            window_title: self.window_title.clone(),
        }
    }
}

/// The name of a process: the file name of its executable, or the whole path
/// when that has no file name.
pub open spec fn process_name_of(path: Seq<char>) -> Seq<char> {
    match file_name(path) {
        Some(n) => n,
        None => path,
    }
}

/// The name of a process from the path of its executable (see [`process_name_of`]).
pub fn process_name_from_path(path: &str) -> (r: String)
    ensures
        r@ == process_name_of(path@),
{
    match file_name_of(&chars_of(path)) {
        Some(n) => string_from(&n),
        None => owned(path),
    }
}

/// The path and the name of a process, given the path of its executable as the
/// system reported it (none when it could not be had).
pub fn query_process_path_and_name(process_path: Option<String>) -> (r: Option<(String, String)>)
    ensures
        match process_path {
            None => r is None,
            Some(p) => r matches Some((a, b)) && a@ == p@ && b@ == process_name_of(p@),
        },
{
    let path = process_path?;
    let name = process_name_from_path(path.as_str());
    Some((path, name))
}

/// Whether a window that came to the foreground is one whose focus is worth
/// remembering: not the task bar, a tray or menu pop-up, a system menu, nor one
/// of this application's own windows (by title).
pub open spec fn is_tracked_window(class_name: Seq<char>, title: Seq<char>) -> bool {
    !(class_name == "Shell_TrayWnd"@ || class_name == "Shell_SecondaryTrayWnd"@ || class_name
        == "NotifyIconOverflowWindow"@ || class_name == "TopLevelWindowForOverflowXamlIsland"@
        || class_name == "tray_icon_app"@ || has_prefix(class_name, "Windows.UI."@) || class_name
        == "#32768"@ || class_name == "DropDown"@ || class_name == "Xaml_WindowedPopupClass"@
        || title == "快速剪贴板"@ || title == "菜单"@)
}

/// Whether a window's focus is worth remembering (see [`is_tracked_window`]).
pub fn should_track_window(class_name: &str, title: &str) -> (r: bool)
    ensures
        r == is_tracked_window(class_name@, title@),
{
    let ignored = str_eq(class_name, "Shell_TrayWnd") || str_eq(class_name, "Shell_SecondaryTrayWnd")
        || str_eq(class_name, "NotifyIconOverflowWindow") || str_eq(
        class_name,
        "TopLevelWindowForOverflowXamlIsland",
    ) || str_eq(class_name, "tray_icon_app") || starts_with(
        &chars_of(class_name),
        &chars_of("Windows.UI."),
    ) || str_eq(class_name, "#32768") || str_eq(class_name, "DropDown") || str_eq(
        class_name,
        "Xaml_WindowedPopupClass",
    ) || str_eq(title, "快速剪贴板") || str_eq(title, "菜单");
    !ignored
}

/// The focus listener's state: the remembered window, the windows of this
/// application that are never remembered, and the foreground application last seen.
pub struct FocusTracker {
    last_focus: Option<isize>,
    listener_running: bool,
    listener_thread: u32,
    excluded: Vec<isize>,
    foreground_cache: Option<(isize, ForegroundAppInfo)>,
}

impl FocusTracker {
    /// The remembered window.
    pub closed spec fn last_focus(&self) -> Option<isize> {
        self.last_focus
    }

    /// Whether the listener runs.
    pub closed spec fn running(&self) -> bool {
        self.listener_running
    }

    /// The system id of the listener's thread (0 when none is known).
    pub closed spec fn thread(&self) -> u32 {
        self.listener_thread
    }

    /// The windows that are never remembered.
    pub closed spec fn excluded(&self) -> Seq<isize> {
        self.excluded@
    }

    /// The foreground window last looked up, with its application.
    pub closed spec fn cached(&self) -> Option<(isize, ForegroundView)> {
        match self.foreground_cache {
            Some((h, info)) => Some((h, info@)),
            None => None,
        }
    }

    /// The tracker's invariant: no window is excluded twice.
    pub closed spec fn wf(&self) -> bool {
        self.excluded@.no_duplicates()
    }

    /// Nothing remembered, no listener.
    pub fn new() -> (r: FocusTracker)
        ensures
            r.wf(),
            r.last_focus() is None,
            !r.running(),
            r.thread() == 0,
            r.excluded().len() == 0,
            r.cached() is None,
    {
        FocusTracker {
            last_focus: None,
            listener_running: false,
            listener_thread: 0,
            excluded: Vec::new(),
            foreground_cache: None,
        }
    }

    /// Starts the listener with this application's windows excluded; `false`
    /// (and nothing changes) when it already runs.
    pub fn begin_listening(&mut self, own_windows: Vec<isize>) -> (r: bool)
        requires
            old(self).wf(),
        ensures
            final(self).wf(),
            r == !old(self).running(),
            r ==> final(self).running() && forall|w: isize|
                final(self).excluded().contains(w) <==> own_windows@.contains(w),
            !r ==> *final(self) == *old(self),
            final(self).last_focus() == old(self).last_focus(),
            final(self).thread() == old(self).thread(),
            final(self).cached() == old(self).cached(),
    {
        if self.listener_running {
            return false;
        }
        self.excluded = Vec::new();
        let mut i: usize = 0;
        while i < own_windows.len()
            invariant
                i <= own_windows.len(),
                self.wf(),
                forall|w: isize| self.excluded().contains(w) <==> own_windows@.take(i as int).contains(w),
                self.last_focus() == old(self).last_focus(),
                self.thread() == old(self).thread(),
                self.cached() == old(self).cached(),
                self.running() == old(self).running(),
                !old(self).running(),
            decreases own_windows.len() - i,
        {
            let ghost before = self.excluded@;
            self.add_excluded_hwnd(own_windows[i]);
            assert(own_windows@.take(i + 1) =~= own_windows@.take(i as int).push(own_windows@[i as int]));
            assert forall|w: isize| self.excluded().contains(w) <==> own_windows@.take(i + 1).contains(w) by {
                let prev = own_windows@.take(i as int);
                let next = own_windows@.take(i + 1);
                if prev.contains(w) {
                    let k = choose|k: int| 0 <= k < prev.len() && prev[k] == w;
                    assert(next[k] == w);
                }
                if next.contains(w) {
                    let k = choose|k: int| 0 <= k < next.len() && next[k] == w;
                    if k < i {
                        assert(prev[k] == w);
                    }
                }
                if w == own_windows@[i as int] {
                    assert(own_windows@.take(i + 1)[i as int] == w);
                }
            }
            i = i + 1;
        }
        assert(i == own_windows.len());
        assert(own_windows@.take(i as int) =~= own_windows@);
        assert(forall|w: isize| self.excluded().contains(w) <==> own_windows@.contains(w));
        self.listener_running = true;
        true
    }

    /// Records the system id of the listener's thread once it runs.
    pub fn set_listener_thread(&mut self, thread_id: u32)
        ensures
            final(self).thread() == thread_id,
            final(self).running() == old(self).running(),
            final(self).last_focus() == old(self).last_focus(),
            final(self).excluded() == old(self).excluded(),
            final(self).cached() == old(self).cached(),
            final(self).wf() == old(self).wf(),
    {
        self.listener_thread = thread_id;
    }

    /// Stops the listener: returns the thread that must be told to quit (none
    /// when no thread id is known), and forgets it.
    pub fn stop_focus_listener(&mut self) -> (r: Option<u32>)
        ensures
            !final(self).running(),
            final(self).thread() == 0,
            r == (if old(self).thread() == 0 {
                None
            } else {
                Some(old(self).thread())
            }),
            final(self).last_focus() == old(self).last_focus(),
            final(self).excluded() == old(self).excluded(),
            final(self).cached() == old(self).cached(),
            final(self).wf() == old(self).wf(),
    {
        self.listener_running = false;
        let t = self.listener_thread;
        self.listener_thread = 0;
        if t == 0 {
            None
        } else {
            Some(t)
        }
    }

    /// Never remember this window; a window already excluded stays once.
    pub fn add_excluded_hwnd(&mut self, hwnd: isize)
        requires
            old(self).wf(),
        ensures
            final(self).wf(),
            forall|w: isize| final(self).excluded().contains(w) <==> (old(self).excluded().contains(w) || w == hwnd),
            old(self).excluded().contains(hwnd) ==> final(self).excluded() == old(self).excluded(),
            !old(self).excluded().contains(hwnd) ==> final(self).excluded() == old(
                self,
            ).excluded().push(hwnd),
            final(self).last_focus() == old(self).last_focus(),
            final(self).running() == old(self).running(),
            final(self).thread() == old(self).thread(),
            final(self).cached() == old(self).cached(),
    {
        let mut i: usize = 0;
        while i < self.excluded.len()
            invariant
                i <= self.excluded.len(),
                *self == *old(self),
                old(self).wf(),
                forall|j: int| 0 <= j < i ==> self.excluded@[j] != hwnd,
            decreases self.excluded.len() - i,
        {
            if self.excluded[i] == hwnd {
                return;
            }
            i = i + 1;
        }
        let ghost before = self.excluded@;
        self.excluded.push(hwnd);
        assert(forall|w: isize| self.excluded@.contains(w) <==> (before.contains(w) || w == hwnd)) by {
            assert forall|w: isize| before.contains(w) implies self.excluded@.contains(w) by {
                let k = choose|k: int| 0 <= k < before.len() && before[k] == w;
                assert(self.excluded@[k] == w);
            }
            assert(self.excluded@[before.len() as int] == hwnd);
        }
        assert(self.excluded@.no_duplicates()) by {
            assert forall|a: int, b: int|
                0 <= a < self.excluded@.len() && 0 <= b < self.excluded@.len() && a != b implies self.excluded@[a]
                != self.excluded@[b] by {
                if a < before.len() && b < before.len() {
                } else if a == before.len() {
                    assert(self.excluded@[b] == before[b]);
                } else {
                    assert(self.excluded@[a] == before[a]);
                }
            }
        }
    }

    /// The window remembered as the last focus.
    pub fn get_last_focus_hwnd(&self) -> (r: Option<isize>)
        ensures
            r == self.last_focus(),
    {
        self.last_focus
    }

    /// A window came to the foreground: it is remembered unless it is none (0),
    /// excluded, or not worth remembering. Returns whether it was remembered
    /// (then the hotkeys are synchronised with the new foreground).
    pub fn on_foreground_changed(&mut self, hwnd: isize, class_name: &str, title: &str) -> (r: bool)
        requires
            old(self).wf(),
        ensures
            final(self).wf(),
            r == (hwnd != 0 && !old(self).excluded().contains(hwnd) && is_tracked_window(
                class_name@,
                title@,
            )),
            final(self).last_focus() == (if r {
                Some(hwnd)
            } else {
                old(self).last_focus()
            }),
            final(self).running() == old(self).running(),
            final(self).thread() == old(self).thread(),
            final(self).excluded() == old(self).excluded(),
            final(self).cached() == old(self).cached(),
    {
        if hwnd == 0 {
            return false;
        }
        let mut i: usize = 0;
        while i < self.excluded.len()
            invariant
                i <= self.excluded.len(),
                *self == *old(self),
                old(self).wf(),
                forall|j: int| 0 <= j < i ==> self.excluded@[j] != hwnd,
            decreases self.excluded.len() - i,
        {
            if self.excluded[i] == hwnd {
                return false;
            }
            i = i + 1;
        }
        if !should_track_window(class_name, title) {
            return false;
        }
        self.last_focus = Some(hwnd);
        true
    }

    /// The application of the foreground window when it is the one last looked up.
    pub fn cached_foreground_info(&self, hwnd: isize) -> (r: Option<ForegroundAppInfo>)
        ensures
            match self.cached() {
                Some((h, info)) => if h == hwnd {
                    r matches Some(x) && x@ == info
                } else {
                    r is None
                },
                None => r is None,
            },
    {
        match &self.foreground_cache {
            Some((h, info)) => {
                if *h == hwnd {
                    Some(info.duplicate())
                } else {
                    None
                }
            },
            None => None,
        }
    }

    /// The application of a foreground window looked up anew, given what the
    /// system reported: none for no window (0), no process (0), or a process
    /// whose executable is unknown; otherwise it is also kept for the next lookup.
    pub fn get_foreground_app_info(
        &mut self,
        hwnd: isize,
        process_id: u32,
        window_title: String,
        process: Option<(String, String)>,
    ) -> (r: Option<ForegroundAppInfo>)
        ensures
            hwnd == 0 || process_id == 0 || process is None ==> r is None && *final(self) == *old(
                self,
            ),
            hwnd != 0 && process_id != 0 ==> match process {
                Some((path, name)) => r matches Some(info) && info@ == (ForegroundView {
                    process_name: name@,
                    process_path: path@,
                    window_title: window_title@,
                }) && final(self).cached() == Some((hwnd, info@)),
                None => true,
            },
            final(self).last_focus() == old(self).last_focus(),
            final(self).running() == old(self).running(),
            final(self).thread() == old(self).thread(),
            final(self).excluded() == old(self).excluded(),
            final(self).wf() == old(self).wf(),
    {
        if hwnd == 0 || process_id == 0 {
            return None;
        }
        match process {
            None => None,
            Some((process_path, process_name)) => {
                let info = ForegroundAppInfo { process_name, process_path, window_title };
                self.foreground_cache = Some((hwnd, info.duplicate()));
                Some(info)
            },
        }
    }
}

} // verus!
