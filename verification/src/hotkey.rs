//! Bookkeeping of the global hotkeys: which shortcuts are registered, the
//! registration status shown to the user, which paste keys are held down, and
//! the (de)activation of all hotkeys when the foreground application changes.
//!
//! The operating-system registration itself is done by the caller; the
//! manager is told of each outcome and decides what is registered next.
use vstd::prelude::*;
use crate::text::{
    append, ascii_lowered, chars_of, contains, contains_seq, decimal, decimal_string, has_prefix,
    owned, replace_all, replaced, starts_with, str_eq, string_from, to_ascii_lowercase,
};

verus! {

/// What a shortcut's registration came to, as shown to the user.
#[derive(Debug, Clone)]
pub struct ShortcutStatus {
    pub id: String,
    pub shortcut: String,
    pub success: bool,
    pub error: Option<String>,
}

/// The contents of a [`ShortcutStatus`].
pub struct StatusView {
    pub id: Seq<char>,
    pub shortcut: Seq<char>,
    pub success: bool,
    pub error: Option<Seq<char>>,
}

/// The view of an optional string.
pub open spec fn opt_view(o: Option<String>) -> Option<Seq<char>> {
    match o {
        Some(s) => Some(s@),
        None => None,
    }
}

impl View for ShortcutStatus {
    type V = StatusView;

    open spec fn view(&self) -> StatusView {
        StatusView {
            id: self.id@,
            shortcut: self.shortcut@,
            success: self.success,
            error: opt_view(self.error),
        }
    }
}

/// A copy of an optional string.
pub fn copy_opt(o: &Option<String>) -> (r: Option<String>)
    ensures
        opt_view(r) == opt_view(*o),
{
    match o {
        Some(s) => Some(s.clone()),
        None => None,
    }
}

impl ShortcutStatus {
    /// A copy with the same contents.
    pub fn duplicate(&self) -> (r: ShortcutStatus)
        ensures
            r@ == self@,
    {
        ShortcutStatus {
            id: self.id.clone(),
            shortcut: self.shortcut.clone(),
            success: self.success,
            error: copy_opt(&self.error),
        }
    }
}

/// Whether the hotkeys are registered or not.
#[derive(Clone, Copy, Debug, PartialEq, Eq, Structural)]
pub enum HotkeyActivation {
    Active,
    Inactive,
}

/// The state of the background (de)activation of the hotkeys.
#[derive(Clone, Copy, Debug, PartialEq, Eq, Structural)]
pub struct HotkeySyncState {
    /// What was applied last.
    pub current: HotkeyActivation,
    /// What should be applied.
    pub desired: HotkeyActivation,
    /// Whether a worker is applying `desired`.
    pub syncing: bool,
}

/// A hotkey to be registered, with its shortcut text.
#[derive(Debug, Clone)]
pub enum HotkeyRequest {
    /// Show or hide the main window.
    Toggle(String),
    /// Show the quick-paste window while held.
    QuickPaste(String),
    /// Turn clipboard monitoring on or off.
    ToggleClipboardMonitor(String),
    /// Turn pasting with formatting on or off.
    TogglePasteWithFormat(String),
    /// Paste the newest item as plain text.
    PastePlainText(String),
    /// Paste the n-th item with the number keys and this modifier.
    NumberShortcuts(String),
}

/// The kind and text of a [`HotkeyRequest`]: kind 0 to 5 in declaration order.
pub open spec fn request_view(r: HotkeyRequest) -> (int, Seq<char>) {
    match r {
        HotkeyRequest::Toggle(s) => (0, s@),
        HotkeyRequest::QuickPaste(s) => (1, s@),
        HotkeyRequest::ToggleClipboardMonitor(s) => (2, s@),
        HotkeyRequest::TogglePasteWithFormat(s) => (3, s@),
        HotkeyRequest::PastePlainText(s) => (4, s@),
        HotkeyRequest::NumberShortcuts(s) => (5, s@),
    }
}

/// The registered shortcuts, their statuses and the keys held down.
pub struct HotkeyManager {
    registered: Vec<(String, String)>,
    statuses: Vec<ShortcutStatus>,
    active_keys: Vec<String>,
    hotkeys_enabled: bool,
    foreground_globally_disabled: bool,
    sync: HotkeySyncState,
}

/// Whether no two statuses share an id.
pub open spec fn unique_ids(s: Seq<ShortcutStatus>) -> bool {
    forall|i: int, j: int| 0 <= i < s.len() && 0 <= j < s.len() && i != j ==> s[i].id@ != s[j].id@
}

/// Whether some status has the id.
pub open spec fn has_id(s: Seq<ShortcutStatus>, id: Seq<char>) -> bool {
    exists|i: int| 0 <= i < s.len() && s[i].id@ == id
}

/// The status with the id (meaningful when there is one).
pub open spec fn status_with(s: Seq<ShortcutStatus>, id: Seq<char>) -> StatusView {
    s[choose|i: int| 0 <= i < s.len() && s[i].id@ == id]@
}

/// The statuses, by id.
pub open spec fn status_map(s: Seq<ShortcutStatus>) -> Map<Seq<char>, StatusView> {
    Map::new(|id: Seq<char>| has_id(s, id), |id: Seq<char>| status_with(s, id))
}

/// The characters of each string.
pub open spec fn views(s: Seq<String>) -> Seq<Seq<char>> {
    s.map_values(|x: String| x@)
}

/// The (id, shortcut) pairs, as character sequences.
pub open spec fn pair_views(s: Seq<(String, String)>) -> Seq<(Seq<char>, Seq<char>)> {
    s.map_values(|p: (String, String)| (p.0@, p.1@))
}

/// Whether `after` is `before` without its first entry under `id`, whose shortcut is `s`.
pub open spec fn removed_first(
    before: Seq<(Seq<char>, Seq<char>)>,
    after: Seq<(Seq<char>, Seq<char>)>,
    id: Seq<char>,
    s: Seq<char>,
) -> bool {
    exists|i: int|
        0 <= i < before.len() && before[i].0 == id && before[i].1 == s && (forall|j: int|
            0 <= j < i ==> before[j].0 != id) && after == before.remove(i)
}

/// Whether one of the first `n` registrations is under `id`.
pub open spec fn id_among(reg: Seq<(Seq<char>, Seq<char>)>, n: int, id: Seq<char>) -> bool {
    exists|j: int| 0 <= j < n && reg[j].0 == id
}

/// The error code for a registration failure: `CONFLICT` when the shortcut is
/// already taken, `REGISTRATION_FAILED` otherwise.
pub open spec fn error_code(err: Seq<char>) -> Seq<char> {
    if is_conflict(err) {
        "CONFLICT"@
    } else {
        "REGISTRATION_FAILED"@
    }
}

/// Whether a registration error says that the shortcut is already registered
/// (compared without regard to ASCII case).
pub open spec fn is_conflict(err: Seq<char>) -> bool {
    contains_seq(ascii_lowered(err), "already registered"@)
}

/// Whether a registration error says that the shortcut is already registered.
pub fn is_already_registered_error(err: &str) -> (r: bool)
    ensures
        r == is_conflict(err@),
{
    let lowered = to_ascii_lowercase(&chars_of(err));
    let pat = chars_of("already registered");
    contains(&lowered, &pat)
}

/// Maps a registration error to the code shown to the user.
pub fn map_registration_error(err: &str) -> (r: String)
    ensures
        r@ == error_code(err@),
{
    if is_already_registered_error(err) {
        owned("CONFLICT")
    } else {
        owned("REGISTRATION_FAILED")
    }
}

/// The shortcut text in the form that the shortcut parser expects:
/// `Win+` is written `Super+` and `Ctrl+` is written `Control+`.
pub open spec fn normalized_shortcut(s: Seq<char>) -> Seq<char> {
    replaced(replaced(s, "Win+"@, "Super+"@), "Ctrl+"@, "Control+"@)
}

/// Rewrites a shortcut into the form that the shortcut parser expects.
pub fn normalize_shortcut(shortcut: &str) -> (r: String)
    ensures
        r@ == normalized_shortcut(shortcut@),
{
    let s = chars_of(shortcut);
    let win = chars_of("Win+");
    let sup = chars_of("Super+");
    let ctrl = chars_of("Ctrl+");
    let control = chars_of("Control+");
    proof {
        reveal_strlit("Win+");
        reveal_strlit("Ctrl+");
    }
    let a = replace_all(&s, &win, &sup);
    let b = replace_all(&a, &ctrl, &control);
    string_from(&b)
}

/// The id under which the n-th number shortcut is registered: `number_<n>`.
pub open spec fn number_id(n: nat) -> Seq<char> {
    "number_"@ + crate::text::decimal(n)
}

/// Whether a registered id belongs to a number shortcut.
pub open spec fn is_number_id(id: Seq<char>) -> bool {
    has_prefix(id, "number_"@)
}

/// `s` without its trailing `+` characters.
pub open spec fn trim_trailing_plus(s: Seq<char>) -> Seq<char>
    decreases s.len(),
{
    if s.len() > 0 && s.last() == '+' {
        trim_trailing_plus(s.drop_last())
    } else {
        s
    }
}

/// The shortcut for the number key `n` (1 to 9) with the configured modifier.
/// A modifier ending in `F` selects the function keys: `F<n>`, or `<prefix>+F<n>`
/// where the prefix is the modifier without the `F` and trailing `+`; any other
/// modifier gives `<modifier>+<n>`.
pub open spec fn number_shortcut(modifier: Seq<char>, n: nat) -> Seq<char> {
    let is_f_key = modifier.len() > 0 && modifier.last() == 'F';
    if is_f_key {
        let prefix = trim_trailing_plus(modifier.drop_last());
        if prefix.len() == 0 {
            "F"@ + crate::text::decimal(n)
        } else {
            prefix + "+F"@ + crate::text::decimal(n)
        }
    } else {
        modifier + "+"@ + crate::text::decimal(n)
    }
}

fn trim_trailing_plus_exec(s: &Vec<char>) -> (r: Vec<char>)
    ensures
        r@ == trim_trailing_plus(s@),
{
    let mut n = s.len();
    assert(s@.subrange(0, n as int) =~= s@);
    while n > 0 && s[n - 1] == '+'
        invariant
            n <= s.len(),
            trim_trailing_plus(s@.subrange(0, n as int)) == trim_trailing_plus(s@),
        decreases n,
    {
        assert(s@.subrange(0, n as int).drop_last() =~= s@.subrange(0, n - 1));
        n = n - 1;
    }
    let mut out: Vec<char> = Vec::new();
    let mut i: usize = 0;
    while i < n
        invariant
            n <= s.len(),
            i <= n,
            out@ == s@.subrange(0, i as int),
        decreases n - i,
    {
        out.push(s[i]);
        i = i + 1;
    }
    assert(n == 0 || s@.subrange(0, n as int).last() != '+');
    out
}

/// The (id, shortcut) pairs of the nine number shortcuts, for the keys 1 to 9.
pub fn number_shortcut_bindings(modifier: &str) -> (r: Vec<(String, String)>)
    ensures
        r.len() == 9,
        forall|i: int|
            0 <= i < 9 ==> #[trigger] r@[i].0@ == number_id((i + 1) as nat) && r@[i].1@
                == number_shortcut(modifier@, (i + 1) as nat),
{
    let m = chars_of(modifier);
    let is_f_key = m.len() > 0 && m[m.len() - 1] == 'F';
    let mut prefix: Vec<char> = Vec::new();
    if is_f_key {
        let mut head: Vec<char> = Vec::new();
        let mut i: usize = 0;
        while i < m.len() - 1
            invariant
                m.len() > 0,
                i <= m.len() - 1,
                head@ == m@.subrange(0, i as int),
            decreases m.len() - 1 - i,
        {
            head.push(m[i]);
            i = i + 1;
        }
        assert(head@ == m@.drop_last());
        prefix = trim_trailing_plus_exec(&head);
    }
    let mut out: Vec<(String, String)> = Vec::new();
    let mut num: u128 = 1;
    while num <= 9
        invariant
            1 <= num <= 10,
            out.len() == num - 1,
            m@ == modifier@,
            is_f_key == (m@.len() > 0 && m@.last() == 'F'),
            is_f_key ==> prefix@ == trim_trailing_plus(m@.drop_last()),
            forall|i: int|
                0 <= i < num - 1 ==> #[trigger] out@[i].0@ == number_id((i + 1) as nat)
                    && out@[i].1@ == number_shortcut(modifier@, (i + 1) as nat),
        decreases 10 - num,
    {
        let digits = crate::text::decimal_string(num);
        let mut id = owned("number_");
        append(&mut id, &string_from(&digits).as_str());
        let shortcut: String = if is_f_key {
            if prefix.len() == 0 {
                let mut s = owned("F");
                append(&mut s, string_from(&digits).as_str());
                s
            } else {
                let mut s = string_from(&prefix);
                append(&mut s, "+F");
                append(&mut s, string_from(&digits).as_str());
                s
            }
        } else {
            let mut s = owned(modifier);
            append(&mut s, "+");
            append(&mut s, string_from(&digits).as_str());
            s
        };
        let ghost k = num - 1;
        assert(id@ == number_id(num as nat));
        assert(shortcut@ == number_shortcut(modifier@, num as nat));
        out.push((id, shortcut));
        assert(out@[k as int].0@ == number_id((k + 1) as nat));
        num = num + 1;
    }
    out
}

/// The id of the status that reports failed number shortcuts.
pub open spec fn number_status_id() -> Seq<char> {
    "number_shortcuts"@
}

/// The strings joined with `", "` between them.
pub open spec fn joined(s: Seq<Seq<char>>) -> Seq<char>
    decreases s.len(),
{
    if s.len() == 0 {
        Seq::empty()
    } else if s.len() == 1 {
        s[0]
    } else {
        joined(s.drop_last()) + ", "@ + s.last()
    }
}

/// Joins strings with `", "` between them.
pub fn join_comma(items: &Vec<String>) -> (r: String)
    ensures
        r@ == joined(views(items@)),
{
    let mut out = String::new();
    let mut i: usize = 0;
    while i < items.len()
        invariant
            i <= items.len(),
            out@ == joined(views(items@).take(i as int)),
        decreases items.len() - i,
    {
        let ghost before = views(items@).take(i as int);
        if i > 0 {
            append(&mut out, ", ");
        }
        append(&mut out, items[i].as_str());
        i = i + 1;
        assert(views(items@).take(i as int).drop_last() =~= before);
    }
    assert(views(items@).take(items.len() as int) =~= views(items@));
    out
}

/// The status that reports failed number shortcuts, if any failed: the failed
/// shortcuts joined with `", "`, and `CONFLICT` when one of them was already
/// registered, `REGISTRATION_FAILED` otherwise.
pub fn number_shortcuts_failure_status(failed: &Vec<String>, has_conflict: bool) -> (r: Option<
    ShortcutStatus,
>)
    ensures
        failed.len() == 0 <==> r is None,
        r matches Some(st) ==> st@.id == number_status_id() && st@.shortcut == joined(
            views(failed@),
        ) && !st@.success && st@.error == Some(
            if has_conflict {
                "CONFLICT"@
            } else {
                "REGISTRATION_FAILED"@
            },
        ),
{
    if failed.len() == 0 {
        None
    } else {
        Some(
            ShortcutStatus {
                id: owned("number_shortcuts"),
                shortcut: join_comma(failed),
                success: false,
                error: Some(
                    if has_conflict {
                        owned("CONFLICT")
                    } else {
                        owned("REGISTRATION_FAILED")
                    },
                ),
            },
        )
    }
}

/// Whether `after` is what unregistering `id` leaves of `before`: its first
/// registration under `id` removed, or everything kept when there is none.
pub open spec fn unregistered(
    before: Seq<(Seq<char>, Seq<char>)>,
    after: Seq<(Seq<char>, Seq<char>)>,
    id: Seq<char>,
) -> bool {
    (exists|s: Seq<char>| removed_first(before, after, id, s)) || ((forall|j: int|
        0 <= j < before.len() ==> before[j].0 != id) && after == before)
}

/// The error when the hotkey manager has no application yet.
pub open spec fn not_initialised_message() -> Seq<char> {
    "热键管理器未初始化"@
}

/// What a failed registration's message begins with.
pub open spec fn registration_failure_prefix() -> Seq<char> {
    "注册快捷键失败: "@
}

/// The error when a shortcut that was taken stays taken after it was freed.
pub open spec fn recovery_failure(first: Seq<char>, retry: Seq<char>) -> Seq<char> {
    first + " (自动恢复后仍失败: "@ + retry + ")"@
}

/// The error when a shortcut that was taken stays taken after it was freed:
/// the first error, then the second in brackets.
pub fn recovery_failure_message(first: &str, retry: &str) -> (r: String)
    ensures
        r@ == recovery_failure(first@, retry@),
{
    let mut s = owned(first);
    append(&mut s, " (自动恢复后仍失败: ");
    append(&mut s, retry);
    append(&mut s, ")");
    s
}

/// A registration outcome with its error as text.
pub open spec fn outcome_view(r: Result<(), String>) -> Result<(), Seq<char>> {
    match r {
        Ok(()) => Ok(()),
        Err(e) => Err(e@),
    }
}

/// What asking for a shortcut with one retry gives, from the system's first
/// answer and, when that answer says the shortcut is already registered, its
/// answer to the second request: success when either request succeeds; the
/// first error when it is no conflict; both errors when the retry fails too.
pub open spec fn recovery_outcome(first: Result<(), String>, retry: Result<(), String>) -> Result<
    (),
    Seq<char>,
> {
    match first {
        Ok(()) => Ok(()),
        Err(f) => if !is_conflict(f@) {
            Err(f@)
        } else {
            match retry {
                Ok(()) => Ok(()),
                Err(e) => Err(recovery_failure(f@, e@)),
            }
        },
    }
}

/// Whether `o` is an outcome that asking for `shortcut` with one retry can have
/// (see [`recovery_outcome`]): `try_register` answered `first` for the shortcut
/// and, when that answer says it is already registered, `release` freed it and
/// `try_register` answered `retry`.
pub open spec fn answers<F: Fn(&str) -> Result<(), String>, G: Fn(&str)>(
    try_register: F,
    release: G,
    shortcut: &str,
    o: Result<(), Seq<char>>,
) -> bool {
    exists|first: Result<(), String>, retry: Result<(), String>|
        #![trigger recovery_outcome(first, retry)]
        try_register.ensures((shortcut,), first) && (first matches Err(f) && is_conflict(f@)
            ==> release.ensures((shortcut,), ()) && try_register.ensures((shortcut,), retry))
            && recovery_outcome(first, retry) == o
}

/// Whether `o` is an outcome that asking for the shortcut with text `shortcut`
/// can have (see [`answers`]).
pub open spec fn answers_text<F: Fn(&str) -> Result<(), String>, G: Fn(&str)>(
    try_register: F,
    release: G,
    shortcut: Seq<char>,
    o: Result<(), Seq<char>>,
) -> bool {
    exists|p: &str| #[trigger] answers(try_register, release, p, o) && p@ == shortcut
}

/// Whether `release` was called with the shortcut whose text is `shortcut`.
pub open spec fn released<G: Fn(&str)>(release: G, shortcut: Seq<char>) -> bool {
    exists|p: &str| #[trigger] release.ensures((p,), ()) && p@ == shortcut
}

/// The registrations of number shortcuts, in order.
pub open spec fn number_entries(reg: Seq<(Seq<char>, Seq<char>)>) -> Seq<(Seq<char>, Seq<char>)> {
    reg.filter(|p: (Seq<char>, Seq<char>)| is_number_id(p.0))
}

/// Which of the outcomes succeeded.
pub open spec fn succeeded(outs: Seq<Result<(), Seq<char>>>) -> Seq<bool> {
    outs.map_values(|o: Result<(), Seq<char>>| o is Ok)
}

/// Whether the outcome is a failure with an "already registered" error.
pub open spec fn conflict_failure(o: Result<(), Seq<char>>) -> bool {
    match o {
        Ok(()) => false,
        Err(e) => is_conflict(e),
    }
}

/// Whether one of the outcomes failed with an "already registered" error.
pub open spec fn some_conflict(outs: Seq<Result<(), Seq<char>>>) -> bool {
    exists|j: int| 0 <= j < outs.len() && conflict_failure(#[trigger] outs[j])
}

/// Whether `r` is what the system's answers give when `shortcut` is asked for
/// with one retry: `try_register` answered `first` for the shortcut and, when
/// that answer says the shortcut is already registered, `release` freed it and
/// `try_register` answered `retry`; `r` succeeds exactly when
/// [`recovery_outcome`] does, and a failure is `failure_prefix` followed by the
/// outcome's error.
pub open spec fn answered_by<F: Fn(&str) -> Result<(), String>, G: Fn(&str)>(
    try_register: F,
    release: G,
    shortcut: &str,
    failure_prefix: Seq<char>,
    r: Result<(), String>,
) -> bool {
    exists|first: Result<(), String>, retry: Result<(), String>|
        #![trigger recovery_outcome(first, retry)]
        try_register.ensures((shortcut,), first) && (first matches Err(f) && is_conflict(f@)
            ==> release.ensures((shortcut,), ()) && try_register.ensures((shortcut,), retry))
            && match recovery_outcome(first, retry) {
            Ok(()) => r is Ok,
            Err(raw) => r matches Err(m) && m@ == failure_prefix + raw,
        }
}

/// Asks the system for a shortcut; when the system answers that it is already
/// registered, frees it and asks once more, and a second failure is reported
/// together with the first (see [`recovery_failure`]).
fn register_with_recovery<F, G>(shortcut: &str, try_register: &F, release: &G) -> (r: Result<
    (),
    String,
>) where F: Fn(&str) -> Result<(), String>, G: Fn(&str)
    requires
        forall|p: &str| try_register.requires((p,)),
        forall|p: &str| release.requires((p,)),
    ensures
        exists|first: Result<(), String>, retry: Result<(), String>|
            #![trigger recovery_outcome(first, retry)]
            try_register.ensures((shortcut,), first) && (first matches Err(f) && is_conflict(f@)
                ==> release.ensures((shortcut,), ()) && try_register.ensures((shortcut,), retry))
                && outcome_view(r) == recovery_outcome(first, retry),
{
    let first = try_register(shortcut);
    match first {
        Ok(()) => {
            assert(recovery_outcome(first, first) == outcome_view(Ok(())));
            Ok(())
        },
        Err(first_err) => {
            if !is_already_registered_error(first_err.as_str()) {
                assert(recovery_outcome(first, first) == outcome_view(Err(first_err)));
                Err(first_err)
            } else {
                release(shortcut);
                let retry = try_register(shortcut);
                match retry {
                    Ok(()) => {
                        assert(recovery_outcome(first, retry) == outcome_view(Ok(())));
                        Ok(())
                    },
                    Err(retry_err) => {
                        let m = recovery_failure_message(first_err.as_str(), retry_err.as_str());
                        assert(recovery_outcome(first, retry) == outcome_view(Err(m)));
                        Err(m)
                    },
                }
            }
        },
    }
}

/// The nine number shortcuts for a modifier: (`number_<n>`, shortcut) for n = 1..9.
pub open spec fn number_bindings(modifier: Seq<char>) -> Seq<(Seq<char>, Seq<char>)> {
    Seq::new(9, |i: int| (number_id((i + 1) as nat), number_shortcut(modifier, (i + 1) as nat)))
}

/// The bindings whose registration succeeded (`ok`), in order.
pub open spec fn chosen_bindings(
    b: Seq<(Seq<char>, Seq<char>)>,
    ok: Seq<bool>,
) -> Seq<(Seq<char>, Seq<char>)>
    decreases b.len(),
{
    if b.len() == 0 || ok.len() != b.len() {
        Seq::empty()
    } else if ok.last() {
        chosen_bindings(b.drop_last(), ok.drop_last()).push(b.last())
    } else {
        chosen_bindings(b.drop_last(), ok.drop_last())
    }
}

/// The shortcuts of the bindings whose registration failed, in order.
pub open spec fn failed_bindings(b: Seq<(Seq<char>, Seq<char>)>, ok: Seq<bool>) -> Seq<Seq<char>>
    decreases b.len(),
{
    if b.len() == 0 || ok.len() != b.len() {
        Seq::empty()
    } else if !ok.last() {
        failed_bindings(b.drop_last(), ok.drop_last()).push(b.last().1)
    } else {
        failed_bindings(b.drop_last(), ok.drop_last())
    }
}

/// What registering `shortcut` under `id` leaves, given the registrations and
/// statuses before and after and the result: without an application, the
/// error `热键管理器未初始化` and no change; otherwise the first registration
/// under `id` is gone, and on success the new one is last and its status
/// reports success; on failure the status reports the error code of the
/// system's error, and the result is `failure_prefix` followed by that error.
pub open spec fn registration_done(
    reg_before: Seq<(Seq<char>, Seq<char>)>,
    reg_after: Seq<(Seq<char>, Seq<char>)>,
    st_before: Map<Seq<char>, StatusView>,
    st_after: Map<Seq<char>, StatusView>,
    id: Seq<char>,
    shortcut: Seq<char>,
    failure_prefix: Seq<char>,
    app_ready: bool,
    r: Result<(), String>,
) -> bool {
    if !app_ready {
        (r matches Err(m) && m@ == not_initialised_message()) && reg_after == reg_before
            && st_after == st_before
    } else {
        match r {
            Ok(()) => (exists|mid: Seq<(Seq<char>, Seq<char>)>|
                unregistered(reg_before, mid, id) && reg_after == mid.push((id, shortcut)))
                && st_after == st_before.insert(
                id,
                StatusView { id: id, shortcut: shortcut, success: true, error: None },
            ),
            Err(m) => unregistered(reg_before, reg_after, id) && exists|raw: Seq<char>|
                m@ == failure_prefix + raw && st_after == st_before.insert(
                    id,
                    StatusView {
                        id: id,
                        shortcut: shortcut,
                        success: false,
                        error: Some(error_code(raw)),
                    },
                ),
        }
    }
}

/// The item that a number shortcut pastes: the `index`-th (from 0) of the
/// first items of the history; beyond them, an error that counts from 1.
pub fn number_shortcut_item(item_ids: &Vec<i64>, index: usize) -> (r: Result<i64, String>)
    requires
        index < usize::MAX,
    ensures
        index < item_ids.len() ==> r == Ok::<i64, String>(item_ids@[index as int]),
        index >= item_ids.len() ==> (r matches Err(m) && m@ == "剪贴板项索引 "@ + decimal(
            (index + 1) as nat,
        ) + " 超出范围（共 "@ + decimal(item_ids.len() as nat) + " 项）"@),
{
    if index < item_ids.len() {
        Ok(item_ids[index])
    } else {
        let mut m = owned("剪贴板项索引 ");
        append(&mut m, string_from(&decimal_string((index + 1) as u128)).as_str());
        append(&mut m, " 超出范围（共 ");
        append(&mut m, string_from(&decimal_string(item_ids.len() as u128)).as_str());
        append(&mut m, " 项）");
        Err(m)
    }
}

/// Whether no two registrations share an id.
pub open spec fn unique_registrations(r: Seq<(Seq<char>, Seq<char>)>) -> bool {
    forall|i: int, j: int| 0 <= i < r.len() && 0 <= j < r.len() && i != j ==> r[i].0 != r[j].0
}

proof fn lemma_filter_unique(
    s: Seq<(Seq<char>, Seq<char>)>,
    pred: spec_fn((Seq<char>, Seq<char>)) -> bool,
)
    requires
        unique_registrations(s),
    ensures
        unique_registrations(s.filter(pred)),
        forall|j: int|
            0 <= j < s.filter(pred).len() ==> pred(#[trigger] s.filter(pred)[j]) && s.contains(
                s.filter(pred)[j],
            ),
    decreases s.len(),
{
    reveal_with_fuel(Seq::filter, 1);
    if s.len() > 0 {
        let d = s.drop_last();
        assert(unique_registrations(d)) by {
            assert forall|i: int, j: int|
                0 <= i < d.len() && 0 <= j < d.len() && i != j implies d[i].0 != d[j].0 by {
                assert(d[i] == s[i] && d[j] == s[j]);
            }
        }
        lemma_filter_unique(d, pred);
        let f = d.filter(pred);
        assert forall|j: int| 0 <= j < f.len() implies f[j].0 != s.last().0 by {
            assert(d.contains(f[j]));
            let k = choose|k: int| 0 <= k < d.len() && d[k] == f[j];
            assert(s[k] == f[j]);
        }
        assert forall|j: int| 0 <= j < s.filter(pred).len() implies pred(#[trigger] s.filter(pred)[j])
            && s.contains(s.filter(pred)[j]) by {
            if j < f.len() {
                assert(s.filter(pred)[j] == f[j]);
                let k = choose|k: int| 0 <= k < d.len() && d[k] == f[j];
                assert(s[k] == f[j]);
            } else {
                assert(s.filter(pred)[j] == s.last());
                assert(s[s.len() - 1] == s.last());
            }
        }
    }
}

proof fn lemma_chosen_from(b: Seq<(Seq<char>, Seq<char>)>, ok: Seq<bool>)
    ensures
        forall|j: int|
            0 <= j < chosen_bindings(b, ok).len() ==> exists|k: int|
                0 <= k < b.len() && #[trigger] chosen_bindings(b, ok)[j] == b[k],
    decreases b.len(),
{
    if b.len() > 0 && ok.len() == b.len() {
        lemma_chosen_from(b.drop_last(), ok.drop_last());
        let c = chosen_bindings(b.drop_last(), ok.drop_last());
        assert forall|j: int| 0 <= j < chosen_bindings(b, ok).len() implies exists|k: int|
            0 <= k < b.len() && #[trigger] chosen_bindings(b, ok)[j] == b[k] by {
            if j < c.len() {
                assert(chosen_bindings(b, ok)[j] == c[j]);
                let k = choose|k: int| 0 <= k < b.drop_last().len() && c[j] == b.drop_last()[k];
                assert(b[k] == b.drop_last()[k]);
            } else {
                assert(chosen_bindings(b, ok)[j] == b.last());
                assert(b[b.len() - 1] == b.last());
            }
        }
    }
}

proof fn lemma_number_ids_differ(m: nat, n: nat)
    requires
        m != n,
    ensures
        number_id(m) != number_id(n),
{
    if number_id(m) == number_id(n) {
        let p = "number_"@;
        assert(number_id(m).skip(p.len() as int) =~= crate::text::decimal(m));
        assert(number_id(n).skip(p.len() as int) =~= crate::text::decimal(n));
        crate::text::decimal_injective(m, n);
    }
}

impl HotkeyManager {
    /// The statuses, by id.
    pub closed spec fn statuses(&self) -> Map<Seq<char>, StatusView> {
        status_map(self.statuses@)
    }

    /// The registered (id, shortcut) pairs, in registration order.
    pub closed spec fn registered(&self) -> Seq<(Seq<char>, Seq<char>)> {
        pair_views(self.registered@)
    }

    /// The paste keys currently held down.
    pub closed spec fn active_keys(&self) -> Set<Seq<char>> {
        views(self.active_keys@).to_set()
    }

    /// Whether the hotkeys are enabled by the user.
    pub closed spec fn enabled(&self) -> bool {
        self.hotkeys_enabled
    }

    /// Whether the foreground application disables all hotkeys.
    pub closed spec fn foreground_disabled(&self) -> bool {
        self.foreground_globally_disabled
    }

    /// The state of the background (de)activation.
    pub closed spec fn sync_state(&self) -> HotkeySyncState {
        self.sync
    }

    /// The manager's invariant: one status per id, each held key once.
    pub closed spec fn wf(&self) -> bool {
        &&& unique_ids(self.statuses@)
        &&& views(self.active_keys@).no_duplicates()
        &&& unique_registrations(pair_views(self.registered@))
    }

    /// A manager with nothing registered, hotkeys enabled and active.
    pub fn new() -> (r: HotkeyManager)
        ensures
            r.wf(),
            r.registered() == Seq::<(Seq<char>, Seq<char>)>::empty(),
            r.statuses() == Map::<Seq<char>, StatusView>::empty(),
            r.active_keys() == Set::<Seq<char>>::empty(),
            r.enabled(),
            !r.foreground_disabled(),
            r.sync_state() == (HotkeySyncState {
                current: HotkeyActivation::Active,
                desired: HotkeyActivation::Active,
                syncing: false,
            }),
    {
        let r = HotkeyManager {
            registered: Vec::new(),
            statuses: Vec::new(),
            active_keys: Vec::new(),
            hotkeys_enabled: true,
            foreground_globally_disabled: false,
            sync: HotkeySyncState {
                current: HotkeyActivation::Active,
                desired: HotkeyActivation::Active,
                syncing: false,
            },
        };
        assert(r.statuses() =~= Map::<Seq<char>, StatusView>::empty());
        assert(r.registered() =~= Seq::<(Seq<char>, Seq<char>)>::empty());
        assert(r.active_keys() =~= Set::<Seq<char>>::empty());
        r
    }

    fn key_index(&self, key_id: &str) -> (r: Option<usize>)
        ensures
            match r {
                Some(i) => i < self.active_keys.len() && self.active_keys@[i as int]@ == key_id@,
                None => !views(self.active_keys@).contains(key_id@),
            },
    {
        let mut i: usize = 0;
        while i < self.active_keys.len()
            invariant
                i <= self.active_keys.len(),
                forall|j: int| 0 <= j < i ==> self.active_keys@[j]@ != key_id@,
            decreases self.active_keys.len() - i,
        {
            if str_eq(self.active_keys[i].as_str(), key_id) {
                return Some(i);
            }
            i = i + 1;
        }
        assert(!views(self.active_keys@).contains(key_id@)) by {
            if views(self.active_keys@).contains(key_id@) {
                let j = choose|j: int| 0 <= j < views(self.active_keys@).len() && views(self.active_keys@)[j] == key_id@;
                assert(self.active_keys@[j]@ == key_id@);
            }
        }
        None
    }

    /// Marks a paste key as held; returns whether it was not held before (a first press).
    pub fn try_activate_key(&mut self, key_id: &str) -> (r: bool)
        requires
            old(self).wf(),
        ensures
            final(self).wf(),
            r == !old(self).active_keys().contains(key_id@),
            final(self).active_keys() == old(self).active_keys().insert(key_id@),
            final(self).statuses() == old(self).statuses(),
            final(self).registered() == old(self).registered(),
            final(self).enabled() == old(self).enabled(),
            final(self).foreground_disabled() == old(self).foreground_disabled(),
            final(self).sync_state() == old(self).sync_state(),
    {
        match self.key_index(key_id) {
            Some(i) => {
                proof {
                    assert(views(self.active_keys@)[i as int] == key_id@);
                    assert(self.active_keys().contains(key_id@));
                    assert(self.active_keys().insert(key_id@) =~= self.active_keys());
                }
                false
            },
            None => {
                let ghost old_keys = views(self.active_keys@);
                self.active_keys.push(owned(key_id));
                proof {
                    assert(views(self.active_keys@) =~= old_keys.push(key_id@));
                    old_keys.lemma_push_to_set_commute(key_id@);
                    assert(!old_keys.to_set().contains(key_id@));
                }
                true
            },
        }
    }

    /// Whether a paste key is held (a repeated press).
    pub fn is_key_active(&self, key_id: &str) -> (r: bool)
        ensures
            r == self.active_keys().contains(key_id@),
    {
        match self.key_index(key_id) {
            Some(i) => {
                assert(views(self.active_keys@)[i as int] == key_id@);
                true
            },
            None => false,
        }
    }

    /// Marks a paste key as released.
    pub fn deactivate_key(&mut self, key_id: &str)
        requires
            old(self).wf(),
        ensures
            final(self).wf(),
            final(self).active_keys() == old(self).active_keys().remove(key_id@),
            final(self).statuses() == old(self).statuses(),
            final(self).registered() == old(self).registered(),
            final(self).enabled() == old(self).enabled(),
            final(self).foreground_disabled() == old(self).foreground_disabled(),
            final(self).sync_state() == old(self).sync_state(),
    {
        match self.key_index(key_id) {
            Some(i) => {
                let ghost old_keys = views(self.active_keys@);
                self.active_keys.remove(i);
                proof {
                    let nk = views(self.active_keys@);
                    assert(nk =~= old_keys.remove(i as int));
                    assert forall|x: Seq<char>| nk.to_set().contains(x) == old_keys.to_set().remove(key_id@).contains(x) by {
                        if x == key_id@ && nk.contains(x) {
                            let j = choose|j: int| 0 <= j < nk.len() && nk[j] == x;
                            let oj = if j < i { j } else { j + 1 };
                            assert(old_keys[oj] == x);
                            assert(old_keys[i as int] == x);
                            assert(false);
                        }
                        if nk.contains(x) {
                            let j = choose|j: int| 0 <= j < nk.len() && nk[j] == x;
                            if j < i {
                                assert(old_keys[j] == x);
                            } else {
                                assert(old_keys[j + 1] == x);
                            }
                            assert(old_keys.contains(x));
                        }
                        if old_keys.contains(x) && x != key_id@ {
                            let j = choose|j: int| 0 <= j < old_keys.len() && old_keys[j] == x;
                            if j < i {
                                assert(nk[j] == x);
                            } else {
                                assert(nk[j - 1] == x);
                            }
                        }
                    }
                    assert(nk.to_set() =~= old_keys.to_set().remove(key_id@));
                }
            },
            None => {
                proof {
                    assert(self.active_keys().remove(key_id@) =~= self.active_keys());
                }
            },
        }
    }

    fn status_index(&self, id: &str) -> (r: Option<usize>)
        ensures
            match r {
                Some(i) => i < self.statuses.len() && self.statuses@[i as int].id@ == id@,
                None => !has_id(self.statuses@, id@),
            },
    {
        let mut i: usize = 0;
        while i < self.statuses.len()
            invariant
                i <= self.statuses.len(),
                forall|j: int| 0 <= j < i ==> self.statuses@[j].id@ != id@,
            decreases self.statuses.len() - i,
        {
            if str_eq(self.statuses[i].id.as_str(), id) {
                return Some(i);
            }
            i = i + 1;
        }
        None
    }

    /// Records the registration status of a shortcut under its id, replacing any earlier one.
    pub fn update_shortcut_status(
        &mut self,
        id: &str,
        shortcut: &str,
        success: bool,
        error: Option<String>,
    )
        requires
            old(self).wf(),
        ensures
            final(self).wf(),
            final(self).statuses() == old(self).statuses().insert(
                id@,
                StatusView { id: id@, shortcut: shortcut@, success, error: opt_view(error) },
            ),
            final(self).registered() == old(self).registered(),
            final(self).active_keys() == old(self).active_keys(),
            final(self).enabled() == old(self).enabled(),
            final(self).foreground_disabled() == old(self).foreground_disabled(),
            final(self).sync_state() == old(self).sync_state(),
    {
        let st = ShortcutStatus { id: owned(id), shortcut: owned(shortcut), success, error };
        let ghost old_s = self.statuses@;
        let ghost v = st@;
        match self.status_index(id) {
            Some(i) => {
                self.statuses.set(i, st);
                proof {
                    let ns = self.statuses@;
                    assert(ns =~= old_s.update(i as int, st));
                    assert(unique_ids(ns)) by {
                        assert forall|a: int, b: int|
                            0 <= a < ns.len() && 0 <= b < ns.len() && a != b implies ns[a].id@ != ns[b].id@ by {
                            if a == i {
                                assert(old_s[i as int].id@ == id@);
                            } else if b == i {
                                assert(old_s[i as int].id@ == id@);
                            }
                        }
                    }
                    self.lemma_map_after_update(old_s, i as int, id@, v);
                }
            },
            None => {
                self.statuses.push(st);
                proof {
                    let ns = self.statuses@;
                    assert(ns =~= old_s.push(st));
                    assert(unique_ids(ns)) by {
                        assert forall|a: int, b: int|
                            0 <= a < ns.len() && 0 <= b < ns.len() && a != b implies ns[a].id@ != ns[b].id@ by {
                            if a == old_s.len() {
                                assert(!(old_s[b].id@ == id@));
                            } else if b == old_s.len() {
                                assert(!(old_s[a].id@ == id@));
                            }
                        }
                    }
                    self.lemma_map_after_update(old_s, old_s.len() as int, id@, v);
                }
            },
        }
    }

    proof fn lemma_map_after_update(&self, old_s: Seq<ShortcutStatus>, i: int, id: Seq<char>, v: StatusView)
        requires
            unique_ids(old_s),
            unique_ids(self.statuses@),
            0 <= i <= old_s.len(),
            i < old_s.len() ==> old_s[i].id@ == id,
            i == old_s.len() ==> !has_id(old_s, id),
            self.statuses@.len() == if i < old_s.len() { old_s.len() } else { old_s.len() + 1 },
            self.statuses@[i]@ == v,
            v.id == id,
            forall|j: int| 0 <= j < old_s.len() && j != i ==> self.statuses@[j] == old_s[j],
        ensures
            status_map(self.statuses@) == status_map(old_s).insert(id, v),
    {
        let ns = self.statuses@;
        assert forall|k: Seq<char>| #[trigger] has_id(ns, k) == (has_id(old_s, k) || k == id) by {
            if has_id(ns, k) {
                let j = choose|j: int| 0 <= j < ns.len() && ns[j].id@ == k;
                if j != i {
                    assert(old_s[j].id@ == k);
                }
            }
            if has_id(old_s, k) {
                let j = choose|j: int| 0 <= j < old_s.len() && old_s[j].id@ == k;
                if j != i {
                    assert(ns[j].id@ == k);
                } else {
                    assert(ns[i].id@ == k);
                }
            }
            if k == id {
                assert(ns[i].id@ == k);
            }
        }
        assert forall|k: Seq<char>| has_id(ns, k) implies #[trigger] status_with(ns, k) == if k == id {
            v
        } else {
            status_with(old_s, k)
        } by {
            let j = choose|j: int| 0 <= j < ns.len() && ns[j].id@ == k;
            if k == id {
                assert(ns[i].id@ == k);
                assert(j == i);
            } else {
                assert(j != i);
                assert(old_s[j].id@ == k);
                let j2 = choose|j2: int| 0 <= j2 < old_s.len() && old_s[j2].id@ == k;
                assert(j2 == j);
            }
        }
        assert(status_map(ns) =~= status_map(old_s).insert(id, v));
    }

    /// Removes the status recorded under an id.
    pub fn clear_shortcut_status(&mut self, id: &str)
        requires
            old(self).wf(),
        ensures
            final(self).wf(),
            final(self).statuses() == old(self).statuses().remove(id@),
            final(self).registered() == old(self).registered(),
            final(self).active_keys() == old(self).active_keys(),
            final(self).enabled() == old(self).enabled(),
            final(self).foreground_disabled() == old(self).foreground_disabled(),
            final(self).sync_state() == old(self).sync_state(),
    {
        let ghost old_s = self.statuses@;
        match self.status_index(id) {
            Some(i) => {
                self.statuses.remove(i);
                proof {
                    let ns = self.statuses@;
                    assert(ns =~= old_s.remove(i as int));
                    assert(unique_ids(ns)) by {
                        assert forall|a: int, b: int|
                            0 <= a < ns.len() && 0 <= b < ns.len() && a != b implies ns[a].id@ != ns[b].id@ by {
                            let oa = if a < i { a } else { a + 1 };
                            let ob = if b < i { b } else { b + 1 };
                            assert(ns[a] == old_s[oa]);
                            assert(ns[b] == old_s[ob]);
                        }
                    }
                    assert forall|k: Seq<char>| #[trigger] has_id(ns, k) == (has_id(old_s, k) && k != id@) by {
                        if has_id(ns, k) {
                            let j = choose|j: int| 0 <= j < ns.len() && ns[j].id@ == k;
                            let oj = if j < i { j } else { j + 1 };
                            assert(old_s[oj].id@ == k);
                            assert(oj != i);
                        }
                        if has_id(old_s, k) && k != id@ {
                            let j = choose|j: int| 0 <= j < old_s.len() && old_s[j].id@ == k;
                            assert(j != i);
                            let nj = if j < i { j } else { j - 1 };
                            assert(ns[nj].id@ == k);
                        }
                    }
                    assert forall|k: Seq<char>| has_id(ns, k) implies #[trigger] status_with(ns, k) == status_with(old_s, k) by {
                        let j = choose|j: int| 0 <= j < ns.len() && ns[j].id@ == k;
                        let oj = if j < i { j } else { j + 1 };
                        assert(old_s[oj].id@ == k);
                        let j2 = choose|j2: int| 0 <= j2 < old_s.len() && old_s[j2].id@ == k;
                        assert(j2 == oj);
                    }
                    assert(status_map(ns) =~= status_map(old_s).remove(id@));
                }
            },
            None => {
                assert(self.statuses().remove(id@) =~= self.statuses());
            },
        }
    }

    /// Removes every status.
    pub fn clear_all_statuses(&mut self)
        requires
            old(self).wf(),
        ensures
            final(self).wf(),
            final(self).statuses() == Map::<Seq<char>, StatusView>::empty(),
            final(self).registered() == old(self).registered(),
            final(self).active_keys() == old(self).active_keys(),
            final(self).enabled() == old(self).enabled(),
            final(self).foreground_disabled() == old(self).foreground_disabled(),
            final(self).sync_state() == old(self).sync_state(),
    {
        self.statuses = Vec::new();
        assert(self.statuses() =~= Map::<Seq<char>, StatusView>::empty());
    }

    /// Every recorded status, one per id.
    pub fn get_shortcut_statuses(&self) -> (r: Vec<ShortcutStatus>)
        requires
            self.wf(),
        ensures
            unique_ids(r@),
            status_map(r@) == self.statuses(),
    {
        let mut out: Vec<ShortcutStatus> = Vec::new();
        let mut i: usize = 0;
        while i < self.statuses.len()
            invariant
                i <= self.statuses.len(),
                out.len() == i,
                forall|j: int| 0 <= j < i ==> #[trigger] out@[j]@ == self.statuses@[j]@,
            decreases self.statuses.len() - i,
        {
            out.push(self.statuses[i].duplicate());
            i = i + 1;
        }
        proof {
            let a = out@;
            let b = self.statuses@;
            assert(unique_ids(a)) by {
                assert forall|x: int, y: int| 0 <= x < a.len() && 0 <= y < a.len() && x != y implies a[x].id@ != a[y].id@ by {
                    assert(a[x]@ == b[x]@);
                    assert(a[y]@ == b[y]@);
                }
            }
            assert forall|k: Seq<char>| #[trigger] has_id(a, k) == has_id(b, k) by {
                if has_id(a, k) {
                    let j = choose|j: int| 0 <= j < a.len() && a[j].id@ == k;
                    assert(a[j]@ == b[j]@);
                }
                if has_id(b, k) {
                    let j = choose|j: int| 0 <= j < b.len() && b[j].id@ == k;
                    assert(a[j]@ == b[j]@);
                }
            }
            assert forall|k: Seq<char>| has_id(a, k) implies #[trigger] status_with(a, k) == status_with(b, k) by {
                let j = choose|j: int| 0 <= j < a.len() && a[j].id@ == k;
                assert(a[j]@ == b[j]@);
                let j2 = choose|j2: int| 0 <= j2 < b.len() && b[j2].id@ == k;
                assert(j2 == j);
            }
            assert(status_map(a) =~= status_map(b));
        }
        out
    }

    /// Records a successful registration: the shortcut joins the registered list
    /// and its status reports success.
    pub(crate) fn record_registered(&mut self, id: &str, shortcut: &str)
        requires
            old(self).wf(),
            forall|j: int|
                0 <= j < old(self).registered().len() ==> #[trigger] old(self).registered()[j].0
                    != id@,
        ensures
            final(self).wf(),
            final(self).registered() == old(self).registered().push((id@, shortcut@)),
            final(self).statuses() == old(self).statuses().insert(
                id@,
                StatusView { id: id@, shortcut: shortcut@, success: true, error: None },
            ),
            final(self).active_keys() == old(self).active_keys(),
            final(self).enabled() == old(self).enabled(),
            final(self).foreground_disabled() == old(self).foreground_disabled(),
            final(self).sync_state() == old(self).sync_state(),
    {
        let ghost old_r = self.registered@;
        self.registered.push((owned(id), owned(shortcut)));
        assert(pair_views(self.registered@) =~= pair_views(old_r).push((id@, shortcut@)));
        assert(unique_registrations(pair_views(self.registered@))) by {
            let r = pair_views(self.registered@);
            assert forall|i: int, j: int| 0 <= i < r.len() && 0 <= j < r.len() && i != j implies r[i].0
                != r[j].0 by {
                if i < pair_views(old_r).len() && j < pair_views(old_r).len() {
                    assert(r[i] == pair_views(old_r)[i] && r[j] == pair_views(old_r)[j]);
                } else if i < pair_views(old_r).len() {
                    assert(r[i] == pair_views(old_r)[i]);
                    assert(old(self).registered()[i].0 != id@);
                } else {
                    assert(r[j] == pair_views(old_r)[j]);
                    assert(old(self).registered()[j].0 != id@);
                }
            }
        }
        self.update_shortcut_status(id, shortcut, true, None);
    }

    /// Records a failed registration: its status reports the error code; the
    /// returned message is `prefix` followed by the error.
    pub fn record_registration_failure(
        &mut self,
        id: &str,
        shortcut: &str,
        err: &str,
        prefix: &str,
    ) -> (r: String)
        requires
            old(self).wf(),
        ensures
            final(self).wf(),
            r@ == prefix@ + err@,
            final(self).registered() == old(self).registered(),
            final(self).statuses() == old(self).statuses().insert(
                id@,
                StatusView {
                    id: id@,
                    shortcut: shortcut@,
                    success: false,
                    error: Some(error_code(err@)),
                },
            ),
            final(self).active_keys() == old(self).active_keys(),
            final(self).enabled() == old(self).enabled(),
            final(self).foreground_disabled() == old(self).foreground_disabled(),
            final(self).sync_state() == old(self).sync_state(),
    {
        let code = map_registration_error(err);
        self.update_shortcut_status(id, shortcut, false, Some(code));
        crate::text::concat(prefix, err)
    }

    fn registered_index(&self, id: &str) -> (r: Option<usize>)
        ensures
            match r {
                Some(i) => i < self.registered.len() && self.registered@[i as int].0@ == id@
                    && forall|j: int| 0 <= j < i ==> self.registered@[j].0@ != id@,
                None => forall|j: int| 0 <= j < self.registered.len() ==> self.registered@[j].0@ != id@,
            },
    {
        let mut i: usize = 0;
        while i < self.registered.len()
            invariant
                i <= self.registered.len(),
                forall|j: int| 0 <= j < i ==> self.registered@[j].0@ != id@,
            decreases self.registered.len() - i,
        {
            if str_eq(self.registered[i].0.as_str(), id) {
                return Some(i);
            }
            i = i + 1;
        }
        None
    }

    /// Drops the first registration under an id and its status; returns the
    /// shortcut that must be unregistered from the system, if there was one.
    /// Without an initialised application nothing changes.
    pub fn unregister_shortcut(&mut self, id: &str, app_ready: bool) -> (r: Option<String>)
        requires
            old(self).wf(),
        ensures
            final(self).wf(),
            !app_ready ==> r is None && final(self).registered() == old(self).registered()
                && final(self).statuses() == old(self).statuses(),
            app_ready ==> final(self).statuses() == old(self).statuses().remove(id@),
            app_ready ==> forall|j: int|
                0 <= j < final(self).registered().len() ==> #[trigger] final(self).registered()[j].0
                    != id@,
            app_ready ==> match r {
                Some(s) => removed_first(old(self).registered(), final(self).registered(), id@, s@),
                None => (forall|j: int|
                    0 <= j < old(self).registered().len() ==> old(self).registered()[j].0 != id@)
                    && final(self).registered() == old(self).registered(),
            },
            final(self).active_keys() == old(self).active_keys(),
            final(self).enabled() == old(self).enabled(),
            final(self).foreground_disabled() == old(self).foreground_disabled(),
            final(self).sync_state() == old(self).sync_state(),
    {
        if !app_ready {
            return None;
        }
        let ghost old_r = self.registered@;
        let ghost mut wi: int = 0;
        let r = match self.registered_index(id) {
            Some(i) => {
                proof {
                    wi = i as int;
                }
                let (_rid, shortcut) = self.registered.remove(i);
                proof {
                    assert(pair_views(self.registered@) =~= pair_views(old_r).remove(i as int));
                    assert(pair_views(old_r)[i as int] == (id@, shortcut@));
                    assert forall|j: int| 0 <= j < i implies pair_views(old_r)[j].0 != id@ by {
                        assert(old_r[j].0@ != id@);
                    }
                }
                Some(shortcut)
            },
            None => {
                proof {
                    assert forall|j: int| 0 <= j < pair_views(old_r).len() implies pair_views(old_r)[j].0 != id@ by {
                        assert(old_r[j].0@ != id@);
                    }
                }
                None
            },
        };
        self.clear_shortcut_status(id);
        proof {
            if r is Some {
                assert(pair_views(old_r)[wi] == (id@, r->0@));
                assert(0 <= wi < pair_views(old_r).len());
                assert(forall|j: int| 0 <= j < wi ==> pair_views(old_r)[j].0 != id@);
                assert(self.registered() == pair_views(old_r).remove(wi));
                assert(removed_first(pair_views(old_r), self.registered(), id@, r->0@));
            } else {
                assert(forall|j: int| 0 <= j < pair_views(old_r).len() ==> pair_views(old_r)[j].0 != id@);
                assert(self.registered() == pair_views(old_r));
            }
        }
        r
    }

    /// Drops every registration whose id starts with `number_`; returns the
    /// dropped (id, shortcut) pairs, in order, to be unregistered from the system.
    pub fn unregister_number_shortcuts(&mut self) -> (r: Vec<(String, String)>)
        requires
            old(self).wf(),
        ensures
            final(self).wf(),
            pair_views(r@) == old(self).registered().filter(
                |p: (Seq<char>, Seq<char>)| is_number_id(p.0),
            ),
            final(self).registered() == old(self).registered().filter(
                |p: (Seq<char>, Seq<char>)| !is_number_id(p.0),
            ),
            final(self).statuses() == old(self).statuses(),
            final(self).active_keys() == old(self).active_keys(),
            final(self).enabled() == old(self).enabled(),
            final(self).foreground_disabled() == old(self).foreground_disabled(),
            final(self).sync_state() == old(self).sync_state(),
    {
        let ghost old_r = pair_views(self.registered@);
        let num = chars_of("number_");
        let mut kept: Vec<(String, String)> = Vec::new();
        let mut dropped: Vec<(String, String)> = Vec::new();
        let mut i: usize = 0;
        while i < self.registered.len()
            invariant
                i <= self.registered.len(),
                num@ == "number_"@,
                old_r == pair_views(self.registered@),
                pair_views(kept@) == old_r.take(i as int).filter(
                    |p: (Seq<char>, Seq<char>)| !is_number_id(p.0),
                ),
                pair_views(dropped@) == old_r.take(i as int).filter(
                    |p: (Seq<char>, Seq<char>)| is_number_id(p.0),
                ),
            decreases self.registered.len() - i,
        {
            let id_chars = chars_of(self.registered[i].0.as_str());
            let entry = (self.registered[i].0.clone(), self.registered[i].1.clone());
            let ghost t = old_r.take(i as int);
            let ghost t1 = old_r.take(i + 1);
            proof {
                assert(t1.drop_last() =~= t);
                assert(t1.last() == old_r[i as int]);
                reveal_with_fuel(Seq::filter, 1);
            }
            if starts_with(&id_chars, &num) {
                let ghost before = pair_views(dropped@);
                dropped.push(entry);
                assert(pair_views(dropped@) =~= before.push(old_r[i as int]));
            } else {
                let ghost before = pair_views(kept@);
                kept.push(entry);
                assert(pair_views(kept@) =~= before.push(old_r[i as int]));
            }
            i = i + 1;
        }
        assert(old_r.take(old_r.len() as int) =~= old_r);
        proof {
            lemma_filter_unique(old_r, |p: (Seq<char>, Seq<char>)| !is_number_id(p.0));
        }
        self.registered = kept;
        dropped
    }

    /// Drops every registration and the statuses of their ids; returns the
    /// shortcuts to unregister from the system, in registration order.
    /// Without an initialised application nothing changes.
    pub fn unregister_all(&mut self, app_ready: bool) -> (r: Vec<String>)
        requires
            old(self).wf(),
        ensures
            final(self).wf(),
            !app_ready ==> r@.len() == 0 && final(self).registered() == old(self).registered()
                && final(self).statuses() == old(self).statuses(),
            app_ready ==> final(self).registered().len() == 0,
            app_ready ==> views(r@) == old(self).registered().map_values(
                |p: (Seq<char>, Seq<char>)| p.1,
            ),
            app_ready ==> forall|k: Seq<char>|
                final(self).statuses().contains_key(k) <==> old(self).statuses().contains_key(k)
                    && !id_among(old(self).registered(), old(self).registered().len() as int, k),
            final(self).active_keys() == old(self).active_keys(),
            final(self).enabled() == old(self).enabled(),
            final(self).foreground_disabled() == old(self).foreground_disabled(),
            final(self).sync_state() == old(self).sync_state(),
    {
        let mut out: Vec<String> = Vec::new();
        if !app_ready {
            return out;
        }
        let ghost old_reg = self.registered();
        let ghost old_st = self.statuses();
        let mut ids: Vec<String> = Vec::new();
        let mut k: usize = 0;
        while k < self.registered.len()
            invariant
                k <= self.registered.len(),
                ids.len() == k,
                forall|j: int| 0 <= j < k ==> #[trigger] ids@[j]@ == self.registered@[j].0@,
            decreases self.registered.len() - k,
        {
            ids.push(self.registered[k].0.clone());
            k = k + 1;
        }
        let n = ids.len();
        let mut i: usize = 0;
        while i < n
            invariant
                self.wf(),
                n == ids.len(),
                n == old_reg.len(),
                i <= n,
                forall|j: int| 0 <= j < n ==> #[trigger] ids@[j]@ == old_reg[j].0,
                self.registered() == old_reg.skip(i as int),
                views(out@) == old_reg.take(i as int).map_values(|p: (Seq<char>, Seq<char>)| p.1),
                forall|key: Seq<char>|
                    #![trigger self.statuses().contains_key(key)]
                    self.statuses().contains_key(key) <==> old_st.contains_key(key) && !id_among(
                        old_reg,
                        i as int,
                        key,
                    ),
                self.active_keys() == old(self).active_keys(),
                self.enabled() == old(self).enabled(),
                self.foreground_disabled() == old(self).foreground_disabled(),
                self.sync_state() == old(self).sync_state(),
            decreases n - i,
        {
            let ghost cur = self.registered();
            let ghost st0 = self.statuses();
            let removed = self.unregister_shortcut(ids[i].as_str(), true);
            proof {
                assert(cur[0] == old_reg[i as int]);
                assert(cur[0].0 == ids@[i as int]@);
            }
            match removed {
                Some(s) => {
                    proof {
                        let w = choose|w: int|
                            0 <= w < cur.len() && cur[w].0 == ids@[i as int]@ && cur[w].1 == s@ && (forall|j: int|
                                0 <= j < w ==> cur[j].0 != ids@[i as int]@) && self.registered()
                                == cur.remove(w);
                        assert(w == 0);
                        assert(cur.remove(0) =~= old_reg.skip(i + 1));
                    }
                    let ghost before = views(out@);
                    out.push(s);
                    proof {
                        assert(old_reg.take(i + 1).map_values(|p: (Seq<char>, Seq<char>)| p.1) =~= old_reg.take(
                            i as int,
                        ).map_values(|p: (Seq<char>, Seq<char>)| p.1).push(old_reg[i as int].1));
                        assert(views(out@) =~= before.push(s@));
                    }
                },
                None => {
                    proof {
                        assert(false);
                    }
                },
            }
            proof {
                assert forall|key: Seq<char>|
                    #![trigger self.statuses().contains_key(key)]
                    self.statuses().contains_key(key) <==> old_st.contains_key(key) && !id_among(
                        old_reg,
                        i + 1,
                        key,
                    ) by {
                    if id_among(old_reg, i + 1, key) {
                        let j = choose|j: int| 0 <= j < i + 1 && old_reg[j].0 == key;
                        if j < i {
                            assert(id_among(old_reg, i as int, key));
                        } else {
                            assert(key == old_reg[i as int].0);
                        }
                    }
                    if id_among(old_reg, i as int, key) {
                        let j = choose|j: int| 0 <= j < i && old_reg[j].0 == key;
                        assert(id_among(old_reg, i + 1, key));
                    }
                    if key == old_reg[i as int].0 {
                        assert(id_among(old_reg, i + 1, key));
                    }
                }
            }
            i = i + 1;
        }
        assert(old_reg.take(n as int) =~= old_reg);
        out
    }

    /// Registers a shortcut under an id: the earlier shortcut under the id is
    /// unregistered first (`release` frees it in the system); then `try_register`
    /// asks the system for the shortcut, and when the system answers that it is
    /// already registered, frees it and asks once more. The outcome is recorded
    /// (see [`record_registered`](Self::record_registered) and
    /// [`record_registration_failure`](Self::record_registration_failure)); a
    /// failure comes back after `failure_prefix`. Without an initialised
    /// application nothing happens (see [`registration_done`]).
    pub fn register_reporting<F, G>(
        &mut self,
        id: &str,
        shortcut: &str,
        app_ready: bool,
        failure_prefix: &str,
        try_register: F,
        release: G,
    ) -> (r: Result<(), String>) where F: Fn(&str) -> Result<(), String>, G: Fn(&str)
        requires
            old(self).wf(),
            forall|p: &str| try_register.requires((p,)),
            forall|p: &str| release.requires((p,)),
        ensures
            final(self).wf(),
            registration_done(
                old(self).registered(),
                final(self).registered(),
                old(self).statuses(),
                final(self).statuses(),
                id@,
                shortcut@,
                failure_prefix@,
                app_ready,
                r,
            ),
            app_ready ==> answered_by(try_register, release, shortcut, failure_prefix@, r),
            final(self).active_keys() == old(self).active_keys(),
            final(self).enabled() == old(self).enabled(),
            final(self).foreground_disabled() == old(self).foreground_disabled(),
            final(self).sync_state() == old(self).sync_state(),
    {
        if !app_ready {
            return Err(owned("热键管理器未初始化"));
        }
        let ghost before = self.registered();
        match self.unregister_shortcut(id, true) {
            Some(previous) => {
                release(previous.as_str());
            },
            None => {},
        }
        proof {
            if exists|s: Seq<char>| removed_first(before, self.registered(), id@, s) {
            } else {
                assert(self.registered() == before);
            }
            assert(unregistered(before, self.registered(), id@));
        }
        let ghost mid = self.registered();
        let ghost cleared = self.statuses();
        let outcome = register_with_recovery(shortcut, &try_register, &release);
        let ghost answers = choose|first: Result<(), String>, retry: Result<(), String>|
            #![trigger recovery_outcome(first, retry)]
            try_register.ensures((shortcut,), first) && (first matches Err(f) && is_conflict(f@)
                ==> release.ensures((shortcut,), ()) && try_register.ensures((shortcut,), retry))
                && outcome_view(outcome) == recovery_outcome(first, retry);
        match outcome {
            Ok(()) => {
                self.record_registered(id, shortcut);
                proof {
                    let st = StatusView { id: id@, shortcut: shortcut@, success: true, error: None };
                    assert(cleared.insert(id@, st) =~= old(self).statuses().insert(id@, st));
                    assert(recovery_outcome(answers.0, answers.1) == outcome_view(outcome));
                }
                Ok(())
            },
            Err(e) => {
                let m = self.record_registration_failure(id, shortcut, e.as_str(), failure_prefix);
                proof {
                    let st = StatusView {
                        id: id@,
                        shortcut: shortcut@,
                        success: false,
                        error: Some(error_code(e@)),
                    };
                    assert(cleared.insert(id@, st) =~= old(self).statuses().insert(id@, st));
                    assert(recovery_outcome(answers.0, answers.1) == outcome_view(outcome));
                }
                Err(m)
            },
        }
    }

    /// Registers a shortcut under an id (see
    /// [`register_reporting`](Self::register_reporting)); a failure comes back
    /// after `注册快捷键失败: `.
    pub fn register_shortcut<F, G>(
        &mut self,
        id: &str,
        shortcut: &str,
        app_ready: bool,
        try_register: F,
        release: G,
    ) -> (r: Result<(), String>) where F: Fn(&str) -> Result<(), String>, G: Fn(&str)
        requires
            old(self).wf(),
            forall|p: &str| try_register.requires((p,)),
            forall|p: &str| release.requires((p,)),
        ensures
            final(self).wf(),
            registration_done(
                old(self).registered(),
                final(self).registered(),
                old(self).statuses(),
                final(self).statuses(),
                id@,
                shortcut@,
                registration_failure_prefix(),
                app_ready,
                r,
            ),
            app_ready ==> answered_by(try_register, release, shortcut, registration_failure_prefix(), r),
            final(self).active_keys() == old(self).active_keys(),
            final(self).enabled() == old(self).enabled(),
            final(self).foreground_disabled() == old(self).foreground_disabled(),
            final(self).sync_state() == old(self).sync_state(),
    {
        proof {
            reveal_strlit("注册快捷键失败: ");
        }
        self.register_reporting(id, shortcut, app_ready, "注册快捷键失败: ", try_register, release)
    }

    /// Registers the shortcut that shows or hides the main window, under the id
    /// `toggle` (see [`register_shortcut`](Self::register_shortcut)).
    pub fn register_toggle_hotkey<F, G>(
        &mut self,
        shortcut_str: &str,
        app_ready: bool,
        try_register: F,
        release: G,
    ) -> (r: Result<(), String>) where F: Fn(&str) -> Result<(), String>, G: Fn(&str)
        requires
            old(self).wf(),
            forall|p: &str| try_register.requires((p,)),
            forall|p: &str| release.requires((p,)),
        ensures
            final(self).wf(),
            registration_done(
                old(self).registered(),
                final(self).registered(),
                old(self).statuses(),
                final(self).statuses(),
                "toggle"@,
                shortcut_str@,
                registration_failure_prefix(),
                app_ready,
                r,
            ),
            app_ready ==> answered_by(try_register, release, shortcut_str, registration_failure_prefix(), r),
            final(self).active_keys() == old(self).active_keys(),
            final(self).enabled() == old(self).enabled(),
            final(self).foreground_disabled() == old(self).foreground_disabled(),
            final(self).sync_state() == old(self).sync_state(),
    {
        self.register_shortcut("toggle", shortcut_str, app_ready, try_register, release)
    }

    /// Registers the shortcut of the quick-paste window, under the id
    /// `quickpaste` (see [`register_reporting`](Self::register_reporting)); a
    /// failure comes back after `注册便捷粘贴快捷键失败: `.
    pub fn register_quickpaste_hotkey<F, G>(
        &mut self,
        shortcut_str: &str,
        app_ready: bool,
        try_register: F,
        release: G,
    ) -> (r: Result<(), String>) where F: Fn(&str) -> Result<(), String>, G: Fn(&str)
        requires
            old(self).wf(),
            forall|p: &str| try_register.requires((p,)),
            forall|p: &str| release.requires((p,)),
        ensures
            final(self).wf(),
            registration_done(
                old(self).registered(),
                final(self).registered(),
                old(self).statuses(),
                final(self).statuses(),
                "quickpaste"@,
                shortcut_str@,
                "注册便捷粘贴快捷键失败: "@,
                app_ready,
                r,
            ),
            app_ready ==> answered_by(try_register, release, shortcut_str, "注册便捷粘贴快捷键失败: "@, r),
            final(self).active_keys() == old(self).active_keys(),
            final(self).enabled() == old(self).enabled(),
            final(self).foreground_disabled() == old(self).foreground_disabled(),
            final(self).sync_state() == old(self).sync_state(),
    {
        self.register_reporting(
            "quickpaste",
            shortcut_str,
            app_ready,
            "注册便捷粘贴快捷键失败: ",
            try_register,
            release,
        )
    }

    /// Registers the shortcut that toggles clipboard monitoring, under the id
    /// `toggle_clipboard_monitor` (see [`register_shortcut`](Self::register_shortcut)).
    pub fn register_toggle_clipboard_monitor_hotkey<F, G>(
        &mut self,
        shortcut_str: &str,
        app_ready: bool,
        try_register: F,
        release: G,
    ) -> (r: Result<(), String>) where F: Fn(&str) -> Result<(), String>, G: Fn(&str)
        requires
            old(self).wf(),
            forall|p: &str| try_register.requires((p,)),
            forall|p: &str| release.requires((p,)),
        ensures
            final(self).wf(),
            registration_done(
                old(self).registered(),
                final(self).registered(),
                old(self).statuses(),
                final(self).statuses(),
                "toggle_clipboard_monitor"@,
                shortcut_str@,
                registration_failure_prefix(),
                app_ready,
                r,
            ),
            app_ready ==> answered_by(try_register, release, shortcut_str, registration_failure_prefix(), r),
            final(self).active_keys() == old(self).active_keys(),
            final(self).enabled() == old(self).enabled(),
            final(self).foreground_disabled() == old(self).foreground_disabled(),
            final(self).sync_state() == old(self).sync_state(),
    {
        self.register_shortcut("toggle_clipboard_monitor", shortcut_str, app_ready, try_register, release)
    }

    /// Registers the shortcut that toggles pasting with formatting, under the id
    /// `toggle_paste_with_format` (see [`register_shortcut`](Self::register_shortcut)).
    pub fn register_toggle_paste_with_format_hotkey<F, G>(
        &mut self,
        shortcut_str: &str,
        app_ready: bool,
        try_register: F,
        release: G,
    ) -> (r: Result<(), String>) where F: Fn(&str) -> Result<(), String>, G: Fn(&str)
        requires
            old(self).wf(),
            forall|p: &str| try_register.requires((p,)),
            forall|p: &str| release.requires((p,)),
        ensures
            final(self).wf(),
            registration_done(
                old(self).registered(),
                final(self).registered(),
                old(self).statuses(),
                final(self).statuses(),
                "toggle_paste_with_format"@,
                shortcut_str@,
                registration_failure_prefix(),
                app_ready,
                r,
            ),
            app_ready ==> answered_by(try_register, release, shortcut_str, registration_failure_prefix(), r),
            final(self).active_keys() == old(self).active_keys(),
            final(self).enabled() == old(self).enabled(),
            final(self).foreground_disabled() == old(self).foreground_disabled(),
            final(self).sync_state() == old(self).sync_state(),
    {
        self.register_shortcut("toggle_paste_with_format", shortcut_str, app_ready, try_register, release)
    }

    /// Registers the shortcut that pastes the newest item as plain text, under
    /// the id `paste_plain_text`; a failure comes back after
    /// `注册纯文本粘贴快捷键失败: ` (see [`register_reporting`](Self::register_reporting)).
    pub fn register_paste_plain_text_hotkey<F, G>(
        &mut self,
        shortcut_str: &str,
        app_ready: bool,
        try_register: F,
        release: G,
    ) -> (r: Result<(), String>) where F: Fn(&str) -> Result<(), String>, G: Fn(&str)
        requires
            old(self).wf(),
            forall|p: &str| try_register.requires((p,)),
            forall|p: &str| release.requires((p,)),
        ensures
            final(self).wf(),
            registration_done(
                old(self).registered(),
                final(self).registered(),
                old(self).statuses(),
                final(self).statuses(),
                "paste_plain_text"@,
                shortcut_str@,
                "注册纯文本粘贴快捷键失败: "@,
                app_ready,
                r,
            ),
            app_ready ==> answered_by(try_register, release, shortcut_str, "注册纯文本粘贴快捷键失败: "@, r),
            final(self).active_keys() == old(self).active_keys(),
            final(self).enabled() == old(self).enabled(),
            final(self).foreground_disabled() == old(self).foreground_disabled(),
            final(self).sync_state() == old(self).sync_state(),
    {
        self.register_reporting(
            "paste_plain_text",
            shortcut_str,
            app_ready,
            "注册纯文本粘贴快捷键失败: ",
            try_register,
            release,
        )
    }

    proof fn lemma_number_push_stays_unique(
        &self,
        kept: Seq<(Seq<char>, Seq<char>)>,
        binds: Seq<(Seq<char>, Seq<char>)>,
        i: int,
        ok: Seq<bool>,
        modifier: Seq<char>,
    )
        requires
            self.wf(),
            0 <= i < 9,
            ok.len() == i,
            binds == number_bindings(modifier),
            self.registered() == kept + chosen_bindings(binds.take(i), ok),
            forall|j: int| 0 <= j < kept.len() ==> !is_number_id(#[trigger] kept[j].0),
        ensures
            forall|j: int|
                0 <= j < self.registered().len() ==> #[trigger] self.registered()[j].0 != binds[i].0,
    {
        reveal_strlit("number_");
        let c = chosen_bindings(binds.take(i), ok);
        lemma_chosen_from(binds.take(i), ok);
        assert(binds[i].0.subrange(0, 7) =~= "number_"@);
        assert forall|j: int| 0 <= j < self.registered().len() implies #[trigger] self.registered()[j].0
            != binds[i].0 by {
            assert(is_number_id(binds[i].0));
            if j < kept.len() {
                assert(self.registered()[j] == kept[j]);
            } else {
                assert(self.registered()[j] == c[j - kept.len()]);
                let k = choose|k: int| 0 <= k < binds.take(i).len() && c[j - kept.len()] == binds.take(i)[k];
                assert(binds.take(i)[k] == binds[k]);
                assert(binds[k].0 == number_id((k + 1) as nat));
                lemma_number_ids_differ((k + 1) as nat, (i + 1) as nat);
            }
        }
    }

    /// Registers the nine number shortcuts for a modifier: the earlier number
    /// shortcuts are unregistered (`release` frees each) and the number status is
    /// cleared; then each of `number_1`..`number_9` is asked for in turn (see
    /// [`number_shortcut_bindings`]), with one retry after an "already
    /// registered" answer. Those that succeed are registered, in order, without a
    /// status of their own; if any failed, the status `number_shortcuts` lists
    /// them (see [`number_shortcuts_failure_status`]). Without an initialised
    /// application nothing happens.
    pub fn register_number_shortcuts<F, G>(
        &mut self,
        modifier: &str,
        app_ready: bool,
        try_register: F,
        release: G,
    ) -> (r: Result<(), String>) where F: Fn(&str) -> Result<(), String>, G: Fn(&str)
        requires
            old(self).wf(),
            forall|p: &str| try_register.requires((p,)),
            forall|p: &str| release.requires((p,)),
        ensures
            final(self).wf(),
            !app_ready ==> (r matches Err(m) && m@ == not_initialised_message())
                && final(self).registered() == old(self).registered() && final(self).statuses()
                == old(self).statuses(),
            app_ready ==> forall|j: int|
                0 <= j < number_entries(old(self).registered()).len() ==> released(
                    release,
                    #[trigger] number_entries(old(self).registered())[j].1,
                ),
            app_ready ==> r is Ok && exists|outs: Seq<Result<(), Seq<char>>>|
                outs.len() == 9 && (forall|k: int|
                    0 <= k < 9 ==> #[trigger] answers_text(
                        try_register,
                        release,
                        number_bindings(modifier@)[k].1,
                        outs[k],
                    )) && final(self).registered() == old(self).registered().filter(
                    |p: (Seq<char>, Seq<char>)| !is_number_id(p.0),
                ) + chosen_bindings(number_bindings(modifier@), succeeded(outs)) && if failed_bindings(
                    number_bindings(modifier@),
                    succeeded(outs),
                ).len() == 0 {
                    final(self).statuses() == old(self).statuses().remove(number_status_id())
                } else {
                    final(self).statuses() == old(self).statuses().remove(
                        number_status_id(),
                    ).insert(
                        number_status_id(),
                        StatusView {
                            id: number_status_id(),
                            shortcut: joined(failed_bindings(number_bindings(modifier@), succeeded(outs))),
                            success: false,
                            error: Some(
                                if some_conflict(outs) {
                                    "CONFLICT"@
                                } else {
                                    "REGISTRATION_FAILED"@
                                },
                            ),
                        },
                    )
                },
            final(self).active_keys() == old(self).active_keys(),
            final(self).enabled() == old(self).enabled(),
            final(self).foreground_disabled() == old(self).foreground_disabled(),
            final(self).sync_state() == old(self).sync_state(),
    {
        if !app_ready {
            return Err(owned("热键管理器未初始化"));
        }
        let previous = self.unregister_number_shortcuts();
        let mut k: usize = 0;
        while k < previous.len()
            invariant
                k <= previous.len(),
                forall|p: &str| release.requires((p,)),
                forall|j: int| 0 <= j < k ==> released(release, #[trigger] previous@[j].1@),
            decreases previous.len() - k,
        {
            let sc = previous[k].1.as_str();
            release(sc);
            assert(released(release, sc@));
            k = k + 1;
        }
        assert forall|j: int|
            0 <= j < number_entries(old(self).registered()).len() implies released(
            release,
            #[trigger] number_entries(old(self).registered())[j].1,
        ) by {
            assert(pair_views(previous@)[j] == (previous@[j].0@, previous@[j].1@));
            assert(released(release, previous@[j].1@));
        }
        self.clear_shortcut_status("number_shortcuts");
        proof {
            reveal_strlit("number_shortcuts");
        }
        let ghost kept = self.registered();
        let ghost cleared = self.statuses();
        proof {
            lemma_filter_unique(old(self).registered(), |p: (Seq<char>, Seq<char>)| !is_number_id(p.0));
        }
        let bindings = number_shortcut_bindings(modifier);
        let ghost binds = number_bindings(modifier@);
        assert(pair_views(bindings@) =~= binds) by {
            assert forall|i: int| 0 <= i < 9 implies pair_views(bindings@)[i] == binds[i] by {
                assert(bindings@[i].0@ == number_id((i + 1) as nat));
            }
        }
        let mut failed: Vec<String> = Vec::new();
        let mut has_conflict = false;
        let ghost mut ok: Seq<bool> = Seq::empty();
        let ghost mut outs: Seq<Result<(), Seq<char>>> = Seq::empty();
        let mut i: usize = 0;
        while i < bindings.len()
            invariant
                i <= bindings.len() == 9,
                pair_views(bindings@) == binds,
                binds == number_bindings(modifier@),
                ok.len() == i,
                outs.len() == i,
                ok == succeeded(outs),
                forall|j: int| 0 <= j < i ==> #[trigger] answers_text(
                    try_register,
                    release,
                    binds[j].1,
                    outs[j],
                ),
                has_conflict == some_conflict(outs),
                self.wf(),
                self.registered() == kept + chosen_bindings(binds.take(i as int), ok),
                kept == old(self).registered().filter(|p: (Seq<char>, Seq<char>)| !is_number_id(p.0)),
                forall|j: int| 0 <= j < kept.len() ==> !is_number_id(#[trigger] kept[j].0),
                self.statuses() == cleared,
                views(failed@) == failed_bindings(binds.take(i as int), ok),
                self.active_keys() == old(self).active_keys(),
                self.enabled() == old(self).enabled(),
                self.foreground_disabled() == old(self).foreground_disabled(),
                self.sync_state() == old(self).sync_state(),
                forall|p: &str| try_register.requires((p,)),
                forall|p: &str| release.requires((p,)),
            decreases bindings.len() - i,
        {
            let ghost prev_ok = ok;
            let ghost prev_outs = outs;
            let ghost prev_failed = views(failed@);
            let ghost prev_reg = self.registered();
            let (id, shortcut) = (&bindings[i].0, &bindings[i].1);
            assert(binds.take(i + 1).drop_last() =~= binds.take(i as int));
            assert(binds.take(i + 1).last() == binds[i as int]);
            assert(binds[i as int] == (id@, shortcut@));
            let sc = shortcut.as_str();
            let res = register_with_recovery(sc, &try_register, &release);
            proof {
                assert(answers(try_register, release, sc, outcome_view(res)));
                assert(answers_text(try_register, release, binds[i as int].1, outcome_view(res)));
                outs = prev_outs.push(outcome_view(res));
                assert(forall|j: int| 0 <= j < i ==> outs[j] == prev_outs[j]);
            }
            match res {
                Ok(()) => {
                    proof {
                        self.lemma_number_push_stays_unique(kept, binds, i as int, prev_ok, modifier@);
                    }
                    self.registered.push((id.clone(), shortcut.clone()));
                    proof {
                        ok = prev_ok.push(true);
                        assert(ok.drop_last() =~= prev_ok);
                        assert(ok =~= succeeded(outs));
                        assert(some_conflict(outs) == some_conflict(prev_outs)) by {
                            if some_conflict(outs) {
                                let j = choose|j: int| 0 <= j < outs.len() && conflict_failure(#[trigger] outs[j]);
                                assert(prev_outs[j] == outs[j]);
                            }
                            if some_conflict(prev_outs) {
                                let j = choose|j: int| 0 <= j < prev_outs.len() && conflict_failure(#[trigger] prev_outs[j]);
                                assert(prev_outs[j] == outs[j]);
                            }
                        }
                        assert(self.registered() =~= prev_reg.push((id@, shortcut@)));
                        assert(chosen_bindings(binds.take(i + 1), ok) == chosen_bindings(binds.take(i as int), prev_ok).push(binds[i as int]));
                        assert(failed_bindings(binds.take(i + 1), ok) == failed_bindings(binds.take(i as int), prev_ok));
                        assert(kept + chosen_bindings(binds.take(i + 1), ok) =~= prev_reg.push((id@, shortcut@)));
                    }
                },
                Err(e) => {
                    if is_already_registered_error(e.as_str()) {
                        has_conflict = true;
                    }
                    failed.push(shortcut.clone());
                    proof {
                        ok = prev_ok.push(false);
                        assert(ok.drop_last() =~= prev_ok);
                        assert(ok =~= succeeded(outs));
                        assert(outs[i as int] == Err::<(), Seq<char>>(e@));
                        assert(has_conflict == some_conflict(outs)) by {
                            if some_conflict(outs) {
                                let j = choose|j: int| 0 <= j < outs.len() && conflict_failure(#[trigger] outs[j]);
                                if j < i {
                                    assert(prev_outs[j] == outs[j]);
                                }
                            }
                            if some_conflict(prev_outs) {
                                let j = choose|j: int| 0 <= j < prev_outs.len() && conflict_failure(#[trigger] prev_outs[j]);
                                assert(prev_outs[j] == outs[j]);
                            }
                        }
                        assert(views(failed@) =~= prev_failed.push(shortcut@));
                        assert(chosen_bindings(binds.take(i + 1), ok) == chosen_bindings(binds.take(i as int), prev_ok));
                        assert(failed_bindings(binds.take(i + 1), ok) == failed_bindings(binds.take(i as int), prev_ok).push(binds[i as int].1));
                    }
                },
            }
            i = i + 1;
        }
        assert(binds.take(9) =~= binds);
        match number_shortcuts_failure_status(&failed, has_conflict) {
            Some(st) => {
                let ghost code = if has_conflict {
                    "CONFLICT"@
                } else {
                    "REGISTRATION_FAILED"@
                };
                self.update_shortcut_status(st.id.as_str(), st.shortcut.as_str(), st.success, st.error);
                assert(self.statuses() == cleared.insert(
                    number_status_id(),
                    StatusView {
                        id: number_status_id(),
                        shortcut: joined(failed_bindings(binds, ok)),
                        success: false,
                        error: Some(code),
                    },
                ));
            },
            None => {},
        }
        Ok(())
    }

    /// Whether the user has the hotkeys enabled.
    pub fn is_hotkeys_enabled(&self) -> (r: bool)
        ensures
            r == self.enabled(),
    {
        self.hotkeys_enabled
    }

    /// Whether the foreground application disables all hotkeys.
    pub fn is_foreground_globally_disabled(&self) -> (r: bool)
        ensures
            r == self.foreground_disabled(),
    {
        self.foreground_globally_disabled
    }

    /// Turns the hotkeys on: when they were off, the hotkeys are reloaded from the
    /// settings (see [`HotkeyManager::reload_from_settings`]) and what the reload asks
    /// for is returned; when they were already on, nothing happens.
    pub fn enable_hotkeys(
        &mut self,
        settings: &crate::settings::AppSettings,
        app_ready: bool,
    ) -> (r: Option<(Vec<String>, Vec<HotkeyRequest>)>)
        requires
            old(self).wf(),
        ensures
            final(self).wf(),
            final(self).enabled(),
            old(self).enabled() ==> r is None && *final(self) == *old(self),
            !old(self).enabled() ==> r is Some && final(self).statuses() == Map::<
                Seq<char>,
                StatusView,
            >::empty() && r.unwrap().1@.map_values(|q: HotkeyRequest| request_view(q))
                == reload_requests(settings.view(), old(self).foreground_disabled()),
            !old(self).enabled() && app_ready ==> final(self).registered().len() == 0 && views(
                r.unwrap().0@,
            ) == old(self).registered().map_values(|p: (Seq<char>, Seq<char>)| p.1),
            final(self).active_keys() == old(self).active_keys(),
            final(self).foreground_disabled() == old(self).foreground_disabled(),
            final(self).sync_state() == old(self).sync_state(),
    {
        if self.hotkeys_enabled {
            return None;
        }
        let reloaded = self.reload_from_settings(settings, app_ready);
        self.hotkeys_enabled = true;
        Some(reloaded)
    }

    /// Turns the hotkeys off: when they were on, every registration is dropped and
    /// the shortcuts to unregister are returned; when they were off, nothing happens.
    pub fn disable_hotkeys(&mut self, app_ready: bool) -> (r: Option<Vec<String>>)
        requires
            old(self).wf(),
        ensures
            final(self).wf(),
            !final(self).enabled(),
            !old(self).enabled() ==> r is None && final(self).registered() == old(self).registered()
                && final(self).statuses() == old(self).statuses(),
            old(self).enabled() && app_ready ==> r is Some && final(self).registered().len() == 0
                && views(r->0@) == old(self).registered().map_values(
                |p: (Seq<char>, Seq<char>)| p.1,
            ),
            old(self).enabled() && !app_ready ==> r is Some && r->0@.len() == 0
                && final(self).registered() == old(self).registered(),
            final(self).active_keys() == old(self).active_keys(),
            final(self).foreground_disabled() == old(self).foreground_disabled(),
            final(self).sync_state() == old(self).sync_state(),
    {
        if !self.hotkeys_enabled {
            return None;
        }
        let r = self.unregister_all(app_ready);
        self.hotkeys_enabled = false;
        Some(r)
    }

    /// Records whether the foreground application disables every hotkey, computes
    /// the activation the hotkeys should have, and returns whether a background
    /// worker has to be started to apply it (none is running and it differs from
    /// the applied one).
    pub fn sync_hotkeys_for_foreground(
        &mut self,
        settings_hotkeys_enabled: bool,
        globally_disabled: bool,
    ) -> (r: bool)
        requires
            old(self).wf(),
        ensures
            final(self).wf(),
            final(self).foreground_disabled() == globally_disabled,
            final(self).sync_state().desired == if !settings_hotkeys_enabled || !old(self).enabled()
                || globally_disabled {
                HotkeyActivation::Inactive
            } else {
                HotkeyActivation::Active
            },
            final(self).sync_state().current == old(self).sync_state().current,
            r == (!old(self).sync_state().syncing && final(self).sync_state().current
                != final(self).sync_state().desired),
            final(self).sync_state().syncing == (old(self).sync_state().syncing || r),
            final(self).registered() == old(self).registered(),
            final(self).statuses() == old(self).statuses(),
            final(self).active_keys() == old(self).active_keys(),
            final(self).enabled() == old(self).enabled(),
    {
        self.foreground_globally_disabled = globally_disabled;
        let desired = if !settings_hotkeys_enabled || !self.hotkeys_enabled || globally_disabled {
            HotkeyActivation::Inactive
        } else {
            HotkeyActivation::Active
        };
        self.sync.desired = desired;
        if self.sync.syncing {
            return false;
        }
        if self.sync.current == self.sync.desired {
            return false;
        }
        self.sync.syncing = true;
        true
    }

    /// The activation that the background worker should apply next.
    pub fn next_sync_target(&self) -> (r: HotkeyActivation)
        ensures
            r == self.sync_state().desired,
    {
        self.sync.desired
    }

    /// Records that the worker applied `applied`; returns whether it must go on
    /// (the desired activation changed meanwhile). When it stops, no worker runs.
    pub fn finish_sync_round(&mut self, applied: HotkeyActivation) -> (r: bool)
        requires
            old(self).wf(),
        ensures
            final(self).wf(),
            final(self).sync_state().current == applied,
            final(self).sync_state().desired == old(self).sync_state().desired,
            r == (applied != old(self).sync_state().desired),
            !r ==> !final(self).sync_state().syncing,
            r ==> final(self).sync_state().syncing == old(self).sync_state().syncing,
            final(self).registered() == old(self).registered(),
            final(self).statuses() == old(self).statuses(),
            final(self).active_keys() == old(self).active_keys(),
            final(self).enabled() == old(self).enabled(),
            final(self).foreground_disabled() == old(self).foreground_disabled(),
    {
        self.sync.current = applied;
        if self.sync.current == self.sync.desired {
            self.sync.syncing = false;
            false
        } else {
            true
        }
    }

    /// Drops every registration and every status, and lists the hotkeys that the
    /// settings ask for, in registration order: the main-window toggle, quick paste
    /// (when enabled), the monitor and format toggles, plain-text paste and the
    /// number shortcuts (when enabled), each only when its shortcut is not empty.
    /// Nothing is listed when the hotkeys are off in the settings or the foreground
    /// application disables them.
    pub fn reload_from_settings(
        &mut self,
        settings: &crate::settings::AppSettings,
        app_ready: bool,
    ) -> (r: (Vec<String>, Vec<HotkeyRequest>))
        requires
            old(self).wf(),
        ensures
            final(self).wf(),
            app_ready ==> final(self).registered().len() == 0,
            app_ready ==> views(r.0@) == old(self).registered().map_values(
                |p: (Seq<char>, Seq<char>)| p.1,
            ),
            final(self).statuses() == Map::<Seq<char>, StatusView>::empty(),
            r.1@.map_values(|q: HotkeyRequest| request_view(q)) == reload_requests(
                settings.view(),
                old(self).foreground_disabled(),
            ),
            final(self).active_keys() == old(self).active_keys(),
            final(self).enabled() == old(self).enabled(),
            final(self).foreground_disabled() == old(self).foreground_disabled(),
            final(self).sync_state() == old(self).sync_state(),
    {
        let unregister = self.unregister_all(app_ready);
        self.clear_all_statuses();
        let mut reqs: Vec<HotkeyRequest> = Vec::new();
        let ghost sv = settings.view();
        if settings.hotkeys_enabled && !self.foreground_globally_disabled {
            if !settings.toggle_shortcut.as_str().is_empty() {
                reqs.push(HotkeyRequest::Toggle(settings.toggle_shortcut.clone()));
            }
            if settings.quickpaste_enabled && !settings.quickpaste_shortcut.as_str().is_empty() {
                reqs.push(HotkeyRequest::QuickPaste(settings.quickpaste_shortcut.clone()));
            }
            if !settings.toggle_clipboard_monitor_shortcut.as_str().is_empty() {
                reqs.push(
                    HotkeyRequest::ToggleClipboardMonitor(
                        settings.toggle_clipboard_monitor_shortcut.clone(),
                    ),
                );
            }
            if !settings.toggle_paste_with_format_shortcut.as_str().is_empty() {
                reqs.push(
                    HotkeyRequest::TogglePasteWithFormat(
                        settings.toggle_paste_with_format_shortcut.clone(),
                    ),
                );
            }
            if !settings.paste_plain_text_shortcut.as_str().is_empty() {
                reqs.push(HotkeyRequest::PastePlainText(settings.paste_plain_text_shortcut.clone()));
            }
            if settings.number_shortcuts && !settings.number_shortcuts_modifier.as_str().is_empty() {
                reqs.push(
                    HotkeyRequest::NumberShortcuts(settings.number_shortcuts_modifier.clone()),
                );
            }
            assert(reqs@.map_values(|q: HotkeyRequest| request_view(q)) =~= reload_requests(
                sv,
                false,
            ));
        } else {
            assert(reqs@.map_values(|q: HotkeyRequest| request_view(q)) =~= reload_requests(
                sv,
                self.foreground_globally_disabled,
            ));
        }
        (unregister, reqs)
    }
}

/// The hotkeys that the settings ask for, as (kind, shortcut) pairs; see
/// [`HotkeyManager::reload_from_settings`].
pub open spec fn reload_requests(sv: crate::settings::SettingsView, fg_disabled: bool) -> Seq<
    (int, Seq<char>),
> {
    if !sv.hotkeys_enabled || fg_disabled {
        Seq::empty()
    } else {
        let s = Seq::<(int, Seq<char>)>::empty();
        let s = if sv.toggle_shortcut.len() != 0 {
            s.push((0, sv.toggle_shortcut))
        } else {
            s
        };
        let s = if sv.quickpaste_enabled && sv.quickpaste_shortcut.len() != 0 {
            s.push((1, sv.quickpaste_shortcut))
        } else {
            s
        };
        let s = if sv.toggle_clipboard_monitor_shortcut.len() != 0 {
            s.push((2, sv.toggle_clipboard_monitor_shortcut))
        } else {
            s
        };
        let s = if sv.toggle_paste_with_format_shortcut.len() != 0 {
            s.push((3, sv.toggle_paste_with_format_shortcut))
        } else {
            s
        };
        let s = if sv.paste_plain_text_shortcut.len() != 0 {
            s.push((4, sv.paste_plain_text_shortcut))
        } else {
            s
        };
        if sv.number_shortcuts && sv.number_shortcuts_modifier.len() != 0 {
            s.push((5, sv.number_shortcuts_modifier))
        } else {
            s
        }
    }
}

/// What a press or release of the quick-paste shortcut should do.
#[derive(Clone, Copy, Debug, PartialEq, Eq, Structural)]
pub enum QuickPasteAction {
    /// Nothing.
    Ignore,
    /// Show the quick-paste window.
    Show,
    /// Tell the quick-paste window to hide, then hide it shortly after.
    Hide,
}

/// The quick-paste shortcut's reaction: nothing while the foreground application
/// disables hotkeys; on press, show the window unless it is already shown in
/// keyboard mode (paste on modifier release); on release, hide it unless in
/// keyboard mode.
pub fn quickpaste_action(
    pressed: bool,
    foreground_disabled: bool,
    keyboard_mode: bool,
    window_visible: bool,
) -> (r: QuickPasteAction)
    ensures
        foreground_disabled ==> r == QuickPasteAction::Ignore,
        !foreground_disabled && pressed ==> r == if keyboard_mode && window_visible {
            QuickPasteAction::Ignore
        } else {
            QuickPasteAction::Show
        },
        !foreground_disabled && !pressed ==> r == if keyboard_mode {
            QuickPasteAction::Ignore
        } else {
            QuickPasteAction::Hide
        },
{
    if foreground_disabled {
        QuickPasteAction::Ignore
    } else if pressed {
        if keyboard_mode && window_visible {
            QuickPasteAction::Ignore
        } else {
            QuickPasteAction::Show
        }
    } else if keyboard_mode {
        QuickPasteAction::Ignore
    } else {
        QuickPasteAction::Hide
    }
}

/// What a press or release of a paste shortcut (number or plain text) should do.
#[derive(Clone, Copy, Debug, PartialEq, Eq, Structural)]
pub enum PasteKeyAction {
    /// Nothing.
    Ignore,
    /// First press: select and paste the item.
    PasteItem,
    /// Auto-repeat while held: paste again.
    RepeatPaste,
}

impl HotkeyManager {
    /// Handles a press (`pressed`) or release of a paste shortcut whose key is
    /// `key_id`: the first press pastes the item, further presses while held paste
    /// again, and a release frees the key.
    pub fn paste_key_event(&mut self, key_id: &str, pressed: bool) -> (r: PasteKeyAction)
        requires
            old(self).wf(),
        ensures
            final(self).wf(),
            pressed ==> final(self).active_keys() == old(self).active_keys().insert(key_id@),
            pressed ==> r == if old(self).active_keys().contains(key_id@) {
                PasteKeyAction::RepeatPaste
            } else {
                PasteKeyAction::PasteItem
            },
            !pressed ==> r == PasteKeyAction::Ignore && final(self).active_keys() == old(
                self,
            ).active_keys().remove(key_id@),
            final(self).registered() == old(self).registered(),
            final(self).statuses() == old(self).statuses(),
            final(self).enabled() == old(self).enabled(),
            final(self).foreground_disabled() == old(self).foreground_disabled(),
            final(self).sync_state() == old(self).sync_state(),
    {
        if pressed {
            if self.try_activate_key(key_id) {
                PasteKeyAction::PasteItem
            } else if self.is_key_active(key_id) {
                PasteKeyAction::RepeatPaste
            } else {
                PasteKeyAction::Ignore
            }
        } else {
            self.deactivate_key(key_id);
            PasteKeyAction::Ignore
        }
    }

    /// Frees a paste key after its first press failed, so that the next press retries.
    pub fn paste_failed(&mut self, key_id: &str)
        requires
            old(self).wf(),
        ensures
            final(self).wf(),
            final(self).active_keys() == old(self).active_keys().remove(key_id@),
            final(self).registered() == old(self).registered(),
            final(self).statuses() == old(self).statuses(),
            final(self).enabled() == old(self).enabled(),
            final(self).foreground_disabled() == old(self).foreground_disabled(),
            final(self).sync_state() == old(self).sync_state(),
    {
        self.deactivate_key(key_id);
    }
}

// ---------------------------------------------------------------------------
// Laws.

/// No shortcut id is ever registered twice: every operation of the manager
/// keeps at most one registration per id.
pub proof fn registrations_are_unique(m: &HotkeyManager)
    requires
        m.wf(),
    ensures
        unique_registrations(m.registered()),
{
}

/// A held paste key fires once: activating it again reports it as already
/// active, until it is released, after which it fires again.
pub proof fn paste_key_fires_once_per_press(keys: Set<Seq<char>>, key: Seq<char>)
    ensures
        keys.insert(key).contains(key),
        !keys.insert(key).remove(key).contains(key),
{
}


proof fn lemma_trim_plus_run(p: Seq<char>, t: Seq<char>)
    requires
        p.len() == 0 || p.last() != '+',
        forall|i: int| 0 <= i < t.len() ==> #[trigger] t[i] == '+',
    ensures
        trim_trailing_plus(p + t) == p,
    decreases t.len(),
{
    if t.len() == 0 {
        assert(p + t =~= p);
        if p.len() > 0 {
            assert(p.last() != '+');
        }
    } else {
        assert((p + t).last() == '+');
        assert((p + t).drop_last() =~= p + t.drop_last());
        lemma_trim_plus_run(p, t.drop_last());
    }
}

/// The shortcut of number key `n` (1 to 9): with the modifier `<p>+F` (or `<p>F`,
/// or `<p>` followed by several `+` and `F`), the function key joined to the
/// prefix by exactly one `+`: `<p>+F<n>`; with the modifier `F` alone, `F<n>`;
/// with any modifier `m` not ending in `F`, `m+<n>`. The binding of key `n`
/// has the id `number_<n>`.
pub proof fn number_shortcuts_name_their_keys(p: Seq<char>, pluses: Seq<char>, m: Seq<char>, n: nat)
    requires
        1 <= n <= 9,
        p.len() > 0,
        p.last() != '+',
        forall|i: int| 0 <= i < pluses.len() ==> #[trigger] pluses[i] == '+',
        m.len() > 0,
        m.last() != 'F',
    ensures
        number_shortcut(p + pluses + "F"@, n) == p + "+F"@ + decimal(n),
        number_shortcut("F"@, n) == "F"@ + decimal(n),
        number_shortcut(m, n) == m + "+"@ + decimal(n),
        number_bindings(p + pluses + "F"@)[n - 1] == (
            "number_"@ + decimal(n),
            p + "+F"@ + decimal(n),
        ),
        number_bindings(m)[n - 1] == ("number_"@ + decimal(n), m + "+"@ + decimal(n)),
{
    reveal_strlit("F");
    let mf = p + pluses + "F"@;
    assert(mf.last() == 'F');
    assert(mf.drop_last() =~= p + pluses);
    lemma_trim_plus_run(p, pluses);
    assert("F"@.drop_last() =~= Seq::<char>::empty());
    assert(trim_trailing_plus(Seq::<char>::empty()) == Seq::<char>::empty());
    assert(((n - 1) + 1) as nat == n);
}

} // verus!
