//! Paths of stored images, as text.
//!
//! Both `/` and `\` separate path components, and a leading `<letter>:` is a
//! drive prefix, as on Windows, where the application runs. Joined paths use `/`.
use vstd::prelude::*;
use crate::text::{
    chars_of, contains_seq, lemma_trimmed_chars, find, first_occurrence, has_prefix, occurs_at, join_vecs, replace_char, replaced_char,
    starts_with, string_from, trim, trimmed,
};

verus! {

/// Whether the character separates path components.
pub open spec fn is_sep(c: char) -> bool {
    c == '/' || c == '\\'
}

/// Whether the path begins with a drive prefix such as `C:`.
pub open spec fn has_drive_prefix(s: Seq<char>) -> bool {
    s.len() >= 2 && s[1] == ':' && (('a' <= s[0] && s[0] <= 'z') || ('A' <= s[0] && s[0] <= 'Z'))
}

/// The index of the first separator (the length when there is none).
pub open spec fn first_sep(s: Seq<char>) -> int
    decreases s.len(),
{
    if s.len() == 0 {
        0
    } else if is_sep(s[0]) {
        0
    } else {
        1 + first_sep(s.drop_first())
    }
}

/// Whether the text after a component holds nothing but separators and `.`
/// components: it is empty, or begins with a separator and every other
/// character is a `.` standing alone between separators.
pub open spec fn is_trivial_tail(t: Seq<char>) -> bool {
    (t.len() == 0 || is_sep(t[0])) && forall|i: int|
        0 <= i < t.len() && !is_sep(#[trigger] t[i]) ==> t[i] == '.' && (i == 0 || is_sep(t[i - 1]))
            && (i + 1 == t.len() || is_sep(t[i + 1]))
}

/// The path's only component, when the path consists of exactly one ordinary
/// component (not `.`, not `..`, no root, no drive prefix), followed at most
/// by separators and `.` components.
pub open spec fn single_normal(s: Seq<char>) -> Option<Seq<char>> {
    let k = first_sep(s);
    let name = s.take(k);
    if k > 0 && name != "."@ && name != ".."@ && !has_drive_prefix(s) && is_trivial_tail(s.skip(k)) {
        Some(name)
    } else {
        None
    }
}

proof fn lemma_first_sep(s: Seq<char>)
    ensures
        0 <= first_sep(s) <= s.len(),
        forall|i: int| 0 <= i < first_sep(s) ==> !is_sep(#[trigger] s[i]),
        first_sep(s) < s.len() ==> is_sep(s[first_sep(s)]),
    decreases s.len(),
{
    if s.len() > 0 && !is_sep(s[0]) {
        let t = s.drop_first();
        lemma_first_sep(t);
        assert forall|i: int| 0 <= i < first_sep(s) implies !is_sep(#[trigger] s[i]) by {
            if i > 0 {
                assert(s[i] == t[i - 1]);
            }
        }
        if first_sep(s) < s.len() {
            assert(s[first_sep(s)] == t[first_sep(t)]);
        }
    }
}

proof fn lemma_first_sep_at(s: Seq<char>, k: int)
    requires
        0 <= k <= s.len(),
        forall|i: int| 0 <= i < k ==> !is_sep(#[trigger] s[i]),
        k < s.len() ==> is_sep(s[k]),
    ensures
        first_sep(s) == k,
{
    lemma_first_sep(s);
    if first_sep(s) < k {
        assert(is_sep(s[first_sep(s)]));
    }
    if first_sep(s) > k {
        assert(!is_sep(s[k]));
    }
}

fn is_separator(c: char) -> (r: bool)
    ensures
        r == is_sep(c),
{
    c == '/' || c == '\\'
}

/// The path's only ordinary component, when it consists of exactly one
/// (see [`single_normal`]).
pub fn single_normal_component(path: &Vec<char>) -> (r: Option<Vec<char>>)
    ensures
        match r {
            Some(v) => single_normal(path@) == Some(v@),
            None => single_normal(path@) is None,
        },
{
    let n = path.len();
    let mut k: usize = 0;
    while k < n && !is_separator(path[k])
        invariant
            n == path.len(),
            k <= n,
            forall|i: int| 0 <= i < k ==> !is_sep(#[trigger] path@[i]),
        decreases n - k,
    {
        k = k + 1;
    }
    proof {
        lemma_first_sep_at(path@, k as int);
    }
    if k == 0 {
        return None;
    }
    let mut name: Vec<char> = Vec::new();
    let mut i: usize = 0;
    while i < k
        invariant
            k <= n == path.len(),
            i <= k,
            name@ == path@.take(i as int),
        decreases k - i,
    {
        name.push(path[i]);
        i = i + 1;
        assert(path@.take(i as int) =~= path@.take(i - 1).push(path@[i - 1]));
    }
    let is_dot = name.len() == 1 && name[0] == '.';
    let is_dotdot = name.len() == 2 && name[0] == '.' && name[1] == '.';
    proof {
        if name@ == "."@ {
            reveal_strlit(".");
            assert(is_dot);
        }
        if name@ == ".."@ {
            reveal_strlit("..");
            assert(is_dotdot);
        }
        if is_dot {
            reveal_strlit(".");
            assert(name@ =~= "."@);
        }
        if is_dotdot {
            reveal_strlit("..");
            assert(name@ =~= ".."@);
        }
    }
    if is_dot || is_dotdot {
        return None;
    }
    let drive = n >= 2 && path[1] == ':' && (('a' <= path[0] && path[0] <= 'z') || ('A' <= path[0]
        && path[0] <= 'Z'));
    if drive {
        return None;
    }
    // the rest must hold only separators and lone dots
    let mut j: usize = k;
    while j < n
        invariant
            k <= j <= n == path.len(),
            first_sep(path@) == k,
            k < n ==> is_sep(path@[k as int]),
            forall|x: int|
                k <= x < j && !is_sep(#[trigger] path@[x]) ==> path@[x] == '.' && (x == k || is_sep(
                    path@[x - 1],
                )) && (x + 1 == n || is_sep(path@[x + 1])),
        decreases n - j,
    {
        let c = path[j];
        if !is_separator(c) {
            let ok = c == '.' && (j == k || is_separator(path[j - 1])) && (j + 1 == n || is_separator(path[j + 1]));
            if !ok {
                proof {
                    let t = path@.skip(k as int);
                    assert(t[j - k] == c);
                    if j > k {
                        assert(t[j - k - 1] == path@[j - 1]);
                    }
                    if j + 1 < n {
                        assert(t[j - k + 1] == path@[j + 1]);
                    }
                    assert(!is_trivial_tail(t));
                }
                return None;
            }
        }
        j = j + 1;
    }
    proof {
        let t = path@.skip(k as int);
        assert forall|x: int|
            0 <= x < t.len() && !is_sep(#[trigger] t[x]) implies t[x] == '.' && (x == 0 || is_sep(
                t[x - 1],
            )) && (x + 1 == t.len() || is_sep(t[x + 1])) by {
            assert(t[x] == path@[k + x]);
            if x > 0 {
                assert(t[x - 1] == path@[k + x - 1]);
            }
            if x + 1 < t.len() {
                assert(t[x + 1] == path@[k + x + 1]);
            }
        }
        assert(is_trivial_tail(t));
    }
    Some(name)
}

/// Whether the path consists of exactly one ordinary component.
pub fn is_single_normal_path(path: &str) -> (r: bool)
    ensures
        r == single_normal(path@) is Some,
{
    single_normal_component(&chars_of(path)).is_some()
}

/// `dir` joined with `name` as `Path::join` does with the platform's separator
/// `sep` (`\` on Windows, `/` elsewhere): `name` alone when `dir` is empty, no
/// separator added when `dir` already ends in one, `sep` otherwise.
pub open spec fn joined_path(dir: Seq<char>, name: Seq<char>, sep: char) -> Seq<char> {
    if dir.len() == 0 {
        name
    } else if is_sep(dir.last()) {
        dir + name
    } else {
        dir + seq![sep] + name
    }
}

/// Joins a directory and a relative path.
pub fn join_path(dir: &Vec<char>, name: &Vec<char>, sep: char) -> (r: Vec<char>)
    ensures
        r@ == joined_path(dir@, name@, sep),
{
    if dir.len() == 0 {
        name.clone()
    } else if is_separator(dir[dir.len() - 1]) {
        join_vecs(dir, name)
    } else {
        let mut d = dir.clone();
        d.push(sep);
        assert(d@ == dir@ + seq![sep]);
        join_vecs(&d, name)
    }
}

/// Joins a directory and a relative path, as strings.
pub fn join(dir: &str, name: &str, sep: char) -> (r: String)
    ensures
        r@ == joined_path(dir@, name@, sep),
{
    string_from(&join_path(&chars_of(dir), &chars_of(name), sep))
}

// ---------------------------------------------------------------------------
// Hash keys of stored image paths.

/// The part of a path that identifies a stored image for duplicate detection:
/// backslashes become slashes, and the path is cut to start at the first
/// `clipboard_images/` or, failing that, the first `pin_images/`.
pub open spec fn hash_key(path: Seq<char>) -> Seq<char> {
    let n = replaced_char(path, '\\', '/');
    match first_occurrence(n, "clipboard_images/"@) {
        Some(i) => n.skip(i),
        None => match first_occurrence(n, "pin_images/"@) {
            Some(i) => n.skip(i),
            None => n,
        },
    }
}

fn skip_from(s: &Vec<char>, i: usize) -> (r: Vec<char>)
    requires
        i <= s.len(),
    ensures
        r@ == s@.skip(i as int),
{
    let mut out: Vec<char> = Vec::new();
    let mut j = i;
    while j < s.len()
        invariant
            i <= j <= s.len(),
            out@ == s@.subrange(i as int, j as int),
        decreases s.len() - j,
    {
        out.push(s[j]);
        j = j + 1;
    }
    out
}

/// Normalises a stored path into its duplicate-detection key (see [`hash_key`]).
pub fn normalize_path_for_hash(path: &str) -> (r: String)
    ensures
        r@ == hash_key(path@),
{
    let n = replace_char(&chars_of(path), '\\', '/');
    let p1 = chars_of("clipboard_images/");
    match find(&n, &p1) {
        Some(i) => {
            return string_from(&skip_from(&n, i));
        },
        None => {},
    }
    let p2 = chars_of("pin_images/");
    match find(&n, &p2) {
        Some(i) => string_from(&skip_from(&n, i)),
        None => string_from(&n),
    }
}

// ---------------------------------------------------------------------------
// File names and extensions.

/// The end of the path once trailing separators and `.` components are dropped.
pub open spec fn trimmed_end(s: Seq<char>) -> int
    decreases s.len(),
{
    if s.len() == 0 {
        0
    } else if is_sep(s.last()) {
        trimmed_end(s.drop_last())
    } else if s.last() == '.' && (s.len() == 1 || is_sep(s[s.len() - 2])) {
        trimmed_end(s.drop_last())
    } else {
        s.len() as int
    }
}

/// The index just after the last separator before `e` (0 when there is none).
pub open spec fn segment_start(s: Seq<char>, e: int) -> int
    decreases e,
{
    if e <= 0 {
        0
    } else if is_sep(s[e - 1]) {
        e
    } else {
        segment_start(s, e - 1)
    }
}

/// The last component of the path when it is an ordinary one (`Path::file_name`):
/// `None` for an empty path, a root, a drive prefix alone, or a path ending in `..`.
pub open spec fn file_name(s: Seq<char>) -> Option<Seq<char>> {
    let e = trimmed_end(s);
    let b0 = segment_start(s, e);
    let b = if b0 == 0 && has_drive_prefix(s) && e >= 2 {
        2
    } else {
        b0
    };
    let seg = s.subrange(b, e);
    if seg.len() == 0 || seg == ".."@ {
        None
    } else {
        Some(seg)
    }
}

proof fn lemma_trimmed_end_bound(s: Seq<char>)
    ensures
        0 <= trimmed_end(s) <= s.len(),
    decreases s.len(),
{
    if s.len() > 0 {
        lemma_trimmed_end_bound(s.drop_last());
    }
}

proof fn lemma_segment_start(s: Seq<char>, e: int)
    requires
        0 <= e <= s.len(),
    ensures
        0 <= segment_start(s, e) <= e,
    decreases e,
{
    if e > 0 && !is_sep(s[e - 1]) {
        lemma_segment_start(s, e - 1);
    }
}

/// The last ordinary component of a path (see [`file_name`]).
pub fn file_name_of(s: &Vec<char>) -> (r: Option<Vec<char>>)
    ensures
        match r {
            Some(v) => file_name(s@) == Some(v@),
            None => file_name(s@) is None,
        },
{
    let mut e: usize = s.len();
    assert(s@.take(e as int) =~= s@);
    loop
        invariant
            e <= s.len(),
            trimmed_end(s@.take(e as int)) == trimmed_end(s@),
        ensures
            e <= s.len(),
            trimmed_end(s@) == e,
        decreases e,
    {
        if e == 0 {
            break;
        }
        let c = s[e - 1];
        let strip = is_separator(c) || (c == '.' && (e == 1 || is_separator(s[e - 2])));
        if !strip {
            assert(trimmed_end(s@.take(e as int)) == e);
            break;
        }
        assert(s@.take(e as int).drop_last() =~= s@.take(e - 1));
        if e >= 2 {
            assert(s@.take(e as int)[e - 2] == s@[e - 2]);
        }
        e = e - 1;
    }
    assert(trimmed_end(s@) == e);
    proof {
        lemma_trimmed_end_bound(s@);
    }
    let mut b: usize = e;
    while b > 0 && !is_separator(s[b - 1])
        invariant
            b <= e <= s.len(),
            segment_start(s@, b as int) == segment_start(s@, e as int),
        decreases b,
    {
        b = b - 1;
    }
    assert(segment_start(s@, b as int) == b);
    if b == 0 && s.len() >= 2 && s[1] == ':' && (('a' <= s[0] && s[0] <= 'z') || ('A' <= s[0]
        && s[0] <= 'Z')) && e >= 2 {
        b = 2;
    }
    let mut seg: Vec<char> = Vec::new();
    let mut i = b;
    while i < e
        invariant
            b <= i <= e <= s.len(),
            seg@ == s@.subrange(b as int, i as int),
        decreases e - i,
    {
        seg.push(s[i]);
        i = i + 1;
    }
    let is_dotdot = seg.len() == 2 && seg[0] == '.' && seg[1] == '.';
    proof {
        reveal_strlit("..");
        if seg@ == ".."@ {
            assert(is_dotdot);
        }
        if is_dotdot {
            assert(seg@ =~= ".."@);
        }
    }
    if seg.len() == 0 || is_dotdot {
        None
    } else {
        Some(seg)
    }
}

/// The start of the last component once trailing separators and `.`
/// components are dropped (just after a drive prefix when it has no separator).
pub open spec fn last_component_start(s: Seq<char>) -> int {
    let e = trimmed_end(s);
    let b0 = segment_start(s, e);
    if b0 == 0 && has_drive_prefix(s) && e >= 2 {
        2
    } else {
        b0
    }
}

/// The length of the root of a path: a drive prefix, then one separator if
/// one follows.
pub open spec fn root_len(s: Seq<char>) -> int {
    let d: int = if has_drive_prefix(s) {
        2
    } else {
        0
    };
    if s.len() > d && is_sep(s[d]) {
        d + 1
    } else {
        d
    }
}

/// `q` without the separators at its end, down to at most `floor` characters.
pub open spec fn without_trailing_seps(q: Seq<char>, floor: int) -> Seq<char>
    decreases q.len(),
{
    if q.len() > floor && q.len() > 0 && is_sep(q.last()) {
        without_trailing_seps(q.drop_last(), floor)
    } else {
        q
    }
}

/// The directory that holds the last component of a path (`Path::parent`):
/// the path before that component, without the separators between them but
/// keeping the root; `None` when there is no component (an empty path, a root,
/// a drive prefix alone).
pub open spec fn parent_path(s: Seq<char>) -> Option<Seq<char>> {
    let e = trimmed_end(s);
    let b = last_component_start(s);
    if b >= e {
        None
    } else {
        Some(without_trailing_seps(s.take(b), root_len(s)))
    }
}

/// The directory that holds the last component of a path (see [`parent_path`]).
pub fn parent_dir(path: &str) -> (r: Option<String>)
    ensures
        match r {
            Some(p) => parent_path(path@) == Some(p@),
            None => parent_path(path@) is None,
        },
{
    let s = chars_of(path);
    let mut e: usize = s.len();
    assert(s@.take(e as int) =~= s@);
    loop
        invariant
            e <= s.len(),
            s@ == path@,
            trimmed_end(s@.take(e as int)) == trimmed_end(s@),
        ensures
            e <= s.len(),
            trimmed_end(s@) == e,
        decreases e,
    {
        if e == 0 {
            break;
        }
        let c = s[e - 1];
        let strip = is_separator(c) || (c == '.' && (e == 1 || is_separator(s[e - 2])));
        if !strip {
            assert(trimmed_end(s@.take(e as int)) == e);
            break;
        }
        assert(s@.take(e as int).drop_last() =~= s@.take(e - 1));
        if e >= 2 {
            assert(s@.take(e as int)[e - 2] == s@[e - 2]);
        }
        e = e - 1;
    }
    proof {
        lemma_trimmed_end_bound(s@);
    }
    let mut b: usize = e;
    while b > 0 && !is_separator(s[b - 1])
        invariant
            b <= e <= s.len(),
            segment_start(s@, b as int) == segment_start(s@, e as int),
        decreases b,
    {
        b = b - 1;
    }
    assert(segment_start(s@, b as int) == b);
    let drive = s.len() >= 2 && s[1] == ':' && (('a' <= s[0] && s[0] <= 'z') || ('A' <= s[0]
        && s[0] <= 'Z'));
    if b == 0 && drive && e >= 2 {
        b = 2;
    }
    if b >= e {
        return None;
    }
    let d: usize = if drive {
        2
    } else {
        0
    };
    let root: usize = if s.len() > d && is_separator(s[d]) {
        d + 1
    } else {
        d
    };
    let mut k: usize = b;
    assert(without_trailing_seps(s@.take(k as int), root as int) == without_trailing_seps(
        s@.take(b as int),
        root as int,
    ));
    while k > root && k > 0 && is_separator(s[k - 1])
        invariant
            k <= b <= s.len(),
            without_trailing_seps(s@.take(k as int), root as int) == without_trailing_seps(
                s@.take(b as int),
                root as int,
            ),
        decreases k,
    {
        assert(s@.take(k as int).drop_last() =~= s@.take(k - 1));
        k = k - 1;
    }
    assert(without_trailing_seps(s@.take(k as int), root as int) == s@.take(k as int));
    let mut out: Vec<char> = Vec::new();
    let mut i: usize = 0;
    while i < k
        invariant
            i <= k <= s.len(),
            out@ == s@.take(i as int),
        decreases k - i,
    {
        out.push(s[i]);
        i = i + 1;
        assert(s@.take(i as int) =~= s@.take(i - 1).push(s@[i - 1]));
    }
    Some(string_from(&out))
}

/// The extension of a file name (`Path::extension`): the text after its last
/// `.`, unless there is none or the name begins with its only `.`.
pub open spec fn name_extension(name: Seq<char>) -> Option<Seq<char>> {
    if name.contains('.') {
        let d = last_dot(name);
        if d == 0 {
            None
        } else {
            Some(name.skip(d + 1))
        }
    } else {
        None
    }
}

/// The index of the last `.` in the name (meaningful when it holds one).
pub open spec fn last_dot(name: Seq<char>) -> int
    decreases name.len(),
{
    if name.len() == 0 {
        0
    } else if name.last() == '.' {
        name.len() - 1
    } else {
        last_dot(name.drop_last())
    }
}

proof fn lemma_last_dot(name: Seq<char>, d: int)
    requires
        0 <= d < name.len(),
        name[d] == '.',
        forall|j: int| d < j < name.len() ==> name[j] != '.',
    ensures
        last_dot(name) == d,
    decreases name.len(),
{
    if name.last() != '.' {
        let t = name.drop_last();
        assert(t[d] == '.');
        lemma_last_dot(t, d);
    }
}

/// The extension of a path's file name (`Path::extension`).
pub open spec fn path_extension(path: Seq<char>) -> Option<Seq<char>> {
    match file_name(path) {
        Some(n) => name_extension(n),
        None => None,
    }
}

/// The extension of a file name (see [`name_extension`]).
pub fn extension_of_name(name: &Vec<char>) -> (r: Option<Vec<char>>)
    ensures
        match r {
            Some(v) => name_extension(name@) == Some(v@),
            None => name_extension(name@) is None,
        },
{
    let mut d = name.len();
    while d > 0 && name[d - 1] != '.'
        invariant
            d <= name.len(),
            forall|j: int| d <= j < name.len() ==> name@[j] != '.',
        decreases d,
    {
        d = d - 1;
    }
    if d == 0 {
        assert(!name@.contains('.'));
        return None;
    }
    let dot = d - 1;
    proof {
        lemma_last_dot(name@, dot as int);
        assert(name@.contains('.'));
    }
    if dot == 0 {
        return None;
    }
    Some(skip_from(name, dot + 1))
}

/// The extension of a path's file name, as a string.
pub fn path_extension_of(path: &str) -> (r: Option<String>)
    ensures
        match r {
            Some(v) => path_extension(path@) == Some(v@),
            None => path_extension(path@) is None,
        },
{
    match file_name_of(&chars_of(path)) {
        Some(n) => match extension_of_name(&n) {
            Some(e) => Some(string_from(&e)),
            None => None,
        },
        None => None,
    }
}

// ---------------------------------------------------------------------------
// Image files of a clipboard item.

/// The files that an image reference of a clipboard item denotes in the data
/// directory. The reference is trimmed and its backslashes become slashes;
/// `clipboard_images/<name>` denotes that file when `<name>` is one ordinary
/// component; otherwise the reference's file name (or, when it has none, the
/// trimmed reference) must be one ordinary component and denotes
/// `clipboard_images/<name>`, with `.png` appended when it has no extension.
/// Anything else denotes no file, so no reference reaches outside `clipboard_images`.
pub open spec fn image_files(data_dir: Seq<char>, image_ref: Seq<char>, sep: char) -> Seq<Seq<char>> {
    let normalized = replaced_char(trimmed(image_ref), '\\', '/');
    let images = joined_path(data_dir, "clipboard_images"@, sep);
    if normalized.len() == 0 {
        Seq::empty()
    } else if has_prefix(normalized, "clipboard_images/"@) {
        let relative = normalized.skip(17);
        match single_normal(relative) {
            Some(_) => seq![joined_path(images, relative, sep)],
            None => Seq::empty(),
        }
    } else {
        let name = trimmed(
            match file_name(normalized) {
                Some(n) => n,
                None => image_ref,
            },
        );
        if name.len() == 0 || single_normal(name) is None {
            Seq::empty()
        } else if path_extension(name) is Some {
            seq![joined_path(images, name, sep)]
        } else {
            seq![joined_path(images, name + ".png"@, sep)]
        }
    }
}

/// The files that an image reference denotes (see [`image_files`]).
pub fn resolve_clipboard_image_paths(data_dir: &str, image_ref: &str, sep: char) -> (r: Vec<String>)
    ensures
        r@.map_values(|s: String| s@) == image_files(data_dir@, image_ref@, sep),
{
    let raw = chars_of(image_ref);
    let normalized = replace_char(&trim(&raw), '\\', '/');
    let dir = chars_of(data_dir);
    let images = join_path(&dir, &chars_of("clipboard_images"), sep);
    let mut out: Vec<String> = Vec::new();
    if normalized.len() == 0 {
        assert(out@.map_values(|s: String| s@) =~= image_files(data_dir@, image_ref@, sep));
        return out;
    }
    let prefix = chars_of("clipboard_images/");
    proof {
        reveal_strlit("clipboard_images/");
    }
    if starts_with(&normalized, &prefix) {
        let relative = skip_from(&normalized, 17);
        match single_normal_component(&relative) {
            Some(_) => {
                out.push(string_from(&join_path(&images, &relative, sep)));
            },
            None => {},
        }
        assert(out@.map_values(|s: String| s@) =~= image_files(data_dir@, image_ref@, sep));
        return out;
    }
    let base = match file_name_of(&normalized) {
        Some(n) => n,
        None => raw,
    };
    let name = trim(&base);
    if name.len() == 0 || single_normal_component(&name).is_none() {
        assert(out@.map_values(|s: String| s@) =~= image_files(data_dir@, image_ref@, sep));
        return out;
    }
    let has_ext = match file_name_of(&name) {
        Some(n) => extension_of_name(&n).is_some(),
        None => false,
    };
    if has_ext {
        out.push(string_from(&join_path(&images, &name, sep)));
    } else {
        let with_png = join_vecs(&name, &chars_of(".png"));
        out.push(string_from(&join_path(&images, &with_png, sep)));
    }
    assert(out@.map_values(|s: String| s@) =~= image_files(data_dir@, image_ref@, sep));
    out
}

// ---------------------------------------------------------------------------
// Resolution of stored paths.

/// Whether the path starts with one of the data sub-directories, written with
/// backslashes.
pub open spec fn starts_in_data_dir(p: Seq<char>) -> bool {
    has_prefix(p, "clipboard_images\\"@) || has_prefix(p, "pin_images\\"@) || has_prefix(
        p,
        "image_library\\"@,
    )
}

/// The candidate that `resolve_stored_path` tries for one data sub-directory
/// prefix: the stored path from the prefix on, with backslashes, under the data
/// directory.
pub open spec fn candidate_for(stored: Seq<char>, data_dir: Seq<char>, prefix: Seq<char>, sep: char) -> Option<
    Seq<char>,
> {
    let search = replaced_char(stored, '\\', '/');
    match first_occurrence(search, prefix) {
        Some(i) => Some(joined_path(data_dir, replaced_char(search.skip(i), '/', '\\'), sep)),
        None => None,
    }
}

/// The candidates in the order tried: for `clipboard_images/`, `pin_images/` and
/// `image_library/` in turn, when the stored path contains it.
pub open spec fn stored_path_candidates(stored: Seq<char>, data_dir: Seq<char>, sep: char) -> Seq<Seq<char>> {
    let c1 = candidate_for(stored, data_dir, "clipboard_images/"@, sep);
    let c2 = candidate_for(stored, data_dir, "pin_images/"@, sep);
    let c3 = candidate_for(stored, data_dir, "image_library/"@, sep);
    let s = match c1 {
        Some(c) => seq![c],
        None => Seq::empty(),
    };
    let s = match c2 {
        Some(c) => s.push(c),
        None => s,
    };
    match c3 {
        Some(c) => s.push(c),
        None => s,
    }
}

fn candidate(stored: &Vec<char>, data_dir: &Vec<char>, prefix: &str, sep: char) -> (r: Option<Vec<char>>)
    ensures
        match r {
            Some(v) => candidate_for(stored@, data_dir@, prefix@, sep) == Some(v@),
            None => candidate_for(stored@, data_dir@, prefix@, sep) is None,
        },
{
    let search = replace_char(stored, '\\', '/');
    match find(&search, &chars_of(prefix)) {
        Some(i) => {
            let rel = replace_char(&skip_from(&search, i), '/', '\\');
            Some(join_path(data_dir, &rel, sep))
        },
        None => None,
    }
}

fn push_candidate(out: &mut Vec<String>, c: Option<Vec<char>>)
    ensures
        final(out)@.map_values(|s: String| s@) == match c {
            Some(v) => old(out)@.map_values(|s: String| s@).push(v@),
            None => old(out)@.map_values(|s: String| s@),
        },
{
    let ghost before = out@;
    match c {
        Some(v) => {
            out.push(string_from(&v));
            assert(out@.map_values(|s: String| s@) =~= before.map_values(|s: String| s@).push(v@));
        },
        None => {},
    }
}

/// The candidates of [`stored_path_candidates`].
pub fn candidate_paths(stored_path: &str, data_dir: &str, sep: char) -> (r: Vec<String>)
    ensures
        r@.map_values(|s: String| s@) == stored_path_candidates(stored_path@, data_dir@, sep),
{
    let stored = chars_of(stored_path);
    let dir = chars_of(data_dir);
    let mut out: Vec<String> = Vec::new();
    assert(out@.map_values(|s: String| s@) =~= Seq::<Seq<char>>::empty());
    push_candidate(&mut out, candidate(&stored, &dir, "clipboard_images/", sep));
    push_candidate(&mut out, candidate(&stored, &dir, "pin_images/", sep));
    push_candidate(&mut out, candidate(&stored, &dir, "image_library/", sep));
    proof {
        let c1 = candidate_for(stored_path@, data_dir@, "clipboard_images/"@, sep);
        if c1 is Some {
            assert(Seq::<Seq<char>>::empty().push(c1->0) =~= seq![c1->0]);
        }
    }
    out
}

/// The first candidate from index `i` on that is reported present, if any
/// (`present[j]` for candidate `j`; missing entries count as absent).
pub open spec fn first_present(cs: Seq<Seq<char>>, present: Seq<bool>, i: int) -> Option<Seq<char>>
    decreases cs.len() - i,
{
    if i < 0 || i >= cs.len() {
        None
    } else if i < present.len() && present[i] {
        Some(cs[i])
    } else {
        first_present(cs, present, i + 1)
    }
}

fn pick_present(cs: &Vec<String>, present: &Vec<bool>) -> (r: Option<String>)
    ensures
        match r {
            Some(x) => first_present(cs@.map_values(|s: String| s@), present@, 0) == Some(x@),
            None => first_present(cs@.map_values(|s: String| s@), present@, 0) is None,
        },
{
    let ghost all = cs@.map_values(|s: String| s@);
    let mut i: usize = 0;
    while i < cs.len()
        invariant
            i <= cs.len(),
            all == cs@.map_values(|s: String| s@),
            first_present(all, present@, 0) == first_present(all, present@, i as int),
        decreases cs.len() - i,
    {
        if i < present.len() && present[i] {
            assert(first_present(all, present@, i as int) == Some(all[i as int]));
            assert(all[i as int] == cs@[i as int]@);
            return Some(cs[i].clone());
        }
        i = i + 1;
    }
    None
}

/// The absolute form of a stored image path. A path that starts with
/// `clipboard_images\`, `pin_images\` or `image_library\` (after turning `/` into
/// `\`) lies under the data directory. Otherwise the first candidate of
/// [`stored_path_candidates`] that exists is taken; `present[i]` tells whether
/// candidate `i` exists. Without a data directory, or when no candidate exists,
/// the stored path is kept.
pub fn resolve_stored_path(stored_path: &str, data_dir: Option<&str>, present: &Vec<bool>, sep: char) -> (r:
    String)
    ensures
        ({
            let input = replaced_char(stored_path@, '/', '\\');
            match data_dir {
                None => r@ == stored_path@,
                Some(d) => if starts_in_data_dir(input) {
                    r@ == joined_path(d@, input, sep)
                } else {
                    match first_present(stored_path_candidates(stored_path@, d@, sep), present@, 0) {
                        Some(c) => r@ == c,
                        None => r@ == stored_path@,
                    }
                },
            }
        }),
{
    let stored = chars_of(stored_path);
    let input = replace_char(&stored, '/', '\\');
    let d = match data_dir {
        Some(d) => d,
        None => {
            return crate::text::owned(stored_path);
        },
    };
    let dir = chars_of(d);
    let in_data = starts_with(&input, &chars_of("clipboard_images\\")) || starts_with(
        &input,
        &chars_of("pin_images\\"),
    ) || starts_with(&input, &chars_of("image_library\\"));
    if in_data {
        return string_from(&join_path(&dir, &input, sep));
    }
    let cs = candidate_paths(stored_path, d, sep);
    match pick_present(&cs, present) {
        Some(found) => {
            return found;
        },
        None => {},
    }
    crate::text::owned(stored_path)
}

// ---------------------------------------------------------------------------
// Stored image references never leave the image directory.

/// Whether `q` has a `..` component starting at `i`.
pub open spec fn dotdot_at(q: Seq<char>, i: int) -> bool {
    &&& 0 <= i && i + 1 < q.len()
    &&& q[i] == '.' && q[i + 1] == '.'
    &&& (i == 0 || is_sep(q[i - 1]))
    &&& (i + 2 == q.len() || is_sep(q[i + 2]))
}

/// Whether a relative path stays inside the directory it is joined to: it is
/// not empty, has no root and no drive prefix, and no `..` component.
pub open spec fn stays_inside(q: Seq<char>) -> bool {
    &&& q.len() > 0
    &&& !is_sep(q[0])
    &&& !has_drive_prefix(q)
    &&& forall|i: int| !dotdot_at(q, i)
}

/// A path that is one ordinary component (followed at most by separators and
/// `.` components) stays inside its directory; so does its only component.
pub proof fn single_normal_stays_inside(s: Seq<char>)
    requires
        single_normal(s) is Some,
    ensures
        stays_inside(s),
        stays_inside(single_normal(s)->0),
        forall|i: int| 0 <= i < single_normal(s)->0.len() ==> !is_sep(#[trigger] single_normal(s)->0[i]),
{
    reveal_strlit("..");
    lemma_first_sep(s);
    let k = first_sep(s);
    let name = s.take(k);
    let t = s.skip(k);
    assert(k > 0);
    assert forall|i: int| !dotdot_at(s, i) by {
        if dotdot_at(s, i) {
            if i < k {
                if i > 0 {
                    assert(!is_sep(s[i - 1]));
                }
                if i + 2 < k {
                    assert(!is_sep(s[i + 2]));
                }
                assert(i == 0 && i + 2 >= k);
                if i + 2 == k {
                    assert(name =~= ".."@);
                } else {
                    assert(!is_sep(s[i + 1]));
                    assert(i + 1 < k);
                }
            } else {
                assert(t[i - k] == s[i]);
                assert(t[i + 1 - k] == s[i + 1]);
                assert(!is_sep(t[i - k]));
                assert(i + 1 - k == t.len() || is_sep(t[i + 1 - k]));
            }
        }
    }
    assert(s[0] == name[0]);
    if has_drive_prefix(name) {
        assert(name[1] == s[1] && name[0] == s[0]);
    }
    assert forall|i: int| !dotdot_at(name, i) by {
        if dotdot_at(name, i) {
            if i > 0 {
                assert(!is_sep(name[i - 1]));
            }
            if i + 2 < k {
                assert(!is_sep(name[i + 2]));
            }
            assert(name =~= ".."@);
        }
    }
}

/// A plain name followed by `.png` still stays inside its directory.
proof fn plain_name_with_png_stays_inside(name: Seq<char>)
    requires
        stays_inside(name),
        forall|i: int| 0 <= i < name.len() ==> !is_sep(#[trigger] name[i]),
    ensures
        stays_inside(name + ".png"@),
{
    reveal_strlit(".png");
    let q = name + ".png"@;
    let n = name.len() as int;
    assert(q[0] == name[0]);
    if has_drive_prefix(q) {
        if n >= 2 {
            assert(q[1] == name[1]);
        } else {
            assert(q[1] == '.');
        }
    }
    assert forall|i: int| !dotdot_at(q, i) by {
        if dotdot_at(q, i) {
            if i + 2 < n {
                assert(q[i + 2] == name[i + 2]);
                assert(!is_sep(name[i + 2]));
            } else if i + 2 == n {
                assert(q[n] == '.');
            } else if i == n - 1 {
                assert(q[n + 1] == 'p');
            } else {
                assert(i >= n);
                assert(q[i + 1] != '.' || q[i] != '.');
            }
        }
    }
}

/// Every path that a stored image reference resolves to names an entry of the
/// clipboard image directory: the directory joined with a relative path that
/// has no root, no drive prefix and no `..` component.
pub proof fn resolved_images_stay_inside(data_dir: Seq<char>, image_ref: Seq<char>, sep: char)
    ensures
        forall|k: int|
            0 <= k < image_files(data_dir, image_ref, sep).len() ==> exists|q: Seq<char>|
                stays_inside(q) && #[trigger] image_files(data_dir, image_ref, sep)[k] == joined_path(
                    joined_path(data_dir, "clipboard_images"@, sep),
                    q, sep
                ),
{
    let normalized = replaced_char(trimmed(image_ref), '\\', '/');
    let images = joined_path(data_dir, "clipboard_images"@, sep);
    reveal_strlit("clipboard_images/");
    if normalized.len() == 0 {
    } else if has_prefix(normalized, "clipboard_images/"@) {
        let relative = normalized.skip(17);
        if single_normal(relative) is Some {
            single_normal_stays_inside(relative);
            assert(image_files(data_dir, image_ref, sep)[0] == joined_path(images, relative, sep));
        }
    } else {
        let name = trimmed(
            match file_name(normalized) {
                Some(n) => n,
                None => image_ref,
            },
        );
        if name.len() == 0 || single_normal(name) is None {
        } else {
            single_normal_stays_inside(name);
            if path_extension(name) is Some {
                assert(image_files(data_dir, image_ref, sep)[0] == joined_path(images, name, sep));
            } else {
                let sn = single_normal(name)->0;
                if sn == name {
                    plain_name_with_png_stays_inside(name);
                } else {
                    lemma_png_after_component(name);
                }
                assert(image_files(data_dir, image_ref, sep)[0] == joined_path(images, name + ".png"@, sep));
            }
        }
    }
}

/// A path that is one ordinary component followed by separators and `.`
/// components still stays inside its directory when `.png` is added to it.
proof fn lemma_png_after_component(name: Seq<char>)
    requires
        single_normal(name) is Some,
    ensures
        stays_inside(name + ".png"@),
{
    reveal_strlit(".png");
    single_normal_stays_inside(name);
    lemma_first_sep(name);
    let q = name + ".png"@;
    let n = name.len() as int;
    assert(q[0] == name[0]);
    if has_drive_prefix(q) {
        if n >= 2 {
            assert(q[1] == name[1]);
        } else {
            assert(q[1] == '.');
        }
    }
    assert forall|i: int| !dotdot_at(q, i) by {
        if dotdot_at(q, i) {
            if i + 2 < n {
                assert(q[i] == name[i] && q[i + 1] == name[i + 1] && q[i + 2] == name[i + 2]);
                if i > 0 {
                    assert(q[i - 1] == name[i - 1]);
                }
                assert(dotdot_at(name, i));
            } else if i + 2 == n {
                assert(q[n] == '.');
            } else if i == n - 1 {
                assert(q[n + 1] == 'p');
            } else {
                assert(q[i + 1] != '.' || q[i] != '.');
            }
        }
    }
}

// ---------------------------------------------------------------------------
// The files that deleting clipboard records removes.

/// The characters of each string.
pub open spec fn string_seqs(s: Seq<String>) -> Seq<Seq<char>> {
    s.map_values(|x: String| x@)
}

/// The files that a list of stored image references resolve to, reference by
/// reference.
pub open spec fn resolved_for_all(data_dir: Seq<char>, refs: Seq<Seq<char>>, sep: char) -> Seq<Seq<char>>
    decreases refs.len(),
{
    if refs.len() == 0 {
        Seq::empty()
    } else {
        resolved_for_all(data_dir, refs.drop_last(), sep) + image_files(data_dir, refs.last(), sep)
    }
}

/// The paths in order, each kept at its first occurrence only.
pub open spec fn without_repeats(s: Seq<Seq<char>>) -> Seq<Seq<char>>
    decreases s.len(),
{
    if s.len() == 0 {
        Seq::empty()
    } else if s.drop_last().contains(s.last()) {
        without_repeats(s.drop_last())
    } else {
        without_repeats(s.drop_last()).push(s.last())
    }
}

proof fn lemma_without_repeats_contains(s: Seq<Seq<char>>, x: Seq<char>)
    ensures
        without_repeats(s).contains(x) <==> s.contains(x),
    decreases s.len(),
{
    if s.len() > 0 {
        lemma_without_repeats_contains(s.drop_last(), x);
        if s.drop_last().contains(x) {
            let i = choose|i: int| 0 <= i < s.drop_last().len() && s.drop_last()[i] == x;
            assert(s[i] == x);
        }
        if s.contains(x) {
            let i = choose|i: int| 0 <= i < s.len() && s[i] == x;
            if i < s.len() - 1 {
                assert(s.drop_last()[i] == x);
            }
        }
        if without_repeats(s.drop_last()).contains(x) {
        }
        let w = without_repeats(s.drop_last());
        if !s.drop_last().contains(s.last()) {
            assert(w.push(s.last())[w.len() as int] == s.last());
            if w.push(s.last()).contains(x) {
                let i = choose|i: int| 0 <= i < w.push(s.last()).len() && w.push(s.last())[i] == x;
                if i < w.len() {
                    assert(w[i] == x);
                }
            }
            if w.contains(x) {
                let i = choose|i: int| 0 <= i < w.len() && w[i] == x;
                assert(w.push(s.last())[i] == x);
            }
        }
    }
}

fn contains_path(v: &Vec<String>, p: &str) -> (r: bool)
    ensures
        r == string_seqs(v@).contains(p@),
{
    let mut i: usize = 0;
    while i < v.len()
        invariant
            i <= v.len(),
            forall|j: int| 0 <= j < i ==> v@[j]@ != p@,
        decreases v.len() - i,
    {
        if crate::text::str_eq(v[i].as_str(), p) {
            assert(string_seqs(v@)[i as int] == p@);
            return true;
        }
        i = i + 1;
    }
    false
}

/// The files that deleting records with these image references removes (if
/// they exist): the files each reference resolves to, each file once.
pub fn clipboard_image_paths_to_delete(data_dir: &str, image_refs: &Vec<String>, sep: char) -> (r: Vec<String>)
    ensures
        string_seqs(r@) == without_repeats(resolved_for_all(data_dir@, string_seqs(image_refs@), sep)),
{
    let mut all: Vec<String> = Vec::new();
    let mut i: usize = 0;
    while i < image_refs.len()
        invariant
            i <= image_refs.len(),
            string_seqs(all@) == resolved_for_all(data_dir@, string_seqs(image_refs@).take(i as int), sep),
        decreases image_refs.len() - i,
    {
        let ghost before = string_seqs(all@);
        let found = resolve_clipboard_image_paths(data_dir, image_refs[i].as_str(), sep);
        assert(string_seqs(found@) == found@.map_values(|s: String| s@));
        let mut k: usize = 0;
        while k < found.len()
            invariant
                k <= found.len(),
                string_seqs(all@) == before + string_seqs(found@).take(k as int),
            decreases found.len() - k,
        {
            let ghost prev = string_seqs(all@);
            let c = found[k].clone();
            all.push(c);
            assert(string_seqs(all@) =~= prev.push(c@));
            assert(string_seqs(found@).take(k + 1) =~= string_seqs(found@).take(k as int).push(found@[k as int]@));
            assert(string_seqs(all@) =~= before + string_seqs(found@).take(k + 1));
            k = k + 1;
        }
        assert(string_seqs(found@).take(found.len() as int) =~= string_seqs(found@));
        assert(string_seqs(image_refs@).take(i + 1).drop_last() =~= string_seqs(image_refs@).take(i as int));
        assert(string_seqs(image_refs@).take(i + 1).last() == image_refs@[i as int]@);
        i = i + 1;
    }
    assert(string_seqs(image_refs@).take(image_refs.len() as int) =~= string_seqs(image_refs@));
    let ghost whole = string_seqs(all@);
    let mut out: Vec<String> = Vec::new();
    let mut j: usize = 0;
    while j < all.len()
        invariant
            j <= all.len(),
            whole == string_seqs(all@),
            string_seqs(out@) == without_repeats(whole.take(j as int)),
        decreases all.len() - j,
    {
        let ghost before = string_seqs(out@);
        assert(whole.take(j + 1).drop_last() =~= whole.take(j as int));
        assert(whole.take(j + 1).last() == all@[j as int]@);
        proof {
            lemma_without_repeats_contains(whole.take(j as int), all@[j as int]@);
        }
        if !contains_path(&out, all[j].as_str()) {
            let c = all[j].clone();
            out.push(c);
            assert(string_seqs(out@) =~= before.push(all@[j as int]@));
        }
        j = j + 1;
    }
    assert(whole.take(all.len() as int) =~= whole);
    out
}

/// Every file that deleting clipboard records removes lies in the clipboard
/// image directory: no image reference reaches a file outside it.
pub proof fn deleted_files_stay_inside(data_dir: Seq<char>, refs: Seq<Seq<char>>, p: Seq<char>, sep: char)
    requires
        without_repeats(resolved_for_all(data_dir, refs, sep)).contains(p),
    ensures
        exists|q: Seq<char>|
            stays_inside(q) && p == joined_path(joined_path(data_dir, "clipboard_images"@, sep), q, sep),
    decreases refs.len(),
{
    lemma_without_repeats_contains(resolved_for_all(data_dir, refs, sep), p);
    let all = resolved_for_all(data_dir, refs, sep);
    let i = choose|i: int| 0 <= i < all.len() && all[i] == p;
    let pre = resolved_for_all(data_dir, refs.drop_last(), sep);
    let last = image_files(data_dir, refs.last(), sep);
    if i < pre.len() {
        assert(pre[i] == p);
        assert(pre.contains(p));
        lemma_without_repeats_contains(pre, p);
        deleted_files_stay_inside(data_dir, refs.drop_last(), p, sep);
    } else {
        resolved_images_stay_inside(data_dir, refs.last(), sep);
        assert(last[i - pre.len()] == p);
    }
}

/// A path with no backslash is left as it is by turning backslashes into slashes.
proof fn lemma_no_backslash_unchanged(s: Seq<char>)
    requires
        !s.contains('\\'),
    ensures
        replaced_char(s, '\\', '/') == s,
{
    assert forall|i: int| 0 <= i < s.len() implies replaced_char(s, '\\', '/')[i] == s[i] by {
        if s[i] == '\\' {
            assert(s.contains('\\'));
        }
    }
    assert(replaced_char(s, '\\', '/') =~= s);
}

/// Below any occurrence of `p` lies a first one.
proof fn lemma_minimal_occurrence(s: Seq<char>, p: Seq<char>, w: int)
    requires
        occurs_at(s, p, w),
    ensures
        exists|i: int| occurs_at(s, p, i) && forall|j: int| 0 <= j < i ==> !occurs_at(s, p, j),
    decreases w,
{
    if exists|j: int| 0 <= j < w && occurs_at(s, p, j) {
        let j = choose|j: int| 0 <= j < w && occurs_at(s, p, j);
        lemma_minimal_occurrence(s, p, j);
    }
}

/// The first occurrence is an occurrence with none before it.
proof fn lemma_first_occurrence(s: Seq<char>, p: Seq<char>)
    ensures
        match first_occurrence(s, p) {
            Some(i) => occurs_at(s, p, i) && forall|j: int| 0 <= j < i ==> !occurs_at(s, p, j),
            None => !contains_seq(s, p),
        },
{
    if contains_seq(s, p) {
        let w = choose|w: int| occurs_at(s, p, w);
        lemma_minimal_occurrence(s, p, w);
    }
}

/// A text that starts with `p` has its first occurrence of `p` at 0.
proof fn lemma_first_occurrence_at_start(s: Seq<char>, p: Seq<char>)
    requires
        has_prefix(s, p),
    ensures
        first_occurrence(s, p) == Some(0int),
{
    assert(occurs_at(s, p, 0));
    lemma_first_occurrence(s, p);
    let i = first_occurrence(s, p)->0;
    if i > 0 {
        assert(!occurs_at(s, p, 0));
    }
}

/// The duplicate-detection key of a path is its own key, and holds no backslash:
/// normalising a key again changes nothing.
pub proof fn hash_key_is_a_fixed_point(path: Seq<char>)
    ensures
        hash_key(hash_key(path)) == hash_key(path),
        !hash_key(path).contains('\\'),
{
    reveal_strlit("clipboard_images/");
    reveal_strlit("pin_images/");
    let n = replaced_char(path, '\\', '/');
    let a = "clipboard_images/"@;
    let b = "pin_images/"@;
    assert(!n.contains('\\')) by {
        if n.contains('\\') {
            let i = choose|i: int| 0 <= i < n.len() && n[i] == '\\';
            assert(n[i] == (if path[i] == '\\' { '/' } else { path[i] }));
        }
    }
    let k = hash_key(path);
    lemma_first_occurrence(n, a);
    lemma_first_occurrence(n, b);
    match first_occurrence(n, a) {
        Some(i) => {
            assert(occurs_at(n, a, i));
            assert(k == n.skip(i));
            assert(k.subrange(0, a.len() as int) =~= n.subrange(i, i + a.len()));
        },
        None => match first_occurrence(n, b) {
            Some(i) => {
                assert(occurs_at(n, b, i));
                assert(k == n.skip(i));
                assert(k.subrange(0, b.len() as int) =~= n.subrange(i, i + b.len()));
            },
            None => {},
        },
    }
    assert(!k.contains('\\')) by {
        if k.contains('\\') {
            let j = choose|j: int| 0 <= j < k.len() && k[j] == '\\';
            assert(n.contains('\\')) by {
                let off = n.len() - k.len();
                assert(n[off + j] == k[j]);
            }
        }
    }
    lemma_no_backslash_unchanged(k);
    match first_occurrence(n, a) {
        Some(i) => {
            lemma_first_occurrence_at_start(k, a);
            assert(k.skip(0) =~= k);
        },
        None => {
            assert(!contains_seq(n, a));
            assert(!contains_seq(k, a)) by {
                if contains_seq(k, a) {
                    let j = choose|j: int| occurs_at(k, a, j);
                    let off = n.len() - k.len();
                    assert(n.subrange(off + j, off + j + a.len()) =~= k.subrange(j, j + a.len()));
                    assert(occurs_at(n, a, off + j));
                }
            }
            match first_occurrence(n, b) {
                Some(i) => {
                    lemma_first_occurrence_at_start(k, b);
                    assert(k.skip(0) =~= k);
                },
                None => {},
            }
        },
    }
}


/// Whether the last character of a path is not dropped as a trailing `.`
/// component or separator: it is no separator, and a final `.` follows a
/// character other than a separator.
pub open spec fn ends_in_component(p: Seq<char>) -> bool {
    p.len() > 0 && !is_sep(p.last()) && !(p.last() == '.' && (p.len() == 1 || is_sep(p[p.len() - 2])))
}

/// Separators and `.` components after a component are dropped from the end.
proof fn lemma_trimmed_end_tail(p: Seq<char>, t: Seq<char>)
    requires
        ends_in_component(p),
        is_trivial_tail(t),
    ensures
        trimmed_end(p + t) == p.len(),
    decreases t.len(),
{
    if t.len() == 0 {
        assert(p + t =~= p);
    } else {
        let s = p + t;
        let n = t.len() - 1;
        assert(s.last() == t[n]);
        assert(s.drop_last() =~= p + t.drop_last());
        let u = t.drop_last();
        assert(is_trivial_tail(u)) by {
            assert forall|i: int| 0 <= i < u.len() && !is_sep(#[trigger] u[i]) implies u[i] == '.' && (i
                == 0 || is_sep(u[i - 1])) && (i + 1 == u.len() || is_sep(u[i + 1])) by {
                assert(u[i] == t[i]);
                if i > 0 {
                    assert(u[i - 1] == t[i - 1]);
                }
                if i + 1 < u.len() {
                    assert(u[i + 1] == t[i + 1]);
                }
            }
        }
        if !is_sep(t[n]) {
            assert(t[n] == '.');
            if n == 0 {
                assert(is_sep(t[0]));
            }
            assert(is_sep(t[n - 1]));
            assert(s[s.len() - 2] == t[n - 1]);
        }
        lemma_trimmed_end_tail(p, u);
    }
}

/// Where no separator lies in `[base, e)` and a separator (or the start) lies
/// just before `base`, the segment ending at `e` starts at `base`.
proof fn lemma_segment_start_at(s: Seq<char>, base: int, e: int)
    requires
        0 <= base <= e <= s.len(),
        base == 0 || is_sep(s[base - 1]),
        forall|j: int| base <= j < e ==> !is_sep(#[trigger] s[j]),
    ensures
        segment_start(s, e) == base,
    decreases e,
{
    if e > base {
        lemma_segment_start_at(s, base, e - 1);
    }
}

/// No separator lies inside the last segment.
proof fn lemma_segment_has_no_sep(s: Seq<char>, e: int)
    requires
        0 <= e <= s.len(),
    ensures
        forall|j: int| segment_start(s, e) <= j < e ==> !is_sep(#[trigger] s[j]),
    decreases e,
{
    if e > 0 && !is_sep(s[e - 1]) {
        lemma_segment_has_no_sep(s, e - 1);
    }
}

/// A path's file name holds no separator.
proof fn lemma_file_name_has_no_sep(s: Seq<char>)
    ensures
        file_name(s) matches Some(n) ==> forall|j: int| 0 <= j < n.len() ==> !is_sep(#[trigger] n[j]),
{
    let e = trimmed_end(s);
    lemma_trimmed_end_bound(s);
    lemma_segment_start(s, e);
    lemma_segment_has_no_sep(s, e);
    let b0 = segment_start(s, e);
    let b = if b0 == 0 && has_drive_prefix(s) && e >= 2 {
        2
    } else {
        b0
    };
    if let Some(n) = file_name(s) {
        assert forall|j: int| 0 <= j < n.len() implies !is_sep(#[trigger] n[j]) by {
            assert(n[j] == s[b + j]);
        }
    }
}

/// A path without separators is one ordinary component when it is not empty,
/// `.`, `..` or a drive prefix.
proof fn lemma_plain_single_normal(s: Seq<char>)
    requires
        forall|j: int| 0 <= j < s.len() ==> !is_sep(#[trigger] s[j]),
        s.len() > 0,
        s != "."@,
        s != ".."@,
        !has_drive_prefix(s),
    ensures
        single_normal(s) == Some(s),
{
    lemma_first_sep(s);
    if first_sep(s) < s.len() {
        assert(is_sep(s[first_sep(s)]));
    }
    assert(s.take(s.len() as int) =~= s);
    assert(s.skip(s.len() as int).len() == 0);
}

/// A directory ending in an ordinary character, joined with a path that is one
/// ordinary component (followed at most by separators and `.` components):
/// the result's parent is the directory and its file name the component.
proof fn lemma_parent_of_joined(dir: Seq<char>, q: Seq<char>, sep: char)
    requires
        is_sep(sep),
        dir.len() >= 3,
        !is_sep(dir.last()),
        single_normal(q) is Some,
    ensures
        parent_path(joined_path(dir, q, sep)) == Some(dir),
        file_name(joined_path(dir, q, sep)) == single_normal(q),
{
    reveal_strlit("..");
    reveal_strlit(".");
    lemma_first_sep(q);
    let k = first_sep(q);
    let name = q.take(k);
    let tail = q.skip(k);
    let base: int = dir.len() as int + 1;
    let x = joined_path(dir, q, sep);
    let p = dir + seq![sep] + name;
    assert(x == dir + seq![sep] + q);
    assert(x =~= p + tail);
    assert(p.last() == name.last());
    if name.last() == '.' {
        assert(name.len() != 1) by {
            if name.len() == 1 {
                assert(name =~= "."@);
            }
        }
        assert(p[p.len() - 2] == name[name.len() - 2]);
    }
    lemma_trimmed_end_tail(p, tail);
    let e = p.len() as int;
    assert(trimmed_end(x) == e);
    assert forall|j: int| base <= j < e implies !is_sep(#[trigger] x[j]) by {
        assert(x[j] == name[j - base]);
        assert(name[j - base] == q[j - base]);
    }
    assert(x[base - 1] == sep);
    lemma_segment_start_at(x, base, e);
    assert(last_component_start(x) == base);
    assert(x.take(base) =~= dir.push(sep));
    assert(root_len(x) <= 3);
    assert(dir.push(sep).drop_last() =~= dir);
    assert(without_trailing_seps(dir, root_len(x)) == dir);
    assert(without_trailing_seps(dir.push(sep), root_len(x)) == dir);
    assert(x.subrange(base, e) =~= name);
}

/// Turning backslashes into slashes keeps the length, where the separators are,
/// and every other character.
proof fn lemma_replaced_same_shape(t: Seq<char>)
    ensures
        replaced_char(t, '\\', '/').len() == t.len(),
        forall|j: int|
            0 <= j < t.len() ==> (is_sep(#[trigger] replaced_char(t, '\\', '/')[j]) == is_sep(t[j])
                && (!is_sep(t[j]) ==> replaced_char(t, '\\', '/')[j] == t[j])),
{
}

/// When the trimmed reference is one ordinary component, so is its file name:
/// the reference has a file name.
proof fn lemma_single_normal_has_file_name(t: Seq<char>)
    requires
        single_normal(t) is Some,
    ensures
        file_name(replaced_char(t, '\\', '/')) is Some,
{
    reveal_strlit("..");
    reveal_strlit(".");
    lemma_first_sep(t);
    lemma_replaced_same_shape(t);
    let n = replaced_char(t, '\\', '/');
    let k = first_sep(t);
    let name = n.take(k);
    assert(name =~= t.take(k)) by {
        assert forall|j: int| 0 <= j < k implies name[j] == t.take(k)[j] by {
            assert(!is_sep(t[j]));
        }
    }
    let tail = n.skip(k);
    let tt = t.skip(k);
    assert(is_trivial_tail(tail)) by {
        assert forall|i: int| 0 <= i < tail.len() && !is_sep(#[trigger] tail[i]) implies tail[i] == '.' && (i
            == 0 || is_sep(tail[i - 1])) && (i + 1 == tail.len() || is_sep(tail[i + 1])) by {
            assert(tail[i] == n[k + i]);
            assert(tt[i] == t[k + i]);
            assert(!is_sep(tt[i]));
            if i > 0 {
                assert(tail[i - 1] == n[k + i - 1]);
                assert(tt[i - 1] == t[k + i - 1]);
            }
            if i + 1 < tail.len() {
                assert(tail[i + 1] == n[k + i + 1]);
                assert(tt[i + 1] == t[k + i + 1]);
            }
        }
        if tail.len() > 0 {
            assert(tail[0] == n[k]);
            assert(tt[0] == t[k]);
        }
    }
    if name.last() == '.' {
        assert(name.len() != 1) by {
            if name.len() == 1 {
                assert(t.take(k) =~= "."@);
            }
        }
    }
    assert(n =~= name + tail);
    lemma_trimmed_end_tail(name, tail);
    assert forall|j: int| 0 <= j < k implies !is_sep(#[trigger] n[j]) by {
        assert(!is_sep(t[j]));
    }
    lemma_segment_start_at(n, 0, k);
    assert(!has_drive_prefix(n)) by {
        if n.len() >= 2 {
            if t[0] == '\\' {
                assert(n[0] == '/');
            }
            if t[1] == '\\' {
                assert(n[1] == '/');
            }
        }
    }
    assert(n.subrange(0, k) =~= t.take(k));
}

/// The last character of the image directory is its name's last, an ordinary one.
proof fn lemma_image_dir_shape(data_dir: Seq<char>, sep: char)
    ensures
        joined_path(data_dir, "clipboard_images"@, sep).len() >= 16,
        !is_sep(joined_path(data_dir, "clipboard_images"@, sep).last()),
{
    reveal_strlit("clipboard_images");
    let c = "clipboard_images"@;
    let j = joined_path(data_dir, c, sep);
    assert(j.last() == c.last());
}

/// Every path that an image reference resolves to lies directly in the
/// clipboard image directory: its parent is that directory, and it has a
/// file name.
pub proof fn resolved_images_sit_in_image_directory(data_dir: Seq<char>, image_ref: Seq<char>, sep: char)
    requires
        is_sep(sep),
    ensures
        forall|k: int|
            0 <= k < image_files(data_dir, image_ref, sep).len() ==> parent_path(
                #[trigger] image_files(data_dir, image_ref, sep)[k],
            ) == Some(joined_path(data_dir, "clipboard_images"@, sep)) && file_name(
                image_files(data_dir, image_ref, sep)[k],
            ) is Some,
{
    reveal_strlit("clipboard_images/");
    reveal_strlit(".png");
    reveal_strlit("..");
    reveal_strlit(".");
    let normalized = replaced_char(trimmed(image_ref), '\\', '/');
    let images = joined_path(data_dir, "clipboard_images"@, sep);
    lemma_image_dir_shape(data_dir, sep);
    if normalized.len() == 0 {
    } else if has_prefix(normalized, "clipboard_images/"@) {
        let relative = normalized.skip(17);
        if single_normal(relative) is Some {
            lemma_parent_of_joined(images, relative, sep);
        }
    } else {
        let name = trimmed(
            match file_name(normalized) {
                Some(n) => n,
                None => image_ref,
            },
        );
        if name.len() == 0 || single_normal(name) is None {
        } else {
            match file_name(normalized) {
                Some(n) => {
                    lemma_file_name_has_no_sep(normalized);
                    lemma_trimmed_chars(n);
                    assert forall|j: int| 0 <= j < name.len() implies !is_sep(#[trigger] name[j]) by {
                        assert(n.contains(name[j]));
                        let i = choose|i: int| 0 <= i < n.len() && n[i] == name[j];
                    }
                    lemma_first_sep(name);
                    if first_sep(name) < name.len() {
                        assert(is_sep(name[first_sep(name)]));
                    }
                    assert(name.take(first_sep(name)) =~= name);
                    if path_extension(name) is Some {
                        lemma_parent_of_joined(images, name, sep);
                    } else {
                        let named = name + ".png"@;
                        assert forall|j: int| 0 <= j < named.len() implies !is_sep(#[trigger] named[j]) by {
                            if j >= name.len() {
                                assert(named[j] == ".png"@[j - name.len()]);
                            } else {
                                assert(named[j] == name[j]);
                            }
                        }
                        assert(named != "."@ && named != ".."@) by {
                            if named.len() <= 2 {
                                assert(named.len() >= 4);
                            }
                        }
                        assert(!has_drive_prefix(named)) by {
                            if name.len() >= 2 {
                                assert(named[1] == name[1]);
                                assert(named[0] == name[0]);
                            } else {
                                assert(named[1] == '.');
                            }
                        }
                        lemma_plain_single_normal(named);
                        lemma_parent_of_joined(images, named, sep);
                    }
                },
                None => {
                    lemma_single_normal_has_file_name(trimmed(image_ref));
                },
            }
        }
    }
}


/// A plain file name `stem.ext` (no separators, no other dot, no drive
/// prefix), alone or joined to a directory, has the extension `ext`.
pub proof fn plain_name_extension(dir: Seq<char>, stem: Seq<char>, ext: Seq<char>, sep: char)
    requires
        is_sep(sep),
        dir.len() == 0 || (dir.len() >= 3 && !is_sep(dir.last())),
        stem.len() > 0,
        ext.len() > 0,
        forall|i: int| 0 <= i < stem.len() ==> #[trigger] stem[i] != '.' && !is_sep(stem[i]) && stem[i] != ':',
        forall|i: int| 0 <= i < ext.len() ==> #[trigger] ext[i] != '.' && !is_sep(ext[i]),
    ensures
        path_extension(joined_path(dir, stem + "."@ + ext, sep)) == Some(ext),
{
    reveal_strlit(".");
    reveal_strlit("..");
    let q = stem + "."@ + ext;
    let d = stem.len() as int;
    assert(q[d] == '.');
    assert forall|j: int| 0 <= j < q.len() implies !is_sep(#[trigger] q[j]) by {
        if j < d {
            assert(q[j] == stem[j]);
        } else if j > d {
            assert(q[j] == ext[j - d - 1]);
        }
    }
    assert(q.last() == ext.last());
    assert(!has_drive_prefix(q)) by {
        if q.len() >= 2 {
            if d >= 2 {
                assert(q[1] == stem[1]);
            } else {
                assert(q[1] == '.');
            }
        }
    }
    assert(q != "."@ && q != ".."@) by {
        assert(q.len() >= 3);
    }
    lemma_plain_single_normal(q);
    if dir.len() == 0 {
        assert(joined_path(dir, q, sep) == q);
        assert(ends_in_component(q));
        lemma_trimmed_end_tail(q, Seq::empty());
        assert(q + Seq::<char>::empty() =~= q);
        lemma_segment_start_at(q, 0, q.len() as int);
        assert(q.subrange(0, q.len() as int) =~= q);
        assert(file_name(q) == Some(q));
    } else {
        lemma_parent_of_joined(dir, q, sep);
    }
    assert forall|j: int| d < j < q.len() implies q[j] != '.' by {
        assert(q[j] == ext[j - d - 1]);
    }
    lemma_last_dot(q, d);
    assert(q.contains('.'));
    assert(q.skip(d + 1) =~= ext);
}


/// When the stored path (its backslashes turned into slashes) first contains
/// `clipboard_images/` at index `i`, the first candidate is the data directory
/// joined with the stored path from `i` on, its slashes turned into
/// backslashes; and when that candidate exists, a stored path that does not
/// already start in the data directory resolves to it.
pub proof fn clipboard_image_candidate_comes_first(
    stored: Seq<char>,
    data_dir: Seq<char>,
    sep: char,
    i: int,
)
    requires
        occurs_at(replaced_char(stored, '\\', '/'), "clipboard_images/"@, i),
        forall|j: int| 0 <= j < i ==> !occurs_at(replaced_char(stored, '\\', '/'), "clipboard_images/"@, j),
    ensures
        stored_path_candidates(stored, data_dir, sep).len() >= 1,
        stored_path_candidates(stored, data_dir, sep)[0] == joined_path(
            data_dir,
            replaced_char(replaced_char(stored, '\\', '/').skip(i), '/', '\\'),
            sep,
        ),
        first_present(stored_path_candidates(stored, data_dir, sep), seq![true], 0) == Some(
            joined_path(data_dir, replaced_char(replaced_char(stored, '\\', '/').skip(i), '/', '\\'), sep),
        ),
{
    let search = replaced_char(stored, '\\', '/');
    let a = "clipboard_images/"@;
    lemma_first_occurrence(search, a);
    let f = first_occurrence(search, a);
    assert(f is Some);
    let k = f->0;
    if k < i {
        assert(!occurs_at(search, a, k));
    }
    if i < k {
        assert(!occurs_at(search, a, i));
    }
    assert(k == i);
    let c = joined_path(data_dir, replaced_char(search.skip(i), '/', '\\'), sep);
    assert(candidate_for(stored, data_dir, a, sep) == Some(c));
    let c2 = candidate_for(stored, data_dir, "pin_images/"@, sep);
    let c3 = candidate_for(stored, data_dir, "image_library/"@, sep);
    let s1 = seq![c];
    let s2 = match c2 {
        Some(x) => s1.push(x),
        None => s1,
    };
    let s3 = match c3 {
        Some(x) => s2.push(x),
        None => s2,
    };
    assert(stored_path_candidates(stored, data_dir, sep) == s3);
    assert(s3[0] == c);
}

} // verus!
