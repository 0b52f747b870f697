//! Clipboard capture: the monitor's running state, duplicate suppression by
//! content hash, and the rules that decide how a captured item is stored.
use vstd::prelude::*;
use crate::text::{
    chars_of, concat, contains, contains_seq, has_prefix, owned, starts_with, str_eq, string_from,
    trim, trimmed,
};
use crate::paths::{hash_key, normalize_path_for_hash};
use crate::hotkey::{copy_opt, opt_view};
use sha2::Digest;

verus! {

// ---------------------------------------------------------------------------
// SHA-256 (sha2 crate).

/// The SHA-256 digest of the bytes, as computed by `sha2::Sha256`.
pub uninterp spec fn sha256(data: Seq<u8>) -> Seq<u8>;

/// `sha2::Sha256::digest`: the 32-byte SHA-256 digest of the data. The contract
/// names the digest and states its length; the digest's value is not stated.
#[verifier::external_body]
fn sha256_digest(data: &[u8]) -> (r: Vec<u8>)
    ensures
        r@ == sha256(data@),
        r@.len() == 32,
{
    sha2::Sha256::digest(data).to_vec()
}

/// The lower-case hexadecimal digit for `d < 16`.
pub open spec fn hex_digit(d: int) -> char {
    if d < 10 {
        (('0' as u32) + d) as char
    } else {
        (('a' as u32) + d - 10) as char
    }
}

/// The lower-case hexadecimal text of the bytes, two digits per byte.
pub open spec fn hex_lower(data: Seq<u8>) -> Seq<char>
    decreases data.len(),
{
    if data.len() == 0 {
        Seq::empty()
    } else {
        hex_lower(data.drop_last()).push(hex_digit((data.last() / 16) as int)).push(
            hex_digit((data.last() % 16) as int),
        )
    }
}

fn hex_char(d: u8) -> (r: char)
    requires
        d < 16,
    ensures
        r == hex_digit(d as int),
{
    if d < 10 {
        (d + 48) as char
    } else {
        (d + 87) as char
    }
}

/// Formats bytes as lower-case hexadecimal (`{:x}` of a digest).
pub fn to_hex_lower(data: &Vec<u8>) -> (r: String)
    ensures
        r@ == hex_lower(data@),
{
    let mut out = String::new();
    let mut i: usize = 0;
    while i < data.len()
        invariant
            i <= data.len(),
            out@ == hex_lower(data@.take(i as int)),
        decreases data.len() - i,
    {
        let b = data[i];
        crate::text::push_char(&mut out, hex_char(b / 16));
        crate::text::push_char(&mut out, hex_char(b % 16));
        i = i + 1;
        assert(data@.take(i as int).drop_last() =~= data@.take(i - 1));
    }
    assert(data@.take(data.len() as int) =~= data@);
    out
}

/// The UTF-8 bytes of the strings, one after another.
pub open spec fn utf8_concat(items: Seq<Seq<char>>) -> Seq<u8>
    decreases items.len(),
{
    if items.len() == 0 {
        Seq::empty()
    } else {
        utf8_concat(items.drop_last()) + vstd::utf8::encode_utf8(items.last())
    }
}

fn append_bytes(buf: &mut Vec<u8>, s: &str)
    ensures
        final(buf)@ == old(buf)@ + vstd::utf8::encode_utf8(s@),
{
    let b = s.as_bytes();
    let ghost start = buf@;
    let mut i: usize = 0;
    while i < b.len()
        invariant
            i <= b.len(),
            buf@ == start + b@.take(i as int),
        decreases b.len() - i,
    {
        buf.push(b[i]);
        i = i + 1;
        assert(b@.take(i as int) =~= b@.take(i - 1).push(b@[i - 1]));
    }
    assert(b@.take(b.len() as int) =~= b@);
}

/// The hash of a text: SHA-256 of its UTF-8 bytes, in lower-case hexadecimal.
pub open spec fn text_hash(text: Seq<char>) -> Seq<char> {
    hex_lower(sha256(vstd::utf8::encode_utf8(text)))
}

/// The hash of a list of file paths: SHA-256 of the UTF-8 bytes of their
/// duplicate-detection keys (see `hash_key`), one after another.
pub open spec fn paths_hash(paths: Seq<Seq<char>>) -> Seq<char> {
    hex_lower(sha256(utf8_concat(paths.map_values(|p: Seq<char>| hash_key(p)))))
}

// ---------------------------------------------------------------------------
// JSON (serde_json crate).

#[verifier::external_type_specification]
#[verifier::external_body]
pub struct ExJsonValue(serde_json::Value);

/// What `serde_json::from_str::<Value>` gives for the text: the document, when
/// the text is JSON.
pub uninterp spec fn json_document(text: Seq<char>) -> Option<serde_json::Value>;

/// Whether `serde_json` accepts the text as a JSON document.
pub open spec fn json_parses(text: Seq<char>) -> bool {
    json_document(text) is Some
}

/// `serde_json::from_str::<Value>`: the parsed document, when the text is JSON.
/// The contract names the outcome.
#[verifier::external_body]
fn parse_json(text: &str) -> (r: Option<serde_json::Value>)
    ensures
        r == json_document(text@),
{
    serde_json::from_str::<serde_json::Value>(text).ok()
}

/// What `Value[key]` gives: the member under the key, or `Null` when there is
/// none or the value is not an object.
pub uninterp spec fn json_member_of(v: serde_json::Value, key: Seq<char>) -> serde_json::Value;

/// `Value[key]` (`Index<&str>`); the contract names its result.
#[verifier::external_body]
fn json_member<'a>(v: &'a serde_json::Value, key: &str) -> (r: &'a serde_json::Value)
    ensures
        *r == json_member_of(*v, key@),
{
    &v[key]
}

/// What `Value::as_array` gives: the elements when the value is an array.
pub uninterp spec fn json_array_of(v: serde_json::Value) -> Option<Seq<serde_json::Value>>;

/// `Value::as_array`; the contract names its result.
#[verifier::external_body]
fn json_as_array(v: &serde_json::Value) -> (r: Option<&Vec<serde_json::Value>>)
    ensures
        match r {
            Some(a) => json_array_of(*v) == Some(a@),
            None => json_array_of(*v) is None,
        },
{
    v.as_array()
}

/// What `Value::as_str` gives: the text when the value is a string.
pub uninterp spec fn json_str_of(v: serde_json::Value) -> Option<Seq<char>>;

/// `Value::as_str`; the contract names its result.
#[verifier::external_body]
fn json_as_str(v: &serde_json::Value) -> (r: Option<&str>)
    ensures
        match r {
            Some(t) => json_str_of(*v) == Some(t@),
            None => json_str_of(*v) is None,
        },
{
    v.as_str()
}

/// The string `path` members of the file entries, in order; entries without
/// one are skipped.
pub open spec fn paths_of_files(files: Seq<serde_json::Value>) -> Seq<Seq<char>>
    decreases files.len(),
{
    if files.len() == 0 {
        Seq::empty()
    } else {
        let rest = paths_of_files(files.drop_last());
        match json_str_of(json_member_of(files.last(), "path"@)) {
            Some(p) => rest.push(p),
            None => rest,
        }
    }
}

/// The paths of a file-list document: those of the entries of its `files`
/// array (none when it has no such array).
pub open spec fn file_list_paths(doc: serde_json::Value) -> Seq<Seq<char>> {
    match json_array_of(json_member_of(doc, "files"@)) {
        Some(files) => paths_of_files(files),
        None => Seq::empty(),
    }
}

/// The `path` strings of the elements of the `files` array of a file-list
/// document, in order; elements without a string `path` are skipped.
fn extract_file_paths(json: &serde_json::Value) -> (r: Vec<String>)
    ensures
        r@.map_values(|s: String| s@) == file_list_paths(*json),
{
    let mut out: Vec<String> = Vec::new();
    match json_as_array(json_member(json, "files")) {
        Some(files) => {
            let mut i: usize = 0;
            while i < files.len()
                invariant
                    i <= files.len(),
                    out@.map_values(|s: String| s@) == paths_of_files(files@.take(i as int)),
                decreases files.len() - i,
            {
                let ghost before = out@.map_values(|s: String| s@);
                assert(files@.take(i as int + 1).drop_last() =~= files@.take(i as int));
                match json_as_str(json_member(&files[i], "path")) {
                    Some(p) => {
                        out.push(owned(p));
                        assert(out@.map_values(|s: String| s@) =~= before.push(p@));
                    },
                    None => {},
                }
                i = i + 1;
            }
            assert(files@.take(files@.len() as int) =~= files@);
        },
        None => {},
    }
    assert(out@.map_values(|s: String| s@) =~= file_list_paths(*json));
    out
}

/// Whether the two lists hold the same paths, each as often, in any order
/// (equivalently: the sorted lists are equal).
pub fn same_paths(a: &Vec<String>, b: &Vec<String>) -> (r: bool)
    ensures
        r == (a@.map_values(|s: String| s@).to_multiset() =~= b@.map_values(
            |s: String| s@,
        ).to_multiset()),
{
    broadcast use vstd::seq_lib::group_to_multiset_ensures, vstd::multiset::group_multiset_axioms;

    let ghost av = a@.map_values(|s: String| s@);
    let ghost bv = b@.map_values(|s: String| s@);
    let mut rest: Vec<String> = b.clone();
    assert(rest@.map_values(|s: String| s@) =~= bv) by {
        assert forall|k: int| 0 <= k < b.len() implies rest@[k]@ == b@[k]@ by {
            assert(cloned::<String>(b@[k], rest@[k]));
        }
    }
    let mut i: usize = 0;
    while i < a.len()
        invariant
            i <= a.len(),
            av == a@.map_values(|s: String| s@),
            bv == b@.map_values(|s: String| s@),
            av.take(i as int).to_multiset().add(rest@.map_values(|s: String| s@).to_multiset())
                =~= bv.to_multiset(),
        decreases a.len() - i,
    {
        let ghost rv = rest@.map_values(|s: String| s@);
        let pos = index_of_string(&rest, a[i].as_str());
        assert(av.take(i + 1) =~= av.take(i as int).push(av[i as int]));
        let j = match pos {
            Some(j) => j,
            None => {
                proof {
                    assert(!rv.contains(av[i as int]));
                    let x = av[i as int];
                    rv.to_multiset_ensures();
                    av.take(i as int).to_multiset_ensures();
                    assert(rv.to_multiset().count(x) == 0);
                    assert(av.take(i + 1).to_multiset().count(x) == av.take(i as int).to_multiset().count(x) + 1);
                    assert(av.take(i as int + 1) + av.skip(i as int + 1) =~= av);
                    vstd::seq_lib::lemma_multiset_commutative(av.take(i + 1), av.skip(i + 1));
                    assert(av.to_multiset().count(x) >= av.take(i + 1).to_multiset().count(x));
                    assert(bv.to_multiset().count(x) == av.take(i as int).to_multiset().count(x));
                }
                return false;
            },
        };
        proof {
            assert(rv[j as int] == av[i as int]);
        }
        rest.remove(j);
        proof {
            assert(rest@.map_values(|s: String| s@) =~= rv.remove(j as int));
            rv.to_multiset_ensures();
            av.take(i as int).to_multiset_ensures();
            assert(rv.remove(j as int).to_multiset() =~= rv.to_multiset().remove(av[i as int]));
            assert(av.take(i + 1).to_multiset() =~= av.take(i as int).to_multiset().insert(av[i as int]));
            assert(rv.to_multiset().count(av[i as int]) > 0);
        }
        i = i + 1;
    }
    assert(av.take(a.len() as int) =~= av);
    if rest.len() == 0 {
        assert(rest@.map_values(|s: String| s@) =~= Seq::<Seq<char>>::empty());
        true
    } else {
        proof {
            assert(av.to_multiset().len() + rest@.map_values(|s: String| s@).to_multiset().len()
                == bv.to_multiset().len());
        }
        false
    }
}

fn index_of_string(v: &Vec<String>, s: &str) -> (r: Option<usize>)
    ensures
        match r {
            Some(j) => j < v.len() && v@[j as int]@ == s@,
            None => !v@.map_values(|x: String| x@).contains(s@),
        },
{
    let mut j: usize = 0;
    while j < v.len()
        invariant
            j <= v.len(),
            forall|k: int| 0 <= k < j ==> v@[k]@ != s@,
        decreases v.len() - j,
    {
        if str_eq(v[j].as_str(), s) {
            return Some(j);
        }
        j = j + 1;
    }
    proof {
        let vv = v@.map_values(|x: String| x@);
        if vv.contains(s@) {
            let k = choose|k: int| 0 <= k < vv.len() && vv[k] == s@;
            assert(v@[k]@ == s@);
        }
    }
    None
}

/// Whether two file-list documents (the JSON after `files:`) list the same
/// paths, each as often, in any order; false when either does not parse.
pub open spec fn same_file_lists(json1: Seq<char>, json2: Seq<char>) -> bool {
    match (json_document(json1), json_document(json2)) {
        (Some(a), Some(b)) => file_list_paths(a).to_multiset() =~= file_list_paths(b).to_multiset(),
        _ => false,
    }
}

/// Whether two captured contents denote the same files. Contents that are not
/// both file lists (`files:` followed by JSON) are the same when equal; two
/// file lists are the same when their `path` entries agree in any order; a file
/// list whose JSON does not parse is never the same as anything.
pub fn compare_file_contents(content1: &str, content2: &str) -> (r: bool)
    ensures
        !(has_prefix(content1@, "files:"@) && has_prefix(content2@, "files:"@)) ==> r == (content1@
            == content2@),
        has_prefix(content1@, "files:"@) && has_prefix(content2@, "files:"@) ==> r == same_file_lists(
            content1@.skip(6),
            content2@.skip(6),
        ),
{
    let c1 = chars_of(content1);
    let c2 = chars_of(content2);
    let prefix = chars_of("files:");
    if !starts_with(&c1, &prefix) || !starts_with(&c2, &prefix) {
        return str_eq(content1, content2);
    }
    proof {
        reveal_strlit("files:");
    }
    let rest1 = string_from(&skip6(&c1));
    let rest2 = string_from(&skip6(&c2));
    let json1 = match parse_json(rest1.as_str()) {
        Some(j) => j,
        None => {
            return false;
        },
    };
    let json2 = match parse_json(rest2.as_str()) {
        Some(j) => j,
        None => {
            return false;
        },
    };
    same_paths(&extract_file_paths(&json1), &extract_file_paths(&json2))
}

fn skip6(s: &Vec<char>) -> (r: Vec<char>)
    requires
        s.len() >= 6,
    ensures
        r@ == s@.skip(6),
{
    let mut out: Vec<char> = Vec::new();
    let mut j: usize = 6;
    while j < s.len()
        invariant
            6 <= j <= s.len(),
            out@ == s@.subrange(6, j as int),
        decreases s.len() - j,
    {
        out.push(s[j]);
        j = j + 1;
    }
    out
}

// ---------------------------------------------------------------------------
// The clipboard monitor.

/// The handler that a clipboard watcher calls; it belongs to one start of the monitor.
pub struct ClipboardMonitorManager {
    pub generation: u64,
}

impl ClipboardMonitorManager {
    /// A handler for the given start of the monitor.
    pub fn new(generation: u64) -> (r: Result<ClipboardMonitorManager, String>)
        ensures
            (r matches Ok(m) && m.generation == generation),
    {
        Ok(ClipboardMonitorManager { generation })
    }
}

/// The monitor's state: whether it runs, which start is current, whether its
/// worker takes captured contents, and the hashes of the contents captured last
/// (for duplicate suppression).
pub struct ClipboardMonitorState {
    running: bool,
    generation: u64,
    worker: bool,
    last_hashes: Vec<String>,
}

/// The characters of each string.
pub open spec fn views(s: Seq<String>) -> Seq<Seq<char>> {
    s.map_values(|x: String| x@)
}

impl ClipboardMonitorState {
    /// Whether the monitor runs.
    pub closed spec fn running(&self) -> bool {
        self.running
    }

    /// The number of the current start.
    pub closed spec fn generation(&self) -> u64 {
        self.generation
    }

    /// The hashes of the contents captured last.
    pub closed spec fn last_hashes(&self) -> Seq<Seq<char>> {
        views(self.last_hashes@)
    }

    /// Whether a worker takes captured contents (from a start until the next stop).
    pub closed spec fn worker_up(&self) -> bool {
        self.worker
    }

    /// A stopped monitor that has captured nothing.
    pub fn new() -> (r: ClipboardMonitorState)
        ensures
            !r.running(),
            r.generation() == 0,
            !r.worker_up(),
            r.last_hashes().len() == 0,
    {
        ClipboardMonitorState { running: false, generation: 0, worker: false, last_hashes: Vec::new() }
    }

    /// Forgets the last captured contents, so that the same content is captured again.
    pub fn clear_last_content_cache(&mut self)
        ensures
            final(self).last_hashes().len() == 0,
            final(self).running() == old(self).running(),
            final(self).generation() == old(self).generation(),
            final(self).worker_up() == old(self).worker_up(),
    {
        self.last_hashes = Vec::new();
    }

    /// Whether the monitor runs.
    pub fn is_monitor_running(&self) -> (r: bool)
        ensures
            r == self.running(),
    {
        self.running
    }

    /// Stops the monitor and its worker: captured contents are refused from now
    /// on (see [`enqueue_check`](Self::enqueue_check)) until the monitor is
    /// started again; stopping a stopped monitor changes nothing.
    pub fn stop_clipboard_monitor(&mut self) -> (r: Result<(), String>)
        ensures
            r is Ok,
            !final(self).running(),
            !final(self).worker_up(),
            final(self).generation() == old(self).generation(),
            final(self).last_hashes() == old(self).last_hashes(),
    {
        self.running = false;
        self.worker = false;
        Ok(())
    }

    /// Whether captured contents can be handed to the worker: the error
    /// `剪贴板工作线程未启动` when no worker runs (before the first start or after a stop).
    pub fn enqueue_check(&self) -> (r: Result<(), String>)
        ensures
            r is Ok <==> self.worker_up(),
            r matches Err(m) ==> m@ == "剪贴板工作线程未启动"@,
    {
        if self.worker {
            Ok(())
        } else {
            Err(owned("剪贴板工作线程未启动"))
        }
    }

    /// Begins a start of the monitor: nothing when it runs already; otherwise it is
    /// stopped and the next start number is returned, for the new watcher.
    pub fn begin_start(&mut self) -> (r: Option<u64>)
        requires
            old(self).generation() < u64::MAX,
        ensures
            old(self).running() ==> r is None && final(self).running() && final(self).generation()
                == old(self).generation(),
            !old(self).running() ==> r == Some((old(self).generation() + 1) as u64)
                && final(self).generation() == old(self).generation() + 1 && !final(self).running(),
            final(self).last_hashes() == old(self).last_hashes(),
            final(self).worker_up() == old(self).worker_up(),
    {
        if self.running {
            return None;
        }
        self.running = false;
        self.generation = self.generation + 1;
        Some(self.generation)
    }

    /// Records that the watcher and the worker of the current start are up.
    pub fn mark_running(&mut self)
        ensures
            final(self).running(),
            final(self).worker_up(),
            final(self).generation() == old(self).generation(),
            final(self).last_hashes() == old(self).last_hashes(),
    {
        self.running = true;
        self.worker = true;
    }

    /// Whether a change seen by the handler of start `generation` is to be handled:
    /// only while the monitor runs and that start is the current one.
    pub fn should_handle_change(&self, generation: u64) -> (r: bool)
        ensures
            r == (self.running() && generation == self.generation()),
    {
        self.running && generation == self.generation
    }

    /// Takes the hashes of freshly captured contents and returns the positions of
    /// those to store: none when the capture equals the last one exactly;
    /// otherwise those whose hash was not in the last capture, after which this
    /// capture becomes the last one.
    pub fn take_new_contents(&mut self, current_hashes: &Vec<String>) -> (r: Vec<usize>)
        ensures
            old(self).last_hashes() == views(current_hashes@) ==> r@.len() == 0
                && final(self).last_hashes() == old(self).last_hashes(),
            old(self).last_hashes() != views(current_hashes@) ==> final(self).last_hashes()
                == views(current_hashes@) && r@ == new_positions(
                views(current_hashes@),
                old(self).last_hashes(),
            ),
            final(self).running() == old(self).running(),
            final(self).generation() == old(self).generation(),
            final(self).worker_up() == old(self).worker_up(),
    {
        let mut out: Vec<usize> = Vec::new();
        if same_hashes(&self.last_hashes, current_hashes) {
            return out;
        }
        let ghost last = views(self.last_hashes@);
        let ghost cur = views(current_hashes@);
        let mut i: usize = 0;
        while i < current_hashes.len()
            invariant
                i <= current_hashes.len(),
                last == views(self.last_hashes@),
                cur == views(current_hashes@),
                out@ == new_positions(cur.take(i as int), last),
            decreases current_hashes.len() - i,
        {
            assert(cur.take(i + 1).drop_last() =~= cur.take(i as int));
            assert(cur.take(i + 1).last() == cur[i as int]);
            if !contains_string(&self.last_hashes, current_hashes[i].as_str()) {
                out.push(i);
            }
            i = i + 1;
        }
        assert(cur.take(current_hashes.len() as int) =~= cur);
        self.last_hashes = copy_strings(current_hashes);
        out
    }

    /// Presets the last capture to a text, so that copying it back is not captured.
    pub fn set_last_hash_text(&mut self, text: &str)
        ensures
            final(self).last_hashes() == seq![text_hash(text@)],
            final(self).running() == old(self).running(),
            final(self).generation() == old(self).generation(),
            final(self).worker_up() == old(self).worker_up(),
    {
        let mut bytes: Vec<u8> = Vec::new();
        append_bytes(&mut bytes, text);
        let digest = sha256_digest(bytes.as_slice());
        let hash = to_hex_lower(&digest);
        let mut v: Vec<String> = Vec::new();
        v.push(hash);
        assert(views(v@) =~= seq![text_hash(text@)]);
        self.last_hashes = v;
    }

    /// Presets the last capture to one file path.
    pub fn set_last_hash_file(&mut self, file_path: &str)
        ensures
            final(self).last_hashes() == seq![paths_hash(seq![file_path@])],
            final(self).running() == old(self).running(),
            final(self).generation() == old(self).generation(),
            final(self).worker_up() == old(self).worker_up(),
    {
        let mut v: Vec<String> = Vec::new();
        v.push(owned(file_path));
        self.set_last_hash_paths(&v);
        assert(views(v@) =~= seq![file_path@]);
    }

    /// Presets the last capture to a list of file paths.
    pub fn set_last_hash_paths(&mut self, paths: &Vec<String>)
        ensures
            final(self).last_hashes() == seq![paths_hash(views(paths@))],
            final(self).running() == old(self).running(),
            final(self).generation() == old(self).generation(),
            final(self).worker_up() == old(self).worker_up(),
    {
        let keys = hash_keys(paths);
        let bytes = concat_utf8(&keys);
        let digest = sha256_digest(bytes.as_slice());
        let hash = to_hex_lower(&digest);
        let mut v: Vec<String> = Vec::new();
        v.push(hash);
        assert(views(v@) =~= seq![paths_hash(views(paths@))]);
        self.last_hashes = v;
    }

    /// Presets the last capture to the files of a file-list content
    /// (`files:` followed by JSON with a `files` array of objects with a `path`).
    /// Other contents, or JSON that does not parse, change nothing.
    pub fn set_last_hash_files(&mut self, content: &str)
        ensures
            !has_prefix(content@, "files:"@) ==> final(self).last_hashes() == old(self).last_hashes(),
            has_prefix(content@, "files:"@) && !json_parses(content@.skip(6))
                ==> final(self).last_hashes() == old(self).last_hashes(),
            has_prefix(content@, "files:"@) && json_parses(content@.skip(6))
                ==> final(self).last_hashes() == seq![
                    paths_hash(file_list_paths(json_document(content@.skip(6))->0)),
                ],
            final(self).running() == old(self).running(),
            final(self).generation() == old(self).generation(),
            final(self).worker_up() == old(self).worker_up(),
    {
        let c = chars_of(content);
        let prefix = chars_of("files:");
        if !starts_with(&c, &prefix) {
            return;
        }
        proof {
            reveal_strlit("files:");
        }
        let rest = string_from(&skip6(&c));
        match parse_json(rest.as_str()) {
            Some(json) => {
                let paths = extract_file_paths(&json);
                self.set_last_hash_paths(&paths);
            },
            None => {},
        }
    }
}

fn hash_keys(paths: &Vec<String>) -> (r: Vec<String>)
    ensures
        views(r@) == views(paths@).map_values(|p: Seq<char>| hash_key(p)),
{
    let mut out: Vec<String> = Vec::new();
    let mut i: usize = 0;
    while i < paths.len()
        invariant
            i <= paths.len(),
            out.len() == i,
            forall|j: int| 0 <= j < i ==> #[trigger] out@[j]@ == hash_key(paths@[j]@),
        decreases paths.len() - i,
    {
        out.push(normalize_path_for_hash(paths[i].as_str()));
        i = i + 1;
    }
    assert(views(out@) =~= views(paths@).map_values(|p: Seq<char>| hash_key(p)));
    out
}

fn concat_utf8(items: &Vec<String>) -> (r: Vec<u8>)
    ensures
        r@ == utf8_concat(views(items@)),
{
    let mut bytes: Vec<u8> = Vec::new();
    let ghost all = views(items@);
    let mut i: usize = 0;
    while i < items.len()
        invariant
            i <= items.len(),
            all == views(items@),
            bytes@ == utf8_concat(all.take(i as int)),
        decreases items.len() - i,
    {
        append_bytes(&mut bytes, items[i].as_str());
        assert(all.take(i + 1).drop_last() =~= all.take(i as int));
        assert(all.take(i + 1).last() == items@[i as int]@);
        i = i + 1;
    }
    assert(all.take(items.len() as int) =~= all);
    bytes
}

/// The positions (in `cur`) of hashes that do not occur in `last`.
pub open spec fn new_positions(cur: Seq<Seq<char>>, last: Seq<Seq<char>>) -> Seq<usize>
    decreases cur.len(),
{
    if cur.len() == 0 {
        Seq::empty()
    } else if last.contains(cur.last()) {
        new_positions(cur.drop_last(), last)
    } else {
        new_positions(cur.drop_last(), last).push((cur.len() - 1) as usize)
    }
}

fn contains_string(v: &Vec<String>, s: &str) -> (r: bool)
    ensures
        r == views(v@).contains(s@),
{
    let mut i: usize = 0;
    while i < v.len()
        invariant
            i <= v.len(),
            forall|j: int| 0 <= j < i ==> v@[j]@ != s@,
        decreases v.len() - i,
    {
        if str_eq(v[i].as_str(), s) {
            assert(views(v@)[i as int] == s@);
            return true;
        }
        i = i + 1;
    }
    false
}

fn same_hashes(a: &Vec<String>, b: &Vec<String>) -> (r: bool)
    ensures
        r == (views(a@) == views(b@)),
{
    if a.len() != b.len() {
        assert(views(a@).len() != views(b@).len());
        return false;
    }
    let mut i: usize = 0;
    while i < a.len()
        invariant
            a.len() == b.len(),
            i <= a.len(),
            forall|j: int| 0 <= j < i ==> a@[j]@ == b@[j]@,
        decreases a.len() - i,
    {
        if !str_eq(a[i].as_str(), b[i].as_str()) {
            assert(views(a@)[i as int] != views(b@)[i as int]);
            return false;
        }
        i = i + 1;
    }
    assert(views(a@) =~= views(b@));
    true
}

fn copy_strings(v: &Vec<String>) -> (r: Vec<String>)
    ensures
        views(r@) == views(v@),
{
    let mut out: Vec<String> = Vec::new();
    let mut i: usize = 0;
    while i < v.len()
        invariant
            i <= v.len(),
            views(out@) == views(v@).take(i as int),
        decreases v.len() - i,
    {
        let ghost before = views(out@);
        let c = v[i].clone();
        assert(c@ == v@[i as int]@);
        out.push(c);
        assert(views(out@) =~= before.push(v@[i as int]@));
        assert(views(v@).take(i + 1) =~= views(v@).take(i as int).push(v@[i as int]@));
        i = i + 1;
    }
    assert(views(v@).take(v.len() as int) =~= views(v@));
    out
}

// ---------------------------------------------------------------------------
// Content types and stored items.

/// Whether a content type is textual: it starts with `text`, or mentions
/// `rich_text` or `link`.
pub open spec fn is_text(content_type: Seq<char>) -> bool {
    has_prefix(content_type, "text"@) || contains_seq(content_type, "rich_text"@) || contains_seq(
        content_type,
        "link"@,
    )
}

/// Whether a content type denotes files: it mentions `image` or `file`.
pub open spec fn is_file(content_type: Seq<char>) -> bool {
    contains_seq(content_type, "image"@) || contains_seq(content_type, "file"@)
}

/// Whether a content type denotes an image: it mentions `image`.
pub open spec fn is_image(content_type: Seq<char>) -> bool {
    contains_seq(content_type, "image"@)
}

/// Whether a content type is textual.
pub fn is_text_type(content_type: &str) -> (r: bool)
    ensures
        r == is_text(content_type@),
{
    let c = chars_of(content_type);
    starts_with(&c, &chars_of("text")) || contains(&c, &chars_of("rich_text")) || contains(
        &c,
        &chars_of("link"),
    )
}

/// Whether a content type denotes files.
pub fn is_file_type(content_type: &str) -> (r: bool)
    ensures
        r == is_file(content_type@),
{
    let c = chars_of(content_type);
    contains(&c, &chars_of("image")) || contains(&c, &chars_of("file"))
}

/// Whether a content type denotes an image.
pub fn is_image_type(content_type: &str) -> (r: bool)
    ensures
        r == is_image(content_type@),
{
    contains(&chars_of(content_type), &chars_of("image"))
}

/// The number of characters stored with an item: for a content type that
/// mentions `text`, the number of characters of the content when there are any.
pub fn calculate_char_count(content: &str, content_type: &str) -> (r: Option<i64>)
    requires
        content@.len() <= i64::MAX,
    ensures
        r == if contains_seq(content_type@, "text"@) && content@.len() > 0 {
            Some(content@.len() as i64)
        } else {
            None
        },
{
    let t = chars_of(content_type);
    // "rich_text" contains "text", so one test covers both.
    if contains(&t, &chars_of("text")) || contains(&t, &chars_of("rich_text")) {
        proof {
            lemma_rich_text_contains_text(content_type@);
        }
        let count = content.unicode_len();
        if count > 0 {
            Some(count as i64)
        } else {
            None
        }
    } else {
        None
    }
}

proof fn lemma_rich_text_contains_text(s: Seq<char>)
    ensures
        contains_seq(s, "rich_text"@) ==> contains_seq(s, "text"@),
{
    reveal_strlit("rich_text");
    reveal_strlit("text");
    if contains_seq(s, "rich_text"@) {
        let i = choose|i: int| crate::text::occurs_at(s, "rich_text"@, i);
        assert forall|k: int| 0 <= k < 4 implies s.subrange(i + 5, i + 9)[k] == "text"@[k] by {
            assert(s.subrange(i, i + 9)[5 + k] == "rich_text"@[5 + k]);
        }
        assert(s.subrange(i + 5, i + 9) =~= "text"@);
        assert(crate::text::occurs_at(s, "text"@, i + 5));
    }
}

/// The error for an image that is not to be saved.
pub open spec fn images_disabled_message() -> Seq<char> {
    "已禁止保存图片"@
}

/// Refuses to store an image when saving images is turned off.
pub fn check_store_allowed(save_images: bool, content_type: &str) -> (r: Result<(), String>)
    ensures
        !save_images && is_image(content_type@) ==> (r matches Err(e) && e@
            == images_disabled_message()),
        save_images || !is_image(content_type@) ==> r is Ok,
{
    if !save_images && is_image_type(content_type) {
        Err(owned("已禁止保存图片"))
    } else {
        Ok(())
    }
}

/// Whether a store error is one that the worker passes over silently: a
/// duplicate (`重复内容`) or an image that is not to be saved.
pub fn is_silent_store_error(e: &str) -> (r: bool)
    ensures
        r == (contains_seq(e@, "重复内容"@) || contains_seq(e@, images_disabled_message())),
{
    let c = chars_of(e);
    contains(&c, &chars_of("重复内容")) || contains(&c, &chars_of("已禁止保存图片"))
}

/// Whether a new content duplicates a stored one (given the types and the
/// contents): two textual contents are the same when equal; two file contents
/// when they are equal or, both being file lists, list the same paths; anything
/// else is not the same.
pub open spec fn same_content(new_type: Seq<char>, new_content: Seq<char>, db_type: Seq<char>, db_content: Seq<char>) -> bool {
    if is_text(new_type) && is_text(db_type) {
        new_content == db_content
    } else if is_file(new_type) && is_file(db_type) {
        if has_prefix(new_content, "files:"@) && has_prefix(db_content, "files:"@) {
            same_file_lists(new_content.skip(6), db_content.skip(6))
        } else {
            new_content == db_content
        }
    } else {
        false
    }
}

/// Whether a new content duplicates a stored one (see [`same_content`]).
pub fn is_same_content(
    new_type: &str,
    new_content: &str,
    db_type: &str,
    db_content: &str,
) -> (r: bool)
    ensures
        is_text(new_type@) && is_text(db_type@) ==> r == (new_content@ == db_content@),
        !(is_text(new_type@) && is_text(db_type@)) && !(is_file(new_type@) && is_file(db_type@))
            ==> !r,
        !(is_text(new_type@) && is_text(db_type@)) && is_file(new_type@) && is_file(db_type@)
            && !(has_prefix(new_content@, "files:"@) && has_prefix(db_content@, "files:"@)) ==> r
            == (new_content@ == db_content@),
        !(is_text(new_type@) && is_text(db_type@)) && is_file(new_type@) && is_file(db_type@)
            && has_prefix(new_content@, "files:"@) && has_prefix(db_content@, "files:"@) ==> r
            == same_file_lists(new_content@.skip(6), db_content@.skip(6)),
        r == same_content(new_type@, new_content@, db_type@, db_content@),
{
    if is_text_type(new_type) && is_text_type(db_type) {
        str_eq(new_content, db_content)
    } else if is_file_type(new_type) && is_file_type(db_type) {
        compare_file_contents(new_content, db_content)
    } else {
        false
    }
}

/// Which recent record a new content duplicates: the first of `recent` (the
/// newest records, as (type, content), newest first) that holds the same
/// content (see [`same_content`]); none when no record does.
pub fn first_duplicate(new_type: &str, new_content: &str, recent: &Vec<(String, String)>) -> (r:
    Option<usize>)
    ensures
        match r {
            Some(i) => i < recent.len() && same_content(
                new_type@,
                new_content@,
                recent@[i as int].0@,
                recent@[i as int].1@,
            ) && forall|j: int|
                0 <= j < i ==> !same_content(
                    new_type@,
                    new_content@,
                    #[trigger] recent@[j].0@,
                    recent@[j].1@,
                ),
            None => forall|j: int|
                0 <= j < recent.len() ==> !same_content(
                    new_type@,
                    new_content@,
                    #[trigger] recent@[j].0@,
                    recent@[j].1@,
                ),
        },
{
    let mut i: usize = 0;
    while i < recent.len()
        invariant
            i <= recent.len(),
            forall|j: int|
                0 <= j < i ==> !same_content(
                    new_type@,
                    new_content@,
                    #[trigger] recent@[j].0@,
                    recent@[j].1@,
                ),
        decreases recent.len() - i,
    {
        if is_same_content(new_type, new_content, recent[i].0.as_str(), recent[i].1.as_str()) {
            return Some(i);
        }
        i = i + 1;
    }
    None
}

/// The pieces of `s` between the occurrences of `c` (`str::split`): one piece
/// more than there are occurrences.
pub open spec fn split_pieces(s: Seq<char>, c: char) -> Seq<Seq<char>>
    decreases s.len(),
{
    if s.len() == 0 {
        seq![Seq::empty()]
    } else {
        let p = split_pieces(s.drop_last(), c);
        if s.last() == c {
            p.push(Seq::empty())
        } else {
            p.update(p.len() - 1, p.last().push(s.last()))
        }
    }
}

proof fn lemma_split_pieces_nonempty(s: Seq<char>, c: char)
    ensures
        split_pieces(s, c).len() >= 1,
    decreases s.len(),
{
    if s.len() > 0 {
        lemma_split_pieces_nonempty(s.drop_last(), c);
    }
}

/// The trimmed pieces that are not empty, in order.
pub open spec fn nonempty_trimmed(p: Seq<Seq<char>>) -> Seq<Seq<char>>
    decreases p.len(),
{
    if p.len() == 0 {
        Seq::empty()
    } else if trimmed(p.last()).len() > 0 {
        nonempty_trimmed(p.drop_last()).push(trimmed(p.last()))
    } else {
        nonempty_trimmed(p.drop_last())
    }
}

/// The image ids of a comma-separated list: the trimmed pieces that are not empty.
pub open spec fn image_ids(s: Seq<char>) -> Seq<Seq<char>> {
    nonempty_trimmed(split_pieces(s, ','))
}

/// Splits a comma-separated list of image ids.
pub fn split_image_ids(s: &str) -> (r: Vec<String>)
    ensures
        views(r@) == image_ids(s@),
{
    let c = chars_of(s);
    let mut out: Vec<String> = Vec::new();
    let mut cur: Vec<char> = Vec::new();
    let mut i: usize = 0;
    proof {
        assert(c@.take(0) =~= Seq::<char>::empty());
    }
    while i < c.len()
        invariant
            i <= c.len(),
            c@ == s@,
            views(out@) == nonempty_trimmed(split_pieces(c@.take(i as int), ',').drop_last()),
            cur@ == split_pieces(c@.take(i as int), ',').last(),
        decreases c.len() - i,
    {
        let ghost p = split_pieces(c@.take(i as int), ',');
        proof {
            lemma_split_pieces_nonempty(c@.take(i as int), ',');
            assert(c@.take(i + 1).drop_last() =~= c@.take(i as int));
            assert(c@.take(i + 1).last() == c@[i as int]);
        }
        if c[i] == ',' {
            let t = trim(&cur);
            if t.len() > 0 {
                let ghost before = views(out@);
                out.push(string_from(&t));
                assert(views(out@) =~= before.push(t@));
            }
            assert(p.push(Seq::empty()).drop_last() =~= p);
            assert(p =~= p.drop_last().push(p.last()));
            cur = Vec::new();
        } else {
            cur.push(c[i]);
            assert(p.update(p.len() - 1, p.last().push(c@[i as int])).drop_last() =~= p.drop_last());
        }
        i = i + 1;
    }
    assert(c@.take(c.len() as int) =~= c@);
    let ghost p = split_pieces(c@, ',');
    proof {
        lemma_split_pieces_nonempty(c@, ',');
        assert(p =~= p.drop_last().push(p.last()));
    }
    let t = trim(&cur);
    if t.len() > 0 {
        let ghost before = views(out@);
        out.push(string_from(&t));
        assert(views(out@) =~= before.push(t@));
    }
    out
}

/// `s` without repeated elements, keeping first occurrences.
pub open spec fn first_occurrences(s: Seq<Seq<char>>) -> Seq<Seq<char>>
    decreases s.len(),
{
    if s.len() == 0 {
        Seq::empty()
    } else {
        let d = first_occurrences(s.drop_last());
        if d.contains(s.last()) {
            d
        } else {
            d.push(s.last())
        }
    }
}

/// The distinct image ids of an item's previous image list, in order; none when
/// it had no list.
pub fn distinct_image_ids(previous: Option<&str>) -> (r: Vec<String>)
    ensures
        views(r@) == match previous {
            Some(p) => first_occurrences(image_ids(p@)),
            None => Seq::empty(),
        },
{
    let mut out: Vec<String> = Vec::new();
    let p = match previous {
        Some(p) => p,
        None => {
            assert(views(out@) =~= Seq::<Seq<char>>::empty());
            return out;
        },
    };
    let ids = split_image_ids(p);
    let ghost all = views(ids@);
    let mut i: usize = 0;
    while i < ids.len()
        invariant
            i <= ids.len(),
            all == views(ids@),
            views(out@) == first_occurrences(all.take(i as int)),
        decreases ids.len() - i,
    {
        assert(all.take(i + 1).drop_last() =~= all.take(i as int));
        assert(all.take(i + 1).last() == all[i as int]);
        if !contains_string(&out, ids[i].as_str()) {
            let ghost before = views(out@);
            out.push(ids[i].clone());
            assert(views(out@) =~= before.push(all[i as int]));
        }
        i = i + 1;
    }
    assert(all.take(ids.len() as int) =~= all);
    out
}

/// The ids that are no longer referenced (`referenced[i]` for id `i`), in order:
/// the image files to delete after an item's images were replaced.
pub fn unreferenced_image_ids(ids: &Vec<String>, referenced: &Vec<bool>) -> (r: Vec<String>)
    requires
        referenced.len() == ids.len(),
    ensures
        views(r@) == unreferenced(views(ids@), referenced@),
{
    let mut out: Vec<String> = Vec::new();
    let ghost all = views(ids@);
    let mut i: usize = 0;
    while i < ids.len()
        invariant
            i <= ids.len(),
            referenced.len() == ids.len(),
            all == views(ids@),
            views(out@) == unreferenced(all.take(i as int), referenced@.take(i as int)),
        decreases ids.len() - i,
    {
        assert(all.take(i + 1).drop_last() =~= all.take(i as int));
        assert(referenced@.take(i + 1).drop_last() =~= referenced@.take(i as int));
        if !referenced[i] {
            let ghost before = views(out@);
            out.push(ids[i].clone());
            assert(views(out@) =~= before.push(all[i as int]));
        }
        i = i + 1;
    }
    assert(all.take(ids.len() as int) =~= all);
    assert(referenced@.take(ids.len() as int) =~= referenced@);
    out
}

/// The ids whose flag is false, in order.
pub open spec fn unreferenced(ids: Seq<Seq<char>>, referenced: Seq<bool>) -> Seq<Seq<char>>
    decreases ids.len(),
{
    if ids.len() == 0 || referenced.len() != ids.len() {
        Seq::empty()
    } else if referenced.last() {
        unreferenced(ids.drop_last(), referenced.drop_last())
    } else {
        unreferenced(ids.drop_last(), referenced.drop_last()).push(ids.last())
    }
}

/// The `LIKE` patterns that find an image id inside a comma-separated id list:
/// at the start (`<id>,%`), in the middle (`%,<id>,%`) and at the end (`%,<id>`).
pub fn image_id_like_patterns(image_id: &str) -> (r: (String, String, String))
    ensures
        r.0@ == image_id@ + ",%"@,
        r.1@ == "%,"@ + image_id@ + ",%"@,
        r.2@ == "%,"@ + image_id@,
{
    let p1 = concat(image_id, ",%");
    let mut p2 = owned("%,");
    crate::text::append(&mut p2, image_id);
    crate::text::append(&mut p2, ",%");
    let p3 = concat("%,", image_id);
    (p1, p2, p3)
}

/// A captured content, ready to be stored.
pub struct CapturedContent {
    pub content: String,
    pub html_content: Option<String>,
    pub content_type: String,
    pub image_id: Option<String>,
    pub source_app: Option<String>,
    pub source_icon_hash: Option<String>,
}

/// The columns of a clipboard record that storing writes or keeps.
pub struct StoredRecord {
    pub content: String,
    pub html_content: Option<String>,
    pub content_type: String,
    pub image_id: Option<String>,
    pub item_order: i64,
    pub is_pinned: bool,
    pub paste_count: i64,
    pub source_app: Option<String>,
    pub source_icon_hash: Option<String>,
    pub char_count: Option<i64>,
    pub created_at: i64,
    pub updated_at: i64,
}

/// The character count stored with a content (see [`calculate_char_count`]).
pub open spec fn char_count_of(content: Seq<char>, content_type: Seq<char>) -> Option<i64> {
    if contains_seq(content_type, "text"@) && content.len() > 0 {
        Some(content.len() as i64)
    } else {
        None
    }
}

/// Whether `r` carries the captured content's own columns: its content, HTML,
/// type, image ids, source application and icon, and the character count of
/// its content.
pub open spec fn carries_content(r: StoredRecord, c: CapturedContent) -> bool {
    &&& r.content@ == c.content@
    &&& opt_view(r.html_content) == opt_view(c.html_content)
    &&& r.content_type@ == c.content_type@
    &&& opt_view(r.image_id) == opt_view(c.image_id)
    &&& opt_view(r.source_app) == opt_view(c.source_app)
    &&& opt_view(r.source_icon_hash) == opt_view(c.source_icon_hash)
    &&& r.char_count == char_count_of(c.content@, c.content_type@)
}

/// The record that a new content becomes: its own columns, on top of the
/// others (one above `max_order`), not pinned, never pasted, created and
/// updated `now`.
pub fn new_record(c: &CapturedContent, max_order: i64, now: i64) -> (r: StoredRecord)
    requires
        max_order < i64::MAX,
        c.content@.len() <= i64::MAX,
    ensures
        carries_content(r, *c),
        r.item_order == max_order + 1,
        !r.is_pinned,
        r.paste_count == 0,
        r.created_at == now,
        r.updated_at == now,
{
    StoredRecord {
        content: c.content.clone(),
        html_content: copy_opt(&c.html_content),
        content_type: c.content_type.clone(),
        image_id: copy_opt(&c.image_id),
        item_order: next_item_order(max_order),
        is_pinned: false,
        paste_count: 0,
        source_app: copy_opt(&c.source_app),
        source_icon_hash: copy_opt(&c.source_icon_hash),
        char_count: calculate_char_count(c.content.as_str(), c.content_type.as_str()),
        created_at: now,
        updated_at: now,
    }
}

/// What a duplicate does to the record it duplicates: the record takes the new
/// content's own columns and moves on top of its group (one above `max_order`,
/// the highest order among records pinned as it is), updated `now`; it stays
/// pinned or not, keeps its paste count and its creation time.
pub fn duplicate_update(existing: &StoredRecord, c: &CapturedContent, max_order: i64, now: i64) -> (r:
    StoredRecord)
    requires
        max_order < i64::MAX,
        c.content@.len() <= i64::MAX,
    ensures
        carries_content(r, *c),
        r.item_order == max_order + 1,
        r.is_pinned == existing.is_pinned,
        r.paste_count == existing.paste_count,
        r.created_at == existing.created_at,
        r.updated_at == now,
{
    StoredRecord {
        content: c.content.clone(),
        html_content: copy_opt(&c.html_content),
        content_type: c.content_type.clone(),
        image_id: copy_opt(&c.image_id),
        item_order: next_item_order(max_order),
        is_pinned: existing.is_pinned,
        paste_count: existing.paste_count,
        source_app: copy_opt(&c.source_app),
        source_icon_hash: copy_opt(&c.source_icon_hash),
        char_count: calculate_char_count(c.content.as_str(), c.content_type.as_str()),
        created_at: existing.created_at,
        updated_at: now,
    }
}

/// The position of a new item: one above the highest position in use.
pub fn next_item_order(max_order: i64) -> (r: i64)
    requires
        max_order < i64::MAX,
    ensures
        r == max_order + 1,
{
    max_order + 1
}

// ---------------------------------------------------------------------------
// Laws.

/// Every position that a capture stores is a position of the capture, and its
/// hash was not in the previous capture.
pub proof fn stored_positions_are_new(cur: Seq<Seq<char>>, last: Seq<Seq<char>>)
    requires
        cur.len() <= usize::MAX,
    ensures
        forall|k: int|
            0 <= k < new_positions(cur, last).len() ==> (#[trigger] new_positions(cur, last)[k]) < cur.len()
                && !last.contains(cur[new_positions(cur, last)[k] as int]),
    decreases cur.len(),
{
    if cur.len() > 0 {
        stored_positions_are_new(cur.drop_last(), last);
        let pre = new_positions(cur.drop_last(), last);
        assert forall|k: int| 0 <= k < new_positions(cur, last).len() implies (#[trigger] new_positions(
            cur,
            last,
        )[k]) < cur.len() && !last.contains(cur[new_positions(cur, last)[k] as int]) by {
            if k < pre.len() {
                assert(new_positions(cur, last)[k] == pre[k]);
                assert(cur[pre[k] as int] == cur.drop_last()[pre[k] as int]);
            } else {
                assert(!last.contains(cur.last()));
                assert(new_positions(cur, last)[k] == (cur.len() - 1) as usize);
            }
        }
    }
}

/// A capture whose every hash was in the previous capture stores nothing; in
/// particular the same contents captured twice are stored once.
pub proof fn repeated_capture_stores_nothing(cur: Seq<Seq<char>>, last: Seq<Seq<char>>)
    requires
        forall|i: int| 0 <= i < cur.len() ==> last.contains(#[trigger] cur[i]),
    ensures
        new_positions(cur, last).len() == 0,
    decreases cur.len(),
{
    if cur.len() > 0 {
        assert(last.contains(cur[cur.len() - 1]));
        assert forall|i: int| 0 <= i < cur.drop_last().len() implies last.contains(
            #[trigger] cur.drop_last()[i],
        ) by {
            assert(cur.drop_last()[i] == cur[i]);
        }
        repeated_capture_stores_nothing(cur.drop_last(), last);
    }
}

/// The same capture twice in a row: the second stores nothing.
pub proof fn same_capture_twice_stores_once(cur: Seq<Seq<char>>)
    ensures
        new_positions(cur, cur).len() == 0,
{
    assert forall|i: int| 0 <= i < cur.len() implies cur.contains(#[trigger] cur[i]) by {
    }
    repeated_capture_stores_nothing(cur, cur);
}


/// Contents whose types are both textual (a type that starts with `text` or
/// mentions `rich_text` or `link`) duplicate each other exactly when they are
/// equal: the same link, text or rich text captured again is a duplicate of
/// the record that holds it, and [`first_duplicate`] finds that record.
pub proof fn equal_textual_contents_are_duplicates(
    new_type: Seq<char>,
    db_type: Seq<char>,
    new_content: Seq<char>,
    db_content: Seq<char>,
)
    requires
        has_prefix(new_type, "text"@) || contains_seq(new_type, "rich_text"@) || contains_seq(
            new_type,
            "link"@,
        ),
        has_prefix(db_type, "text"@) || contains_seq(db_type, "rich_text"@) || contains_seq(
            db_type,
            "link"@,
        ),
    ensures
        same_content(new_type, new_content, db_type, db_content) == (new_content == db_content),
{
}

} // verus!
