//! The text editor window: its label and the page address with its query.
use vstd::prelude::*;
use crate::text::{append, chars_of, contains_char, decimal, decimal_string, owned, push_char,
    signed_decimal, signed_decimal_string, string_from};

verus! {

/// Whether a byte stands for itself in a query value: ASCII letters, digits
/// and `-`, `_`, `.`, `~`.
pub open spec fn is_unreserved(b: u8) -> bool {
    (65 <= b <= 90) || (97 <= b <= 122) || (48 <= b <= 57) || b == 45 || b == 95 || b == 46
        || b == 126
}

/// The upper-case hexadecimal digit for `d < 16`.
pub open spec fn hex_upper_digit(d: int) -> char {
    if d < 10 {
        (('0' as u32) + d) as char
    } else {
        (('A' as u32) + d - 10) as char
    }
}

/// The encoding of one byte: itself when unreserved, `%XY` otherwise.
pub open spec fn percent_byte(b: u8) -> Seq<char> {
    if is_unreserved(b) {
        seq![b as char]
    } else {
        seq!['%', hex_upper_digit((b / 16) as int), hex_upper_digit((b % 16) as int)]
    }
}

/// The percent-encoding of a byte sequence, byte by byte.
pub open spec fn percent_encoded(bytes: Seq<u8>) -> Seq<char>
    decreases bytes.len(),
{
    if bytes.len() == 0 {
        Seq::empty()
    } else {
        percent_encoded(bytes.drop_last()) + percent_byte(bytes.last())
    }
}

/// The encoding of a query value: percent-encoding of its UTF-8 bytes.
pub open spec fn query_encoded(value: Seq<char>) -> Seq<char> {
    percent_encoded(vstd::utf8::encode_utf8(value))
}

fn hex_upper(d: u8) -> (r: char)
    requires
        d < 16,
    ensures
        r == hex_upper_digit(d as int),
{
    if d < 10 {
        (d + 48) as char
    } else {
        (d + 55) as char
    }
}

/// Percent-encodes a query value (every byte of its UTF-8 form except ASCII
/// letters, digits and `-_.~`).
pub fn encode_query_value(value: &str) -> (r: String)
    ensures
        r@ == query_encoded(value@),
{
    let bytes = value.as_bytes();
    let mut out: Vec<char> = Vec::new();
    let mut i: usize = 0;
    while i < bytes.len()
        invariant
            i <= bytes.len(),
            bytes@ == vstd::utf8::encode_utf8(value@),
            out@ == percent_encoded(bytes@.take(i as int)),
        decreases bytes.len() - i,
    {
        let b = bytes[i];
        assert(bytes@.take(i + 1).drop_last() =~= bytes@.take(i as int));
        if (65 <= b && b <= 90) || (97 <= b && b <= 122) || (48 <= b && b <= 57) || b == 45 || b
            == 95 || b == 46 || b == 126 {
            out.push(b as char);
        } else {
            out.push('%');
            out.push(hex_upper(b / 16));
            out.push(hex_upper(b % 16));
        }
        i = i + 1;
    }
    assert(bytes@.take(bytes.len() as int) =~= bytes@);
    string_from(&out)
}

/// The separator before the next query parameter: `&` once the address has a
/// `?`, `?` before that.
pub open spec fn query_separator(url: Seq<char>) -> char {
    if url.contains('?') {
        '&'
    } else {
        '?'
    }
}

/// Appends `key=value` (the value encoded) to an address.
pub fn append_query_param(url: &mut String, key: &str, value: &str)
    ensures
        final(url)@ == old(url)@.push(query_separator(old(url)@)) + key@ + "="@ + query_encoded(
            value@,
        ),
{
    proof {
        reveal_strlit("=");
    }
    let separator = if contains_char(&chars_of(url.as_str()), '?') {
        '&'
    } else {
        '?'
    };
    push_char(url, separator);
    append(url, key);
    append(url, "=");
    let encoded = encode_query_value(value);
    append(url, encoded.as_str());
}

/// The label of a text editor window: `text-editor-<type>-<timestamp>`.
pub open spec fn editor_label(item_type: Seq<char>, timestamp: nat) -> Seq<char> {
    "text-editor-"@ + item_type + "-"@ + decimal(timestamp)
}

/// The label of a text editor window.
pub fn text_editor_window_label(item_type: &str, timestamp: u128) -> (r: String)
    ensures
        r@ == editor_label(item_type@, timestamp as nat),
{
    let mut s = owned("text-editor-");
    append(&mut s, item_type);
    append(&mut s, "-");
    append(&mut s, string_from(&decimal_string(timestamp)).as_str());
    s
}

/// The address with one more parameter (see [`append_query_param`]).
pub open spec fn with_param(url: Seq<char>, key: Seq<char>, value: Seq<char>) -> Seq<char> {
    url.push(query_separator(url)) + key + "="@ + query_encoded(value)
}

/// The page of the text editor with its query: `id`, `type`, then `index`
/// and `group` where given.
pub open spec fn editor_url(
    item_id: Seq<char>,
    item_type: Seq<char>,
    item_index: Option<i32>,
    group_name: Option<Seq<char>>,
) -> Seq<char> {
    let base = with_param(
        with_param("windows/textEditor/index.html"@, "id"@, item_id),
        "type"@,
        item_type,
    );
    let indexed = match item_index {
        Some(i) => with_param(base, "index"@, signed_decimal(i as int)),
        None => base,
    };
    match group_name {
        Some(g) => with_param(indexed, "group"@, g),
        None => indexed,
    }
}

/// The address of a text editor window for an item.
pub fn text_editor_url(
    item_id: &str,
    item_type: &str,
    item_index: Option<i32>,
    group_name: Option<&str>,
) -> (r: String)
    ensures
        r@ == editor_url(
            item_id@,
            item_type@,
            item_index,
            match group_name {
                Some(g) => Some(g@),
                None => None,
            },
        ),
{
    let mut url = owned("windows/textEditor/index.html");
    append_query_param(&mut url, "id", item_id);
    append_query_param(&mut url, "type", item_type);
    match item_index {
        Some(index) => {
            let text = string_from(&signed_decimal_string(index as i64));
            append_query_param(&mut url, "index", text.as_str());
        },
        None => {},
    }
    match group_name {
        Some(group) => {
            append_query_param(&mut url, "group", group);
        },
        None => {},
    }
    url
}

// ---------------------------------------------------------------------------
// Laws.

/// Whether a character may appear in an encoded query value: an unreserved
/// ASCII character, `%`, or an upper-case hexadecimal digit.
pub open spec fn is_encoded_char(c: char) -> bool {
    ('A' <= c <= 'Z') || ('a' <= c <= 'z') || ('0' <= c <= '9') || c == '-' || c == '_' || c
        == '.' || c == '~' || c == '%'
}

/// An encoded query value holds no character that would end the value or the
/// query: only unreserved ASCII characters and `%XY` escapes.
pub proof fn encoded_values_are_safe(bytes: Seq<u8>)
    ensures
        forall|i: int| 0 <= i < percent_encoded(bytes).len() ==> is_encoded_char(
            #[trigger] percent_encoded(bytes)[i],
        ),
    decreases bytes.len(),
{
    if bytes.len() > 0 {
        encoded_values_are_safe(bytes.drop_last());
        let b = bytes.last();
        let pre = percent_encoded(bytes.drop_last());
        let tail = percent_byte(b);
        assert forall|i: int| 0 <= i < tail.len() implies is_encoded_char(#[trigger] tail[i]) by {
            if is_unreserved(b) {
                assert((b as char) as int == b as int);
            } else {
                let hi = (b / 16) as int;
                let lo = (b % 16) as int;
                assert((hex_upper_digit(hi) as int) == if hi < 10 { 48 + hi } else { 55 + hi });
                assert((hex_upper_digit(lo) as int) == if lo < 10 { 48 + lo } else { 55 + lo });
            }
        }
        assert forall|i: int| 0 <= i < percent_encoded(bytes).len() implies is_encoded_char(
            #[trigger] percent_encoded(bytes)[i],
        ) by {
            if i < pre.len() {
                assert(percent_encoded(bytes)[i] == pre[i]);
            } else {
                assert(percent_encoded(bytes)[i] == tail[i - pre.len()]);
            }
        }
    }
}

/// Once a parameter has been appended, every further one is joined with `&`.
pub proof fn later_params_use_ampersand(url: Seq<char>, key: Seq<char>, value: Seq<char>)
    ensures
        query_separator(with_param(url, key, value)) == '&',
{
    let w = with_param(url, key, value);
    let p = url.push(query_separator(url));
    if url.contains('?') {
        let i = choose|i: int| 0 <= i < url.len() && url[i] == '?';
        assert(w[i] == '?');
    } else {
        assert(w[url.len() as int] == '?');
    }
}

} // verus!
