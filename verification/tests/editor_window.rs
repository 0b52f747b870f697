use quickclipboard::editor_window::{
    append_query_param, encode_query_value, text_editor_url, text_editor_window_label,
};

#[test]
fn encode_query_value_handles_reserved_and_unicode_characters() {
    assert_eq!(
        encode_query_value("默认 分组&A?#测试"),
        "%E9%BB%98%E8%AE%A4%20%E5%88%86%E7%BB%84%26A%3F%23%E6%B5%8B%E8%AF%95"
    );
}

#[test]
fn append_query_param_uses_correct_separator() {
    let mut url = "windows/textEditor/index.html".to_string();
    append_query_param(&mut url, "id", "1");
    append_query_param(&mut url, "group", "A&B");

    assert_eq!(url, "windows/textEditor/index.html?id=1&group=A%26B");
}

#[test]
fn unreserved_characters_pass_through() {
    assert_eq!(encode_query_value("Az09-_.~"), "Az09-_.~");
    assert_eq!(encode_query_value(""), "");
    assert_eq!(encode_query_value("a=b/c"), "a%3Db%2Fc");
}

#[test]
fn editor_window_label_and_address() {
    assert_eq!(text_editor_window_label("text", 1700000000123), "text-editor-text-1700000000123");
    assert_eq!(
        text_editor_url("42", "favorite", Some(-3), Some("工作 A")),
        "windows/textEditor/index.html?id=42&type=favorite&index=-3&group=%E5%B7%A5%E4%BD%9C%20A"
    );
    assert_eq!(
        text_editor_url("7", "clipboard", None, None),
        "windows/textEditor/index.html?id=7&type=clipboard"
    );
}
