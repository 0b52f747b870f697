use quickclipboard::clipboard::{duplicate_update, new_record, CapturedContent};
use quickclipboard::clipboard::{
    calculate_char_count, check_store_allowed, compare_file_contents, distinct_image_ids, first_duplicate,
    image_id_like_patterns, is_file_type, is_image_type, is_same_content, is_silent_store_error,
    is_text_type, next_item_order, same_paths, split_image_ids, to_hex_lower,
    unreferenced_image_ids, ClipboardMonitorManager, ClipboardMonitorState,
};

const HELLO: &str = "2cf24dba5fb0a30e26e83b2ac5b9e29e1b161e5c1fa7425e73043362938b9824";
const ONE_FILE: &str = "db400c224ace68eaaae379aeb2d0b315ccdd5eaabd0927fbc0d639ca91eb91b5";
const TWO_FILES: &str = "fa6765ab829d1338659737012e92618feea87c5fa55f3a5674f578bd1f643c26";

fn hashes(v: &[&str]) -> Vec<String> {
    v.iter().map(|s| s.to_string()).collect()
}

#[test]
fn copied_back_text_is_not_captured_again() {
    let mut st = ClipboardMonitorState::new();
    st.set_last_hash_text("hello");
    assert!(st.take_new_contents(&hashes(&[HELLO])).is_empty());
    assert_eq!(st.take_new_contents(&hashes(&["other", HELLO])), vec![0]);
}

#[test]
fn same_capture_twice_is_stored_once() {
    let mut st = ClipboardMonitorState::new();
    assert_eq!(st.take_new_contents(&hashes(&["a", "b"])), vec![0, 1]);
    assert!(st.take_new_contents(&hashes(&["a", "b"])).is_empty());
    assert_eq!(st.take_new_contents(&hashes(&["b", "c"])), vec![1]);
    st.clear_last_content_cache();
    assert_eq!(st.take_new_contents(&hashes(&["b", "c"])), vec![0, 1]);
}

#[test]
fn file_hashes_use_normalised_paths() {
    let mut st = ClipboardMonitorState::new();
    st.set_last_hash_file("C:\\data\\clipboard_images\\a.png");
    assert!(st.take_new_contents(&hashes(&[ONE_FILE])).is_empty());
    st.set_last_hash_paths(&hashes(&["x/clipboard_images/a.png", "D:\\b.txt"]));
    assert!(st.take_new_contents(&hashes(&[TWO_FILES])).is_empty());
    st.set_last_hash_files(r#"files:{"files":[{"path":"E:\\old\\clipboard_images\\a.png"}]}"#);
    assert!(st.take_new_contents(&hashes(&[ONE_FILE])).is_empty());
    st.set_last_hash_text("hello");
    st.set_last_hash_files("files:not json");
    assert!(st.take_new_contents(&hashes(&[HELLO])).is_empty());
}

#[test]
fn monitor_generations() {
    let mut st = ClipboardMonitorState::new();
    assert!(!st.is_monitor_running());
    let g = st.begin_start().unwrap();
    assert_eq!(g, 1);
    st.mark_running();
    assert!(st.is_monitor_running());
    assert!(st.should_handle_change(1));
    assert!(!st.should_handle_change(0));
    assert!(st.begin_start().is_none());
    assert!(st.stop_clipboard_monitor().is_ok());
    assert!(!st.should_handle_change(1));
    assert_eq!(ClipboardMonitorManager::new(7).unwrap().generation, 7);
}

#[test]
fn hex_is_lower_case() {
    assert_eq!(to_hex_lower(&vec![0x00, 0xab, 0x0f]), "00ab0f");
}

#[test]
fn content_types() {
    assert!(is_text_type("text"));
    assert!(is_text_type("rich_text"));
    assert!(is_file_type("file"));
    assert!(is_image_type("image"));
    assert!(!is_image_type("text"));
    assert_eq!(calculate_char_count("你好ab", "text"), Some(4));
    assert_eq!(calculate_char_count("", "text"), None);
    assert_eq!(calculate_char_count("x", "image"), None);
}

#[test]
fn storing_images_can_be_disabled() {
    assert!(check_store_allowed(true, "image").is_ok());
    let e = check_store_allowed(false, "image").unwrap_err();
    assert!(is_silent_store_error(&e));
    assert!(check_store_allowed(false, "text").is_ok());
    assert!(is_silent_store_error("重复内容，已更新时间"));
    assert!(!is_silent_store_error("数据库错误"));
}

#[test]
fn duplicate_detection() {
    assert!(is_same_content("text", "abc", "rich_text", "abc"));
    assert!(!is_same_content("text", "abc", "text", "abd"));
    assert!(!is_same_content("text", "abc", "image", "abc"));
    let a = r#"files:{"files":[{"path":"a"},{"path":"b"}]}"#;
    let b = r#"files:{"files":[{"path":"b"},{"path":"a"}]}"#;
    assert!(compare_file_contents(a, b));
    assert!(is_same_content("file", a, "file", b));
    assert!(!compare_file_contents(a, r#"files:{"files":[{"path":"a"}]}"#));
    assert!(!compare_file_contents("files:bad", "files:bad"));
    assert!(compare_file_contents("plain", "plain"));
    assert!(same_paths(&hashes(&["x", "y", "x"]), &hashes(&["x", "x", "y"])));
    assert!(!same_paths(&hashes(&["x", "y"]), &hashes(&["x", "x"])));
}

#[test]
fn image_ids_of_a_record() {
    assert_eq!(split_image_ids(" a, b ,,a "), hashes(&["a", "b", "a"]));
    assert_eq!(distinct_image_ids(Some("a,b,a")), hashes(&["a", "b"]));
    assert!(distinct_image_ids(None).is_empty());
    let ids = hashes(&["a", "b", "c"]);
    assert_eq!(unreferenced_image_ids(&ids, &vec![true, false, true]), hashes(&["b"]));
    let (p1, p2, p3) = image_id_like_patterns("img");
    assert_eq!((p1.as_str(), p2.as_str(), p3.as_str()), ("img,%", "%,img,%", "%,img"));
    assert_eq!(next_item_order(41), 42);
}

#[test]
fn the_first_matching_recent_record_is_updated() {
    let recent = vec![
        ("text".to_string(), "other".to_string()),
        ("rich_text".to_string(), "same".to_string()),
        ("text".to_string(), "same".to_string()),
    ];
    assert_eq!(first_duplicate("text", "same", &recent), Some(1));
    assert_eq!(first_duplicate("text", "new", &recent), None);
    assert_eq!(first_duplicate("image", "same", &recent), None);
    let files = vec![("file".to_string(), r#"files:{"files":[{"path":"b"},{"path":"a"}]}"#.to_string())];
    assert_eq!(first_duplicate("file", r#"files:{"files":[{"path":"a"},{"path":"b"}]}"#, &files), Some(0));
}

#[test]
fn a_stopped_monitor_refuses_contents() {
    let mut st = ClipboardMonitorState::new();
    assert_eq!(st.enqueue_check(), Err("剪贴板工作线程未启动".to_string()));
    st.begin_start().unwrap();
    st.mark_running();
    assert_eq!(st.enqueue_check(), Ok(()));
    assert!(st.stop_clipboard_monitor().is_ok());
    assert_eq!(st.enqueue_check(), Err("剪贴板工作线程未启动".to_string()));
    assert!(st.stop_clipboard_monitor().is_ok());
    assert!(!st.is_monitor_running());
    assert_eq!(st.enqueue_check(), Err("剪贴板工作线程未启动".to_string()));
}

#[test]
fn duplicate_keeps_record_metadata_and_takes_new_columns() {
    let rt = |c: &str, h: &str, img: &str, app: &str| CapturedContent {
        content: c.to_string(),
        html_content: Some(h.to_string()),
        content_type: "rich_text".to_string(),
        image_id: Some(img.to_string()),
        source_app: Some(app.to_string()),
        source_icon_hash: Some(format!("icon-{}", app)),
    };
    let mut first = new_record(&rt("same text", "<p>old</p>", "old", "alpha"), 0, 100);
    assert_eq!(first.item_order, 1);
    assert_eq!(first.char_count, Some(9));
    assert!(!first.is_pinned && first.paste_count == 0 && first.created_at == 100);
    first.paste_count = 1;
    first.is_pinned = true;
    let updated = duplicate_update(&first, &rt("same text", "<p>new</p>", "new", "beta"), 4, 200);
    assert_eq!(updated.created_at, 100);
    assert_eq!(updated.paste_count, 1);
    assert!(updated.is_pinned);
    assert_eq!(updated.item_order, 5);
    assert_eq!(updated.updated_at, 200);
    assert_eq!(updated.html_content.as_deref(), Some("<p>new</p>"));
    assert_eq!(updated.image_id.as_deref(), Some("new"));
    assert_eq!(updated.source_app.as_deref(), Some("beta"));
    assert_eq!(updated.source_icon_hash.as_deref(), Some("icon-beta"));
}
