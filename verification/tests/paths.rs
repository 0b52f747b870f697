use quickclipboard::paths::{
    candidate_paths, clipboard_image_paths_to_delete, is_single_normal_path, join,
    normalize_path_for_hash, parent_dir, path_extension_of, resolve_clipboard_image_paths,
    resolve_stored_path,
};
use std::path::{Path, PathBuf};

fn as_paths(v: Vec<String>) -> Vec<PathBuf> {
    v.into_iter().map(PathBuf::from).collect()
}

#[test]
fn resolve_clipboard_image_paths_supports_bare_id() {
    let data_dir = Path::new("C:/data");
    let paths = as_paths(resolve_clipboard_image_paths("C:/data", "abc123", std::path::MAIN_SEPARATOR));

    assert_eq!(paths, vec![data_dir.join("clipboard_images").join("abc123.png")]);
}

#[test]
fn resolve_clipboard_image_paths_supports_stored_relative_path() {
    let data_dir = Path::new("C:/data");
    let paths = as_paths(resolve_clipboard_image_paths("C:/data", "clipboard_images/demo.png", std::path::MAIN_SEPARATOR));

    assert_eq!(paths, vec![data_dir.join("clipboard_images").join("demo.png")]);
}

#[test]
fn resolve_clipboard_image_paths_supports_filename_with_extension() {
    let data_dir = Path::new("C:/data");
    let paths = as_paths(resolve_clipboard_image_paths("C:/data", "demo.png", std::path::MAIN_SEPARATOR));

    assert_eq!(paths, vec![data_dir.join("clipboard_images").join("demo.png")]);
}

#[test]
fn resolve_clipboard_image_paths_rejects_prefixed_parent_dir_escape() {
    let paths = resolve_clipboard_image_paths("C:/data", "clipboard_images/../../outside.txt", '/');

    assert!(paths.is_empty());
}

#[test]
fn resolve_clipboard_image_paths_takes_file_name_of_absolute_path() {
    let paths = resolve_clipboard_image_paths("C:/data", "D:\\old\\clipboard\\pic.jpg", '/');
    assert_eq!(paths, vec!["C:/data/clipboard_images/pic.jpg".to_string()]);
    assert!(resolve_clipboard_image_paths("C:/data", "   ", '/').is_empty());
    assert!(resolve_clipboard_image_paths("C:/data", "..", '/').is_empty());
}

#[test]
fn deleted_image_files_are_unique_and_inside() {
    let refs = vec![
        "abc".to_string(),
        "clipboard_images/abc.png".to_string(),
        "clipboard_images/../../outside.txt".to_string(),
        "x.gif".to_string(),
    ];
    let paths = clipboard_image_paths_to_delete("C:/data", &refs, '/');
    assert_eq!(
        paths,
        vec![
            "C:/data/clipboard_images/abc.png".to_string(),
            "C:/data/clipboard_images/x.gif".to_string(),
        ]
    );
}

#[test]
fn hash_keys_start_at_the_image_directory() {
    assert_eq!(normalize_path_for_hash("C:\\data\\clipboard_images\\a.png"), "clipboard_images/a.png");
    assert_eq!(normalize_path_for_hash("D:/x/pin_images/b.png"), "pin_images/b.png");
    assert_eq!(normalize_path_for_hash("D:\\x\\c.txt"), "D:/x/c.txt");
}

#[test]
fn stored_paths_are_rebased_on_the_data_directory() {
    assert_eq!(
        resolve_stored_path("clipboard_images/a.png", Some("C:\\data"), &vec![], '\\'),
        "C:\\data\\clipboard_images\\a.png"
    );
    assert_eq!(
        resolve_stored_path("clipboard_images/a.png", Some("C:\\data"), &vec![], '/'),
        "C:\\data/clipboard_images\\a.png"
    );
    let cands = candidate_paths("E:/old/pin_images/p.png", "C:/data", '/');
    assert_eq!(cands, vec!["C:/data/pin_images\\p.png".to_string()]);
    assert_eq!(
        resolve_stored_path("E:/old/pin_images/p.png", Some("C:/data"), &vec![true], '/'),
        "C:/data/pin_images\\p.png"
    );
    assert_eq!(
        resolve_stored_path("E:/old/pin_images/p.png", Some("C:/data"), &vec![false], '/'),
        "E:/old/pin_images/p.png"
    );
    assert_eq!(resolve_stored_path("clipboard_images/a.png", None, &vec![], '/'), "clipboard_images/a.png");
}

#[test]
fn parents_and_extensions() {
    assert_eq!(parent_dir("C:\\Users\\me\\settings.json"), Some("C:\\Users\\me".to_string()));
    assert_eq!(parent_dir("C:\\settings.json"), Some("C:\\".to_string()));
    assert_eq!(parent_dir("settings.json"), Some(String::new()));
    assert_eq!(parent_dir("C:\\"), None);
    assert_eq!(parent_dir(""), None);
    assert_eq!(path_extension_of("a/b.tar.gz"), Some("gz".to_string()));
    assert_eq!(path_extension_of(".hidden"), None);
    assert!(is_single_normal_path("name.png"));
    assert!(!is_single_normal_path("a/b"));
    assert_eq!(join("C:/d", "x", '/'), "C:/d/x");
    assert_eq!(join("C:/d/", "x", '/'), "C:/d/x");
    assert_eq!(join("C:\\d", "x", '\\'), "C:\\d\\x");
}

#[test]
fn windows_separator_joins_image_paths() {
    assert_eq!(
        resolve_clipboard_image_paths("C:\\data", "abc123", '\\'),
        vec!["C:\\data\\clipboard_images\\abc123.png".to_string()]
    );
    assert_eq!(
        candidate_paths("E:/old/pin_images/p.png", "C:\\data", '\\'),
        vec!["C:\\data\\pin_images\\p.png".to_string()]
    );
}

#[test]
fn hash_keys_are_fixed_points() {
    for p in ["C:\\data\\clipboard_images\\a.png", "D:/x/pin_images/b.png", "D:\\x\\c.txt"] {
        let k = normalize_path_for_hash(p);
        assert_eq!(normalize_path_for_hash(&k), k);
        assert!(!k.contains('\\'));
    }
}

#[test]
fn resolved_images_have_the_image_directory_as_parent() {
    for r in ["abc", "clipboard_images/demo.png/", "D:\\old\\pic.jpg"] {
        for p in resolve_clipboard_image_paths("C:\\data", r, '\\') {
            assert_eq!(parent_dir(&p), Some(join("C:\\data", "clipboard_images", '\\')));
        }
    }
}
