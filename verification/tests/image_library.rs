use quickclipboard::image_library::{build_image_listing, LibraryEntry};
use quickclipboard::image_library::{
    allocate_library_filename, allowed_image_extension, build_library_file_path,
    build_library_filename, cache_is_fresh, category_dir, clean_ocr_text, get_gifs_dir,
    get_image_count, get_image_library_dir, get_image_list, get_images_dir, image_category_key,
    is_animated_webp, is_gif_by_magic, is_listed_before, is_webp_by_magic, missing_file_message,
    plan_image_save, renamed_filename, sanitize_library_filename, sort_image_list, ImageInfo,
    ImageSaveSequence, OcrGate, OcrInFlightGuard, OcrSource,
};
use quickclipboard::paths::join;

fn info(name: &str, created_at: u64) -> ImageInfo {
    ImageInfo {
        id: name.to_string(),
        filename: name.to_string(),
        path: format!("C:/data/image_library/images/{}", name),
        size: 1,
        created_at,
        category: "images".to_string(),
    }
}

#[test]
fn sanitize_filename_rejects_path_traversal() {
    assert!(sanitize_library_filename("../../outside.png", "文件名").is_err());
    assert!(sanitize_library_filename("nested/file.png", "文件名").is_err());
    assert!(sanitize_library_filename("", "文件名").is_err());
    assert_eq!(sanitize_library_filename("safe.png", "文件名").unwrap(), "safe.png");
}

#[test]
fn sanitize_filename_reports_which_field() {
    assert_eq!(sanitize_library_filename("   ", "新文件名").unwrap_err(), "新文件名不能为空");
    assert_eq!(sanitize_library_filename("a\\b.png", "原文件名").unwrap_err(), "原文件名包含非法路径");
    assert_eq!(sanitize_library_filename("..", "文件名").unwrap_err(), "文件名包含非法路径");
    assert_eq!(sanitize_library_filename("C:x.png", "文件名").unwrap_err(), "文件名包含非法路径");
    assert_eq!(sanitize_library_filename("  spaced.png  ", "文件名").unwrap(), "spaced.png");
}

#[test]
fn build_library_file_path_joins_checked_name() {
    let (name, path) = build_library_file_path("C:/lib/images", "pic.png", "文件名", '/').unwrap();
    assert_eq!(name, "pic.png");
    assert_eq!(path, "C:/lib/images/pic.png");
    assert!(build_library_file_path("C:/lib/images", "../../escaped", "新文件名", '/').is_err());
}

#[test]
fn build_library_filename_uses_sequence_to_avoid_same_timestamp_collision() {
    let first = build_library_filename(123456789, 1, "png", Some("Hello"));
    let second = build_library_filename(123456789, 2, "png", Some("Hello"));
    assert_ne!(first, second);
    assert_eq!(first, "123456789_1_Hello.png");
    assert_eq!(second, "123456789_2_Hello.png");
}

#[test]
fn build_library_filename_without_text() {
    assert_eq!(build_library_filename(5, 0, "gif", None), "5_0.gif");
    assert_eq!(build_library_filename(5, 7, "gif", Some("")), "5_7.gif");
}

#[test]
fn allocate_library_filename_skips_existing_file() {
    let images_dir = "C:/data/image_library/images";
    let existing = join(images_dir, "999_0_same.png", '/');
    let mut counter = ImageSaveSequence { next: 0 };
    let (filename, file_path) = allocate_library_filename(
        images_dir,
        999,
        "png",
        Some("same"),
        &mut counter,
        |p: &str| p == existing,
        '/',
    )
    .expect("allocate unique filename failed");
    assert_eq!(filename, "999_1_same.png");
    assert_eq!(file_path, join(images_dir, "999_1_same.png", '/'));
    assert_eq!(counter.next, 2);
}

#[test]
fn allocate_library_filename_gives_up_after_all_attempts() {
    let mut counter = ImageSaveSequence { next: u64::MAX };
    let r = allocate_library_filename("d", 1, "png", None, &mut counter, |_p: &str| true, '/');
    assert_eq!(r.unwrap_err(), "生成唯一图片文件名失败，请稍后重试");
    assert_eq!(counter.next, 1023);
}

#[test]
fn ocr_task_rejects_concurrent_requests_until_running_task_finishes() {
    let mut gate = OcrGate { busy: false };
    let first = OcrInFlightGuard::try_acquire(&mut gate);
    assert!(first.is_some());
    let second = OcrInFlightGuard::try_acquire(&mut gate);
    assert!(second.is_none());
    first.unwrap().release(&mut gate);
    let third = OcrInFlightGuard::try_acquire(&mut gate);
    assert!(third.is_some());
}

#[test]
fn library_directories() {
    assert_eq!(get_image_library_dir("C:/data", '/'), "C:/data/image_library");
    assert_eq!(get_images_dir("C:/data", '/'), "C:/data/image_library/images");
    assert_eq!(get_gifs_dir("C:/data/", '/'), "C:/data/image_library/gifs");
    assert_eq!(category_dir("C:/data", "gifs", '/'), "C:/data/image_library/gifs");
    assert_eq!(category_dir("C:/data", "other", '/'), "C:/data/image_library/images");
    assert_eq!(image_category_key("gifs"), "gifs");
    assert_eq!(image_category_key("GIFS"), "images");
}

#[test]
fn image_extensions_are_recognised() {
    assert!(allowed_image_extension("C:/x/a.PNG"));
    assert!(allowed_image_extension("b.jfif"));
    assert!(!allowed_image_extension("c.txt"));
    assert!(!allowed_image_extension("noext"));
}

#[test]
fn magic_numbers() {
    assert!(is_gif_by_magic(b"GIF89a......"));
    assert!(is_gif_by_magic(b"GIF87a"));
    assert!(!is_gif_by_magic(b"GIF8"));
    let mut webp = b"RIFF\0\0\0\0WEBPVP8X".to_vec();
    assert!(is_webp_by_magic(&webp));
    webp.resize(30, 0);
    assert!(!is_animated_webp(&webp));
    webp[20] = 0x02;
    assert!(is_animated_webp(&webp));
}

#[test]
fn save_plan_by_format() {
    let gif = plan_image_save("a.gif", b"GIF89a1234");
    assert_eq!(gif.extension, "gif");
    assert_eq!(gif.category, "gifs");
    assert!(matches!(gif.ocr_source, OcrSource::GifFirstFrame));
    let still = plan_image_save("a.webp", b"RIFF\0\0\0\0WEBPVP8 ");
    assert_eq!(still.extension, "jpg");
    assert!(still.convert_webp_to_jpg);
    let png = plan_image_save("photo.jpeg", b"\x89PNG");
    assert_eq!(png.extension, "jpeg");
    assert_eq!(png.category, "images");
    let bare = plan_image_save("clip", b"\x89PNG");
    assert_eq!(bare.extension, "png");
}

#[test]
fn ocr_text_is_cleaned_for_file_names() {
    assert_eq!(clean_ocr_text("  Hello, world! 你好 "), Some("Helloworld你好".to_string()));
    assert_eq!(clean_ocr_text(" !!! "), None);
    let long = "a".repeat(60);
    assert_eq!(clean_ocr_text(&long), Some("a".repeat(50)));
}

#[test]
fn renamed_keeps_old_extension() {
    assert_eq!(renamed_filename("new", "old.jpg"), "new.jpg");
    assert_eq!(renamed_filename("new", "old"), "new.png");
    assert_eq!(renamed_filename("new.gif", "old.jpg"), "new.gif");
    assert_eq!(missing_file_message("a.png"), "文件不存在: a.png");
}

#[test]
fn listing_cache_freshness() {
    assert!(cache_is_fresh(Some(5), Some(5)));
    assert!(cache_is_fresh(None, None));
    assert!(!cache_is_fresh(Some(5), Some(6)));
    assert!(!cache_is_fresh(None, Some(6)));
}

#[test]
fn listing_sorts_newest_first_then_by_name() {
    let items = vec![info("b.png", 100), info("c.png", 300), info("a.png", 100)];
    let sorted = sort_image_list(&items);
    let names: Vec<&str> = sorted.iter().map(|i| i.filename.as_str()).collect();
    assert_eq!(names, vec!["c.png", "a.png", "b.png"]);
    assert!(is_listed_before(&sorted[0], &sorted[1]));
    assert!(!is_listed_before(&sorted[2], &sorted[1]));
}

#[test]
fn listing_pages() {
    let items = vec![info("1.png", 3), info("2.png", 2), info("3.png", 1)];
    let page = get_image_list(&items, 1, 10);
    assert_eq!(page.total, 3);
    assert_eq!(page.items.len(), 2);
    assert_eq!(page.items[0].filename, "2.png");
    let empty = get_image_list(&items, 5, 2);
    assert_eq!(empty.total, 3);
    assert!(empty.items.is_empty());
    assert_eq!(get_image_list(&items, 0, 1).items.len(), 1);
    assert_eq!(get_image_count(&items), 3);
}

#[test]
fn still_webp_becomes_jpeg() {
    let img = image::DynamicImage::ImageRgba8(image::RgbaImage::from_pixel(4, 3, image::Rgba([200, 10, 10, 255])));
    let mut webp = Vec::new();
    img.write_to(&mut std::io::Cursor::new(&mut webp), image::ImageFormat::WebP).unwrap();
    assert!(is_webp_by_magic(&webp));
    let jpg = quickclipboard::image_library::convert_webp_to_jpg(&webp).unwrap();
    assert_eq!(&jpg[..2], &[0xFF, 0xD8]);
    let bad = quickclipboard::image_library::convert_webp_to_jpg(b"not a picture").unwrap_err();
    assert!(bad.starts_with("解码 WebP 失败: "));
}

#[test]
fn first_gif_frame_becomes_png() {
    let img = image::DynamicImage::ImageRgba8(image::RgbaImage::from_pixel(2, 2, image::Rgba([0, 0, 255, 255])));
    let mut gif = Vec::new();
    img.write_to(&mut std::io::Cursor::new(&mut gif), image::ImageFormat::Gif).unwrap();
    assert!(is_gif_by_magic(&gif));
    let png = quickclipboard::image_library::extract_gif_first_frame(&gif).unwrap();
    assert_eq!(&png[..4], &[0x89, b'P', b'N', b'G']);
    assert!(quickclipboard::image_library::extract_gif_first_frame(b"GIF89a").is_none());
}

#[test]
fn listing_takes_image_files_only() {
    let entry = |name: &str, is_file: bool, t: u64| LibraryEntry {
        name: name.to_string(),
        path: format!("C:/lib/images/{}", name),
        is_file,
        size: 10,
        modified_ms: t,
    };
    let entries = vec![
        entry("b.png", true, 5),
        entry("notes.txt", true, 9),
        entry("a.JPG", true, 5),
        entry("dir.png", false, 7),
        entry("c.gif", true, 8),
    ];
    let listing = build_image_listing(&entries, "images");
    let names: Vec<&str> = listing.iter().map(|i| i.filename.as_str()).collect();
    assert_eq!(names, vec!["c.gif", "a.JPG", "b.png"]);
    assert!(listing.iter().all(|i| i.id == i.filename && i.category == "images" && i.size == 10));
}
