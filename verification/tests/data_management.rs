use quickclipboard::data_management::{
    change_storage_dir, check_target_has_data, cleanup_targets, default_source_only,
    get_current_storage_dir, get_default_data_dir, normalize_path_for_comparison,
    parse_migration_mode, paths_refer_to_same_location, plan_storage_migration, reset_all_data, ResetStep,
    reset_storage_dir_to_default, ArtifactPresence, ChangePathPayload, CheckTargetPayload,
    CleanupTarget, MigrationMode, MigrationStep, ResetPathPayload, StorageArtifact,
};
use quickclipboard::settings::AppSettings;

fn presence(images: bool, database: bool) -> ArtifactPresence {
    ArtifactPresence {
        clipboard_images: images,
        pin_images: false,
        image_library: false,
        app_icons: false,
        database,
    }
}

#[test]
fn source_only_replaces_target_data() {
    let steps = plan_storage_migration("source_only", presence(true, true), presence(false, true)).unwrap();
    assert_eq!(
        steps,
        vec![
            MigrationStep::RemoveFromTarget(StorageArtifact::Database),
            MigrationStep::MoveToTarget(StorageArtifact::ClipboardImages),
            MigrationStep::MoveToTarget(StorageArtifact::Database),
            MigrationStep::RemoveJournalFiles,
        ]
    );
}

#[test]
fn target_only_drops_source_data() {
    let steps = plan_storage_migration("target_only", presence(true, false), presence(true, true)).unwrap();
    assert_eq!(
        steps,
        vec![
            MigrationStep::RemoveFromSource(StorageArtifact::ClipboardImages),
            MigrationStep::RemoveJournalFiles,
        ]
    );
}

#[test]
fn merge_keeps_both_sides_source_first() {
    let steps = plan_storage_migration("merge", presence(true, true), presence(false, true)).unwrap();
    assert_eq!(
        steps,
        vec![
            MigrationStep::CreateInTarget(StorageArtifact::ClipboardImages),
            MigrationStep::MergeTargetIntoSource(StorageArtifact::ClipboardImages),
            MigrationStep::RemoveFromTarget(StorageArtifact::ClipboardImages),
            MigrationStep::MoveToTarget(StorageArtifact::ClipboardImages),
            MigrationStep::MergeTargetDatabaseIntoSource,
            MigrationStep::RemoveFromTarget(StorageArtifact::Database),
            MigrationStep::MoveToTarget(StorageArtifact::Database),
            MigrationStep::RemoveJournalFiles,
        ]
    );
}

#[test]
fn unknown_migration_mode_is_refused() {
    assert_eq!(
        plan_storage_migration("copy", presence(true, true), presence(true, true)).unwrap_err(),
        "不支持的迁移模式: copy"
    );
    assert!(matches!(parse_migration_mode("merge"), Ok(MigrationMode::Merge)));
}

#[test]
fn cleanup_removes_known_artifacts_in_order() {
    let t = cleanup_targets();
    assert_eq!(t.len(), 7);
    assert_eq!(t[0], CleanupTarget::Dir(StorageArtifact::ClipboardImages));
    assert_eq!(t[4], CleanupTarget::DatabaseFile);
    assert_eq!(t[6], CleanupTarget::WriteAheadLogFile);
}

#[test]
fn payload_defaults_to_source_only() {
    assert_eq!(default_source_only(), "source_only");
    let p = ChangePathPayload::new("D:/new".to_string(), None);
    assert_eq!(p.mode, "source_only");
    assert_eq!(p.new_path, "D:/new");
    let r = ResetPathPayload::new(Some("merge".to_string()));
    assert_eq!(r.mode, "merge");
    let c = CheckTargetPayload { target_path: "E:/t".to_string() };
    assert_eq!(c.target_path, "E:/t");
}

#[test]
fn target_data_is_summed() {
    let info = check_target_has_data(Some(4096), Some(vec![10, 20, 30]), None).unwrap();
    assert!(info.has_data);
    assert!(info.has_database);
    assert_eq!(info.database_size, 4096);
    assert_eq!(info.images_count, 3);
    assert_eq!(info.images_size, 60);
    assert!(info.has_images);
    assert!(!info.has_image_library);
    let empty = check_target_has_data(None, Some(vec![]), Some(vec![])).unwrap();
    assert!(!empty.has_data);
    assert!(!empty.has_images);
}

#[test]
fn canonical_windows_paths_compare_case_insensitively() {
    assert_eq!(
        normalize_path_for_comparison("x", Ok("\\\\?\\C:\\Users\\Me".to_string()), true),
        Ok("c:\\users\\me".to_string())
    );
    assert_eq!(
        normalize_path_for_comparison("x", Ok("\\\\?\\UNC\\Server\\Share".to_string()), true),
        Ok("\\\\server\\share".to_string())
    );
    assert_eq!(
        normalize_path_for_comparison("D:/q", Err("not found".to_string()), true),
        Err("规范化路径失败 [D:/q]: not found".to_string())
    );
    assert_eq!(
        paths_refer_to_same_location(
            "a",
            Ok("\\\\?\\C:\\Data".to_string()),
            "b",
            Ok("C:/data".to_string()),
            true
        ),
        Ok(true)
    );
    assert_eq!(
        paths_refer_to_same_location("a", Ok("/tmp/Data".to_string()), "b", Ok("/tmp/data".to_string()), false),
        Ok(false)
    );
    assert_eq!(
        normalize_path_for_comparison("x", Ok("/tmp/Data".to_string()), false),
        Ok("/tmp/Data".to_string())
    );
    assert_eq!(
        paths_refer_to_same_location("a", Ok("C:\\x".to_string()), "b", Ok("C:\\y".to_string()), true),
        Ok(false)
    );
}

#[test]
fn default_and_current_directories() {
    assert_eq!(
        get_default_data_dir(Ok("C:\\Users\\me\\AppData\\Roaming\\quickclipboard\\settings.json".to_string())),
        Ok("C:\\Users\\me\\AppData\\Roaming\\quickclipboard".to_string())
    );
    assert_eq!(get_default_data_dir(Ok("C:\\".to_string())), Err("无法获取默认数据目录".to_string()));
    assert_eq!(get_current_storage_dir(&None, Ok("D:/q".to_string())), Ok("D:/q".to_string()));
}

#[test]
fn moving_to_the_same_place_is_refused() {
    let r = change_storage_dir("D:/q", "merge", Ok(true), presence(true, true), presence(false, false), AppSettings::default(), '/');
    assert_eq!(r.err(), Some("新位置与当前存储位置相同，无需迁移".to_string()));
    let r = reset_storage_dir_to_default("merge", "C:/q", Ok(true), presence(true, true), presence(false, false), AppSettings::default(), '/');
    assert_eq!(r.err(), Some("当前已在默认存储位置".to_string()));
}

#[test]
fn moving_elsewhere_updates_settings() {
    let c = change_storage_dir("D:/q", "source_only", Ok(false), presence(false, true), presence(false, false), AppSettings::default(), '/')
        .ok()
        .unwrap();
    assert!(c.settings.use_custom_storage);
    assert_eq!(c.settings.custom_storage_path.as_deref(), Some("D:/q"));
    assert_eq!(c.database_path, "D:/q/quickclipboard.db");
    assert_eq!(c.data_dir, "D:/q");
    assert_eq!(c.steps.len(), 2);
    let back = reset_storage_dir_to_default("target_only", "C:/def", Ok(false), presence(false, false), presence(false, false), c.settings, '/')
        .ok()
        .unwrap();
    assert!(!back.settings.use_custom_storage);
    assert_eq!(back.database_path, "C:/def/quickclipboard.db");
    let bad = change_storage_dir("D:/q", "copy", Ok(false), presence(false, true), presence(false, false), AppSettings::default(), '/');
    assert_eq!(bad.err(), Some("不支持的迁移模式: copy".to_string()));
}

#[test]
fn full_reset_cleans_the_default_directory_too() {
    let steps = reset_all_data("D:/cur", "C:/def", Ok(false), '/');
    assert_eq!(steps.len(), 4);
    assert!(matches!(&steps[0], ResetStep::Clean(d) if d == "D:/cur"));
    assert!(matches!(&steps[1], ResetStep::Clean(d) if d == "C:/def"));
    assert!(matches!(&steps[2], ResetStep::SaveSettings(s) if !s.use_custom_storage && s.custom_storage_path.is_none()));
    assert!(matches!(&steps[3], ResetStep::OpenDatabase(p) if p == "C:/def/quickclipboard.db"));
    let same = reset_all_data("C:/def", "C:/def", Ok(true), '/');
    assert_eq!(same.len(), 3);
    assert!(matches!(&same[0], ResetStep::Clean(d) if d == "C:/def"));
    let failed = reset_all_data("D:/cur", "C:/def", Err("e".to_string()), '/');
    assert_eq!(failed.len(), 2);
    assert!(matches!(&failed[0], ResetStep::Clean(d) if d == "D:/cur"));
    assert!(matches!(&failed[1], ResetStep::Fail(e) if e == "e"));
}
