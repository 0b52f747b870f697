use quickclipboard::database::{
    auto_title, descending_orders, ensure_required_columns, has_column, import_column_expr,
    is_auto_title, merge_statements, schema_steps, DatabaseSlot, SchemaStep, MAX_CONTENT_LENGTH,
};
use quickclipboard::store::AppStore;

fn cols(v: &[&str]) -> Vec<String> {
    v.iter().map(|s| s.to_string()).collect()
}

#[test]
fn store_reads_what_was_written() {
    let mut s = AppStore::new();
    assert_eq!(s.set("k", "1"), Err("AppHandle 未初始化".to_string()));
    assert!(!s.has("k"));
    s.init();
    assert!(s.set("k", "1").is_ok());
    assert!(s.set("j", "\"x\"").is_ok());
    assert!(s.set("k", "2").is_ok());
    assert_eq!(s.get("k"), Some("2".to_string()));
    assert!(s.has("j"));
    let mut keys = s.keys();
    keys.sort();
    assert_eq!(keys, cols(&["j", "k"]));
    assert!(s.delete("k").is_ok());
    assert!(!s.has("k"));
    assert_eq!(s.get("k"), None);
    assert_eq!(s.keys(), cols(&["j"]));
}

#[test]
fn schema_steps_create_then_upgrade() {
    let steps = schema_steps();
    assert_eq!(steps.len(), 16);
    assert!(matches!(steps[0], SchemaStep::Execute { sql, .. } if sql.starts_with("CREATE TABLE IF NOT EXISTS clipboard")));
    assert!(matches!(steps[1], SchemaStep::AddColumnIfMissing { column: "is_pinned", .. }));
    assert!(matches!(steps[3], SchemaStep::MigrateOrders));
    assert!(matches!(steps[15], SchemaStep::MigrateAutoTitles));
    assert_eq!(MAX_CONTENT_LENGTH, 1600);
}

#[test]
fn columns_and_orders() {
    let c = cols(&["id", "name"]);
    assert!(has_column(&c, "name"));
    assert!(!has_column(&c, "color"));
    assert_eq!(descending_orders(3), vec![3, 2, 1]);
    assert!(descending_orders(0).is_empty());
}

#[test]
fn auto_titles_are_recognised() {
    let long = "x".repeat(60);
    assert_eq!(auto_title(&long), format!("{}...", "x".repeat(50)));
    assert_eq!(auto_title("short"), "short");
    assert!(is_auto_title("short", "short"));
    assert!(!is_auto_title("custom", "short"));
}

#[test]
fn merge_requires_columns() {
    let err = ensure_required_columns(&cols(&["name"]), "groups", &cols(&["name", "icon", "order_index"])).unwrap_err();
    assert_eq!(err, "导入数据库中的 groups 表缺少必需字段: icon, order_index");
    assert!(ensure_required_columns(&cols(&["a"]), "t", &cols(&["a"])).is_ok());
    assert_eq!(import_column_expr(&cols(&["color"]), "color", "'#dc2626'"), "src.color");
    assert_eq!(import_column_expr(&cols(&[]), "color", "'#dc2626'"), "'#dc2626' AS color");
}

#[test]
fn merge_statements_fill_legacy_columns() {
    let groups = cols(&["name", "icon", "order_index", "created_at", "updated_at"]);
    let favorites = cols(&[
        "id", "title", "content", "html_content", "content_type", "image_id", "group_name",
        "item_order", "created_at", "updated_at",
    ]);
    let clipboard = cols(&["id", "content", "html_content", "content_type", "image_id", "item_order", "created_at", "updated_at"]);
    let s = merge_statements(&groups, &favorites, &clipboard).ok().unwrap();
    assert!(s.groups.contains("'#dc2626' AS color"));
    assert!(s.favorites.contains("src.item_order"));
    assert!(s.favorites.contains("0 AS paste_count"));
    assert!(s.favorites.contains("NULL AS char_count"));
    assert!(s.clipboard.contains("0 AS is_pinned"));
    assert!(s.clipboard.contains("NULL AS source_app"));
    assert!(s.clipboard.starts_with("INSERT INTO clipboard ("));
    let bad = merge_statements(&groups, &cols(&["id"]), &clipboard).err().unwrap();
    assert!(bad.starts_with("导入数据库中的 favorites 表缺少必需字段: title, content"));
}

#[test]
fn closed_database_refuses_work() {
    let mut slot = DatabaseSlot::new();
    assert!(!slot.is_database_open());
    let r: Result<i64, String> = slot.with_connection(|_c| Ok(1));
    assert_eq!(r, Err("数据库未初始化".to_string()));
    slot.install(rusqlite::Connection::open_in_memory().unwrap());
    assert!(slot.is_database_open());
    let v: Result<i64, String> = slot.with_connection(|c| c.query_row("SELECT 40 + 2", [], |row| row.get(0)));
    assert_eq!(v, Ok(42));
    let e: Result<i64, String> = slot.with_connection(|c| c.query_row("SELECT nope FROM nothing", [], |row| row.get(0)));
    assert!(e.unwrap_err().starts_with("数据库操作失败: "));
    slot.close_database();
    assert!(!slot.is_database_open());
}
