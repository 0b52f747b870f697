//! The database: its schema, the connection that the application holds, and the
//! statements that merge another database into it.
use vstd::prelude::*;
use crate::text::{append, chars_of, owned, str_eq, string_from};
use crate::hotkey::{join_comma, joined, views};

verus! {

/// A connection to an SQLite database (`rusqlite::Connection`); opaque here.
#[verifier::external_type_specification]
#[verifier::external_body]
pub struct ExConnection(rusqlite::Connection);

/// An error of `rusqlite`; opaque here.
#[verifier::external_type_specification]
#[verifier::external_body]
pub struct ExSqlError(rusqlite::Error);

/// The longest text kept in full in a clipboard record.
pub const MAX_CONTENT_LENGTH: usize = 1600;

// ---------------------------------------------------------------------------
// Schema.

/// One step of bringing a database up to the current schema.
#[derive(Clone, Copy, Debug)]
pub enum SchemaStep {
    /// Run a statement; a failure is reported after `error_prefix`.
    Execute { sql: &'static str, error_prefix: &'static str },
    /// Run `sql` when `table` has no column `column`.
    AddColumnIfMissing {
        table: &'static str,
        column: &'static str,
        sql: &'static str,
        error_prefix: &'static str,
    },
    /// Renumber the clipboard and favorite orders (see [`descending_orders`]).
    MigrateOrders,
    /// Clear the titles of file and image favorites that were generated from
    /// their content (see [`is_auto_title`]).
    MigrateAutoTitles,
}

/// The steps that create or upgrade the schema, in order.
pub open spec fn schema_steps_spec() -> Seq<SchemaStep> {
    seq![
        SchemaStep::Execute { sql: "CREATE TABLE IF NOT EXISTS clipboard (\n            id INTEGER PRIMARY KEY AUTOINCREMENT,\n            content TEXT NOT NULL,\n            html_content TEXT,\n            content_type TEXT NOT NULL DEFAULT 'text',\n            image_id TEXT,\n            item_order INTEGER NOT NULL DEFAULT 0,\n            is_pinned INTEGER NOT NULL DEFAULT 0,\n            created_at INTEGER NOT NULL,\n            updated_at INTEGER NOT NULL\n        )", error_prefix: "创建剪贴板表失败: " },
        SchemaStep::AddColumnIfMissing { table: "clipboard", column: "is_pinned", sql: "ALTER TABLE clipboard ADD COLUMN is_pinned INTEGER NOT NULL DEFAULT 0", error_prefix: "添加置顶字段失败: " },
        SchemaStep::AddColumnIfMissing { table: "clipboard", column: "paste_count", sql: "ALTER TABLE clipboard ADD COLUMN paste_count INTEGER NOT NULL DEFAULT 0", error_prefix: "添加粘贴次数字段失败: " },
        SchemaStep::MigrateOrders,
        SchemaStep::Execute { sql: "CREATE TABLE IF NOT EXISTS favorites (\n            id TEXT PRIMARY KEY,\n            title TEXT NOT NULL,\n            content TEXT NOT NULL,\n            html_content TEXT,\n            content_type TEXT NOT NULL DEFAULT 'text',\n            image_id TEXT,\n            group_name TEXT NOT NULL DEFAULT '全部',\n            item_order INTEGER NOT NULL DEFAULT 0,\n            created_at INTEGER NOT NULL,\n            updated_at INTEGER NOT NULL\n        )", error_prefix: "创建收藏表失败: " },
        SchemaStep::Execute { sql: "CREATE TABLE IF NOT EXISTS groups (\n            name TEXT PRIMARY KEY,\n            icon TEXT NOT NULL DEFAULT 'ti ti-folder',\n            color TEXT NOT NULL DEFAULT '#dc2626',\n            order_index INTEGER NOT NULL DEFAULT 0,\n            created_at INTEGER NOT NULL,\n            updated_at INTEGER NOT NULL\n        )", error_prefix: "创建分组表失败: " },
        SchemaStep::AddColumnIfMissing { table: "groups", column: "color", sql: "ALTER TABLE groups ADD COLUMN color TEXT NOT NULL DEFAULT '#dc2626'", error_prefix: "添加颜色字段失败: " },
        SchemaStep::AddColumnIfMissing { table: "favorites", column: "paste_count", sql: "ALTER TABLE favorites ADD COLUMN paste_count INTEGER NOT NULL DEFAULT 0", error_prefix: "添加收藏粘贴次数字段失败: " },
        SchemaStep::AddColumnIfMissing { table: "clipboard", column: "source_app", sql: "ALTER TABLE clipboard ADD COLUMN source_app TEXT", error_prefix: "添加来源应用字段失败: " },
        SchemaStep::AddColumnIfMissing { table: "clipboard", column: "source_icon_hash", sql: "ALTER TABLE clipboard ADD COLUMN source_icon_hash TEXT", error_prefix: "添加来源图标哈希字段失败: " },
        SchemaStep::AddColumnIfMissing { table: "clipboard", column: "char_count", sql: "ALTER TABLE clipboard ADD COLUMN char_count INTEGER", error_prefix: "添加剪贴板字符数量字段失败: " },
        SchemaStep::AddColumnIfMissing { table: "favorites", column: "char_count", sql: "ALTER TABLE favorites ADD COLUMN char_count INTEGER", error_prefix: "添加收藏字符数量字段失败: " },
        SchemaStep::Execute { sql: "CREATE INDEX IF NOT EXISTS idx_clipboard_order ON clipboard(is_pinned DESC, item_order DESC, updated_at DESC)", error_prefix: "创建剪贴板排序索引失败: " },
        SchemaStep::Execute { sql: "CREATE INDEX IF NOT EXISTS idx_clipboard_content_type ON clipboard(content_type)", error_prefix: "创建内容类型索引失败: " },
        SchemaStep::Execute { sql: "CREATE INDEX IF NOT EXISTS idx_favorites_group ON favorites(group_name, item_order)", error_prefix: "创建收藏索引失败: " },
        SchemaStep::MigrateAutoTitles
    ]
}

/// The steps that create or upgrade the schema, in the order in which they run;
/// the first failure stops them.
pub fn schema_steps() -> (r: Vec<SchemaStep>)
    ensures
        r@ == schema_steps_spec(),
{
    let mut v: Vec<SchemaStep> = Vec::new();
    v.push(SchemaStep::Execute { sql: "CREATE TABLE IF NOT EXISTS clipboard (\n            id INTEGER PRIMARY KEY AUTOINCREMENT,\n            content TEXT NOT NULL,\n            html_content TEXT,\n            content_type TEXT NOT NULL DEFAULT 'text',\n            image_id TEXT,\n            item_order INTEGER NOT NULL DEFAULT 0,\n            is_pinned INTEGER NOT NULL DEFAULT 0,\n            created_at INTEGER NOT NULL,\n            updated_at INTEGER NOT NULL\n        )", error_prefix: "创建剪贴板表失败: " });
    v.push(SchemaStep::AddColumnIfMissing { table: "clipboard", column: "is_pinned", sql: "ALTER TABLE clipboard ADD COLUMN is_pinned INTEGER NOT NULL DEFAULT 0", error_prefix: "添加置顶字段失败: " });
    v.push(SchemaStep::AddColumnIfMissing { table: "clipboard", column: "paste_count", sql: "ALTER TABLE clipboard ADD COLUMN paste_count INTEGER NOT NULL DEFAULT 0", error_prefix: "添加粘贴次数字段失败: " });
    v.push(SchemaStep::MigrateOrders);
    v.push(SchemaStep::Execute { sql: "CREATE TABLE IF NOT EXISTS favorites (\n            id TEXT PRIMARY KEY,\n            title TEXT NOT NULL,\n            content TEXT NOT NULL,\n            html_content TEXT,\n            content_type TEXT NOT NULL DEFAULT 'text',\n            image_id TEXT,\n            group_name TEXT NOT NULL DEFAULT '全部',\n            item_order INTEGER NOT NULL DEFAULT 0,\n            created_at INTEGER NOT NULL,\n            updated_at INTEGER NOT NULL\n        )", error_prefix: "创建收藏表失败: " });
    v.push(SchemaStep::Execute { sql: "CREATE TABLE IF NOT EXISTS groups (\n            name TEXT PRIMARY KEY,\n            icon TEXT NOT NULL DEFAULT 'ti ti-folder',\n            color TEXT NOT NULL DEFAULT '#dc2626',\n            order_index INTEGER NOT NULL DEFAULT 0,\n            created_at INTEGER NOT NULL,\n            updated_at INTEGER NOT NULL\n        )", error_prefix: "创建分组表失败: " });
    v.push(SchemaStep::AddColumnIfMissing { table: "groups", column: "color", sql: "ALTER TABLE groups ADD COLUMN color TEXT NOT NULL DEFAULT '#dc2626'", error_prefix: "添加颜色字段失败: " });
    v.push(SchemaStep::AddColumnIfMissing { table: "favorites", column: "paste_count", sql: "ALTER TABLE favorites ADD COLUMN paste_count INTEGER NOT NULL DEFAULT 0", error_prefix: "添加收藏粘贴次数字段失败: " });
    v.push(SchemaStep::AddColumnIfMissing { table: "clipboard", column: "source_app", sql: "ALTER TABLE clipboard ADD COLUMN source_app TEXT", error_prefix: "添加来源应用字段失败: " });
    v.push(SchemaStep::AddColumnIfMissing { table: "clipboard", column: "source_icon_hash", sql: "ALTER TABLE clipboard ADD COLUMN source_icon_hash TEXT", error_prefix: "添加来源图标哈希字段失败: " });
    v.push(SchemaStep::AddColumnIfMissing { table: "clipboard", column: "char_count", sql: "ALTER TABLE clipboard ADD COLUMN char_count INTEGER", error_prefix: "添加剪贴板字符数量字段失败: " });
    v.push(SchemaStep::AddColumnIfMissing { table: "favorites", column: "char_count", sql: "ALTER TABLE favorites ADD COLUMN char_count INTEGER", error_prefix: "添加收藏字符数量字段失败: " });
    v.push(SchemaStep::Execute { sql: "CREATE INDEX IF NOT EXISTS idx_clipboard_order ON clipboard(is_pinned DESC, item_order DESC, updated_at DESC)", error_prefix: "创建剪贴板排序索引失败: " });
    v.push(SchemaStep::Execute { sql: "CREATE INDEX IF NOT EXISTS idx_clipboard_content_type ON clipboard(content_type)", error_prefix: "创建内容类型索引失败: " });
    v.push(SchemaStep::Execute { sql: "CREATE INDEX IF NOT EXISTS idx_favorites_group ON favorites(group_name, item_order)", error_prefix: "创建收藏索引失败: " });
    v.push(SchemaStep::MigrateAutoTitles);
    assert(v@ =~= schema_steps_spec());
    v
}

/// Whether a table has a column, given the names of its columns.
pub fn has_column(columns: &Vec<String>, column: &str) -> (r: bool)
    ensures
        r == views(columns@).contains(column@),
{
    let mut i: usize = 0;
    while i < columns.len()
        invariant
            i <= columns.len(),
            forall|j: int| 0 <= j < i ==> columns@[j]@ != column@,
        decreases columns.len() - i,
    {
        if str_eq(columns[i].as_str(), column) {
            assert(views(columns@)[i as int] == column@);
            return true;
        }
        i = i + 1;
    }
    assert forall|j: int| 0 <= j < views(columns@).len() implies views(columns@)[j] != column@ by {
        assert(columns@[j]@ != column@);
    }
    false
}

/// The orders given to `count` rows listed first to last: the first gets
/// `count`, each next one less, the last 1.
pub fn descending_orders(count: usize) -> (r: Vec<i64>)
    requires
        count <= i64::MAX,
    ensures
        r.len() == count,
        forall|i: int| 0 <= i < count ==> r@[i] == count - i,
{
    let mut v: Vec<i64> = Vec::new();
    let mut i: usize = 0;
    while i < count
        invariant
            i <= count <= i64::MAX,
            v.len() == i,
            forall|j: int| 0 <= j < i ==> v@[j] == count - j,
        decreases count - i,
    {
        let n: i64 = (count - i) as i64;
        v.push(n);
        i = i + 1;
    }
    v
}

/// The title that was generated for a favorite from its content: the first 50
/// characters followed by `...` when the content is longer, the whole content otherwise.
pub open spec fn auto_title_of(content: Seq<char>) -> Seq<char> {
    if content.len() > 50 {
        content.take(50) + "..."@
    } else {
        content
    }
}

/// The title generated from a favorite's content (see [`auto_title_of`]).
pub fn auto_title(content: &str) -> (r: String)
    ensures
        r@ == auto_title_of(content@),
{
    let c = chars_of(content);
    if c.len() > 50 {
        let mut out: Vec<char> = Vec::new();
        let mut i: usize = 0;
        while i < 50
            invariant
                i <= 50 < c.len(),
                out@ == c@.take(i as int),
            decreases 50 - i,
        {
            out.push(c[i]);
            i = i + 1;
            assert(c@.take(i as int) =~= c@.take(i - 1).push(c@[i - 1]));
        }
        let mut s = string_from(&out);
        append(&mut s, "...");
        s
    } else {
        owned(content)
    }
}

/// Whether a favorite's title is the one generated from its content.
pub fn is_auto_title(title: &str, content: &str) -> (r: bool)
    ensures
        r == (title@ == auto_title_of(content@)),
{
    let expected = auto_title(content);
    str_eq(title, expected.as_str())
}

// ---------------------------------------------------------------------------
// The connection.

/// The connection that the application works on, if a database is open.
pub struct DatabaseSlot {
    conn: Option<rusqlite::Connection>,
}

/// The error when no database is open.
pub open spec fn not_open_message() -> Seq<char> {
    "数据库未初始化"@
}

/// What the `Display` of a `rusqlite` error writes.
pub uninterp spec fn sql_error_display(e: rusqlite::Error) -> Seq<char>;

/// The text of a database error (`rusqlite::Error`'s `Display`); the contract
/// names it.
#[verifier::external_body]
fn sql_error_text(e: &rusqlite::Error) -> (r: String)
    ensures
        r@ == sql_error_display(*e),
{
    e.to_string()
}

impl DatabaseSlot {
    /// Whether a database is open.
    pub closed spec fn is_open(&self) -> bool {
        self.conn is Some
    }

    /// The open connection (meaningful when one is open).
    pub closed spec fn connection(&self) -> rusqlite::Connection {
        self.conn->0
    }

    /// No database open.
    pub fn new() -> (r: DatabaseSlot)
        ensures
            !r.is_open(),
    {
        DatabaseSlot { conn: None }
    }

    /// Keeps a newly opened connection, in place of any earlier one.
    pub fn install(&mut self, conn: rusqlite::Connection)
        ensures
            final(self).is_open(),
            final(self).connection() == conn,
    {
        self.conn = Some(conn);
    }

    /// Closes the database: the connection is dropped.
    pub fn close_database(&mut self)
        ensures
            !final(self).is_open(),
    {
        if self.conn.is_some() {
            self.conn = None;
        }
    }

    /// Whether a database is open.
    pub fn is_database_open(&self) -> (r: bool)
        ensures
            r == self.is_open(),
    {
        self.conn.is_some()
    }

    /// Runs `f` on the open connection. Without one, `数据库未初始化`; otherwise
    /// what `f` returns, its database error as text after `数据库操作失败: `.
    pub fn with_connection<R, F>(&self, f: F) -> (r: Result<R, String>) where
        F: FnOnce(&rusqlite::Connection) -> Result<R, rusqlite::Error>,

        requires
            self.is_open() ==> f.requires((&self.connection(),)),
        ensures
            !self.is_open() ==> (r matches Err(m) && m@ == not_open_message()),
            self.is_open() ==> match r {
                Ok(v) => f.ensures((&self.connection(),), Ok::<R, rusqlite::Error>(v)),
                Err(m) => exists|e: rusqlite::Error|
                    #[trigger] f.ensures((&self.connection(),), Err::<R, rusqlite::Error>(e))
                        && m@ == "数据库操作失败: "@ + sql_error_display(e),
            },
    {
        match &self.conn {
            None => Err(owned("数据库未初始化")),
            Some(conn) => match f(conn) {
                Ok(v) => Ok(v),
                Err(e) => {
                    let text = sql_error_text(&e);
                    let mut m = owned("数据库操作失败: ");
                    append(&mut m, text.as_str());
                    proof {
                        reveal_strlit("数据库操作失败: ");
                    }
                    assert(m@ == "数据库操作失败: "@ + sql_error_display(e));
                    Err(m)
                },
            },
        }
    }
}

// ---------------------------------------------------------------------------
// Merging another database.

/// The columns that must be present in the `groups` table of an imported database.
pub open spec fn required_group_columns() -> Seq<Seq<char>> {
    seq!["name"@, "icon"@, "order_index"@, "created_at"@, "updated_at"@]
}

/// The columns that must be present in the `favorites` table of an imported database.
pub open spec fn required_favorite_columns() -> Seq<Seq<char>> {
    seq![
        "id"@,
        "title"@,
        "content"@,
        "html_content"@,
        "content_type"@,
        "image_id"@,
        "group_name"@,
        "created_at"@,
        "updated_at"@,
    ]
}

/// The columns that must be present in the `clipboard` table of an imported database.
pub open spec fn required_clipboard_columns() -> Seq<Seq<char>> {
    seq!["content"@, "html_content"@, "content_type"@, "image_id"@, "created_at"@, "updated_at"@]
}

/// The required columns that a table lacks, in the order in which they are required.
pub open spec fn missing_from(columns: Seq<Seq<char>>, required: Seq<Seq<char>>) -> Seq<Seq<char>>
    decreases required.len(),
{
    if required.len() == 0 {
        Seq::empty()
    } else {
        let m = missing_from(columns, required.drop_last());
        if columns.contains(required.last()) {
            m
        } else {
            m.push(required.last())
        }
    }
}

/// The error for a table of an imported database that lacks required columns.
pub open spec fn missing_columns_message(table: Seq<char>, missing: Seq<Seq<char>>) -> Seq<char> {
    "导入数据库中的 "@ + table + " 表缺少必需字段: "@ + joined(missing)
}

/// Checks that a table of an imported database has every required column; the
/// error lists those it lacks, in order, separated by `, `.
pub fn ensure_required_columns(columns: &Vec<String>, table: &str, required: &Vec<String>) -> (r:
    Result<(), String>)
    ensures
        missing_from(views(columns@), views(required@)).len() == 0 ==> r is Ok,
        missing_from(views(columns@), views(required@)).len() > 0 ==> (r matches Err(m) && m@
            == missing_columns_message(table@, missing_from(views(columns@), views(required@)))),
{
    let mut missing: Vec<String> = Vec::new();
    let mut i: usize = 0;
    while i < required.len()
        invariant
            i <= required.len(),
            views(missing@) == missing_from(views(columns@), views(required@).take(i as int)),
        decreases required.len() - i,
    {
        let ghost before = views(missing@);
        assert(views(required@).take(i + 1).drop_last() =~= views(required@).take(i as int));
        assert(views(required@).take(i + 1).last() == required@[i as int]@);
        if !has_column(columns, required[i].as_str()) {
            missing.push(required[i].clone());
            assert(views(missing@) =~= before.push(required@[i as int]@));
        }
        i = i + 1;
    }
    assert(views(required@).take(required.len() as int) =~= views(required@));
    if missing.len() == 0 {
        Ok(())
    } else {
        let mut m = owned("导入数据库中的 ");
        append(&mut m, table);
        append(&mut m, " 表缺少必需字段: ");
        append(&mut m, join_comma(&missing).as_str());
        Err(m)
    }
}

/// The value that an imported column takes: the imported column when the table
/// has it, otherwise the default under the column's name.
pub open spec fn column_expr(columns: Seq<Seq<char>>, column: Seq<char>, default_expr: Seq<char>) -> Seq<char> {
    if columns.contains(column) {
        "src."@ + column
    } else {
        default_expr + " AS "@ + column
    }
}

/// The value that an imported column takes (see [`column_expr`]).
pub fn import_column_expr(columns: &Vec<String>, column: &str, default_expr: &str) -> (r: String)
    ensures
        r@ == column_expr(views(columns@), column@, default_expr@),
{
    if has_column(columns, column) {
        let mut s = owned("src.");
        append(&mut s, column);
        s
    } else {
        let mut s = owned(default_expr);
        append(&mut s, " AS ");
        append(&mut s, column);
        s
    }
}

/// Items separated by `, `.
pub open spec fn comma_list(items: Seq<Seq<char>>) -> Seq<char>
    decreases items.len(),
{
    if items.len() == 0 {
        Seq::empty()
    } else if items.len() == 1 {
        items[0]
    } else {
        comma_list(items.drop_last()) + ", "@ + items.last()
    }
}

/// The one-line form of an import statement: the `k`-th listed column of
/// `table` receives the `k`-th selected value.
pub open spec fn inline_import_sql(
    verb: Seq<char>,
    table: Seq<char>,
    cols: Seq<Seq<char>>,
    values: Seq<Seq<char>>,
) -> Seq<char> {
    verb + table + " ("@ + comma_list(cols) + ")\n                 SELECT "@ + comma_list(values)
        + "\n                 FROM importdb."@ + table + " AS src"@
}

/// The columns of a group that an import fills, in order.
pub open spec fn group_import_columns() -> Seq<Seq<char>> {
    seq!["name"@, "icon"@, "color"@, "order_index"@, "created_at"@, "updated_at"@]
}

/// The statement that imports the groups that are not there yet: each column
/// receives the imported column of the same name, except the given color.
pub open spec fn groups_sql(color: Seq<char>) -> Seq<char> {
    inline_import_sql(
        "INSERT OR IGNORE INTO "@,
        "groups"@,
        group_import_columns(),
        seq!["src.name"@, "src.icon"@, color, "src.order_index"@, "src.created_at"@, "src.updated_at"@],
    )
}

// ---------------------------------------------------------------------------
// The shape of an import statement.

/// The indentation of the lines of an import statement.
pub open spec fn sql_indent() -> Seq<char> {
    "                    "@
}

/// What separates two selected values: a comma, a line break and the indentation.
pub open spec fn sql_line_sep() -> Seq<char> {
    ",\n"@ + sql_indent()
}

/// The listed columns of an import statement, indented, separated by `, `, with
/// a line break (after the comma) before the columns at the positions in `breaks`.
pub open spec fn column_list_text(cols: Seq<Seq<char>>, breaks: Seq<usize>) -> Seq<char>
    decreases cols.len(),
{
    if cols.len() == 0 {
        Seq::empty()
    } else if cols.len() == 1 {
        sql_indent() + cols[0]
    } else {
        column_list_text(cols.drop_last(), breaks) + (if breaks.contains((cols.len() - 1) as usize) {
            sql_line_sep()
        } else {
            ", "@
        }) + cols.last()
    }
}

/// The selected values of an import statement, one per line, indented.
pub open spec fn select_list_text(values: Seq<Seq<char>>) -> Seq<char>
    decreases values.len(),
{
    if values.len() == 0 {
        Seq::empty()
    } else if values.len() == 1 {
        sql_indent() + values[0]
    } else {
        select_list_text(values.drop_last()) + sql_line_sep() + values.last()
    }
}

/// The statement (`verb` is `INSERT INTO ` or `INSERT OR IGNORE INTO `) that
/// inserts into `table`, column by column, the values
/// selected from the imported database's table of the same name: the `k`-th
/// listed column receives the `k`-th selected value.
pub open spec fn import_sql(
    verb: Seq<char>,
    table: Seq<char>,
    cols: Seq<Seq<char>>,
    breaks: Seq<usize>,
    values: Seq<Seq<char>>,
) -> Seq<char> {
    verb + table + " (\n"@ + column_list_text(cols, breaks) + "\n                 )\n                 SELECT\n"@
        + select_list_text(values) + "\n                 FROM importdb."@ + table + " AS src"@
}

/// The columns of a clipboard record that an import fills, in order.
pub open spec fn clipboard_import_columns() -> Seq<Seq<char>> {
    seq![
        "content"@, "html_content"@, "content_type"@, "image_id"@, "item_order"@, "is_pinned"@,
        "paste_count"@, "source_app"@, "source_icon_hash"@, "char_count"@, "created_at"@,
        "updated_at"@,
    ]
}

/// Where the clipboard import statement breaks its column list.
pub open spec fn clipboard_column_breaks() -> Seq<usize> {
    seq![4usize, 10usize]
}

/// The value an imported clipboard record gives a column that its table lacks.
pub open spec fn clipboard_default(col: Seq<char>) -> Seq<char> {
    if col == "item_order"@ || col == "is_pinned"@ || col == "paste_count"@ {
        "0"@
    } else {
        "NULL"@
    }
}


/// The columns of a favorite that an import fills, in order.
pub open spec fn favorite_import_columns() -> Seq<Seq<char>> {
    seq![
        "id"@, "title"@, "content"@, "html_content"@, "content_type"@, "image_id"@,
        "group_name"@, "item_order"@, "paste_count"@, "char_count"@, "created_at"@,
        "updated_at"@,
    ]
}

/// Where the favorites import statement breaks its column list.
pub open spec fn favorite_column_breaks() -> Seq<usize> {
    seq![6usize]
}

/// The value an imported favorite gives a column that its table lacks.
pub open spec fn favorite_default(col: Seq<char>) -> Seq<char> {
    if col == "item_order"@ || col == "paste_count"@ {
        "0"@
    } else {
        "NULL"@
    }
}

/// The statement that imports the favorites that are not there yet: each
/// column receives the imported column of the same name, except those whose
/// values are given.
pub open spec fn favorites_sql(item_order: Seq<char>, paste_count: Seq<char>, char_count: Seq<char>) -> Seq<char> {
    import_sql(
        "INSERT OR IGNORE INTO "@,
        "favorites"@,
        favorite_import_columns(),
        favorite_column_breaks(),
        seq![
            "src.id"@, "src.title"@, "src.content"@, "src.html_content"@, "src.content_type"@,
            "src.image_id"@, "src.group_name"@, item_order, paste_count, char_count,
            "src.created_at"@, "src.updated_at"@,
        ],
    )
}

/// The statement that imports every clipboard record: each column receives
/// the imported column of the same name, except those whose values are given.
pub open spec fn clipboard_sql(
    item_order: Seq<char>,
    is_pinned: Seq<char>,
    paste_count: Seq<char>,
    source_app: Seq<char>,
    source_icon_hash: Seq<char>,
    char_count: Seq<char>,
) -> Seq<char> {
    import_sql(
        "INSERT INTO "@,
        "clipboard"@,
        clipboard_import_columns(),
        clipboard_column_breaks(),
        seq![
            "src.content"@, "src.html_content"@, "src.content_type"@, "src.image_id"@, item_order,
            is_pinned, paste_count, source_app, source_icon_hash, char_count, "src.created_at"@,
            "src.updated_at"@,
        ],
    )
}

fn contains_index(v: &Vec<usize>, x: usize) -> (r: bool)
    ensures
        r == v@.contains(x),
{
    let mut i: usize = 0;
    while i < v.len()
        invariant
            i <= v.len(),
            forall|j: int| 0 <= j < i ==> v@[j] != x,
        decreases v.len() - i,
    {
        if v[i] == x {
            return true;
        }
        i = i + 1;
    }
    false
}

/// Builds an import statement (see [`import_sql`]).
fn import_statement(
    verb: &str,
    table: &str,
    cols: &Vec<String>,
    breaks: &Vec<usize>,
    values: &Vec<String>,
) -> (r: String)
    ensures
        r@ == import_sql(verb@, table@, views(cols@), breaks@, views(values@)),
{
    let mut out = owned(verb);
    append(&mut out, table);
    append(&mut out, " (\n");
    let ghost p0 = out@;
    let ghost cs = views(cols@);
    let mut k: usize = 0;
    assert(cs.take(0) =~= Seq::<Seq<char>>::empty());
    while k < cols.len()
        invariant
            k <= cols.len(),
            cs == views(cols@),
            out@ == p0 + column_list_text(cs.take(k as int), breaks@),
        decreases cols.len() - k,
    {
        let ghost before = out@;
        let ghost prev = column_list_text(cs.take(k as int), breaks@);
        assert(cs.take(k + 1).drop_last() =~= cs.take(k as int));
        assert(cs.take(k + 1).last() == cols@[k as int]@);
        if k == 0 {
            append(&mut out, "                    ");
            append(&mut out, cols[k].as_str());
            assert(cs.take(1)[0] == cols@[0]@);
            assert(out@ =~= p0 + column_list_text(cs.take(1), breaks@));
        } else if contains_index(breaks, k) {
            append(&mut out, ",\n");
            append(&mut out, "                    ");
            append(&mut out, cols[k].as_str());
            assert(out@ =~= p0 + (prev + sql_line_sep() + cols@[k as int]@));
        } else {
            append(&mut out, ", ");
            append(&mut out, cols[k].as_str());
            assert(out@ =~= p0 + (prev + ", "@ + cols@[k as int]@));
        }
        k = k + 1;
    }
    assert(cs.take(cols.len() as int) =~= cs);
    append(&mut out, "\n                 )\n                 SELECT\n");
    let ghost p1 = out@;
    let ghost vs = views(values@);
    let mut i: usize = 0;
    assert(vs.take(0) =~= Seq::<Seq<char>>::empty());
    while i < values.len()
        invariant
            i <= values.len(),
            vs == views(values@),
            out@ == p1 + select_list_text(vs.take(i as int)),
        decreases values.len() - i,
    {
        let ghost prev = select_list_text(vs.take(i as int));
        assert(vs.take(i + 1).drop_last() =~= vs.take(i as int));
        assert(vs.take(i + 1).last() == values@[i as int]@);
        if i == 0 {
            append(&mut out, "                    ");
            append(&mut out, values[i].as_str());
            assert(vs.take(1)[0] == values@[0]@);
            assert(out@ =~= p1 + select_list_text(vs.take(1)));
        } else {
            append(&mut out, ",\n");
            append(&mut out, "                    ");
            append(&mut out, values[i].as_str());
            assert(out@ =~= p1 + (prev + sql_line_sep() + values@[i as int]@));
        }
        i = i + 1;
    }
    assert(vs.take(values.len() as int) =~= vs);
    append(&mut out, "\n                 FROM importdb.");
    append(&mut out, table);
    append(&mut out, " AS src");
    out
}

fn comma_joined(items: &Vec<String>) -> (r: String)
    ensures
        r@ == comma_list(views(items@)),
{
    let ghost vs = views(items@);
    let mut out = String::new();
    let mut i: usize = 0;
    assert(vs.take(0) =~= Seq::<Seq<char>>::empty());
    while i < items.len()
        invariant
            i <= items.len(),
            vs == views(items@),
            out@ == comma_list(vs.take(i as int)),
        decreases items.len() - i,
    {
        let ghost prev = out@;
        assert(vs.take(i + 1).drop_last() =~= vs.take(i as int));
        assert(vs.take(i + 1).last() == items@[i as int]@);
        if i > 0 {
            append(&mut out, ", ");
        } else {
            assert(vs.take(1)[0] == items@[0]@);
        }
        append(&mut out, items[i].as_str());
        assert(i == 0 ==> out@ =~= items@[0]@);
        i = i + 1;
    }
    assert(vs.take(items.len() as int) =~= vs);
    out
}

/// Builds a one-line import statement (see [`inline_import_sql`]).
fn inline_import_statement(verb: &str, table: &str, cols: &Vec<String>, values: &Vec<String>) -> (r:
    String)
    ensures
        r@ == inline_import_sql(verb@, table@, views(cols@), views(values@)),
{
    let mut out = owned(verb);
    append(&mut out, table);
    append(&mut out, " (");
    append(&mut out, comma_joined(cols).as_str());
    append(&mut out, ")\n                 SELECT ");
    append(&mut out, comma_joined(values).as_str());
    append(&mut out, "\n                 FROM importdb.");
    append(&mut out, table);
    append(&mut out, " AS src");
    out
}

fn groups_statement(color: &String) -> (r: String)
    ensures
        r@ == groups_sql(color@),
{
    let mut cols: Vec<String> = Vec::new();
    cols.push(owned("name"));
    cols.push(owned("icon"));
    cols.push(owned("color"));
    cols.push(owned("order_index"));
    cols.push(owned("created_at"));
    cols.push(owned("updated_at"));
    assert(views(cols@) =~= group_import_columns());
    let mut values: Vec<String> = Vec::new();
    values.push(owned("src.name"));
    values.push(owned("src.icon"));
    values.push(color.clone());
    values.push(owned("src.order_index"));
    values.push(owned("src.created_at"));
    values.push(owned("src.updated_at"));
    assert(views(values@) =~= seq![
        "src.name"@, "src.icon"@, color@, "src.order_index"@, "src.created_at"@, "src.updated_at"@,
    ]);
    inline_import_statement("INSERT OR IGNORE INTO ", "groups", &cols, &values)
}

fn favorites_statement(item_order: &String, paste_count: &String, char_count: &String) -> (r: String)
    ensures
        r@ == favorites_sql(item_order@, paste_count@, char_count@),
{
    let mut cols: Vec<String> = Vec::new();
    cols.push(owned("id"));
    cols.push(owned("title"));
    cols.push(owned("content"));
    cols.push(owned("html_content"));
    cols.push(owned("content_type"));
    cols.push(owned("image_id"));
    cols.push(owned("group_name"));
    cols.push(owned("item_order"));
    cols.push(owned("paste_count"));
    cols.push(owned("char_count"));
    cols.push(owned("created_at"));
    cols.push(owned("updated_at"));
    assert(views(cols@) =~= favorite_import_columns());
    let mut breaks: Vec<usize> = Vec::new();
    breaks.push(6);
    assert(breaks@ =~= favorite_column_breaks());
    let mut values: Vec<String> = Vec::new();
    values.push(owned("src.id"));
    values.push(owned("src.title"));
    values.push(owned("src.content"));
    values.push(owned("src.html_content"));
    values.push(owned("src.content_type"));
    values.push(owned("src.image_id"));
    values.push(owned("src.group_name"));
    values.push(item_order.clone());
    values.push(paste_count.clone());
    values.push(char_count.clone());
    values.push(owned("src.created_at"));
    values.push(owned("src.updated_at"));
    assert(views(values@) =~= seq![
        "src.id"@, "src.title"@, "src.content"@, "src.html_content"@, "src.content_type"@,
        "src.image_id"@, "src.group_name"@, item_order@, paste_count@, char_count@,
        "src.created_at"@, "src.updated_at"@,
    ]);
    import_statement("INSERT OR IGNORE INTO ", "favorites", &cols, &breaks, &values)
}

fn clipboard_statement(
    item_order: &String,
    is_pinned: &String,
    paste_count: &String,
    source_app: &String,
    source_icon_hash: &String,
    char_count: &String,
) -> (r: String)
    ensures
        r@ == clipboard_sql(item_order@, is_pinned@, paste_count@, source_app@, source_icon_hash@, char_count@),
{
    let mut cols: Vec<String> = Vec::new();
    cols.push(owned("content"));
    cols.push(owned("html_content"));
    cols.push(owned("content_type"));
    cols.push(owned("image_id"));
    cols.push(owned("item_order"));
    cols.push(owned("is_pinned"));
    cols.push(owned("paste_count"));
    cols.push(owned("source_app"));
    cols.push(owned("source_icon_hash"));
    cols.push(owned("char_count"));
    cols.push(owned("created_at"));
    cols.push(owned("updated_at"));
    assert(views(cols@) =~= clipboard_import_columns());
    let mut breaks: Vec<usize> = Vec::new();
    breaks.push(4);
    breaks.push(10);
    assert(breaks@ =~= clipboard_column_breaks());
    let mut values: Vec<String> = Vec::new();
    values.push(owned("src.content"));
    values.push(owned("src.html_content"));
    values.push(owned("src.content_type"));
    values.push(owned("src.image_id"));
    values.push(item_order.clone());
    values.push(is_pinned.clone());
    values.push(paste_count.clone());
    values.push(source_app.clone());
    values.push(source_icon_hash.clone());
    values.push(char_count.clone());
    values.push(owned("src.created_at"));
    values.push(owned("src.updated_at"));
    assert(views(values@) =~= seq![
        "src.content"@, "src.html_content"@, "src.content_type"@, "src.image_id"@, item_order@,
        is_pinned@, paste_count@, source_app@, source_icon_hash@, char_count@, "src.created_at"@,
        "src.updated_at"@,
    ]);
    import_statement("INSERT INTO ", "clipboard", &cols, &breaks, &values)
}

/// The three statements that import another database.
pub struct MergeStatements {
    pub groups: String,
    pub favorites: String,
    pub clipboard: String,
}

/// The required columns of the imported `groups` table.
pub fn group_columns_required() -> (r: Vec<String>)
    ensures
        views(r@) == required_group_columns(),
{
    let mut v: Vec<String> = Vec::new();
    v.push(owned("name"));
    v.push(owned("icon"));
    v.push(owned("order_index"));
    v.push(owned("created_at"));
    v.push(owned("updated_at"));
    assert(views(v@) =~= required_group_columns());
    v
}

/// The required columns of the imported `favorites` table.
pub fn favorite_columns_required() -> (r: Vec<String>)
    ensures
        views(r@) == required_favorite_columns(),
{
    let mut v: Vec<String> = Vec::new();
    v.push(owned("id"));
    v.push(owned("title"));
    v.push(owned("content"));
    v.push(owned("html_content"));
    v.push(owned("content_type"));
    v.push(owned("image_id"));
    v.push(owned("group_name"));
    v.push(owned("created_at"));
    v.push(owned("updated_at"));
    assert(views(v@) =~= required_favorite_columns());
    v
}

/// The required columns of the imported `clipboard` table.
pub fn clipboard_columns_required() -> (r: Vec<String>)
    ensures
        views(r@) == required_clipboard_columns(),
{
    let mut v: Vec<String> = Vec::new();
    v.push(owned("content"));
    v.push(owned("html_content"));
    v.push(owned("content_type"));
    v.push(owned("image_id"));
    v.push(owned("created_at"));
    v.push(owned("updated_at"));
    assert(views(v@) =~= required_clipboard_columns());
    v
}

/// The statements that import another database, given the columns of its
/// three tables: refused for the first table (groups, favorites, clipboard)
/// that lacks a required column; otherwise each missing optional column is
/// filled with its default (`'#dc2626'` for a group's color, `0` for orders,
/// counts and pins, `NULL` otherwise).
pub fn merge_statements(
    group_columns: &Vec<String>,
    favorite_columns: &Vec<String>,
    clipboard_columns: &Vec<String>,
) -> (r: Result<MergeStatements, String>)
    ensures
        ({
            let g = views(group_columns@);
            let f = views(favorite_columns@);
            let c = views(clipboard_columns@);
            let mg = missing_from(g, required_group_columns());
            let mf = missing_from(f, required_favorite_columns());
            let mc = missing_from(c, required_clipboard_columns());
            if mg.len() > 0 {
                r matches Err(m) && m@ == missing_columns_message("groups"@, mg)
            } else if mf.len() > 0 {
                r matches Err(m) && m@ == missing_columns_message("favorites"@, mf)
            } else if mc.len() > 0 {
                r matches Err(m) && m@ == missing_columns_message("clipboard"@, mc)
            } else {
                r matches Ok(s) && s.groups@ == groups_sql(column_expr(g, "color"@, "'#dc2626'"@))
                    && s.favorites@ == favorites_sql(
                    column_expr(f, "item_order"@, "0"@),
                    column_expr(f, "paste_count"@, "0"@),
                    column_expr(f, "char_count"@, "NULL"@),
                ) && s.clipboard@ == clipboard_sql(
                    column_expr(c, "item_order"@, "0"@),
                    column_expr(c, "is_pinned"@, "0"@),
                    column_expr(c, "paste_count"@, "0"@),
                    column_expr(c, "source_app"@, "NULL"@),
                    column_expr(c, "source_icon_hash"@, "NULL"@),
                    column_expr(c, "char_count"@, "NULL"@),
                )
            }
        }),
{
    ensure_required_columns(group_columns, "groups", &group_columns_required())?;
    ensure_required_columns(favorite_columns, "favorites", &favorite_columns_required())?;
    ensure_required_columns(clipboard_columns, "clipboard", &clipboard_columns_required())?;
    let groups = groups_statement(&import_column_expr(group_columns, "color", "'#dc2626'"));
    let favorites = favorites_statement(
        &import_column_expr(favorite_columns, "item_order", "0"),
        &import_column_expr(favorite_columns, "paste_count", "0"),
        &import_column_expr(favorite_columns, "char_count", "NULL"),
    );
    let clipboard = clipboard_statement(
        &import_column_expr(clipboard_columns, "item_order", "0"),
        &import_column_expr(clipboard_columns, "is_pinned", "0"),
        &import_column_expr(clipboard_columns, "paste_count", "0"),
        &import_column_expr(clipboard_columns, "source_app", "NULL"),
        &import_column_expr(clipboard_columns, "source_icon_hash", "NULL"),
        &import_column_expr(clipboard_columns, "char_count", "NULL"),
    );
    Ok(MergeStatements { groups, favorites, clipboard })
}

// ---------------------------------------------------------------------------
// Laws.

/// The renumbered orders run strictly downwards from the count to 1, so the
/// first row listed gets the highest order and every order is positive.
pub proof fn orders_strictly_decrease(count: int, orders: Seq<int>)
    requires
        orders.len() == count,
        forall|i: int| 0 <= i < count ==> orders[i] == count - i,
    ensures
        forall|i: int, j: int| 0 <= i < j < count ==> orders[i] > orders[j],
        forall|i: int| 0 <= i < count ==> orders[i] >= 1,
{
}

/// An imported table that has every optional column is imported column for
/// column: each optional value comes from the imported row.
pub proof fn present_columns_are_imported(columns: Seq<Seq<char>>, column: Seq<char>, default_expr: Seq<char>)
    requires
        columns.contains(column),
    ensures
        column_expr(columns, column, default_expr) == "src."@ + column,
{
}


/// The columns of a table, given the columns of every table (none for a table
/// that does not exist).
pub open spec fn table_columns(cols: Map<Seq<char>, Set<Seq<char>>>, table: Seq<char>) -> Set<
    Seq<char>,
> {
    if cols.dom().contains(table) {
        cols[table]
    } else {
        Set::empty()
    }
}

/// Whether a schema step adds a column: an `AddColumnIfMissing` step whose
/// column the table lacks.
pub open spec fn step_adds_column(cols: Map<Seq<char>, Set<Seq<char>>>, step: SchemaStep) -> bool {
    match step {
        SchemaStep::AddColumnIfMissing { table, column, .. } => !table_columns(cols, table@).contains(
            column@,
        ),
        _ => false,
    }
}

/// The columns after a schema step, as far as the step adds columns: an
/// `AddColumnIfMissing` step adds its column to its table.
pub open spec fn columns_after_step(cols: Map<Seq<char>, Set<Seq<char>>>, step: SchemaStep) -> Map<
    Seq<char>,
    Set<Seq<char>>,
> {
    match step {
        SchemaStep::AddColumnIfMissing { table, column, .. } => cols.insert(
            table@,
            table_columns(cols, table@).insert(column@),
        ),
        _ => cols,
    }
}

/// The columns after running the steps in order (see [`columns_after_step`]).
pub open spec fn columns_after(cols: Map<Seq<char>, Set<Seq<char>>>, steps: Seq<SchemaStep>) -> Map<
    Seq<char>,
    Set<Seq<char>>,
>
    decreases steps.len(),
{
    if steps.len() == 0 {
        cols
    } else {
        columns_after_step(columns_after(cols, steps.drop_last()), steps.last())
    }
}

/// Whether every column that one of the steps adds is present.
pub open spec fn has_added_columns(cols: Map<Seq<char>, Set<Seq<char>>>, steps: Seq<SchemaStep>) -> bool {
    forall|k: int| 0 <= k < steps.len() ==> !#[trigger] step_adds_column(cols, steps[k])
}

proof fn lemma_columns_grow(cols: Map<Seq<char>, Set<Seq<char>>>, step: SchemaStep, t: Seq<char>, c: Seq<char>)
    requires
        table_columns(cols, t).contains(c),
    ensures
        table_columns(columns_after_step(cols, step), t).contains(c),
{
}

proof fn lemma_run_adds_all(cols: Map<Seq<char>, Set<Seq<char>>>, steps: Seq<SchemaStep>)
    ensures
        has_added_columns(columns_after(cols, steps), steps),
    decreases steps.len(),
{
    if steps.len() > 0 {
        let pre = steps.drop_last();
        lemma_run_adds_all(cols, pre);
        let c0 = columns_after(cols, pre);
        let c1 = columns_after(cols, steps);
        assert forall|k: int| 0 <= k < steps.len() implies !#[trigger] step_adds_column(c1, steps[k]) by {
            if k < pre.len() {
                assert(steps[k] == pre[k]);
                assert(!step_adds_column(c0, pre[k]));
                match steps[k] {
                    SchemaStep::AddColumnIfMissing { table, column, .. } => {
                        lemma_columns_grow(c0, steps.last(), table@, column@);
                    },
                    _ => {},
                }
            }
        }
    }
}

proof fn lemma_complete_run_is_identity(cols: Map<Seq<char>, Set<Seq<char>>>, steps: Seq<SchemaStep>, n: int)
    requires
        has_added_columns(cols, steps),
        0 <= n <= steps.len(),
    ensures
        columns_after(cols, steps.take(n)) == cols,
    decreases n,
{
    if n > 0 {
        lemma_complete_run_is_identity(cols, steps, n - 1);
        assert(steps.take(n).drop_last() =~= steps.take(n - 1));
        assert(steps.take(n).last() == steps[n - 1]);
        assert(!step_adds_column(cols, steps[n - 1]));
        match steps[n - 1] {
            SchemaStep::AddColumnIfMissing { table, column, .. } => {
                assert(table_columns(cols, table@).insert(column@) =~= table_columns(cols, table@));
                assert(cols.dom().contains(table@));
                assert(cols.insert(table@, cols[table@]) =~= cols);
            },
            _ => {},
        }
    }
}

/// Running the schema steps a second time changes no table's columns: every
/// column that a step adds when it is missing is present once the steps have
/// run, so on a second run no `AddColumnIfMissing` step runs its statement.
pub proof fn schema_steps_are_idempotent(cols: Map<Seq<char>, Set<Seq<char>>>)
    ensures
        columns_after(columns_after(cols, schema_steps_spec()), schema_steps_spec()) == columns_after(
            cols,
            schema_steps_spec(),
        ),
        forall|k: int|
            0 <= k < schema_steps_spec().len() ==> !step_adds_column(
                #[trigger] columns_after(
                    columns_after(cols, schema_steps_spec()),
                    schema_steps_spec().take(k),
                ),
                schema_steps_spec()[k],
            ),
{
    let steps = schema_steps_spec();
    let once = columns_after(cols, steps);
    lemma_run_adds_all(cols, steps);
    lemma_complete_run_is_identity(once, steps, steps.len() as int);
    assert(steps.take(steps.len() as int) =~= steps);
    assert forall|k: int| 0 <= k < steps.len() implies !step_adds_column(
        #[trigger] columns_after(once, steps.take(k)),
        steps[k],
    ) by {
        lemma_complete_run_is_identity(once, steps, k);
        assert(!step_adds_column(once, steps[k]));
    }
}


/// After the schema steps have run, every column that they add when missing is
/// present: `clipboard` has `is_pinned`, `paste_count`, `source_app`,
/// `source_icon_hash` and `char_count`; `favorites` has `paste_count` and
/// `char_count`; `groups` has `color`.
pub proof fn schema_steps_add_their_columns(cols: Map<Seq<char>, Set<Seq<char>>>)
    ensures
        has_added_columns(columns_after(cols, schema_steps_spec()), schema_steps_spec()),
        ({
            let c = columns_after(cols, schema_steps_spec());
            &&& table_columns(c, "clipboard"@).contains("is_pinned"@)
            &&& table_columns(c, "clipboard"@).contains("paste_count"@)
            &&& table_columns(c, "clipboard"@).contains("source_app"@)
            &&& table_columns(c, "clipboard"@).contains("source_icon_hash"@)
            &&& table_columns(c, "clipboard"@).contains("char_count"@)
            &&& table_columns(c, "favorites"@).contains("paste_count"@)
            &&& table_columns(c, "favorites"@).contains("char_count"@)
            &&& table_columns(c, "groups"@).contains("color"@)
        }),
{
    let steps = schema_steps_spec();
    lemma_run_adds_all(cols, steps);
    let c = columns_after(cols, steps);
    assert(!step_adds_column(c, steps[1]));
    assert(!step_adds_column(c, steps[2]));
    assert(!step_adds_column(c, steps[6]));
    assert(!step_adds_column(c, steps[7]));
    assert(!step_adds_column(c, steps[8]));
    assert(!step_adds_column(c, steps[9]));
    assert(!step_adds_column(c, steps[10]));
    assert(!step_adds_column(c, steps[11]));
}


/// Importing clipboard records copies each column into the column of the same
/// name: the `k`-th listed column receives the imported table's column of that
/// name when the table has it (`src.<column>`), and its default otherwise (0
/// for the order, the pin flag and the paste count, NULL for the others).
pub proof fn clipboard_import_keeps_columns_apart(c: Seq<Seq<char>>)
    requires
        forall|k: int| 0 <= k < required_clipboard_columns().len() ==> c.contains(
            #[trigger] required_clipboard_columns()[k],
        ),
    ensures
        clipboard_sql(
            column_expr(c, "item_order"@, "0"@),
            column_expr(c, "is_pinned"@, "0"@),
            column_expr(c, "paste_count"@, "0"@),
            column_expr(c, "source_app"@, "NULL"@),
            column_expr(c, "source_icon_hash"@, "NULL"@),
            column_expr(c, "char_count"@, "NULL"@),
        ) == import_sql(
            "INSERT INTO "@,
            "clipboard"@,
            clipboard_import_columns(),
            clipboard_column_breaks(),
            clipboard_import_columns().map_values(
                |col: Seq<char>| column_expr(c, col, clipboard_default(col)),
            ),
        ),
{
    reveal_strlit("content");
    reveal_strlit("src.content");
    reveal_strlit("html_content");
    reveal_strlit("src.html_content");
    reveal_strlit("content_type");
    reveal_strlit("src.content_type");
    reveal_strlit("image_id");
    reveal_strlit("src.image_id");
    reveal_strlit("item_order");
    reveal_strlit("src.item_order");
    reveal_strlit("is_pinned");
    reveal_strlit("src.is_pinned");
    reveal_strlit("paste_count");
    reveal_strlit("src.paste_count");
    reveal_strlit("source_app");
    reveal_strlit("src.source_app");
    reveal_strlit("source_icon_hash");
    reveal_strlit("src.source_icon_hash");
    reveal_strlit("char_count");
    reveal_strlit("src.char_count");
    reveal_strlit("created_at");
    reveal_strlit("src.created_at");
    reveal_strlit("updated_at");
    reveal_strlit("src.updated_at");
    reveal_strlit("src.");
    let req = required_clipboard_columns();
    assert(req[0] == "content"@);
    assert(req[1] == "html_content"@);
    assert(req[2] == "content_type"@);
    assert(req[3] == "image_id"@);
    assert(req[4] == "created_at"@);
    assert(req[5] == "updated_at"@);
    let cols = clipboard_import_columns();
    let vals = cols.map_values(|col: Seq<char>| column_expr(c, col, clipboard_default(col)));
    let given = seq![
        "src.content"@, "src.html_content"@, "src.content_type"@, "src.image_id"@,
        column_expr(c, "item_order"@, "0"@), column_expr(c, "is_pinned"@, "0"@),
        column_expr(c, "paste_count"@, "0"@), column_expr(c, "source_app"@, "NULL"@),
        column_expr(c, "source_icon_hash"@, "NULL"@), column_expr(c, "char_count"@, "NULL"@),
        "src.created_at"@, "src.updated_at"@,
    ];
    assert forall|k: int| 0 <= k < 12 implies vals[k] == given[k] by {
        assert(vals[k] == column_expr(c, cols[k], clipboard_default(cols[k])));
        if k == 0 {
            assert(cols[0] == "content"@);
            assert(clipboard_default("content"@) == "NULL"@);
            assert(c.contains(req[0]));
            assert("src."@ + "content"@ =~= "src.content"@);
        } else if k == 1 {
            assert(cols[1] == "html_content"@);
            assert(clipboard_default("html_content"@) == "NULL"@);
            assert(c.contains(req[1]));
            assert("src."@ + "html_content"@ =~= "src.html_content"@);
        } else if k == 2 {
            assert(cols[2] == "content_type"@);
            assert(clipboard_default("content_type"@) == "NULL"@);
            assert(c.contains(req[2]));
            assert("src."@ + "content_type"@ =~= "src.content_type"@);
        } else if k == 3 {
            assert(cols[3] == "image_id"@);
            assert(clipboard_default("image_id"@) == "NULL"@);
            assert(c.contains(req[3]));
            assert("src."@ + "image_id"@ =~= "src.image_id"@);
        } else if k == 4 {
            assert(cols[4] == "item_order"@);
            assert(clipboard_default("item_order"@) == "0"@);
        } else if k == 5 {
            assert(cols[5] == "is_pinned"@);
            assert(clipboard_default("is_pinned"@) == "0"@);
        } else if k == 6 {
            assert(cols[6] == "paste_count"@);
            assert(clipboard_default("paste_count"@) == "0"@);
        } else if k == 7 {
            assert(cols[7] == "source_app"@);
            assert("source_app"@[0] != "item_order"@[0] && "source_app"@[0] != "is_pinned"@[0] && "source_app"@[0] != "paste_count"@[0]);
            assert(clipboard_default("source_app"@) == "NULL"@);
        } else if k == 8 {
            assert(cols[8] == "source_icon_hash"@);
            assert("source_icon_hash"@[0] != "item_order"@[0] && "source_icon_hash"@[0] != "is_pinned"@[0] && "source_icon_hash"@[0] != "paste_count"@[0]);
            assert(clipboard_default("source_icon_hash"@) == "NULL"@);
        } else if k == 9 {
            assert(cols[9] == "char_count"@);
            assert("char_count"@[0] != "item_order"@[0] && "char_count"@[0] != "is_pinned"@[0] && "char_count"@[0] != "paste_count"@[0]);
            assert(clipboard_default("char_count"@) == "NULL"@);
        } else if k == 10 {
            assert(cols[10] == "created_at"@);
            assert("created_at"@[0] != "item_order"@[0] && "created_at"@[0] != "is_pinned"@[0] && "created_at"@[0] != "paste_count"@[0]);
            assert(clipboard_default("created_at"@) == "NULL"@);
            assert(c.contains(req[4]));
            assert("src."@ + "created_at"@ =~= "src.created_at"@);
        } else if k == 11 {
            assert(cols[11] == "updated_at"@);
            assert("updated_at"@[0] != "item_order"@[0] && "updated_at"@[0] != "is_pinned"@[0] && "updated_at"@[0] != "paste_count"@[0]);
            assert(clipboard_default("updated_at"@) == "NULL"@);
            assert(c.contains(req[5]));
            assert("src."@ + "updated_at"@ =~= "src.updated_at"@);
        }
    }
    assert(vals =~= given);
}


/// Importing favorites copies each column into the column of the same name:
/// the `k`-th listed column receives the imported table's column of that name
/// when the table has it (`src.<column>`), and its default otherwise (0 for the
/// order and the paste count, NULL for the character count).
pub proof fn favorite_import_keeps_columns_apart(c: Seq<Seq<char>>)
    requires
        forall|k: int| 0 <= k < required_favorite_columns().len() ==> c.contains(
            #[trigger] required_favorite_columns()[k],
        ),
    ensures
        favorites_sql(
            column_expr(c, "item_order"@, "0"@),
            column_expr(c, "paste_count"@, "0"@),
            column_expr(c, "char_count"@, "NULL"@),
        ) == import_sql(
            "INSERT OR IGNORE INTO "@,
            "favorites"@,
            favorite_import_columns(),
            favorite_column_breaks(),
            favorite_import_columns().map_values(
                |col: Seq<char>| column_expr(c, col, favorite_default(col)),
            ),
        ),
{
    reveal_strlit("id");
    reveal_strlit("src.id");
    reveal_strlit("title");
    reveal_strlit("src.title");
    reveal_strlit("content");
    reveal_strlit("src.content");
    reveal_strlit("html_content");
    reveal_strlit("src.html_content");
    reveal_strlit("content_type");
    reveal_strlit("src.content_type");
    reveal_strlit("image_id");
    reveal_strlit("src.image_id");
    reveal_strlit("group_name");
    reveal_strlit("src.group_name");
    reveal_strlit("item_order");
    reveal_strlit("src.item_order");
    reveal_strlit("paste_count");
    reveal_strlit("src.paste_count");
    reveal_strlit("char_count");
    reveal_strlit("src.char_count");
    reveal_strlit("created_at");
    reveal_strlit("src.created_at");
    reveal_strlit("updated_at");
    reveal_strlit("src.updated_at");
    reveal_strlit("src.");
    let req = required_favorite_columns();
    assert(req[0] == "id"@);
    assert(req[1] == "title"@);
    assert(req[2] == "content"@);
    assert(req[3] == "html_content"@);
    assert(req[4] == "content_type"@);
    assert(req[5] == "image_id"@);
    assert(req[6] == "group_name"@);
    assert(req[7] == "created_at"@);
    assert(req[8] == "updated_at"@);
    let cols = favorite_import_columns();
    let vals = cols.map_values(|col: Seq<char>| column_expr(c, col, favorite_default(col)));
    let given = seq!["src.id"@, "src.title"@, "src.content"@, "src.html_content"@, "src.content_type"@, "src.image_id"@, "src.group_name"@, column_expr(c, "item_order"@, "0"@), column_expr(c, "paste_count"@, "0"@), column_expr(c, "char_count"@, "NULL"@), "src.created_at"@, "src.updated_at"@];
    assert forall|k: int| 0 <= k < 12 implies vals[k] == given[k] by {
        assert(vals[k] == column_expr(c, cols[k], favorite_default(cols[k])));
        if k == 0 {
            assert(cols[0] == "id"@);
            assert(favorite_default("id"@) == "NULL"@);
            assert(c.contains(req[0]));
            assert("src."@ + "id"@ =~= "src.id"@);
        } else if k == 1 {
            assert(cols[1] == "title"@);
            assert("title"@[0] != "item_order"@[0] && "title"@[0] != "paste_count"@[0]);
            assert(favorite_default("title"@) == "NULL"@);
            assert(c.contains(req[1]));
            assert("src."@ + "title"@ =~= "src.title"@);
        } else if k == 2 {
            assert(cols[2] == "content"@);
            assert("content"@[0] != "item_order"@[0] && "content"@[0] != "paste_count"@[0]);
            assert(favorite_default("content"@) == "NULL"@);
            assert(c.contains(req[2]));
            assert("src."@ + "content"@ =~= "src.content"@);
        } else if k == 3 {
            assert(cols[3] == "html_content"@);
            assert("html_content"@[0] != "item_order"@[0] && "html_content"@[0] != "paste_count"@[0]);
            assert(favorite_default("html_content"@) == "NULL"@);
            assert(c.contains(req[3]));
            assert("src."@ + "html_content"@ =~= "src.html_content"@);
        } else if k == 4 {
            assert(cols[4] == "content_type"@);
            assert("content_type"@[0] != "item_order"@[0] && "content_type"@[0] != "paste_count"@[0]);
            assert(favorite_default("content_type"@) == "NULL"@);
            assert(c.contains(req[4]));
            assert("src."@ + "content_type"@ =~= "src.content_type"@);
        } else if k == 5 {
            assert(cols[5] == "image_id"@);
            assert(favorite_default("image_id"@) == "NULL"@);
            assert(c.contains(req[5]));
            assert("src."@ + "image_id"@ =~= "src.image_id"@);
        } else if k == 6 {
            assert(cols[6] == "group_name"@);
            assert("group_name"@[0] != "item_order"@[0] && "group_name"@[0] != "paste_count"@[0]);
            assert(favorite_default("group_name"@) == "NULL"@);
            assert(c.contains(req[6]));
            assert("src."@ + "group_name"@ =~= "src.group_name"@);
        } else if k == 7 {
            assert(cols[7] == "item_order"@);
            assert(favorite_default("item_order"@) == "0"@);
        } else if k == 8 {
            assert(cols[8] == "paste_count"@);
            assert(favorite_default("paste_count"@) == "0"@);
        } else if k == 9 {
            assert(cols[9] == "char_count"@);
            assert("char_count"@[0] != "item_order"@[0] && "char_count"@[0] != "paste_count"@[0]);
            assert(favorite_default("char_count"@) == "NULL"@);
        } else if k == 10 {
            assert(cols[10] == "created_at"@);
            assert("created_at"@[0] != "item_order"@[0] && "created_at"@[0] != "paste_count"@[0]);
            assert(favorite_default("created_at"@) == "NULL"@);
            assert(c.contains(req[7]));
            assert("src."@ + "created_at"@ =~= "src.created_at"@);
        } else if k == 11 {
            assert(cols[11] == "updated_at"@);
            assert("updated_at"@[0] != "item_order"@[0] && "updated_at"@[0] != "paste_count"@[0]);
            assert(favorite_default("updated_at"@) == "NULL"@);
            assert(c.contains(req[8]));
            assert("src."@ + "updated_at"@ =~= "src.updated_at"@);
        }
    }
    assert(vals =~= given);
}


/// Importing groups copies each column into the column of the same name: the
/// `k`-th listed column receives the imported table's column of that name,
/// and the color its default `'#dc2626'` when the imported table has none.
pub proof fn group_import_keeps_columns_apart(c: Seq<Seq<char>>)
    requires
        forall|k: int| 0 <= k < required_group_columns().len() ==> c.contains(
            #[trigger] required_group_columns()[k],
        ),
    ensures
        groups_sql(column_expr(c, "color"@, "'#dc2626'"@)) == inline_import_sql(
            "INSERT OR IGNORE INTO "@,
            "groups"@,
            group_import_columns(),
            group_import_columns().map_values(
                |col: Seq<char>| if col == "color"@ {
                    column_expr(c, col, "'#dc2626'"@)
                } else {
                    column_expr(c, col, "NULL"@)
                },
            ),
        ),
{
    reveal_strlit("name");
    reveal_strlit("src.name");
    reveal_strlit("icon");
    reveal_strlit("src.icon");
    reveal_strlit("color");
    reveal_strlit("src.color");
    reveal_strlit("order_index");
    reveal_strlit("src.order_index");
    reveal_strlit("created_at");
    reveal_strlit("src.created_at");
    reveal_strlit("updated_at");
    reveal_strlit("src.updated_at");
    reveal_strlit("src.");
    let req = required_group_columns();
    assert(req[0] == "name"@);
    assert(req[1] == "icon"@);
    assert(req[2] == "order_index"@);
    assert(req[3] == "created_at"@);
    assert(req[4] == "updated_at"@);
    let cols = group_import_columns();
    let vals = cols.map_values(
        |col: Seq<char>| if col == "color"@ {
            column_expr(c, col, "'#dc2626'"@)
        } else {
            column_expr(c, col, "NULL"@)
        },
    );
    let given = seq![
        "src.name"@, "src.icon"@, column_expr(c, "color"@, "'#dc2626'"@), "src.order_index"@,
        "src.created_at"@, "src.updated_at"@,
    ];
    assert forall|k: int| 0 <= k < 6 implies vals[k] == given[k] by {
        if k == 0 {
            assert(cols[0] == "name"@);
            assert(c.contains(req[0]));
            assert("src."@ + "name"@ =~= "src.name"@);
            assert("name"@ != "color"@);
        } else if k == 1 {
            assert(cols[1] == "icon"@);
            assert(c.contains(req[1]));
            assert("src."@ + "icon"@ =~= "src.icon"@);
            assert("icon"@ != "color"@);
        } else if k == 2 {
            assert(cols[2] == "color"@);
        } else if k == 3 {
            assert(cols[3] == "order_index"@);
            assert(c.contains(req[2]));
            assert("src."@ + "order_index"@ =~= "src.order_index"@);
            assert("order_index"@ != "color"@);
        } else if k == 4 {
            assert(cols[4] == "created_at"@);
            assert(c.contains(req[3]));
            assert("src."@ + "created_at"@ =~= "src.created_at"@);
            assert("created_at"@ != "color"@);
        } else if k == 5 {
            assert(cols[5] == "updated_at"@);
            assert(c.contains(req[4]));
            assert("src."@ + "updated_at"@ =~= "src.updated_at"@);
            assert("updated_at"@ != "color"@);
        }
    }
    assert(vals =~= given);
}

} // verus!
