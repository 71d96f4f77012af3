use codex_session_visibility::files::FileText;
use codex_session_visibility::global_state::{
    global_state_array_contains, merge_string_array, preview_global_state_project_root_repair,
    preview_state_repair, read_global_state, repair_global_state_project_roots,
    should_reset_sidebar_host_selection,
};
use codex_session_visibility::json::{
    parse_json, render_json, render_json_pretty, set_entry, Json,
};
use codex_session_visibility::session_index::{
    build_session_index_entry_from_thread, count_missing_session_index_entries,
    finish_sqlite_thread_index_rows, load_sqlite_thread_index_rows, read_session_index_map,
    reconcile_session_index_from_sqlite, session_index_entries, session_index_or_empty,
    session_index_workspace_root, SqliteThreadIndexRow,
};
use codex_session_visibility::sqlite::{
    threads_column_query, RowsOutcome, SqliteFailure, StateDatabase,
};
use codex_session_visibility::timestamps::Present;
use rusqlite::Connection;

fn now() -> Present {
    Present { seconds: 1_800_000_000, text: "2027-01-15T08:00:00.000000Z".to_string() }
}

fn index_rows(connection: &Connection) -> Vec<SqliteThreadIndexRow> {
    let names = {
        let mut prepared =
            connection.prepare(&threads_column_query().sql).expect("prepare table info");
        let rows = prepared.query_map([], |row| row.get::<_, String>(1)).expect("query table info");
        rows.map(|row| row.expect("read column")).collect()
    };
    let statement = load_sqlite_thread_index_rows("state", &StateDatabase::Columns(names))
        .expect("index rows")
        .expect("a query");
    let mut prepared = connection.prepare(&statement.sql).expect("prepare index rows");
    let rows = prepared
        .query_map([], |row| {
            Ok(SqliteThreadIndexRow {
                id: row.get(0)?,
                title: row.get(1)?,
                updated_at: row.get(2)?,
                rollout_path: row.get(3)?,
            })
        })
        .expect("query index rows");
    let rows = rows.map(|row| row.expect("read index row")).collect();
    finish_sqlite_thread_index_rows("state", RowsOutcome::Rows(rows)).expect("rows")
}

#[test]
fn session_index_repair_appends_missing_sqlite_threads() {
    let connection = Connection::open_in_memory().expect("open sqlite");
    connection
        .execute(
            "CREATE TABLE threads (
                    id TEXT PRIMARY KEY,
                    title TEXT,
                    updated_at INTEGER
                )",
            [],
        )
        .expect("create threads table");
    connection
        .execute(
            "INSERT INTO threads (id, title, updated_at) VALUES
                 ('indexed-thread', 'Indexed', 1_700_000_000),
                 ('missing-thread', 'Missing chat', 1_800_000_000)",
            [],
        )
        .expect("insert rows");

    let file = FileText::Text(
        "{\"id\":\"indexed-thread\",\"thread_name\":\"Indexed\",\"updated_at\":\"2024-01-01T00:00:00.0000000Z\"}\n"
            .to_string(),
    );
    let rows = index_rows(&connection);
    let index_map = read_session_index_map("index", &file).expect("read session index");
    assert_eq!(count_missing_session_index_entries(&index_map, &rows), 1);

    let update =
        reconcile_session_index_from_sqlite("index", &file, &rows, &vec![None, None], &now())
            .expect("reconcile index")
            .expect("an update");
    assert_eq!(update.added, 1);

    let index_map = read_session_index_map("index", &FileText::Text(update.content))
        .expect("read session index");
    assert!(index_map.contains_key("missing-thread"));
    assert_eq!(
        index_map.get("missing-thread").and_then(|entry| entry.get_str("thread_name")),
        Some("Missing chat")
    );
    assert_eq!(count_missing_session_index_entries(&index_map, &rows), 0);
}

fn row(id: &str, title: &str, updated_at: Option<i64>) -> SqliteThreadIndexRow {
    SqliteThreadIndexRow {
        id: id.to_string(),
        title: title.to_string(),
        updated_at,
        rollout_path: None,
    }
}

#[test]
fn index_entries_hold_the_name_and_the_time() {
    let text = |row: &SqliteThreadIndexRow, activity| {
        render_json(&build_session_index_entry_from_thread(row, activity, &now())).expect("text")
    };
    assert_eq!(
        text(&row("a", "A", Some(1_704_067_200)), None),
        "{\"id\":\"a\",\"thread_name\":\"A\",\"updated_at\":\"2024-01-01T00:00:00.000000Z\"}"
    );
    assert_eq!(
        text(&row("a", "A", None), None),
        "{\"id\":\"a\",\"thread_name\":\"A\",\"updated_at\":\"2027-01-15T08:00:00.000000Z\"}"
    );
}

#[test]
fn index_lines_are_joined_to_what_is_there() {
    let rows = vec![row("a", "A", Some(1_704_067_200))];
    let update = reconcile_session_index_from_sqlite(
        "index",
        &FileText::Text("not json".to_string()),
        &rows,
        &vec![None],
        &now(),
    )
    .expect("reconcile")
    .expect("an update");
    assert_eq!(
        update.content,
        "not json\n{\"id\":\"a\",\"thread_name\":\"A\",\"updated_at\":\"2024-01-01T00:00:00.000000Z\"}\n"
    );
    let again = reconcile_session_index_from_sqlite(
        "index",
        &FileText::Text(update.content),
        &rows,
        &vec![None],
        &now(),
    )
    .expect("reconcile");
    assert!(again.is_none());
    let update = reconcile_session_index_from_sqlite(
        "index",
        &FileText::Absent,
        &rows,
        &vec![None],
        &now(),
    )
    .expect("reconcile")
    .expect("an update");
    assert_eq!(
        update.content,
        "{\"id\":\"a\",\"thread_name\":\"A\",\"updated_at\":\"2024-01-01T00:00:00.000000Z\"}\n"
    );
}

#[test]
fn unreadable_index_is_an_error_or_empty() {
    let unread = FileText::Unread("denied".to_string());
    assert_eq!(
        read_session_index_map("index", &unread).err(),
        Some("读取 session_index.jsonl 失败 (index): denied".to_string())
    );
    assert_eq!(session_index_or_empty(&unread).len(), 0);
    assert_eq!(read_session_index_map("index", &FileText::Absent).expect("index").len(), 0);
    assert_eq!(
        reconcile_session_index_from_sqlite(
            "index",
            &unread,
            &vec![row("a", "A", None)],
            &vec![None],
            &now()
        )
        .err(),
        Some("读取 session_index.jsonl 失败 (index): denied".to_string())
    );
}

#[test]
fn later_index_lines_win() {
    let index = session_index_entries(
        "{\"id\":\"a\",\"cwd\":\"/one\"}\n\n[]\n{\"id\":\" \"}\r\n{\"id\":\"a\",\"cwd\":\"/two/\"}\n",
    );
    assert_eq!(index.len(), 2);
    assert!(index.contains_key(" "));
    let entry = index.get("a").expect("entry");
    assert_eq!(session_index_workspace_root(entry), Some("/two".to_string()));
}

#[test]
fn index_row_failures_are_errors() {
    let failure = SqliteFailure { message: "io".to_string(), unusable: false };
    assert_eq!(
        finish_sqlite_thread_index_rows("db", RowsOutcome::Unread(failure)).err(),
        Some("读取 SQLite 会话索引行失败 (db): io".to_string())
    );
    let failure = SqliteFailure { message: "denied".to_string(), unusable: false };
    assert_eq!(
        load_sqlite_thread_index_rows("db", &StateDatabase::Unopened(failure)).err(),
        Some("打开实例数据库失败 (db): denied".to_string())
    );
    assert!(matches!(load_sqlite_thread_index_rows("db", &StateDatabase::Absent), Ok(None)));
}

#[test]
fn global_state_repair_restores_local_project_roots_and_host_selection() {
    let file = FileText::Text(
        "{\"selected-remote-host-id\":\"remote-control:MacBook-Air.local\",\"project-order\":[]}\n"
            .to_string(),
    );
    let roots = vec!["C:/Users/demo/Documents/Codex".to_string()];

    let repair = repair_global_state_project_roots("state", &file, &roots)
        .expect("repair global state");
    assert_eq!(repair.result.repaired_project_root_count, 1);
    assert!(repair.result.reset_remote_host_selection);

    let content = repair.content.expect("state");
    let parsed: serde_json::Value = serde_json::from_str(&content).expect("parse state");
    assert_eq!(
        parsed.get("selected-remote-host-id").and_then(serde_json::Value::as_str),
        Some("local")
    );
    assert!(parsed
        .get("project-order")
        .and_then(serde_json::Value::as_array)
        .expect("project order")
        .iter()
        .any(|value| value.as_str() == Some("C:\\Users\\demo\\Documents\\Codex")));

    let again =
        repair_global_state_project_roots("state", &FileText::Text(content), &roots)
            .expect("repair again");
    assert_eq!(again.result.repaired_project_root_count, 0);
    assert!(!again.result.reset_remote_host_selection);
    assert!(again.content.is_none());
}

#[test]
fn preview_says_what_the_repair_does() {
    let file = FileText::Text("{\"project-order\":[\"/a\"]}".to_string());
    let roots = vec!["/a".to_string(), "/b".to_string()];
    let preview =
        preview_global_state_project_root_repair("state", &file, &roots).expect("preview");
    let repair = repair_global_state_project_roots("state", &file, &roots).expect("repair");
    assert_eq!(preview.repaired_project_root_count, repair.result.repaired_project_root_count);
    assert_eq!(preview.reset_remote_host_selection, repair.result.reset_remote_host_selection);
    let none = preview_global_state_project_root_repair("state", &file, &Vec::new())
        .expect("preview");
    assert_eq!(none.repaired_project_root_count, 0);
    assert_eq!(
        preview_global_state_project_root_repair(
            "state",
            &FileText::Unread("denied".to_string()),
            &roots
        )
        .err(),
        Some("读取 Codex 全局状态失败 (state): denied".to_string())
    );
}

#[test]
fn arrays_in_the_state_are_looked_up_by_normal_form() {
    let state = read_global_state(
        "state",
        &FileText::Text("{\"project-order\":[\"C:/a/\",3]}".to_string()),
    )
    .expect("state");
    assert!(global_state_array_contains(&state, "project-order", "C:\\a"));
    assert!(!global_state_array_contains(&state, "project-order", "C:\\b"));
    assert!(!global_state_array_contains(&state, "other", "C:\\a"));
    assert!(!should_reset_sidebar_host_selection(&state));
    let broken = read_global_state("state", &FileText::Text("{".to_string())).expect("state");
    assert!(matches!(broken, Json::Object(entries) if entries.is_empty()));
    let preview = preview_state_repair(&Json::Object(Vec::new()), &vec!["/a".to_string()]);
    assert_eq!(preview.repaired_project_root_count, 1);
}

#[test]
fn merging_adds_what_is_missing() {
    let mut entries = Vec::new();
    set_entry(&mut entries, "k".to_string(), parse_json("[\"/a\"]").expect("list"));
    assert_eq!(merge_string_array(&mut entries, "k", &vec!["/a".to_string(), "/b".to_string()]), 1);
    assert_eq!(merge_string_array(&mut entries, "l", &vec!["/c".to_string()]), 1);
    assert_eq!(
        render_json(&Json::Object(entries)).expect("text"),
        "{\"k\":[\"/a\",\"/b\"],\"l\":[\"/c\"]}"
    );
}

#[test]
fn documents_are_read_and_written() {
    let text = "{\"a\":[1,-2,3.5,true,null,\"x\\n\"],\"b\":{\"c\":18446744073709551615}}";
    let json = parse_json(text).expect("document");
    assert_eq!(render_json(&json).expect("text"), text);
    assert_eq!(
        render_json_pretty(&parse_json("{\"a\":[1]}").expect("document")).expect("text"),
        "{\n  \"a\": [\n    1\n  ]\n}"
    );
    assert!(parse_json("{\"a\":}").is_none());
    assert_eq!(json.get("a").and_then(|value| value.get("b")).map(|_| ()), None);
}

#[test]
fn state_that_is_no_object_is_replaced() {
    let file = FileText::Text("[1]".to_string());
    let counts = |root: &str| {
        let roots = vec![root.to_string()];
        let preview = preview_global_state_project_root_repair("state", &file, &roots)
            .expect("preview");
        let repair = repair_global_state_project_roots("state", &file, &roots).expect("repair");
        (
            preview.repaired_project_root_count,
            repair.result.repaired_project_root_count,
            repair.content,
        )
    };
    let (previewed, repaired, content) = counts("/work");
    assert_eq!((previewed, repaired), (1, 1));
    assert_eq!(
        content.expect("new content"),
        "{\n  \"electron-saved-workspace-roots\": [\n    \"/work\"\n  ],\n  \"project-order\": [\n    \"/work\"\n  ]\n}\n"
    );
    let (previewed, repaired, content) = counts("  ");
    assert_eq!((previewed, repaired), (1, 0));
    assert!(content.is_none());
}

#[test]
fn repair_adds_no_more_than_the_preview_finds() {
    let counts = |text: &str, roots: &[&str]| {
        let file = FileText::Text(text.to_string());
        let roots = roots.iter().map(|root| root.to_string()).collect();
        let preview = preview_global_state_project_root_repair("state", &file, &roots)
            .expect("preview");
        let repair = repair_global_state_project_roots("state", &file, &roots).expect("repair");
        (preview.repaired_project_root_count, repair.result.repaired_project_root_count)
    };
    assert_eq!(counts("{}", &["/work", "/work/", "/b"]), (3, 2));
    let halves = "{\"project-order\":[\"/a\"],\"electron-saved-workspace-roots\":[\"/b\"]}";
    assert_eq!(counts(halves, &["/a", "/b"]), (2, 1));
    assert_eq!(counts("7", &["/a", " "]), (2, 1));
}

#[test]
fn last_of_equal_keys_is_written() {
    let member = |text: &str| ("a".to_string(), Json::Text(text.to_string()));
    let other = ("b".to_string(), Json::Null);
    let object = Json::Object(vec![member("old"), other, member("new")]);
    assert_eq!(render_json(&object).expect("text"), "{\"a\":\"new\",\"b\":null}");
}
