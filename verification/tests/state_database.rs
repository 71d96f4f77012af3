use codex_session_visibility::sqlite::{
    build_threads_repair_set_clause, build_threads_repair_where_clause,
    build_threads_visibility_expr, finish_transaction, format_sqlite_write_error,
    is_missing_threads_table_error, read_threads_table_columns, scan_threads_table,
    threads_column_query, RowsOutcome, SqlValue, SqliteFailure, Stage, StateDatabase, Statement,
    ThreadsTableColumns, TransactionOutcome,
};
use codex_session_visibility::thread_source::{
    count_sqlite_thread_source_metadata_rows_to_update, finish_thread_source_map,
    is_plain_thread_source, load_thread_source_map, load_thread_source_metadata_repairs,
    parse_subagent_parent_thread_id, repair_sqlite_thread_source_metadata,
    resolve_effective_thread_source, ThreadSources,
};
use codex_session_visibility::threads::{
    count_sqlite_rows_to_update, count_sqlite_thread_paths_to_update, finish_sqlite_provider_update,
    finish_sqlite_row_count, finish_thread_path_count, finish_thread_time_repair,
    normalize_sqlite_thread_paths, read_sqlite_thread_ids, repair_sqlite_thread_timestamps,
    thread_id_query, thread_time_rows, update_sqlite_provider, SqliteProviderScan, ThreadIds,
    ThreadPathRow, ThreadTimeRow,
};
use codex_session_visibility::timestamps::rollout_file_activity_ms;
use rusqlite::types::Value;
use rusqlite::Connection;

fn bound(value: &SqlValue) -> Value {
    match value {
        SqlValue::Null => Value::Null,
        SqlValue::Integer(n) => Value::Integer(*n),
        SqlValue::Text(text) => Value::Text(text.clone()),
        SqlValue::Seconds(millis) => Value::Real(*millis as f64 / 1000.0),
    }
}

fn execute(connection: &Connection, statement: &Statement) -> usize {
    connection
        .execute(
            &statement.sql,
            rusqlite::params_from_iter(statement.parameters.iter().map(bound)),
        )
        .expect("execute statement")
}

fn column_names(connection: &Connection) -> Vec<String> {
    let mut statement =
        connection.prepare(&threads_column_query().sql).expect("prepare table info");
    let rows = statement
        .query_map([], |row| row.get::<usize, String>(1))
        .expect("query table info");
    rows.map(|row| row.expect("read column")).collect()
}

fn database(connection: &Connection) -> StateDatabase {
    StateDatabase::Columns(column_names(connection))
}

fn columns(connection: &Connection) -> ThreadsTableColumns {
    read_threads_table_columns(&column_names(connection)).expect("threads table")
}

fn count_rows(connection: &Connection, provider: &str) -> SqliteProviderScan {
    match count_sqlite_rows_to_update("state", &database(connection), provider).expect("scan") {
        Stage::Done(scan) => scan,
        Stage::Run(statement) => {
            let count = connection
                .query_row(
                    &statement.sql,
                    rusqlite::params_from_iter(statement.parameters.iter().map(bound)),
                    |row| row.get::<usize, i64>(0),
                )
                .expect("count rows");
            finish_sqlite_row_count("state", Ok(count)).expect("finish count")
        }
    }
}

fn update_rows(connection: &Connection, provider: &str) -> usize {
    match update_sqlite_provider("state", &database(connection), provider).expect("update") {
        Stage::Done(rows) => rows,
        Stage::Run(statement) => {
            let rows = execute(connection, &statement);
            finish_sqlite_provider_update("state", TransactionOutcome::Committed(rows))
                .expect("finish update")
        }
    }
}

fn path_rows(connection: &Connection) -> RowsOutcome<ThreadPathRow> {
    match count_sqlite_thread_paths_to_update("state", &database(connection)).expect("paths") {
        Stage::Done(_) => RowsOutcome::Rows(Vec::new()),
        Stage::Run(statement) => {
            let mut prepared = connection.prepare(&statement.sql).expect("prepare paths");
            let rows = prepared
                .query_map([], |row| {
                    Ok(ThreadPathRow {
                        id: row.get(0)?,
                        cwd: row.get(1)?,
                        rollout_path: row.get(2)?,
                    })
                })
                .expect("query paths");
            RowsOutcome::Rows(rows.map(|row| row.expect("read path row")).collect())
        }
    }
}

fn sources(connection: &Connection) -> ThreadSources {
    match load_thread_source_map("state", &database(connection)).expect("sources") {
        None => ThreadSources::new(),
        Some(statement) => {
            let mut prepared = connection.prepare(&statement.sql).expect("prepare sources");
            let rows = prepared
                .query_map([], |row| Ok((row.get::<_, String>(0)?, row.get::<_, String>(1)?)))
                .expect("query sources");
            let rows = rows.map(|row| row.expect("read source row")).collect();
            finish_thread_source_map("state", RowsOutcome::Rows(rows)).expect("source map")
        }
    }
}

fn failure(message: &str, unusable: bool) -> SqliteFailure {
    SqliteFailure { message: message.to_string(), unusable }
}

#[test]
fn sqlite_repair_marks_threads_with_first_user_message_visible() {
    let connection = Connection::open_in_memory().expect("open sqlite");
    connection
        .execute(
            "CREATE TABLE threads (
                    id TEXT PRIMARY KEY,
                    model_provider TEXT,
                    has_user_event INTEGER,
                    first_user_message TEXT,
                    thread_source TEXT
                )",
            [],
        )
        .expect("create threads table");
    connection
        .execute(
            "INSERT INTO threads (id, model_provider, has_user_event, first_user_message, thread_source)
                 VALUES
                 ('matched-invisible', 'relay', 0, 'hello', ''),
                 ('old-invisible', 'old', 0, 'hi', NULL),
                 ('already-visible', 'relay', 1, 'visible', 'user'),
                 ('provider-only', '', 0, '', NULL)",
            [],
        )
        .expect("insert rows");

    let scan = count_rows(&connection, "relay");
    assert_eq!(scan.rows_to_update, 3);
    assert!(!scan.skipped_unusable_database);

    let updated_rows = update_rows(&connection, "relay");
    assert_eq!(updated_rows, 3);

    let matched_invisible = connection
        .query_row(
            "SELECT model_provider, has_user_event, thread_source FROM threads WHERE id = 'matched-invisible'",
            [],
            |row| {
                Ok((
                    row.get::<usize, String>(0)?,
                    row.get::<usize, i64>(1)?,
                    row.get::<usize, String>(2)?,
                ))
            },
        )
        .expect("read matched row");
    assert_eq!(matched_invisible, ("relay".to_string(), 1, "user".to_string()));

    let old_invisible = connection
        .query_row(
            "SELECT model_provider, has_user_event, thread_source FROM threads WHERE id = 'old-invisible'",
            [],
            |row| {
                Ok((
                    row.get::<usize, String>(0)?,
                    row.get::<usize, i64>(1)?,
                    row.get::<usize, String>(2)?,
                ))
            },
        )
        .expect("read old row");
    assert_eq!(old_invisible, ("relay".to_string(), 1, "user".to_string()));

    let provider_only = connection
        .query_row(
            "SELECT model_provider, has_user_event FROM threads WHERE id = 'provider-only'",
            [],
            |row| Ok((row.get::<usize, String>(0)?, row.get::<usize, i64>(1)?)),
        )
        .expect("read provider-only row");
    assert_eq!(provider_only, ("relay".to_string(), 0));
}

#[test]
fn sqlite_repair_marks_threads_with_title_or_preview_visible() {
    let connection = Connection::open_in_memory().expect("open sqlite");
    connection
        .execute(
            "CREATE TABLE threads (
                    id TEXT PRIMARY KEY,
                    model_provider TEXT,
                    has_user_event INTEGER,
                    first_user_message TEXT,
                    preview TEXT,
                    title TEXT,
                    thread_source TEXT
                )",
            [],
        )
        .expect("create threads table");
    connection
        .execute(
            "INSERT INTO threads
                 (id, model_provider, has_user_event, first_user_message, preview, title, thread_source)
                 VALUES
                 ('preview-only', 'relay', 0, '', 'visible preview', '', ''),
                 ('title-only', 'relay', 0, '', '', 'Visible title', NULL),
                 ('empty', 'relay', 0, '', '', '', NULL)",
            [],
        )
        .expect("insert rows");

    let scan = count_rows(&connection, "relay");
    assert_eq!(scan.rows_to_update, 2);

    let updated_rows = update_rows(&connection, "relay");
    assert_eq!(updated_rows, 2);

    let visible_rows = connection
        .query_row(
            "SELECT COUNT(*) FROM threads
                 WHERE id IN ('preview-only', 'title-only')
                   AND has_user_event = 1
                   AND thread_source = 'user'",
            [],
            |row| row.get::<_, i64>(0),
        )
        .expect("count visible rows");
    assert_eq!(visible_rows, 2);
    let empty_visible = connection
        .query_row("SELECT has_user_event FROM threads WHERE id = 'empty'", [], |row| {
            row.get::<_, i64>(0)
        })
        .expect("read empty row");
    assert_eq!(empty_visible, 0);
}

#[test]
fn sqlite_repair_keeps_provider_only_schema_working() {
    let connection = Connection::open_in_memory().expect("open sqlite");
    connection
        .execute("CREATE TABLE threads (id TEXT PRIMARY KEY, model_provider TEXT)", [])
        .expect("create threads table");
    connection
        .execute(
            "INSERT INTO threads (id, model_provider) VALUES ('old', 'old'), ('same', 'relay')",
            [],
        )
        .expect("insert rows");

    let scan = count_rows(&connection, "relay");
    assert_eq!(scan.rows_to_update, 1);
    let updated_rows = update_rows(&connection, "relay");
    assert_eq!(updated_rows, 1);

    let old_provider = connection
        .query_row("SELECT model_provider FROM threads WHERE id = 'old'", [], |row| {
            row.get::<usize, String>(0)
        })
        .expect("read old provider");
    assert_eq!(old_provider, "relay");
}

#[test]
fn sqlite_path_repair_removes_extended_prefixes_for_sidebar_matching() {
    let connection = Connection::open_in_memory().expect("open sqlite");
    connection
        .execute(
            "CREATE TABLE threads (
                    id TEXT PRIMARY KEY,
                    cwd TEXT,
                    rollout_path TEXT
                )",
            [],
        )
        .expect("create threads table");
    connection
        .execute(
            "INSERT INTO threads (id, cwd, rollout_path) VALUES
                 ('extended', '\\\\?\\C:\\Users\\demo\\project',
                  '\\\\?\\C:\\Users\\demo\\.codex\\sessions\\rollout.jsonl'),
                 ('plain', 'C:\\Users\\demo\\other',
                  'C:\\Users\\demo\\.codex\\sessions\\plain.jsonl')",
            [],
        )
        .expect("insert rows");

    assert_eq!(finish_thread_path_count("state", path_rows(&connection)), Ok(1));
    let statements =
        normalize_sqlite_thread_paths("state", columns(&connection), path_rows(&connection))
            .expect("normalize paths");
    assert_eq!(statements.len(), 1);
    for statement in &statements {
        execute(&connection, statement);
    }

    let row = connection
        .query_row("SELECT cwd, rollout_path FROM threads WHERE id = 'extended'", [], |row| {
            Ok((row.get::<_, String>(0)?, row.get::<_, String>(1)?))
        })
        .expect("read normalized row");
    assert_eq!(row.0, "C:\\Users\\demo\\project");
    assert_eq!(row.1, "C:\\Users\\demo\\.codex\\sessions\\rollout.jsonl");

    assert_eq!(finish_thread_path_count("state", path_rows(&connection)), Ok(0));
}

#[test]
fn path_repair_works_with_one_of_the_columns() {
    for (column, value, repaired) in
        [("cwd", " /repo/ ", "/repo"), ("rollout_path", " a/b.jsonl ", "a/b.jsonl")]
    {
        let connection = Connection::open_in_memory().expect("open sqlite");
        connection
            .execute(&format!("CREATE TABLE threads (id TEXT PRIMARY KEY, {} TEXT)", column), [])
            .expect("create threads table");
        connection
            .execute(&format!("INSERT INTO threads VALUES ('a', '{}'), ('b', NULL)", value), [])
            .expect("insert rows");
        let statements =
            normalize_sqlite_thread_paths("state", columns(&connection), path_rows(&connection))
                .expect("normalize paths");
        assert_eq!(statements.len(), 1);
        assert_eq!(execute(&connection, &statements[0]), 1);
        let found = connection
            .query_row(&format!("SELECT {} FROM threads WHERE id = 'a'", column), [], |row| {
                row.get::<_, String>(0)
            })
            .expect("read path");
        assert_eq!(found, repaired);
    }
}

fn timestamps(connection: &Connection, content: &str) -> usize {
    let rows = match repair_sqlite_thread_timestamps("state", &database(connection)).expect("times")
    {
        Stage::Done(_) => return 0,
        Stage::Run(statement) => {
            let mut prepared = connection.prepare(&statement.sql).expect("prepare times");
            let rows = prepared
                .query_map([], |row| {
                    Ok(ThreadTimeRow {
                        id: row.get(0)?,
                        rollout_path: row.get(1)?,
                        updated_at: row.get(2)?,
                    })
                })
                .expect("query times");
            let rows = rows.map(|row| row.expect("read time row")).collect();
            thread_time_rows("state", RowsOutcome::Rows(rows)).expect("time rows")
        }
    };
    let activities = rows.iter().map(|_| rollout_file_activity_ms(content)).collect();
    let statements = finish_thread_time_repair(columns(connection), &rows, &activities);
    for statement in &statements {
        execute(connection, statement);
    }
    statements.len()
}

#[test]
fn sqlite_timestamp_repair_syncs_from_rollout_activity() {
    let content = "{\"type\":\"session_meta\",\"payload\":{\"id\":\"thread-1\",\"model_provider\":\"relay\"}}\n{\"type\":\"event\",\"timestamp\":\"2024-02-03T04:05:06Z\"}\n";
    let connection = Connection::open_in_memory().expect("open sqlite");
    connection
        .execute(
            "CREATE TABLE threads (
                    id TEXT PRIMARY KEY,
                    rollout_path TEXT,
                    updated_at INTEGER,
                    updated_at_ms INTEGER
                )",
            [],
        )
        .expect("create threads table");
    connection
        .execute(
            "INSERT INTO threads (id, rollout_path, updated_at, updated_at_ms) VALUES
                 ('thread-1', ?1, 1_800_000_000, 1_800_000_000_000)",
            ["sessions/2026/06/08/rollout-test.jsonl"],
        )
        .expect("insert row");

    assert_eq!(timestamps(&connection, content), 1);

    let (updated_at, updated_at_ms) = connection
        .query_row(
            "SELECT updated_at, updated_at_ms FROM threads WHERE id = 'thread-1'",
            [],
            |row| Ok((row.get::<_, i64>(0)?, row.get::<_, i64>(1)?)),
        )
        .expect("read repaired timestamps");
    assert_eq!(updated_at, 1_706_933_106);
    assert_eq!(updated_at_ms, 1_706_933_106_000);

    assert_eq!(timestamps(&connection, content), 0);
}

#[test]
fn sqlite_timestamp_repair_handles_schema_without_updated_at_ms() {
    let content = "{\"type\":\"session_meta\",\"payload\":{\"id\":\"thread-1\",\"model_provider\":\"relay\"}}\n{\"type\":\"event\",\"timestamp\":\"2024-02-03T04:05:06Z\"}\n";
    let connection = Connection::open_in_memory().expect("open sqlite");
    connection
        .execute(
            "CREATE TABLE threads (
                    id TEXT PRIMARY KEY,
                    rollout_path TEXT,
                    updated_at INTEGER
                )",
            [],
        )
        .expect("create threads table");
    connection
        .execute(
            "INSERT INTO threads (id, rollout_path, updated_at) VALUES
                 ('thread-1', ?1, 1_800_000_000)",
            ["sessions/2026/06/08/rollout-test.jsonl"],
        )
        .expect("insert row");

    assert_eq!(timestamps(&connection, content), 1);

    let updated_at = connection
        .query_row("SELECT updated_at FROM threads WHERE id = 'thread-1'", [], |row| {
            row.get::<_, i64>(0)
        })
        .expect("read repaired timestamp");
    assert_eq!(updated_at, 1_706_933_106);
}

#[test]
fn times_within_a_second_are_left_alone() {
    let columns = read_threads_table_columns(&vec![
        "id".to_string(),
        "rollout_path".to_string(),
        "updated_at".to_string(),
    ])
    .expect("columns");
    let row = |updated_at| ThreadTimeRow {
        id: "a".to_string(),
        rollout_path: "a.jsonl".to_string(),
        updated_at,
    };
    let rows = vec![row(Some(101)), row(Some(102)), row(None), row(Some(5))];
    let activities = vec![Some(100_999), Some(100_999), Some(-1_999), None];
    let statements = finish_thread_time_repair(columns, &rows, &activities);
    assert_eq!(statements.len(), 1);
    assert_eq!(statements[0].sql, "UPDATE threads SET updated_at = ?1 WHERE id = ?2");
    assert!(matches!(statements[0].parameters[0], SqlValue::Integer(100)));
}

#[test]
fn sqlite_source_repair_uses_parent_thread_source_when_source_is_empty() {
    let connection = Connection::open_in_memory().expect("open state db");
    connection
        .execute(
            "CREATE TABLE threads (
                    id TEXT PRIMARY KEY,
                    source TEXT,
                    thread_source TEXT
                )",
            [],
        )
        .expect("create threads table");
    connection
        .execute(
            "INSERT INTO threads (id, source, thread_source) VALUES
                 ('parent-thread', '', 'vscode'),
                 ('child-thread',
                  '{\"subagent\":{\"thread_spawn\":{\"parent_thread_id\":\"parent-thread\",\"depth\":1}}}',
                  'subagent')",
            [],
        )
        .expect("insert threads");

    assert_eq!(count_sqlite_thread_source_metadata_rows_to_update(&sources(&connection)), 1);

    let repairs = load_thread_source_metadata_repairs(&sources(&connection));
    let mut repaired = 0;
    for statement in &repair_sqlite_thread_source_metadata(&repairs) {
        repaired += execute(&connection, statement);
    }
    assert_eq!(
        finish_transaction("state", &TransactionOutcome::Committed(repaired)),
        Ok(1)
    );

    let source = connection
        .query_row("SELECT source FROM threads WHERE id = 'child-thread'", [], |row| {
            row.get::<_, String>(0)
        })
        .expect("read child source");
    assert_eq!(source, "vscode");
    assert_eq!(count_sqlite_thread_source_metadata_rows_to_update(&sources(&connection)), 0);
}

fn spawned_by(parent: &str) -> String {
    format!("{{\"subagent\":{{\"thread_spawn\":{{\"parent_thread_id\":\"{}\"}}}}}}", parent)
}

#[test]
fn sources_are_found_up_the_chain_and_not_in_a_circle() {
    let mut map = ThreadSources::new();
    map.insert("root".to_string(), "  cli ".to_string());
    map.insert("b".to_string(), spawned_by("root"));
    map.insert("a".to_string(), spawned_by("b"));
    map.insert("x".to_string(), spawned_by("y"));
    map.insert("y".to_string(), spawned_by("x"));
    map.insert("lost".to_string(), spawned_by("nobody"));
    map.insert("blank".to_string(), " ".to_string());
    assert_eq!(resolve_effective_thread_source("a", &map), Some("cli".to_string()));
    assert_eq!(resolve_effective_thread_source("root", &map), Some("cli".to_string()));
    assert_eq!(resolve_effective_thread_source("x", &map), None);
    assert_eq!(resolve_effective_thread_source("lost", &map), None);
    assert_eq!(resolve_effective_thread_source("blank", &map), None);
    assert_eq!(resolve_effective_thread_source("unknown", &map), None);

    let repairs = load_thread_source_metadata_repairs(&map);
    let ids: Vec<&str> = repairs.iter().map(|repair| repair.id.as_str()).collect();
    assert_eq!(ids, vec!["a", "b"]);
    assert_eq!(repairs[0].next_source, "cli");
    assert_eq!(repairs[0].current_source, spawned_by("b"));
}

#[test]
fn plain_sources_and_parents_are_told_apart() {
    assert!(is_plain_thread_source(" cli "));
    assert!(!is_plain_thread_source("  "));
    assert!(!is_plain_thread_source(" {\"subagent\":1}"));
    assert_eq!(parse_subagent_parent_thread_id(&spawned_by("p")), Some("p".to_string()));
    assert_eq!(parse_subagent_parent_thread_id("{\"subagent\":{}}"), None);
    assert_eq!(parse_subagent_parent_thread_id("cli"), None);
}

#[test]
fn clauses_follow_the_columns() {
    let all: Vec<String> =
        ["id", "model_provider", "has_user_event", "thread_source", "title", "preview"]
            .iter()
            .map(|name| name.to_string())
            .collect();
    let columns = read_threads_table_columns(&all).expect("columns");
    let visible = "COALESCE(NULLIF(preview, ''), NULLIF(title, ''), '') <> ''";
    assert_eq!(build_threads_visibility_expr(columns), visible);
    assert_eq!(
        build_threads_repair_where_clause(columns),
        Some(format!(
            "COALESCE(model_provider, '') <> ?1 OR (({}) AND COALESCE(has_user_event, 0) <> 1) OR (({}) AND COALESCE(thread_source, '') = '')",
            visible, visible
        ))
    );
    assert_eq!(
        build_threads_repair_set_clause(columns),
        format!(
            "model_provider = ?1, has_user_event = CASE WHEN ({}) THEN 1 ELSE has_user_event END, thread_source = CASE WHEN COALESCE(thread_source, '') = '' AND ({}) THEN 'user' ELSE thread_source END",
            visible, visible
        )
    );

    let narrow = read_threads_table_columns(&vec!["id".to_string()]).expect("columns");
    assert_eq!(build_threads_visibility_expr(narrow), "0");
    assert_eq!(build_threads_repair_where_clause(narrow), None);
    assert_eq!(build_threads_repair_set_clause(narrow), "");
    assert!(read_threads_table_columns(&Vec::new()).is_none());
}

#[test]
fn unusable_databases_are_passed_over() {
    let broken = StateDatabase::Unopened(failure("file is not a database", true));
    let scan = scan_threads_table("state", &broken).expect("scan");
    assert!(scan.skipped && scan.columns.is_none());
    match count_sqlite_rows_to_update("state", &broken, "relay").expect("count") {
        Stage::Done(scan) => {
            assert_eq!(scan.rows_to_update, 0);
            assert!(scan.skipped_unusable_database);
        }
        Stage::Run(_) => panic!("nothing can be counted"),
    }
    assert!(matches!(
        update_sqlite_provider("state", &StateDatabase::Absent, "relay"),
        Ok(Stage::Done(0))
    ));
    assert_eq!(
        finish_sqlite_row_count("state", Err(failure("malformed", true))),
        Ok(SqliteProviderScan { rows_to_update: 0, skipped_unusable_database: true })
    );
    assert_eq!(
        finish_sqlite_provider_update(
            "state",
            TransactionOutcome::Uncommitted(failure("malformed", true))
        ),
        Ok(0)
    );
}

#[test]
fn other_failures_are_errors() {
    assert_eq!(
        scan_threads_table("db", &StateDatabase::Unopened(failure("denied", false)))
            .err(),
        Some("打开实例数据库失败 (db): denied".to_string())
    );
    assert_eq!(
        scan_threads_table("db", &StateDatabase::Unset(failure("busy", true))).err(),
        Some("设置 SQLite busy_timeout 失败 (db): busy".to_string())
    );
    assert_eq!(
        scan_threads_table("db", &StateDatabase::Unread(failure("io", false))).err(),
        Some("读取 SQLite threads 表结构失败 (db): io".to_string())
    );
    assert_eq!(
        finish_sqlite_row_count("db", Err(failure("io", false))),
        Err("统计 SQLite 会话可见性差异失败 (db): io".to_string())
    );
    assert_eq!(
        finish_sqlite_row_count("db", Err(failure("No such table: THREADS", false))),
        Ok(SqliteProviderScan { rows_to_update: 0, skipped_unusable_database: false })
    );
    assert_eq!(
        finish_sqlite_row_count("db", Ok(-3)),
        Ok(SqliteProviderScan { rows_to_update: 0, skipped_unusable_database: false })
    );
    assert_eq!(
        finish_transaction("db", &TransactionOutcome::Uncommitted(failure("malformed", true))),
        Err("更新 SQLite 会话可见性失败 (db): malformed".to_string())
    );
    assert_eq!(
        finish_thread_path_count("db", RowsOutcome::Unqueried(failure("io", false))),
        Err("query SQLite paths (db): io".to_string())
    );
    assert_eq!(
        thread_time_rows("db", RowsOutcome::Unread(failure("io", false))).err(),
        Some("读取 SQLite 会话时间失败 (db): io".to_string())
    );
    assert_eq!(
        thread_time_rows("db", RowsOutcome::Unprepared(failure("no such table: threads", false)))
            .map(|rows| rows.len()),
        Ok(0)
    );
    assert!(is_missing_threads_table_error("no such table: threads"));
    assert!(!is_missing_threads_table_error("no such table: other"));
}

#[test]
fn locked_database_gets_a_hint() {
    assert_eq!(
        format_sqlite_write_error("db", "Database is locked"),
        "state_5.sqlite 当前被占用，请关闭 Codex / Codex App 后重试 (db): Database is locked"
    );
    assert_eq!(
        format_sqlite_write_error("db", "disk full"),
        "更新 SQLite 会话可见性失败 (db): disk full"
    );
}

#[test]
fn thread_ids_are_read_as_a_set() {
    assert_eq!(thread_id_query().sql, "SELECT id FROM threads");
    let ids = read_sqlite_thread_ids(
        "db",
        ThreadIds::Queried(RowsOutcome::Rows(vec!["a".to_string(), "a".to_string()])),
    )
    .expect("ids");
    assert_eq!(ids.len(), 1);
    assert!(ids.contains("a"));
    assert!(read_sqlite_thread_ids("db", ThreadIds::Absent).expect("ids").is_empty());
    assert!(read_sqlite_thread_ids("db", ThreadIds::Unopened(failure("bad", true)))
        .expect("ids")
        .is_empty());
    assert_eq!(
        read_sqlite_thread_ids("db", ThreadIds::Unopened(failure("denied", false))).err(),
        Some("打开实例数据库失败 (db): denied".to_string())
    );
    assert_eq!(
        read_sqlite_thread_ids(
            "db",
            ThreadIds::Queried(RowsOutcome::Unread(failure("io", false)))
        )
        .err(),
        Some("read SQLite thread id failed (db): io".to_string())
    );
}

#[test]
fn columns_are_asked_for_by_name() {
    let query = threads_column_query();
    assert_eq!(query.sql, "PRAGMA table_info(threads)");
    assert!(query.parameters.is_empty());
}

#[test]
fn clauses_name_the_parameter_together() {
    let clauses = |names: &[&str]| {
        let names = names.iter().map(|name| name.to_string()).collect();
        let columns = read_threads_table_columns(&names).expect("columns");
        (build_threads_repair_where_clause(columns), build_threads_repair_set_clause(columns))
    };
    let (condition, assignments) = clauses(&["id", "model_provider"]);
    assert_eq!(condition, Some("COALESCE(model_provider, '') <> ?1".to_string()));
    assert_eq!(assignments, "model_provider = ?1");
    let (condition, assignments) = clauses(&["id", "thread_source", "title"]);
    let visible = "COALESCE(NULLIF(title, ''), '') <> ''";
    assert_eq!(
        condition,
        Some(format!("(({}) AND COALESCE(thread_source, '') = '')", visible))
    );
    assert_eq!(
        assignments,
        format!(
            "thread_source = CASE WHEN COALESCE(thread_source, '') = '' AND ({}) THEN 'user' ELSE thread_source END",
            visible
        )
    );
}

#[test]
fn repaired_rows_are_not_picked_again() {
    let connection = Connection::open_in_memory().expect("open sqlite");
    connection
        .execute(
            "CREATE TABLE threads (id TEXT, model_provider TEXT, has_user_event INTEGER, thread_source TEXT, title TEXT)",
            [],
        )
        .expect("create threads table");
    connection
        .execute(
            "INSERT INTO threads VALUES
                ('a', NULL, NULL, NULL, 'A'),
                ('b', 'old', 0, '', ''),
                ('c', 'relay', 0, '', NULL),
                ('d', 'relay', 7, 'cli', 'D')",
            [],
        )
        .expect("insert rows");
    assert_eq!(update_rows(&connection, "relay"), 3);
    assert_eq!(update_rows(&connection, "relay"), 0);
    let kept: (i64, String) = connection
        .query_row("SELECT has_user_event, thread_source FROM threads WHERE id = 'b'", [], |row| {
            Ok((row.get(0)?, row.get(1)?))
        })
        .expect("read row");
    assert_eq!(kept, (0, String::new()));
}

#[test]
fn path_repairs_change_the_counted_rows_alone() {
    let connection = Connection::open_in_memory().expect("open sqlite");
    connection
        .execute_batch(
            "CREATE TABLE threads (id TEXT PRIMARY KEY, cwd TEXT, rollout_path TEXT, title TEXT);
             INSERT INTO threads VALUES
                ('a', '\\\\?\\C:\\repo', NULL, 'A'),
                ('b', NULL, ' x.jsonl ', 'B'),
                ('c', 'C:\\repo', 'x.jsonl', 'C');",
        )
        .expect("create threads table");
    let count = finish_thread_path_count("state", path_rows(&connection)).expect("count");
    assert_eq!(count, 2);
    let statements =
        normalize_sqlite_thread_paths("state", columns(&connection), path_rows(&connection))
            .expect("normalize paths");
    let changed: usize = statements.iter().map(|statement| execute(&connection, statement)).sum();
    assert_eq!(changed, 2);
    assert_eq!(finish_thread_path_count("state", path_rows(&connection)), Ok(0));
    let row = |id: &str| -> (Option<String>, Option<String>, String) {
        connection
            .query_row("SELECT cwd, rollout_path, title FROM threads WHERE id = ?1", [id], |row| {
                Ok((row.get(0)?, row.get(1)?, row.get(2)?))
            })
            .expect("read row")
    };
    assert_eq!(row("a"), (Some("C:\\repo".to_string()), None, "A".to_string()));
    assert_eq!(row("b"), (None, Some("x.jsonl".to_string()), "B".to_string()));
    assert_eq!(
        row("c"),
        (Some("C:\\repo".to_string()), Some("x.jsonl".to_string()), "C".to_string())
    );
}

#[test]
fn time_repairs_change_the_threads_that_are_off() {
    let connection = Connection::open_in_memory().expect("open sqlite");
    connection
        .execute_batch(
            "CREATE TABLE threads (id TEXT PRIMARY KEY, rollout_path TEXT, updated_at INTEGER, updated_at_ms INTEGER);
             INSERT INTO threads VALUES
                ('off', 'x.jsonl', NULL, 5), ('near', 'x.jsonl', 1704067201, 5),
                ('none', NULL, 3, 5), ('empty', '', 3, 5);",
        )
        .expect("create threads table");
    let content = "{\"timestamp\":\"2024-01-01T00:00:00Z\"}\n";
    assert_eq!(timestamps(&connection, content), 1);
    assert_eq!(timestamps(&connection, content), 0);
    let mut prepared = connection
        .prepare("SELECT id, updated_at, updated_at_ms FROM threads ORDER BY id")
        .expect("prepare");
    let rows: Vec<(String, Option<i64>, i64)> = prepared
        .query_map([], |row| Ok((row.get(0)?, row.get(1)?, row.get(2)?)))
        .expect("query")
        .map(|row| row.expect("row"))
        .collect();
    assert_eq!(
        rows,
        vec![
            ("empty".to_string(), Some(3), 5),
            ("near".to_string(), Some(1_704_067_201), 5),
            ("none".to_string(), Some(3), 5),
            ("off".to_string(), Some(1_704_067_200), 1_704_067_200_000),
        ]
    );
}
