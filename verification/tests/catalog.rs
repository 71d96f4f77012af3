use codex_session_visibility::catalog::{
    count_missing_local_thread_catalog_rows, finish_local_thread_catalog_preview,
    finish_local_thread_catalog_repair, finish_local_thread_catalog_source_rows,
    load_local_thread_catalog_source_rows, local_thread_catalog_schema_available,
    local_thread_catalog_upserts, preview_local_thread_catalog_repair,
    repair_local_thread_catalog_from_sqlite, table_name_query, CatalogDatabase, CatalogLookup,
    CatalogLookups, CatalogQueryRow, LocalThreadCatalogRepairPlan, LocalThreadCatalogSourceRow,
};
use codex_session_visibility::first_line::rewrite_rollout_provider;
use codex_session_visibility::repair::{
    repair_single_instance, single_instance_steps, RepairPlan, RepairStep, StepOutcome,
};
use codex_session_visibility::rollouts::{
    collect_rollout_provider_changes, with_target_time, RolloutEntry, RolloutFile,
};
use codex_session_visibility::session_index::session_index_entries;
use codex_session_visibility::sqlite::{
    read_threads_table_columns, threads_column_query, RowsOutcome, SqlValue, SqliteFailure, Stage,
    StateDatabase, Statement, ThreadsTableColumns,
};
use codex_session_visibility::thread_source::{
    count_sqlite_thread_source_metadata_rows_to_update, finish_thread_source_map,
    load_thread_source_map, load_thread_source_metadata_repairs,
    repair_sqlite_thread_source_metadata, ThreadSources,
};
use codex_session_visibility::threads::{
    count_sqlite_thread_paths_to_update, finish_thread_time_repair, normalize_sqlite_thread_paths,
    repair_sqlite_thread_timestamps, thread_time_rows, update_sqlite_provider, ThreadPathRow,
    ThreadTimeRow,
};
use codex_session_visibility::timestamps::rollout_file_activity_ms;
use rusqlite::types::Value;
use rusqlite::Connection;

fn bound(value: &SqlValue) -> Value {
    match value {
        SqlValue::Null => Value::Null,
        SqlValue::Integer(n) => Value::Integer(*n),
        SqlValue::Text(text) => Value::Text(text.clone()),
        SqlValue::Seconds(millis) => Value::Real(*millis as f64 / 1000.0),
    }
}

fn parameters(statement: &Statement) -> rusqlite::ParamsFromIter<Vec<Value>> {
    rusqlite::params_from_iter(statement.parameters.iter().map(bound).collect())
}

fn execute(connection: &Connection, statement: &Statement) -> usize {
    connection.execute(&statement.sql, parameters(statement)).expect("execute statement")
}

fn column_names(connection: &Connection) -> Vec<String> {
    let mut statement =
        connection.prepare(&threads_column_query().sql).expect("prepare table info");
    let rows = statement
        .query_map([], |row| row.get::<usize, String>(1))
        .expect("query table info");
    rows.map(|row| row.expect("read column")).collect()
}

fn database(connection: &Connection) -> StateDatabase {
    StateDatabase::Columns(column_names(connection))
}

fn columns(connection: &Connection) -> ThreadsTableColumns {
    read_threads_table_columns(&column_names(connection)).expect("threads table")
}

fn catalog_sources(connection: &Connection) -> Vec<LocalThreadCatalogSourceRow> {
    let statement = load_local_thread_catalog_source_rows("state", &database(connection))
        .expect("source rows")
        .expect("a query");
    let mut prepared = connection.prepare(&statement.sql).expect("prepare sources");
    let rows = prepared
        .query_map([], |row| {
            Ok(CatalogQueryRow {
                id: row.get(0)?,
                title: row.get(1)?,
                created_at_ms: row.get(2)?,
                updated_at_ms: row.get(3)?,
                cwd: row.get(4)?,
                source_kind: row.get(5)?,
                source_detail: row.get(6)?,
                model_provider: row.get(7)?,
                git_branch: row.get(8)?,
            })
        })
        .expect("query sources");
    let rows = rows.map(|row| row.expect("read source row")).collect();
    finish_local_thread_catalog_source_rows("state", RowsOutcome::Rows(rows)).expect("sources")
}

fn tables(catalog: &Connection) -> CatalogDatabase {
    let mut prepared = catalog.prepare(&table_name_query().sql).expect("prepare tables");
    let rows = prepared.query_map([], |row| row.get::<_, String>(0)).expect("query tables");
    CatalogDatabase::Tables(RowsOutcome::Rows(
        rows.map(|row| row.expect("read table name")).collect(),
    ))
}

fn preview_catalog(state: &Connection, catalog: &Connection) -> LocalThreadCatalogRepairPlan {
    let sources = catalog_sources(state);
    let lookups = preview_local_thread_catalog_repair("catalog", tables(catalog), &sources)
        .expect("preview")
        .expect("lookups");
    let mut made = Vec::new();
    for lookup in &lookups {
        let mut prepared = catalog.prepare(&lookup.sql).expect("prepare lookup");
        let found = prepared.query_row(parameters(lookup), |row| {
            Ok((row.get::<_, String>(0)?, row.get::<_, Option<String>>(1)?))
        });
        made.push(match found {
            Ok((cwd, detail)) => CatalogLookup::Found(cwd, detail),
            Err(_) => CatalogLookup::Missing,
        });
    }
    finish_local_thread_catalog_preview("catalog", &sources, &CatalogLookups::Made(made))
        .expect("plan")
}

fn repair_catalog(state: &Connection, catalog: &Connection) -> usize {
    let sources = catalog_sources(state);
    let opening = repair_local_thread_catalog_from_sqlite("catalog", tables(catalog), &sources)
        .expect("repair")
        .expect("opening");
    execute(catalog, &opening.host);
    let newest = catalog
        .query_row(&opening.newest.sql, parameters(&opening.newest), |row| {
            row.get::<_, Option<i64>>(0)
        })
        .expect("newest observation");
    let changed: Vec<usize> = local_thread_catalog_upserts(&sources, newest)
        .iter()
        .map(|statement| execute(catalog, statement))
        .collect();
    let closing = finish_local_thread_catalog_repair(&changed, newest);
    for statement in &closing.statements {
        execute(catalog, statement);
    }
    closing.repaired
}

fn create_local_thread_catalog_schema() -> Connection {
    let connection = Connection::open_in_memory().expect("open catalog db");
    connection
        .execute(
            "CREATE TABLE local_thread_catalog (
                    host_id TEXT NOT NULL,
                    thread_id TEXT NOT NULL,
                    display_title TEXT NOT NULL,
                    source_created_at REAL NOT NULL,
                    source_updated_at REAL NOT NULL,
                    cwd TEXT NOT NULL,
                    source_kind TEXT NOT NULL,
                    source_detail TEXT,
                    model_provider TEXT NOT NULL,
                    git_branch TEXT,
                    observation_sequence INTEGER NOT NULL,
                    missing_candidate INTEGER NOT NULL DEFAULT 0
                        CHECK (missing_candidate IN (0, 1)),
                    PRIMARY KEY (host_id, thread_id)
                )",
            [],
        )
        .expect("create local_thread_catalog");
    connection
        .execute(
            "CREATE TABLE local_thread_catalog_hosts (
                    host_id TEXT PRIMARY KEY,
                    host_kind TEXT NOT NULL CHECK (
                        host_kind IN ('local', 'ssh', 'wsl', 'remote-control')
                    )
                )",
            [],
        )
        .expect("create catalog hosts");
    connection
        .execute(
            "CREATE TABLE local_thread_catalog_metadata (
                    id INTEGER PRIMARY KEY CHECK (id = 1),
                    catalog_revision INTEGER NOT NULL DEFAULT 0
                )",
            [],
        )
        .expect("create catalog metadata");
    connection
        .execute(
            "CREATE TABLE local_thread_catalog_sync_state (
                    host_id TEXT PRIMARY KEY,
                    watermark_updated_at REAL,
                    initial_build_complete INTEGER NOT NULL DEFAULT 0,
                    observation_sequence INTEGER NOT NULL DEFAULT 0
                )",
            [],
        )
        .expect("create catalog sync state");
    connection
        .execute(
            "INSERT INTO local_thread_catalog_metadata (id, catalog_revision) VALUES (1, 0)",
            [],
        )
        .expect("insert metadata");
    connection
        .execute(
            "INSERT INTO local_thread_catalog_sync_state
                 (host_id, watermark_updated_at, initial_build_complete, observation_sequence)
                 VALUES ('local', 0, 1, 0)",
            [],
        )
        .expect("insert sync state");
    connection
}

#[test]
fn local_thread_catalog_repair_backfills_missing_visible_threads() {
    let rollout_path_string = "/home/demo/.codex/sessions/2026/06/27/rollout-thread-1.jsonl";
    let state = Connection::open_in_memory().expect("open state db");
    state
        .execute(
            "CREATE TABLE threads (
                    id TEXT PRIMARY KEY,
                    rollout_path TEXT NOT NULL,
                    created_at INTEGER NOT NULL,
                    updated_at INTEGER NOT NULL,
                    source TEXT NOT NULL,
                    model_provider TEXT NOT NULL,
                    cwd TEXT NOT NULL,
                    title TEXT NOT NULL,
                    has_user_event INTEGER NOT NULL DEFAULT 0,
                    archived INTEGER NOT NULL DEFAULT 0,
                    git_branch TEXT,
                    first_user_message TEXT NOT NULL DEFAULT '',
                    thread_source TEXT,
                    preview TEXT NOT NULL DEFAULT ''
                )",
            [],
        )
        .expect("create threads table");
    state
        .execute(
            "INSERT INTO threads
                 (id, rollout_path, created_at, updated_at, source, model_provider, cwd, title,
                  has_user_event, archived, git_branch, first_user_message, thread_source, preview)
                 VALUES
                 ('thread-1', ?1, 1782493323, 1782493503, 'subagent', 'relay',
                  '\\\\?\\C:\\Users\\demo\\project', 'Recovered child thread', 1, 0, 'main',
                  'hello', 'user', 'hello')",
            [rollout_path_string],
        )
        .expect("insert thread");

    let catalog = create_local_thread_catalog_schema();
    assert_eq!(count_missing_local_thread_catalog_rows(preview_catalog(&state, &catalog)), 1);

    assert_eq!(repair_catalog(&state, &catalog), 1);

    let row = catalog
        .query_row(
            "SELECT host_id, thread_id, display_title, source_created_at, source_updated_at,
                        cwd, source_kind, source_detail, model_provider, git_branch,
                        observation_sequence, missing_candidate
                 FROM local_thread_catalog WHERE thread_id = 'thread-1'",
            [],
            |row| {
                Ok((
                    row.get::<_, String>(0)?,
                    row.get::<_, String>(1)?,
                    row.get::<_, String>(2)?,
                    row.get::<_, f64>(3)?,
                    row.get::<_, f64>(4)?,
                    row.get::<_, String>(5)?,
                    row.get::<_, String>(6)?,
                    row.get::<_, String>(7)?,
                    row.get::<_, String>(8)?,
                    row.get::<_, String>(9)?,
                    row.get::<_, i64>(10)?,
                    row.get::<_, i64>(11)?,
                ))
            },
        )
        .expect("read catalog row");
    assert_eq!(row.0, "local");
    assert_eq!(row.1, "thread-1");
    assert_eq!(row.2, "Recovered child thread");
    assert_eq!(row.3, 1_782_493_323.0);
    assert_eq!(row.4, 1_782_493_503.0);
    assert_eq!(row.5, "C:\\Users\\demo\\project");
    assert_eq!(row.6, "subagent");
    assert_eq!(row.7, rollout_path_string);
    assert_eq!(row.8, "relay");
    assert_eq!(row.9, "main");
    assert_eq!(row.10, 1);
    assert_eq!(row.11, 0);

    let revision = catalog
        .query_row(
            "SELECT catalog_revision FROM local_thread_catalog_metadata WHERE id = 1",
            [],
            |row| row.get::<_, i64>(0),
        )
        .expect("read catalog revision");
    assert_eq!(revision, 1);

    let plan = preview_catalog(&state, &catalog);
    assert!(!plan.has_work());
    assert_eq!(repair_catalog(&state, &catalog), 0);
    let observed = catalog
        .query_row(
            "SELECT observation_sequence FROM local_thread_catalog_sync_state WHERE host_id = 'local'",
            [],
            |row| row.get::<_, i64>(0),
        )
        .expect("read observation");
    assert_eq!(observed, 1);
}

#[test]
fn local_thread_catalog_repair_normalizes_existing_extended_paths_without_duplicates() {
    let state = Connection::open_in_memory().expect("open state db");
    state
        .execute(
            "CREATE TABLE threads (
                    id TEXT PRIMARY KEY,
                    rollout_path TEXT NOT NULL,
                    created_at INTEGER NOT NULL,
                    updated_at INTEGER NOT NULL,
                    source TEXT NOT NULL,
                    model_provider TEXT NOT NULL,
                    cwd TEXT NOT NULL,
                    title TEXT NOT NULL,
                    has_user_event INTEGER NOT NULL DEFAULT 0,
                    archived INTEGER NOT NULL DEFAULT 0
                )",
            [],
        )
        .expect("create threads table");
    state
        .execute(
            "INSERT INTO threads
                 (id, rollout_path, created_at, updated_at, source, model_provider, cwd, title,
                  has_user_event, archived)
                 VALUES
                 ('thread-1', 'sessions/rollout-thread-1.jsonl', 100, 200, 'vscode', 'relay',
                  '\\\\?\\C:\\Users\\demo\\project', 'Thread', 1, 0)",
            [],
        )
        .expect("insert state row");

    let catalog = create_local_thread_catalog_schema();
    catalog
        .execute(
            "INSERT INTO local_thread_catalog
                 (host_id, thread_id, display_title, source_created_at, source_updated_at, cwd,
                  source_kind, source_detail, model_provider, git_branch, observation_sequence,
                  missing_candidate)
                 VALUES ('local', 'thread-1', 'Thread', 100, 200,
                         '\\\\?\\C:\\Users\\demo\\project', 'vscode',
                         'sessions/rollout-thread-1.jsonl', 'relay', NULL, 1, 0)",
            [],
        )
        .expect("insert catalog row");

    let plan = preview_catalog(&state, &catalog);
    assert_eq!(count_missing_local_thread_catalog_rows(plan), 0);
    assert_eq!(plan.stale_path_count, 1);
    assert_eq!(repair_catalog(&state, &catalog), 1);

    let count = catalog
        .query_row("SELECT COUNT(*) FROM local_thread_catalog", [], |row| row.get::<_, i64>(0))
        .expect("count catalog rows");
    assert_eq!(count, 1);
    let cwd = catalog
        .query_row(
            "SELECT cwd FROM local_thread_catalog WHERE thread_id = 'thread-1'",
            [],
            |row| row.get::<_, String>(0),
        )
        .expect("read catalog cwd");
    assert_eq!(cwd, "C:\\Users\\demo\\project");
    assert_eq!(preview_catalog(&state, &catalog).stale_path_count, 0);
}

fn thread_sources(state: &Connection) -> ThreadSources {
    let statement = load_thread_source_map("state", &database(state))
        .expect("sources")
        .expect("a query");
    let mut prepared = state.prepare(&statement.sql).expect("prepare sources");
    let rows = prepared
        .query_map([], |row| Ok((row.get::<_, String>(0)?, row.get::<_, String>(1)?)))
        .expect("query sources");
    let rows = rows.map(|row| row.expect("read source row")).collect();
    finish_thread_source_map("state", RowsOutcome::Rows(rows)).expect("source map")
}

fn rollout_entry(path: &str, content: &str, modified_ms: Option<i128>) -> RolloutEntry {
    let entry = RolloutEntry::Read(RolloutFile {
        path: path.to_string(),
        relative_path: vec!["sessions".to_string(), "rollout.jsonl".to_string()],
        head: content.as_bytes().to_vec(),
        modified_ms,
        target_modified_ms: None,
    });
    with_target_time(entry, &session_index_entries(""), &Some(content.to_string()))
}

fn repaired_paths(state: &Connection) -> usize {
    let Ok(Stage::Run(statement)) = count_sqlite_thread_paths_to_update("state", &database(state))
    else {
        panic!("the table has paths");
    };
    let rows: Vec<ThreadPathRow> = {
        let mut prepared = state.prepare(&statement.sql).expect("prepare paths");
        let rows = prepared
            .query_map([], |row| {
                Ok(ThreadPathRow { id: row.get(0)?, cwd: row.get(1)?, rollout_path: row.get(2)? })
            })
            .expect("query paths");
        rows.map(|row| row.expect("read path row")).collect()
    };
    let statements =
        normalize_sqlite_thread_paths("state", columns(state), RowsOutcome::Rows(rows))
            .expect("normalize paths");
    statements.iter().map(|statement| execute(state, statement)).sum()
}

fn repaired_times(state: &Connection, path: &str, content: &str) -> usize {
    let Ok(Stage::Run(statement)) = repair_sqlite_thread_timestamps("state", &database(state))
    else {
        panic!("the table has times");
    };
    let rows: Vec<ThreadTimeRow> = {
        let mut prepared = state.prepare(&statement.sql).expect("prepare times");
        let rows = prepared
            .query_map([], |row| {
                Ok(ThreadTimeRow {
                    id: row.get(0)?,
                    rollout_path: row.get(1)?,
                    updated_at: row.get(2)?,
                })
            })
            .expect("query times");
        rows.map(|row| row.expect("read time row")).collect()
    };
    let rows = thread_time_rows("state", RowsOutcome::Rows(rows)).expect("time rows");
    let activities = rows
        .iter()
        .map(|row| {
            if row.rollout_path == path {
                rollout_file_activity_ms(content)
            } else {
                None
            }
        })
        .collect();
    finish_thread_time_repair(columns(state), &rows, &activities)
        .iter()
        .map(|statement| execute(state, statement))
        .sum()
}

#[test]
fn sqlite_repair_normalizes_subagent_json_source_from_parent_for_catalog() {
    let child_rollout = "{\"type\":\"session_meta\",\"payload\":{\"id\":\"child-thread\",\"model_provider\":\"relay\",\"cwd\":\"D:/repo\",\"source\":{\"subagent\":{\"thread_spawn\":{\"parent_thread_id\":\"parent-thread\",\"depth\":1,\"agent_path\":null,\"agent_nickname\":\"Maxwell\",\"agent_role\":\"worker\"}}},\"thread_source\":\"subagent\"},\"timestamp\":\"2026-06-28T01:00:00Z\"}\n";
    let child_rollout_path = "/home/demo/.codex/sessions/2026/06/28/rollout-child-thread.jsonl";

    let state = Connection::open_in_memory().expect("open state db");
    state
        .execute(
            "CREATE TABLE threads (
                    id TEXT PRIMARY KEY,
                    rollout_path TEXT,
                    created_at INTEGER,
                    updated_at INTEGER,
                    source TEXT,
                    model_provider TEXT,
                    cwd TEXT,
                    title TEXT,
                    has_user_event INTEGER,
                    archived INTEGER,
                    first_user_message TEXT,
                    thread_source TEXT,
                    preview TEXT
                )",
            [],
        )
        .expect("create threads table");
    state
        .execute(
            "INSERT INTO threads
                 (id, rollout_path, created_at, updated_at, source, model_provider, cwd, title,
                  has_user_event, archived, first_user_message, thread_source, preview)
                 VALUES
                 ('parent-thread', 'sessions/parent.jsonl', 100, 200, 'cli', 'relay',
                  'D:\\repo', 'Parent', 1, 0, 'parent prompt', 'user', 'parent prompt'),
                 ('child-thread', ?1, 110, 210,
                  '{\"subagent\":{\"thread_spawn\":{\"parent_thread_id\":\"parent-thread\",\"depth\":1,\"agent_path\":null,\"agent_nickname\":\"Maxwell\",\"agent_role\":\"worker\"}}}',
                  'relay', '\\\\?\\D:\\repo', 'Child worker', 0, 0, 'child prompt', 'subagent',
                  'child prompt')",
            [child_rollout_path],
        )
        .expect("insert threads");

    assert_eq!(count_sqlite_thread_source_metadata_rows_to_update(&thread_sources(&state)), 1);

    let catalog = create_local_thread_catalog_schema();
    let entries = vec![rollout_entry(child_rollout_path, child_rollout, None)];
    let changes = collect_rollout_provider_changes(
        &entries,
        "relay",
        &session_index_entries(""),
        &thread_sources(&state),
    )
    .expect("collect rollout changes");
    assert_eq!(changes.len(), 1);
    assert!(changes[0].updated_first_line.is_some());

    let plan = RepairPlan {
        update_sqlite: true,
        repair_sqlite_thread_sources: true,
        normalize_sqlite_paths: true,
        rebuild_missing_sqlite_threads: false,
        reconcile_session_index: false,
        repair_local_thread_catalog: true,
    };
    let mut rewritten = Vec::new();
    let mut outcomes = Vec::new();
    for step in single_instance_steps(plan) {
        let count = match step {
            RepairStep::UpdateProvider => {
                match update_sqlite_provider("state", &database(&state), "relay") {
                    Ok(Stage::Run(statement)) => execute(&state, &statement),
                    _ => panic!("the table has a provider"),
                }
            }
            RepairStep::RewriteRollouts => {
                let line = changes[0].updated_first_line.as_ref().expect("a new first line");
                rewritten = rewrite_rollout_provider(&child_rollout.as_bytes().to_vec(), line);
                0
            }
            RepairStep::RepairSources => {
                let repairs = load_thread_source_metadata_repairs(&thread_sources(&state));
                repair_sqlite_thread_source_metadata(&repairs)
                    .iter()
                    .map(|statement| execute(&state, statement))
                    .sum()
            }
            RepairStep::NormalizePaths => repaired_paths(&state),
            RepairStep::RepairTimestamps => {
                repaired_times(&state, child_rollout_path, child_rollout)
            }
            RepairStep::RepairCatalog => repair_catalog(&state, &catalog),
            RepairStep::RebuildMetadata | RepairStep::ReconcileIndex => {
                panic!("this step is not planned")
            }
            RepairStep::RepairGlobalState => 0,
        };
        outcomes.push(StepOutcome::Done(count, false));
    }
    let repaired = repair_single_instance(plan, outcomes).expect("repair source metadata");
    assert!(repaired.sqlite_rows_updated >= 2);
    assert_eq!(repaired.local_thread_catalog_rows_repaired, 2);

    let child = state
        .query_row(
            "SELECT source, thread_source, has_user_event FROM threads WHERE id = 'child-thread'",
            [],
            |row| {
                Ok((row.get::<_, String>(0)?, row.get::<_, String>(1)?, row.get::<_, i64>(2)?))
            },
        )
        .expect("read child thread");
    assert_eq!(child, ("cli".to_string(), "subagent".to_string(), 1));

    let content = String::from_utf8(rewritten).expect("read child rollout");
    let first_line = content.lines().next().expect("first line");
    let parsed: serde_json::Value = serde_json::from_str(first_line).expect("parse first line");
    let payload = parsed.get("payload").expect("payload");
    assert_eq!(payload.get("source").and_then(serde_json::Value::as_str), Some("cli"));
    assert_eq!(
        payload.get("thread_source").and_then(serde_json::Value::as_str),
        Some("subagent")
    );

    let row = catalog
        .query_row(
            "SELECT source_kind, cwd, missing_candidate
                 FROM local_thread_catalog
                 WHERE thread_id = 'child-thread'",
            [],
            |row| {
                Ok((row.get::<_, String>(0)?, row.get::<_, String>(1)?, row.get::<_, i64>(2)?))
            },
        )
        .expect("read child catalog row");
    assert_eq!(row, ("cli".to_string(), "D:\\repo".to_string(), 0));
}

fn failure(message: &str, unusable: bool) -> SqliteFailure {
    SqliteFailure { message: message.to_string(), unusable }
}

fn one_source() -> Vec<LocalThreadCatalogSourceRow> {
    vec![LocalThreadCatalogSourceRow {
        id: "a".to_string(),
        title: "A".to_string(),
        source_created_at_ms: 1500,
        source_updated_at_ms: 0,
        cwd: "/repo".to_string(),
        source_kind: "user".to_string(),
        source_detail: "x.jsonl".to_string(),
        model_provider: "relay".to_string(),
        git_branch: None,
    }]
}

#[test]
fn catalogs_that_cannot_be_used_are_passed_over() {
    let sources = one_source();
    let preview = |catalog| preview_local_thread_catalog_repair("db", catalog, &sources);
    assert!(matches!(preview(CatalogDatabase::Absent), Ok(None)));
    assert!(matches!(preview(CatalogDatabase::Unopened(failure("bad", true))), Ok(None)));
    assert!(matches!(
        preview(CatalogDatabase::Tables(RowsOutcome::Rows(vec!["other".to_string()]))),
        Ok(None)
    ));
    assert_eq!(
        preview(CatalogDatabase::Unopened(failure("denied", false))).err(),
        Some("打开 Codex local_thread_catalog 数据库失败 (db): denied".to_string())
    );
    assert!(preview(CatalogDatabase::Unset(failure("busy", false))).is_err());
    assert!(matches!(
        preview_local_thread_catalog_repair(
            "db",
            CatalogDatabase::Unopened(failure("denied", false)),
            &Vec::new()
        ),
        Ok(None)
    ));
    assert_eq!(
        local_thread_catalog_schema_available("db", RowsOutcome::Unqueried(failure("io", false))),
        Err("query local catalog schema (db): io".to_string())
    );
}

#[test]
fn lookups_that_fail_are_errors() {
    let sources = one_source();
    assert_eq!(
        finish_local_thread_catalog_preview(
            "db",
            &sources,
            &CatalogLookups::Unprepared(failure("io", false))
        )
        .err(),
        Some("prepare local catalog preview query (db): io".to_string())
    );
    assert!(finish_local_thread_catalog_preview(
        "db",
        &sources,
        &CatalogLookups::Made(vec![CatalogLookup::Failed(failure("io", false))])
    )
    .is_err());
    let found = |cwd: &str, detail: Option<&str>| {
        finish_local_thread_catalog_preview(
            "db",
            &sources,
            &CatalogLookups::Made(vec![CatalogLookup::Found(
                cwd.to_string(),
                detail.map(|detail| detail.to_string()),
            )]),
        )
        .expect("plan")
        .stale_path_count
    };
    assert_eq!(found("/repo", Some("x.jsonl")), 0);
    assert_eq!(found("/repo/", Some("x.jsonl")), 1);
    assert_eq!(found("/repo", None), 1);
}

#[test]
fn observations_are_numbered_from_the_newest_one() {
    let sources = one_source();
    let upserts = local_thread_catalog_upserts(&sources, Some(41));
    assert_eq!(upserts.len(), 1);
    assert!(upserts[0].parameters.iter().any(|value| matches!(value, SqlValue::Integer(42))));
    assert!(upserts[0].parameters.iter().any(|value| matches!(value, SqlValue::Seconds(1500))));
    let closing = finish_local_thread_catalog_repair(&vec![1], Some(41));
    assert_eq!(closing.repaired, 1);
    assert!(matches!(closing.statements[1].parameters[1], SqlValue::Integer(42)));
    let closing = finish_local_thread_catalog_repair(&vec![0], None);
    assert!(closing.statements.is_empty());
}

#[test]
fn threads_without_a_project_are_not_listed() {
    let row = |cwd: &str| CatalogQueryRow {
        id: "a".to_string(),
        title: "A".to_string(),
        created_at_ms: None,
        updated_at_ms: Some(7),
        cwd: cwd.to_string(),
        source_kind: "user".to_string(),
        source_detail: " \\\\?\\C:\\x.jsonl ".to_string(),
        model_provider: "relay".to_string(),
        git_branch: None,
    };
    let rows = RowsOutcome::Rows(vec![row("  "), row("C:/repo/")]);
    let sources = finish_local_thread_catalog_source_rows("db", rows).expect("sources");
    assert_eq!(sources.len(), 1);
    assert_eq!(sources[0].cwd, "C:\\repo");
    assert_eq!(sources[0].source_detail, "C:\\x.jsonl");
    assert_eq!(sources[0].source_created_at_ms, 0);
    assert_eq!(sources[0].source_updated_at_ms, 7);
}

#[test]
fn upsert_writes_only_rows_that_differ() {
    let upserts = local_thread_catalog_upserts(&one_source(), None);
    assert_eq!(
        upserts[0].sql,
        "INSERT INTO local_thread_catalog (host_id, thread_id, display_title, source_created_at, \
         source_updated_at, cwd, source_kind, source_detail, model_provider, git_branch, \
         observation_sequence, missing_candidate) \
         VALUES (?1, ?2, ?3, ?4, ?5, ?6, ?7, ?8, ?9, ?10, ?11, 0) \
         ON CONFLICT(host_id, thread_id) DO UPDATE SET \
         display_title = excluded.display_title, \
         source_created_at = excluded.source_created_at, \
         source_updated_at = excluded.source_updated_at, \
         cwd = excluded.cwd, \
         source_kind = excluded.source_kind, \
         source_detail = excluded.source_detail, \
         model_provider = excluded.model_provider, \
         git_branch = excluded.git_branch, \
         missing_candidate = 0 \
         WHERE local_thread_catalog.display_title <> excluded.display_title \
         OR local_thread_catalog.source_created_at <> excluded.source_created_at \
         OR local_thread_catalog.source_updated_at <> excluded.source_updated_at \
         OR local_thread_catalog.cwd <> excluded.cwd \
         OR local_thread_catalog.source_kind <> excluded.source_kind \
         OR COALESCE(local_thread_catalog.source_detail, '') <> COALESCE(excluded.source_detail, '') \
         OR local_thread_catalog.model_provider <> excluded.model_provider \
         OR COALESCE(local_thread_catalog.git_branch, '') <> COALESCE(excluded.git_branch, '') \
         OR local_thread_catalog.missing_candidate <> 0"
    );

    let catalog = create_local_thread_catalog_schema();
    assert_eq!(execute(&catalog, &upserts[0]), 1);
    assert_eq!(execute(&catalog, &upserts[0]), 0);
    catalog
        .execute("UPDATE local_thread_catalog SET git_branch = ''", [])
        .expect("an empty branch is no branch");
    assert_eq!(execute(&catalog, &upserts[0]), 0);
    for change in [
        "display_title = 'B'",
        "source_created_at = 1.25",
        "source_updated_at = 9",
        "cwd = '/other'",
        "source_kind = 'cli'",
        "source_detail = NULL",
        "model_provider = 'old'",
        "git_branch = 'main'",
        "missing_candidate = 1",
    ] {
        catalog
            .execute(&format!("UPDATE local_thread_catalog SET {}", change), [])
            .expect("change the row");
        assert_eq!(execute(&catalog, &upserts[0]), 1);
        assert_eq!(execute(&catalog, &upserts[0]), 0);
    }
}

#[test]
fn looks_after_a_repair_find_each_row() {
    let sources = one_source();
    let plan = |lookup| {
        finish_local_thread_catalog_preview(
            "catalog",
            &sources,
            &CatalogLookups::Made(vec![lookup]),
        )
        .expect("plan")
    };
    let repaired = CatalogLookup::Found("/repo".to_string(), Some("x.jsonl".to_string()));
    assert!(!plan(repaired).has_work());
    assert!(plan(CatalogLookup::Missing).has_work());
    assert!(plan(CatalogLookup::Found("/other".to_string(), None)).has_work());
}

#[test]
fn threads_are_listed_where_there_is_something_to_show() {
    let state = Connection::open_in_memory().expect("open state db");
    state
        .execute(
            "CREATE TABLE threads (id TEXT PRIMARY KEY, archived INTEGER, has_user_event INTEGER,
                title TEXT, preview TEXT, first_user_message TEXT, cwd TEXT)",
            [],
        )
        .expect("create threads table");
    state
        .execute(
            "INSERT INTO threads VALUES
                ('title', NULL, 1, 'T', NULL, '', '/repo'),
                ('preview', 0, 1, '', 'P', NULL, '/repo'),
                ('message', 0, 1, NULL, NULL, 'M', '/repo'),
                ('archived', 1, 1, 'T', 'P', 'M', '/repo'),
                ('without-user', 0, 0, 'T', 'P', 'M', '/repo'),
                ('unknown-user', 0, NULL, 'T', 'P', 'M', '/repo'),
                ('empty', 0, 1, '', NULL, '', '/repo')",
            [],
        )
        .expect("insert threads");
    let mut ids: Vec<String> = catalog_sources(&state).into_iter().map(|row| row.id).collect();
    ids.sort();
    assert_eq!(ids, vec!["message".to_string(), "preview".to_string(), "title".to_string()]);
    let statement = load_local_thread_catalog_source_rows("state", &database(&state))
        .expect("source rows")
        .expect("a query");
    assert!(statement.sql.ends_with(
        " FROM threads WHERE COALESCE(archived, 0) = 0 AND COALESCE(has_user_event, 0) = 1 AND COALESCE(NULLIF(preview, ''), NULLIF(first_user_message, ''), NULLIF(title, ''), '') <> ''"
    ));
    let narrow = StateDatabase::Columns(vec!["id".to_string()]);
    let statement = load_local_thread_catalog_source_rows("state", &narrow)
        .expect("source rows")
        .expect("a query");
    assert!(statement.sql.ends_with(
        " FROM threads WHERE 1 = 1 AND 1 = 1 AND COALESCE(NULL, NULL, NULL, '') <> ''"
    ));
}

#[test]
fn preview_counts_no_more_than_the_repair_changes() {
    let state = Connection::open_in_memory().expect("open state db");
    state
        .execute(
            "CREATE TABLE threads (id TEXT PRIMARY KEY, title TEXT, cwd TEXT, rollout_path TEXT)",
            [],
        )
        .expect("create threads table");
    state
        .execute(
            "INSERT INTO threads VALUES
                ('a', 'A', '/repo', 'a.jsonl'),
                ('b', 'B', '/repo', 'b.jsonl'),
                ('c', 'C', '/repo', 'c.jsonl')",
            [],
        )
        .expect("insert threads");
    let catalog = create_local_thread_catalog_schema();
    assert_eq!(preview_catalog(&state, &catalog).missing_row_count, 3);
    assert_eq!(repair_catalog(&state, &catalog), 3);
    catalog
        .execute_batch(
            "UPDATE local_thread_catalog SET cwd = '/other' WHERE thread_id = 'a';
             UPDATE local_thread_catalog SET display_title = 'X' WHERE thread_id = 'b';
             DELETE FROM local_thread_catalog WHERE thread_id = 'c';
             INSERT INTO local_thread_catalog
                SELECT 'elsewhere', thread_id, display_title, source_created_at, source_updated_at,
                    '/far', source_kind, source_detail, model_provider, git_branch, 99, 1
                FROM local_thread_catalog WHERE thread_id = 'a';",
        )
        .expect("change the catalog");
    let plan = preview_catalog(&state, &catalog);
    assert_eq!((plan.missing_row_count, plan.stale_path_count), (1, 1));
    assert_eq!(repair_catalog(&state, &catalog), 3);
    assert!(!preview_catalog(&state, &catalog).has_work());
    assert_eq!(repair_catalog(&state, &catalog), 0);
    let revision: i64 = catalog
        .query_row("SELECT catalog_revision FROM local_thread_catalog_metadata", [], |row| {
            row.get(0)
        })
        .expect("read revision");
    assert_eq!(revision, 2);
    let kept: (String, i64) = catalog
        .query_row(
            "SELECT cwd, missing_candidate FROM local_thread_catalog WHERE host_id = 'elsewhere'",
            [],
            |row| Ok((row.get(0)?, row.get(1)?)),
        )
        .expect("read the row of another host");
    assert_eq!(kept, ("/far".to_string(), 1));
}
