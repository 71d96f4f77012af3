use codex_session_visibility::files::FileText;
use codex_session_visibility::first_line::{
    detect_first_line_boundary, read_first_line, rewrite_rollout_provider,
};
use codex_session_visibility::global_state::repair_global_state_project_roots;
use codex_session_visibility::json::Json;
use codex_session_visibility::repair::{
    repair_single_instance, single_instance_steps, step_ends_repair, RepairPlan, RepairStep,
    StepOutcome,
};
use codex_session_visibility::rollouts::{
    collect_active_rollout_session_ids, collect_active_rollout_workspace_roots,
    collect_rollout_provider_changes, count_missing_sqlite_thread_rows, is_rollout_file_name,
    is_session_meta_record, parse_session_meta_record, plan_rollout_change,
    rollout_target_modified_ms, session_meta_cwd, session_meta_id, with_target_time, RolloutEntry,
    RolloutFile, RolloutProviderChange,
};
use codex_session_visibility::session_index::{read_session_index_map, session_index_entries};
use codex_session_visibility::sqlite::{RowsOutcome, Stage, StateDatabase};
use codex_session_visibility::thread_source::ThreadSources;
use codex_session_visibility::threads::{repair_sqlite_thread_timestamps, ThreadIds};
use codex_session_visibility::timestamps::time_to_restore;
use rusqlite::Connection;

/// The rollout file as it is found on disk, beside the session index `index`.
fn found(parts: &[&str], content: &str, index: &str, modified_ms: Option<i128>) -> RolloutEntry {
    let entry = RolloutEntry::Read(RolloutFile {
        path: parts.join("/"),
        relative_path: parts.iter().map(|part| part.to_string()).collect(),
        head: content.as_bytes().to_vec(),
        modified_ms,
        target_modified_ms: None,
    });
    with_target_time(entry, &session_index_entries(index), &Some(content.to_string()))
}

fn changes(entries: &Vec<RolloutEntry>, index: &str) -> Vec<RolloutProviderChange> {
    collect_rollout_provider_changes(
        entries,
        "relay",
        &session_index_entries(index),
        &ThreadSources::new(),
    )
    .expect("collect rollout changes")
}

/// What a change makes of the file's content.
fn rewritten(content: &str, change: &RolloutProviderChange) -> String {
    match &change.updated_first_line {
        Some(line) => {
            String::from_utf8(rewrite_rollout_provider(&content.as_bytes().to_vec(), line))
                .expect("rollout is text")
        }
        None => content.to_string(),
    }
}

/// Repairs an instance that has one rollout file and nothing else: what the file holds then, and
/// when it was modified.
fn repaired(
    content: &str,
    modified_ms: Option<i128>,
    changes: &[RolloutProviderChange],
) -> (String, Option<i128>) {
    let plan = RepairPlan {
        update_sqlite: false,
        repair_sqlite_thread_sources: false,
        normalize_sqlite_paths: false,
        rebuild_missing_sqlite_threads: false,
        reconcile_session_index: false,
        repair_local_thread_catalog: false,
    };
    let mut file = (content.to_string(), modified_ms);
    let mut outcomes = Vec::new();
    for step in single_instance_steps(plan) {
        let outcome = match step {
            RepairStep::RewriteRollouts => {
                for change in changes {
                    file.0 = rewritten(&file.0, change);
                    file.1 = time_to_restore(change.target_modified_ms, file.1);
                }
                StepOutcome::Done(changes.len(), false)
            }
            RepairStep::RepairTimestamps => {
                match repair_sqlite_thread_timestamps("state", &StateDatabase::Absent) {
                    Ok(Stage::Done(count)) => StepOutcome::Done(count, false),
                    _ => panic!("there is no database"),
                }
            }
            RepairStep::RepairGlobalState => {
                let repair =
                    repair_global_state_project_roots("state", &FileText::Absent, &Vec::new())
                        .expect("repair state");
                assert!(repair.content.is_none());
                StepOutcome::Done(
                    repair.result.repaired_project_root_count,
                    repair.result.reset_remote_host_selection,
                )
            }
            _ => panic!("this step is not planned"),
        };
        assert!(!step_ends_repair(step, &outcome));
        outcomes.push(outcome);
    }
    let result = repair_single_instance(plan, outcomes).expect("repair rollout");
    assert_eq!(result.sqlite_rows_updated, 0);
    assert_eq!(result.repaired_project_root_count, 0);
    file
}

#[test]
fn rollout_repair_updates_provider_and_preserves_session_time() {
    let content = "{\"type\":\"session_meta\",\"payload\":{\"id\":\"s1\",\"model_provider\":\"old\"}}\n{\"type\":\"event\",\"timestamp\":\"2024-01-01T00:00:00Z\"}\n";
    let index =
        "{\"id\":\"s1\",\"thread_name\":\"Test\",\"updated_at\":\"2024-02-03T04:05:06Z\"}\n";
    let entries = vec![found(
        &["sessions", "2026", "05", "23", "rollout-test.jsonl"],
        content,
        index,
        Some(1_800_000_000_000),
    )];

    let changes = changes(&entries, index);
    assert_eq!(changes.len(), 1);

    let (content, modified_ms) = repaired(content, Some(1_800_000_000_000), &changes);
    assert!(content.contains("\"model_provider\":\"relay\""));
    assert_eq!(modified_ms, Some(1_704_067_200_000));
}

#[test]
fn rollout_repair_restores_session_time_without_provider_change() {
    let rollout_content =
        "{\"type\":\"session_meta\",\"payload\":{\"id\":\"s1\",\"model_provider\":\"relay\"}}\n{\"type\":\"event\",\"timestamp\":\"2024-01-01T00:00:00Z\"}\n";
    let entries = vec![found(
        &["sessions", "2026", "05", "23", "rollout-test.jsonl"],
        rollout_content,
        "",
        Some(1_800_000_000_000),
    )];

    let changes = changes(&entries, "");
    assert_eq!(changes.len(), 1);
    assert!(changes[0].updated_first_line.is_none());

    let (content, modified_ms) = repaired(rollout_content, Some(1_800_000_000_000), &changes);
    assert_eq!(content, rollout_content);
    assert_eq!(modified_ms, Some(1_704_067_200_000));
}

#[test]
fn resolve_target_modified_prefers_rollout_activity_when_index_drifts() {
    let content = "{\"type\":\"session_meta\",\"payload\":{\"id\":\"s1\",\"model_provider\":\"relay\"}}\n{\"type\":\"event\",\"timestamp\":\"2024-01-01T00:00:00Z\"}\n";
    let file = FileText::Text(
        "{\"id\":\"s1\",\"thread_name\":\"Test\",\"updated_at\":\"2026-03-16T23:36:58.7406859Z\"}\n"
            .to_string(),
    );

    let session_index_map =
        read_session_index_map("session_index.jsonl", &file).expect("read session index");
    let meta = parse_session_meta_record(content.lines().next().expect("first line"))
        .expect("session meta");
    assert_eq!(session_meta_id(&meta), Some("s1".to_string()));
    let target =
        rollout_target_modified_ms(&meta, &session_index_map, &Some(content.to_string()), None)
            .expect("resolve target modified");

    assert_eq!(target, 1_704_067_200_000);
}

#[test]
fn index_time_is_kept_where_activity_is_near() {
    let content = "{\"type\":\"session_meta\",\"payload\":{\"id\":\"s1\"}}\n{\"timestamp\":\"2024-01-01T00:00:00Z\"}\n";
    let meta = parse_session_meta_record(content.lines().next().expect("first line"))
        .expect("session meta");
    let text = Some(content.to_string());
    let target = |index: &str, text: &Option<String>, fallback| {
        rollout_target_modified_ms(&meta, &session_index_entries(index), text, fallback)
    };
    let near = "{\"id\":\"s1\",\"updated_at\":1704070800}\n";
    assert_eq!(target(near, &text, None), Some(1_704_070_800_000));
    let far = "{\"id\":\"s1\",\"updated_at\":1704070801}\n";
    assert_eq!(target(far, &text, None), Some(1_704_067_200_000));
    assert_eq!(target(near, &None, None), Some(1_704_070_800_000));
    assert_eq!(target("", &None, Some(5)), Some(5));
    assert_eq!(target("", &None, None), None);
}

#[test]
fn rollout_repair_syncs_cwd_from_session_index_workspace_root() {
    let content = "{\"type\":\"session_meta\",\"payload\":{\"id\":\"thread-1\",\"model_provider\":\"relay\",\"cwd\":\"C:/Users/demo/Documents/Codex/2026-06-27/tmp\"}}\n{\"type\":\"event\",\"timestamp\":\"2026-06-27T01:02:03Z\"}\n";
    let index = "{\"id\":\"thread-1\",\"thread_name\":\"Thread\",\"updated_at\":\"2026-06-27T01:02:03Z\",\"cwd\":\"C:/Users/demo/Documents/Codex\"}\n";
    let entries = vec![found(
        &["sessions", "2026", "06", "27", "rollout-test.jsonl"],
        content,
        index,
        None,
    )];

    let changes = changes(&entries, index);
    assert_eq!(changes.len(), 1);
    assert!(changes[0].updated_first_line.is_some());

    let (content, _) = repaired(content, None, &changes);
    let first_line = content.lines().next().expect("first line");
    let parsed: serde_json::Value = serde_json::from_str(first_line).expect("parse first line");
    assert_eq!(
        parsed
            .get("payload")
            .and_then(|payload| payload.get("cwd"))
            .and_then(serde_json::Value::as_str),
        Some("C:\\Users\\demo\\Documents\\Codex")
    );
}

#[test]
fn detects_active_rollouts_missing_from_sqlite_threads() {
    let entries = vec![
        found(
            &["sessions", "2026", "06", "27", "rollout-thread-1.jsonl"],
            "{\"type\":\"session_meta\",\"payload\":{\"id\":\"thread-1\",\"model_provider\":\"relay\",\"cwd\":\"C:/repo\"}}\n",
            "",
            None,
        ),
        found(
            &["sessions", "2026", "06", "27", "rollout-thread-2.jsonl"],
            "{\"type\":\"session_meta\",\"payload\":{\"id\":\"thread-2\",\"model_provider\":\"relay\",\"cwd\":\"C:/repo\"}}\n",
            "",
            None,
        ),
    ];

    let connection = Connection::open_in_memory().expect("open sqlite");
    connection
        .execute("CREATE TABLE threads (id TEXT PRIMARY KEY)", [])
        .expect("create threads table");
    connection
        .execute("INSERT INTO threads (id) VALUES ('thread-1')", [])
        .expect("insert one row");
    let stored = {
        let mut prepared = connection.prepare("SELECT id FROM threads").expect("prepare ids");
        let rows = prepared.query_map([], |row| row.get::<_, String>(0)).expect("query ids");
        rows.map(|row| row.expect("read id")).collect()
    };

    let ids = collect_active_rollout_session_ids(&entries).expect("collect ids");
    assert_eq!(
        count_missing_sqlite_thread_rows(&ids, "state", ThreadIds::Queried(RowsOutcome::Rows(stored)))
            .expect("count missing sqlite threads"),
        1
    );
}

#[test]
fn no_rollouts_miss_no_rows() {
    assert_eq!(
        count_missing_sqlite_thread_rows(
            &Vec::new(),
            "state",
            ThreadIds::Queried(RowsOutcome::Rows(Vec::new()))
        ),
        Ok(0)
    );
    let ids = vec!["a".to_string(), "b".to_string()];
    assert_eq!(count_missing_sqlite_thread_rows(&ids, "state", ThreadIds::Absent), Ok(2));
}

#[test]
fn session_ids_are_taken_once_and_in_order() {
    let line = |id: &str| {
        format!("{{\"type\":\"session_meta\",\"payload\":{{\"id\":\"{}\"}}}}\n", id)
    };
    let entries = vec![
        found(&["b"], &line("two"), "", None),
        found(&["c"], "{\"type\":\"session_meta\",\"payload\":{}}\n", "", None),
        found(&["d"], "not a record\n", "", None),
        found(&["a"], &line("one"), "", None),
        found(&["e"], &line("two"), "", None),
    ];
    assert_eq!(
        collect_active_rollout_session_ids(&entries),
        Ok(vec!["two".to_string(), "one".to_string()])
    );
    let unread = vec![RolloutEntry::Unread("cannot open".to_string())];
    assert_eq!(collect_active_rollout_session_ids(&unread), Err("cannot open".to_string()));
}

#[test]
fn workspace_roots_come_from_the_index_or_the_record() {
    let line = |id: &str, cwd: &str| {
        format!(
            "{{\"type\":\"session_meta\",\"payload\":{{\"id\":\"{}\",\"cwd\":\"{}\"}}}}\n",
            id, cwd
        )
    };
    let entries = vec![
        found(&["a"], &line("one", "C:/repo/"), "", None),
        found(&["b"], &line("two", "/work"), "", None),
        found(&["c"], &line("three", "/x/2026-01-02/tmp"), "", None),
        found(&["d"], &line("four", "C:\\\\repo"), "", None),
    ];
    let index = session_index_entries("{\"id\":\"two\",\"cwd\":\"/elsewhere\"}\n");
    assert_eq!(
        collect_active_rollout_workspace_roots(&entries, &index),
        Ok(vec!["C:\\repo".to_string(), "/elsewhere".to_string()])
    );
}

#[test]
fn changes_are_sorted_by_path() {
    let old = "{\"type\":\"session_meta\",\"payload\":{\"id\":\"s\",\"model_provider\":\"old\"}}\n";
    let entries = vec![
        found(&["sessions", "b", "rollout-1.jsonl"], old, "", None),
        found(&["archived_sessions", "rollout-2.jsonl"], old, "", None),
        found(&["sessions", "a", "rollout-3.jsonl"], old, "", None),
    ];
    let files: Vec<usize> = changes(&entries, "").iter().map(|change| change.file).collect();
    assert_eq!(files, vec![1, 2, 0]);
}

#[test]
fn records_that_agree_are_left_alone() {
    let same =
        "{\"type\":\"session_meta\",\"payload\":{\"id\":\"s\",\"model_provider\":\"relay\"}}";
    let plan = |line: &str, modified_ms, target_ms| {
        plan_rollout_change(
            parse_session_meta_record(line).expect("session meta"),
            "relay",
            &session_index_entries(""),
            &ThreadSources::new(),
            modified_ms,
            target_ms,
        )
    };
    assert_eq!(plan(same, None, None), None);
    assert_eq!(plan(same, Some(7), Some(7)), None);
    assert_eq!(plan(same, None, Some(7)), Some(None));
    let bare = "{\"type\":\"session_meta\",\"payload\":{}}";
    let line = plan(bare, None, None).expect("a change").expect("a new line");
    assert_eq!(line, "{\"payload\":{\"model_provider\":\"relay\"},\"type\":\"session_meta\"}");
    assert_eq!(plan(&line, None, None), None);
}

#[test]
fn records_are_told_from_other_lines() {
    assert!(is_rollout_file_name("rollout-x.jsonl"));
    assert!(!is_rollout_file_name("rollout-x.json"));
    assert!(!is_rollout_file_name("x-rollout-.jsonl"));
    assert!(parse_session_meta_record("  ").is_none());
    assert!(parse_session_meta_record("{").is_none());
    assert!(parse_session_meta_record("{\"type\":\"event\",\"payload\":{}}").is_none());
    assert!(parse_session_meta_record("{\"type\":\"session_meta\",\"payload\":1}").is_none());
    assert!(!is_session_meta_record(&Json::Null));
    let meta = parse_session_meta_record(
        "{\"type\":\"session_meta\",\"payload\":{\"id\":\"a\",\"cwd\":\"/work/\"}}",
    )
    .expect("session meta");
    assert_eq!(session_meta_cwd(&meta), Some("/work".to_string()));
}

#[test]
fn first_lines_end_at_a_feed() {
    let bytes = |text: &str| text.as_bytes().to_vec();
    assert_eq!(detect_first_line_boundary(&bytes("ab\r\ncd")), (4, "\r\n"));
    assert_eq!(detect_first_line_boundary(&bytes("ab\ncd")), (3, "\n"));
    assert_eq!(detect_first_line_boundary(&bytes("ab")), (2, ""));
    assert_eq!(detect_first_line_boundary(&bytes("\n")), (1, "\n"));
    assert_eq!(
        read_first_line("f", &bytes("ab\r\ncd")),
        Ok(Some(("ab".to_string(), "\r\n".to_string())))
    );
    assert_eq!(read_first_line("f", &Vec::new()), Ok(None));
    assert_eq!(
        read_first_line("f", &vec![0xff, b'\n']),
        Err("解析 rollout 首行 UTF-8 失败 (f): invalid utf-8 sequence of 1 bytes from index 0"
            .to_string())
    );
}

#[test]
fn rewriting_keeps_the_rest_of_the_file() {
    let bytes = |text: &str| text.as_bytes().to_vec();
    assert_eq!(rewrite_rollout_provider(&bytes("ab\r\ncd\n"), "new"), bytes("new\r\ncd\n"));
    assert_eq!(rewrite_rollout_provider(&bytes("ab"), "new"), bytes("new"));
    assert_eq!(rewrite_rollout_provider(&bytes("\nx"), "é"), bytes("é\nx"));
}

#[test]
fn changed_files_need_no_second_change() {
    let index = "{\"id\":\"s1\",\"updated_at\":1704070800,\"cwd\":\"C:/work\"}\n";
    let contents = [
        "{\"type\":\"session_meta\",\"payload\":{\"id\":\"s1\",\"model_provider\":\"old\",\"cwd\":\"C:/work/2026-06-27/tmp\"}}\r\n{\"timestamp\":\"2024-01-01T00:00:00Z\"}\r\n",
        "{\"type\":\"session_meta\",\"timestamp\":\"2024-01-02T00:00:00Z\",\"payload\":{\"id\":\"s2\"}}",
        "no record\n",
    ];
    let names = ["a.jsonl", "b.jsonl", "c.jsonl"];
    let at = |contents: &[String], modified: &[Option<i128>]| -> Vec<RolloutEntry> {
        (0..3).map(|i| found(&["sessions", names[i]], &contents[i], index, modified[i])).collect()
    };
    let before: Vec<String> = contents.iter().map(|content| content.to_string()).collect();
    let first = changes(&at(&before, &[Some(1), None, None]), index);
    assert_eq!(first.iter().map(|change| change.file).collect::<Vec<_>>(), vec![0, 1]);
    assert_eq!(first[0].target_modified_ms, Some(1_704_070_800_000));
    assert_eq!(first[1].target_modified_ms, Some(1_704_153_600_000));

    let mut after = before;
    let mut modified = [Some(1), None, None];
    for change in &first {
        after[change.file] = rewritten(&after[change.file], change);
        modified[change.file] = change.target_modified_ms;
    }
    assert!(changes(&at(&after, &modified), index).is_empty());
}

#[test]
fn target_times_are_filled_in_for_records() {
    let target = |entry: RolloutEntry| match entry {
        RolloutEntry::Read(file) => file.target_modified_ms,
        RolloutEntry::Unread(_) => panic!("the file was read"),
    };
    let line = "{\"type\":\"session_meta\",\"payload\":{\"id\":\"s1\"}}\n";
    assert_eq!(target(found(&["a"], line, "", Some(5))), Some(5));
    assert_eq!(target(found(&["a"], line, "{\"id\":\"s1\",\"updated_at\":7}", Some(5))), Some(7000));
    assert_eq!(target(found(&["a"], "no record\n", "", Some(5))), None);
    let unread = RolloutEntry::Unread("denied".to_string());
    let unread = with_target_time(unread, &session_index_entries(""), &None);
    assert!(matches!(unread, RolloutEntry::Unread(text) if text == "denied"));
}

#[test]
fn files_that_are_no_text_keep_their_time() {
    let mut bytes =
        b"{\"type\":\"session_meta\",\"payload\":{\"id\":\"s1\",\"model_provider\":\"old\"}}\n".to_vec();
    bytes.extend([0xff, b'\n']);
    let entry = |head: &Vec<u8>, modified_ms| {
        let file = RolloutFile {
            path: "a".to_string(),
            relative_path: vec!["a".to_string()],
            head: head.clone(),
            modified_ms,
            target_modified_ms: None,
        };
        let content = String::from_utf8(head.clone()).ok();
        let entry = RolloutEntry::Read(file);
        vec![with_target_time(entry, &session_index_entries("{\"id\":\"s1\",\"updated_at\":7}"), &content)]
    };
    let first = changes(&entry(&bytes, Some(5)), "");
    assert_eq!(first[0].target_modified_ms, Some(7000));
    let line = first[0].updated_first_line.as_ref().expect("a new first line");
    let next = rewrite_rollout_provider(&bytes, line);
    assert!(next.ends_with(&[b'\n', 0xff, b'\n']));
    assert!(changes(&entry(&next, Some(7000)), "").is_empty());
}
