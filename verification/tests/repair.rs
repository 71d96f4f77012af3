use codex_session_visibility::backups::{
    backup_copy_error, backup_dir_name, backup_directory_error, backup_holds,
    backup_instance_files, backup_manifest, backup_step_paths, list_backups, makes_directory,
    name_for_stamp, parse_session_visibility_repair_backup_timestamp,
    prune_instance_session_visibility_repair_backups, restore_instance_files_from_backup,
    BackupScope, BackupStep, RestoreStep,
};
use codex_session_visibility::catalog::LocalThreadCatalogRepairPlan;
use codex_session_visibility::global_state::GlobalStateRepairResult;
use codex_session_visibility::order::{is_path_less, is_text_less};
use codex_session_visibility::paths::sqlite_sidecar_paths;
use codex_session_visibility::repair::{
    collect_instances, is_instance_running, plan_instance_repair, record_step,
    repair_session_visibility_across_instances, repair_single_instance, single_instance_steps,
    step_ends_repair, step_rows, CodexSyncInstance, InstanceScan, RepairPlan, RepairRun,
    RepairStep, RunAction, RunEvent, RunStage, SingleInstanceRepairResult, StepOutcome,
    StoredInstance,
};
use codex_session_visibility::report::{
    build_summary_message, summarize, total_of, totals_of, CodexSessionVisibilityRepairItem, Tally,
};
use rusqlite::Connection;
use std::collections::BTreeMap;

fn scope(sqlite: bool, session_index: bool, global_state: bool, catalog: bool) -> BackupScope {
    BackupScope { sqlite, session_index, global_state, local_thread_catalog: catalog }
}

#[test]
fn sqlite_backup_restore_replaces_db_and_clears_sidecars() {
    let connection = Connection::open_in_memory().expect("open sqlite");
    connection
        .execute("CREATE TABLE threads (id TEXT PRIMARY KEY, model_provider TEXT)", [])
        .expect("create threads table");
    connection
        .execute("INSERT INTO threads (id, model_provider) VALUES ('thread-1', 'old')", [])
        .expect("insert old row");

    let asked = scope(true, false, false, false);
    let steps = backup_instance_files(0, asked, scope(true, false, false, false));
    assert_eq!(steps, vec![BackupStep::Database]);
    let backup_path = "file:visibility_backup?mode=memory&cache=shared";
    let backup = Connection::open(backup_path).expect("open backup");
    connection.execute("VACUUM main INTO ?1", [backup_path]).expect("backup db");

    connection
        .execute("UPDATE threads SET model_provider = 'new' WHERE id = 'thread-1'", [])
        .expect("mutate db after backup");
    let db_path = "state_5.sqlite";
    let mut disk = BTreeMap::new();
    disk.insert(db_path.to_string(), connection);
    let mut sidecars: Vec<String> = sqlite_sidecar_paths(db_path);
    assert_eq!(sidecars.len(), 2);

    let mut backup = Some(backup);
    for step in restore_instance_files_from_backup(false, true, backup.is_some()) {
        match step {
            RestoreStep::Sidecars => {
                for path in sqlite_sidecar_paths(db_path) {
                    sidecars.retain(|file| *file != path);
                }
            }
            RestoreStep::Database => {
                assert!(sidecars.is_empty(), "stale sidecars should go before the copy");
                disk.insert(db_path.to_string(), backup.take().expect("one copy"));
                sidecars = sqlite_sidecar_paths(db_path);
            }
            RestoreStep::DataDirectory => {}
            RestoreStep::Files => panic!("there are no files"),
        }
    }
    assert!(sidecars.is_empty(), "stale sidecar should be removed: {:?}", sidecars);

    let provider = disk[db_path]
        .query_row("SELECT model_provider FROM threads WHERE id = 'thread-1'", [], |row| {
            row.get::<usize, String>(0)
        })
        .expect("read restored provider");
    assert_eq!(provider, "old");
}

#[test]
fn restores_leave_out_what_is_not_there() {
    assert_eq!(restore_instance_files_from_backup(true, false, true), vec![RestoreStep::Files]);
    assert_eq!(restore_instance_files_from_backup(true, true, false), vec![RestoreStep::Files]);
    assert!(restore_instance_files_from_backup(false, true, false).is_empty());
}

#[test]
fn backups_copy_what_is_asked_for_and_there() {
    let all = scope(true, true, true, true);
    assert_eq!(backup_instance_files(2, all, all), vec![
        BackupStep::Rollout(0),
        BackupStep::Rollout(1),
        BackupStep::Database,
        BackupStep::SessionIndex,
        BackupStep::GlobalState,
        BackupStep::Catalog,
    ]);
    assert_eq!(backup_instance_files(0, all, scope(false, true, false, false)), vec![
        BackupStep::SessionIndex
    ]);
    assert_eq!(
        backup_holds(scope(true, true, false, false), scope(true, false, true, false)),
        scope(true, false, false, false)
    );
}

#[test]
fn backup_files_stand_below_files() {
    let relative = vec!["sessions".to_string(), "a.jsonl".to_string()];
    let texts = |parts: &[&str]| parts.iter().map(|part| part.to_string()).collect::<Vec<_>>();
    assert_eq!(
        backup_step_paths(BackupStep::Rollout(0), &relative),
        (texts(&["sessions", "a.jsonl"]), texts(&["files", "sessions", "a.jsonl"]))
    );
    assert_eq!(
        backup_step_paths(BackupStep::Database, &relative),
        (texts(&["state_5.sqlite"]), texts(&["state_5.sqlite"]))
    );
    assert_eq!(
        backup_step_paths(BackupStep::GlobalState, &relative),
        (
            texts(&[".codex-global-state.json"]),
            texts(&["files", ".codex-global-state.json"])
        )
    );
    assert_eq!(
        backup_step_paths(BackupStep::Catalog, &relative).1,
        texts(&["files", "sqlite", "codex-dev.db"])
    );
    assert!(makes_directory(BackupStep::Rollout(0)));
    assert!(!makes_directory(BackupStep::Database));
}

#[test]
fn backup_errors_name_the_file() {
    assert_eq!(
        backup_directory_error(BackupStep::SessionIndex, "/b", "full"),
        "创建 session_index 备份目录失败 (/b): full"
    );
    assert_eq!(
        backup_directory_error(BackupStep::Rollout(3), "/b", "full"),
        "创建 rollout 备份目录失败 (/b): full"
    );
    assert_eq!(
        backup_copy_error(BackupStep::Database, "/a", "/b", "full"),
        "备份 state_5.sqlite 失败 (/a -> /b): full"
    );
    assert_eq!(
        backup_copy_error(BackupStep::Catalog, "/a", "/b", "full"),
        "备份 local_thread_catalog 失败 (/a -> /b): full"
    );
}

#[test]
fn manifest_says_what_the_backup_holds() {
    let content = backup_manifest(
        "id",
        "/root",
        "relay",
        "2026-01-01T00:00:00+00:00",
        scope(true, false, true, false),
        vec!["sessions/a.jsonl".to_string()],
    )
    .expect("manifest");
    assert!(content.ends_with("}\n"));
    let parsed: serde_json::Value = serde_json::from_str(&content).expect("parse manifest");
    assert_eq!(parsed["instanceId"], "id");
    assert_eq!(parsed["instanceRoot"], "/root");
    assert_eq!(parsed["targetProvider"], "relay");
    assert_eq!(parsed["createdAt"], "2026-01-01T00:00:00+00:00");
    assert_eq!(parsed["hasSqliteBackup"], true);
    assert_eq!(parsed["hasSessionIndexBackup"], false);
    assert_eq!(parsed["hasGlobalStateBackup"], true);
    assert_eq!(parsed["hasLocalThreadCatalogBackup"], false);
    assert_eq!(parsed["rolloutFiles"][0], "sessions/a.jsonl");
}

#[test]
fn backup_names_hold_their_time() {
    let name = backup_dir_name(1_704_067_200).expect("a name");
    assert_eq!(name, "backup-20240101-000000-session-visibility-repair");
    assert_eq!(
        parse_session_visibility_repair_backup_timestamp(&name),
        Some("20240101-000000".to_string())
    );
    assert_eq!(name_for_stamp("20240101-000000"), name);
    assert_eq!(backup_dir_name(i64::MAX), None);
    assert_eq!(
        parse_session_visibility_repair_backup_timestamp(
            "backup-20240101_000000-session-visibility-repair"
        ),
        None
    );
    assert_eq!(
        parse_session_visibility_repair_backup_timestamp("backup-2024-session-visibility-repair"),
        None
    );
    assert_eq!(parse_session_visibility_repair_backup_timestamp("sessions"), None);
}

#[test]
fn pruning_leaves_the_newest_backup() {
    let names = vec![
        name_for_stamp("20240101-000000"),
        "sessions".to_string(),
        name_for_stamp("20250101-000000"),
        name_for_stamp("20240601-000000"),
    ];
    let order: Vec<usize> = list_backups(&names).iter().map(|backup| backup.at).collect();
    assert_eq!(order, vec![2, 3, 0]);
    assert_eq!(prune_instance_session_visibility_repair_backups(&names), vec![3, 0]);
    assert!(prune_instance_session_visibility_repair_backups(&vec![names[0].clone()]).is_empty());
}

#[test]
fn texts_and_paths_are_ordered() {
    assert!(is_text_less("a", "ab") && is_text_less("ab", "b") && !is_text_less("b", "b"));
    let path = |parts: &[&str]| parts.iter().map(|part| part.to_string()).collect::<Vec<_>>();
    assert!(is_path_less(&path(&["a", "z"]), &path(&["a-b"])));
    assert!(is_path_less(&path(&["a"]), &path(&["a", "b"])));
    assert!(!is_path_less(&path(&["b"]), &path(&["a", "b"])));
}

fn item(id: &str) -> CodexSessionVisibilityRepairItem {
    CodexSessionVisibilityRepairItem {
        instance_id: id.to_string(),
        instance_name: id.to_uppercase(),
        target_provider: "relay".to_string(),
        changed_rollout_file_count: 2,
        updated_sqlite_row_count: 3,
        missing_sqlite_thread_count: 1,
        added_session_index_entry_count: 0,
        repaired_local_thread_catalog_count: 4,
        repaired_project_index_workspace_count: 0,
        reset_sidebar_host_selection: true,
        metadata_rebuild_failed: false,
        skipped_sqlite_file: false,
        backup_dir: Some(format!("/backups/{}", id)),
        running: true,
    }
}

#[test]
fn summaries_add_up_the_items() {
    let mut idle = item("b");
    idle.backup_dir = None;
    idle.changed_rollout_file_count = 0;
    idle.updated_sqlite_row_count = 0;
    idle.missing_sqlite_thread_count = 0;
    idle.repaired_local_thread_catalog_count = 0;
    idle.reset_sidebar_host_selection = false;
    idle.skipped_sqlite_file = true;
    let items = vec![item("a"), idle, item("c")];
    let summary = summarize(3, items).expect("a summary");
    assert_eq!(summary.instance_count, 3);
    assert_eq!(summary.mutated_instance_count, 2);
    assert_eq!(summary.changed_rollout_file_count, 4);
    assert_eq!(summary.updated_sqlite_row_count, 6);
    assert_eq!(summary.missing_sqlite_thread_count, 2);
    assert_eq!(summary.repaired_local_thread_catalog_count, 8);
    assert_eq!(summary.reset_sidebar_host_selection_count, 2);
    assert_eq!(summary.metadata_rebuild_failed_instance_count, 0);
    assert_eq!(summary.skipped_sqlite_file_count, 1);
    assert_eq!(summary.items.len(), 3);
    assert_eq!(summary.backup_dirs, vec!["/backups/a".to_string(), "/backups/c".to_string()]);
    assert_eq!(
        summary.message,
        "已为 2 个实例修复历史会话可见性：改写 4 个 rollout 文件，更新 6 条 SQLite 记录，修复 8 条本地线程目录索引。请彻底退出 Codex 进程后再启动，以确保左侧项目和会话列表重新加载"
    );
}

#[test]
fn nothing_to_repair_is_said_so() {
    let totals = totals_of(&Vec::new()).expect("totals");
    assert_eq!(
        build_summary_message(totals),
        "所有 Codex 实例的历史会话 provider 元数据与 session_index 已与当前 provider 一致，无需修复"
    );
}

#[test]
fn sums_that_do_not_fit_are_none() {
    let mut huge = item("a");
    huge.updated_sqlite_row_count = usize::MAX;
    let items = vec![huge, item("b")];
    assert_eq!(total_of(&items, Tally::UpdatedSqliteRows), None);
    assert_eq!(total_of(&items, Tally::ChangedRolloutFiles), Some(4));
    assert!(totals_of(&items).is_none());
    assert!(summarize(2, items).is_none());
}

fn scan() -> InstanceScan {
    InstanceScan {
        running: false,
        target_provider: "relay".to_string(),
        rollout_changes: 0,
        sqlite_rows: 0,
        skipped_sqlite_file: false,
        source_rows: 0,
        path_rows: 0,
        missing_threads: 0,
        missing_index_entries: 0,
        catalog_plan: LocalThreadCatalogRepairPlan { missing_row_count: 0, stale_path_count: 0 },
        global_state_plan: GlobalStateRepairResult {
            repaired_project_root_count: 0,
            reset_remote_host_selection: false,
        },
    }
}

#[test]
fn plans_follow_the_scan() {
    let plan = plan_instance_repair(&scan());
    assert!(!plan.needed);
    assert_eq!(plan.backup, scope(false, false, false, false));

    let mut found = scan();
    found.path_rows = 1;
    let plan = plan_instance_repair(&found);
    assert!(plan.needed && plan.repair.normalize_sqlite_paths && !plan.repair.update_sqlite);
    assert!(plan.repair.repair_local_thread_catalog);
    assert_eq!(plan.backup, scope(true, false, false, true));

    let mut found = scan();
    found.rollout_changes = 1;
    let plan = plan_instance_repair(&found);
    assert!(plan.needed);
    assert_eq!(plan.backup, scope(false, false, false, false));

    let mut found = scan();
    found.missing_index_entries = 1;
    found.global_state_plan.reset_remote_host_selection = true;
    let plan = plan_instance_repair(&found);
    assert!(plan.repair.reconcile_session_index);
    assert_eq!(plan.backup, scope(false, true, true, false));
}

fn no_plan() -> RepairPlan {
    RepairPlan {
        update_sqlite: false,
        repair_sqlite_thread_sources: false,
        normalize_sqlite_paths: false,
        rebuild_missing_sqlite_threads: false,
        reconcile_session_index: false,
        repair_local_thread_catalog: false,
    }
}

#[test]
fn steps_follow_the_plan() {
    assert_eq!(single_instance_steps(no_plan()), vec![
        RepairStep::RewriteRollouts,
        RepairStep::RepairTimestamps,
        RepairStep::RepairGlobalState,
    ]);
    let all = RepairPlan {
        update_sqlite: true,
        repair_sqlite_thread_sources: true,
        normalize_sqlite_paths: true,
        rebuild_missing_sqlite_threads: true,
        reconcile_session_index: true,
        repair_local_thread_catalog: true,
    };
    assert_eq!(single_instance_steps(all), vec![
        RepairStep::UpdateProvider,
        RepairStep::RewriteRollouts,
        RepairStep::RepairSources,
        RepairStep::NormalizePaths,
        RepairStep::RepairTimestamps,
        RepairStep::RebuildMetadata,
        RepairStep::ReconcileIndex,
        RepairStep::RepairCatalog,
        RepairStep::RepairGlobalState,
    ]);
    let outcomes = vec![
        StepOutcome::Done(1, false),
        StepOutcome::Done(9, false),
        StepOutcome::Done(2, false),
        StepOutcome::Done(3, false),
        StepOutcome::Done(9, false),
        StepOutcome::Failed("no app server".to_string()),
        StepOutcome::Done(4, false),
        StepOutcome::Done(5, false),
        StepOutcome::Done(6, true),
    ];
    let result = repair_single_instance(all, outcomes).expect("repaired");
    assert_eq!(result, SingleInstanceRepairResult {
        sqlite_rows_updated: 6,
        session_index_entries_added: 4,
        local_thread_catalog_rows_repaired: 5,
        repaired_project_root_count: 6,
        reset_sidebar_host_selection: true,
        metadata_rebuild_failed: true,
    });
    assert_eq!(
        record_step(result, RepairStep::RepairCatalog, StepOutcome::Failed("io".to_string())),
        Err("io".to_string())
    );
    let failed = vec![StepOutcome::Failed("denied".to_string())];
    assert_eq!(repair_single_instance(no_plan(), failed), Err("denied".to_string()));
}

fn instance(id: &str) -> CodexSyncInstance {
    CodexSyncInstance {
        id: id.to_string(),
        name: id.to_uppercase(),
        data_dir: format!("/{}", id),
        last_pid: None,
    }
}

fn dirty() -> InstanceScan {
    let mut found = scan();
    found.sqlite_rows = 2;
    found
}

fn repaired(rows: usize) -> SingleInstanceRepairResult {
    SingleInstanceRepairResult {
        sqlite_rows_updated: rows,
        session_index_entries_added: 0,
        local_thread_catalog_rows_repaired: 0,
        repaired_project_root_count: 0,
        reset_sidebar_host_selection: false,
        metadata_rebuild_failed: false,
    }
}

#[test]
fn run_looks_at_each_instance_and_reports() {
    let run = RepairRun::new(vec![instance("a"), instance("b")]);
    let (run, action) = repair_session_visibility_across_instances(run, RunEvent::Begun);
    assert!(matches!(action, RunAction::Scan(0)));
    let (run, action) =
        repair_session_visibility_across_instances(run, RunEvent::Scanned(Ok(scan())));
    assert!(matches!(action, RunAction::Scan(1)));
    let (run, action) =
        repair_session_visibility_across_instances(run, RunEvent::Scanned(Ok(dirty())));
    assert!(matches!(action, RunAction::BackUp(1, scope) if scope.sqlite));
    let (run, action) = repair_session_visibility_across_instances(
        run,
        RunEvent::BackedUp(Ok("/backup".to_string())),
    );
    assert!(matches!(action, RunAction::Repair(1, plan) if plan.update_sqlite));
    let (run, action) =
        repair_session_visibility_across_instances(run, RunEvent::Repaired(Ok(repaired(2))));
    assert!(matches!(action, RunAction::Prune));
    assert!(totals_of(&run.items).is_some());
    let (run, action) = repair_session_visibility_across_instances(run, RunEvent::Pruned);
    assert!(matches!(run.stage, RunStage::Finished));
    let RunAction::Finish(Ok(summary)) = action else {
        panic!("the run should end well");
    };
    assert_eq!(summary.instance_count, 2);
    assert_eq!(summary.mutated_instance_count, 1);
    assert_eq!(summary.updated_sqlite_row_count, 2);
    assert_eq!(summary.items[0].instance_id, "a");
    assert_eq!(summary.items[0].instance_name, "A");
    assert_eq!(summary.items[1].instance_id, "b");
    assert_eq!(summary.items[1].instance_name, "B");
    assert_eq!(summary.backup_dirs, vec!["/backup".to_string()]);
}

#[test]
fn failed_repair_is_rolled_back() {
    for (restored, text) in [
        (Ok(()), "修复实例历史会话可见性失败 (A): broken；已自动回滚，备份目录: /backup"),
        (
            Err("denied".to_string()),
            "修复实例历史会话可见性失败 (A): broken；自动回滚也失败: denied；备份目录: /backup",
        ),
    ] {
        let run = RepairRun::new(vec![instance("a")]);
        let (run, _) = repair_session_visibility_across_instances(run, RunEvent::Begun);
        let (run, _) =
            repair_session_visibility_across_instances(run, RunEvent::Scanned(Ok(dirty())));
        let (run, _) = repair_session_visibility_across_instances(
            run,
            RunEvent::BackedUp(Ok("/backup".to_string())),
        );
        let (run, action) = repair_session_visibility_across_instances(
            run,
            RunEvent::Repaired(Err("broken".to_string())),
        );
        assert!(matches!(action, RunAction::Restore(0, true)));
        let (_, action) =
            repair_session_visibility_across_instances(run, RunEvent::Restored(restored));
        let RunAction::Finish(Err(error)) = action else {
            panic!("the run should fail");
        };
        assert_eq!(error, text);
    }
}

#[test]
fn failed_scan_or_backup_ends_the_run() {
    let run = RepairRun::new(vec![instance("a")]);
    let (run, _) = repair_session_visibility_across_instances(run, RunEvent::Begun);
    let (_, action) = repair_session_visibility_across_instances(
        run,
        RunEvent::Scanned(Err("unreadable".to_string())),
    );
    assert!(matches!(action, RunAction::Finish(Err(error)) if error == "unreadable"));

    let run = RepairRun::new(vec![instance("a")]);
    let (run, _) = repair_session_visibility_across_instances(run, RunEvent::Begun);
    let (run, _) =
        repair_session_visibility_across_instances(run, RunEvent::Scanned(Ok(dirty())));
    let (_, action) = repair_session_visibility_across_instances(
        run,
        RunEvent::BackedUp(Err("full".to_string())),
    );
    assert!(matches!(action, RunAction::Finish(Err(error)) if error == "full"));
}

#[test]
fn instances_without_a_directory_are_left_out() {
    let stored = |id: &str, dir: &str| StoredInstance {
        id: id.to_string(),
        name: id.to_string(),
        user_data_dir: dir.to_string(),
        last_pid: Some(7),
    };
    let instances = collect_instances(
        "/default".to_string(),
        None,
        vec![stored("a", "  "), stored("b", " /b ")],
    );
    assert_eq!(instances.len(), 2);
    assert_eq!(instances[0].id, "__default__");
    assert_eq!(instances[0].name, "默认实例");
    assert_eq!(instances[0].data_dir, "/default");
    assert_eq!(instances[1].id, "b");
    assert_eq!(instances[1].data_dir, "/b");
    assert_eq!(instances[1].last_pid, Some(7));
    assert!(is_instance_running(Some(1)) && !is_instance_running(None));
}

#[test]
fn failures_end_a_repair_but_for_the_rebuild() {
    let failed = StepOutcome::Failed("io".to_string());
    let done = StepOutcome::Done(3, false);
    for step in [RepairStep::UpdateProvider, RepairStep::RepairCatalog] {
        assert!(step_ends_repair(step, &failed));
        assert!(!step_ends_repair(step, &done));
    }
    assert!(!step_ends_repair(RepairStep::RebuildMetadata, &failed));
    assert_eq!(step_rows(RepairStep::NormalizePaths, &done), 3);
    assert_eq!(step_rows(RepairStep::NormalizePaths, &failed), 0);
    assert_eq!(step_rows(RepairStep::RepairCatalog, &done), 0);
}
