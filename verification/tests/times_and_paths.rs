use codex_session_visibility::files::FileText;
use codex_session_visibility::json::parse_json;
use codex_session_visibility::os_path::{path_below, split_os_path};
use codex_session_visibility::paths::{
    local_thread_catalog_db_path, looks_like_projectless_workspace_root,
    normalize_optional_path_text, normalize_sqlite_path_text, normalize_workspace_root,
    resolve_rollout_path, sqlite_sidecar_paths,
};
use codex_session_visibility::provider::{
    provider_or_default, read_history_visibility_provider_for_dir, read_target_provider,
};
use codex_session_visibility::timestamps::{
    activity_seconds, format_thread_updated_at_iso, is_apart, normalize_codex_timestamp_ms,
    parse_rollout_line_timestamp_ms, parse_session_index_updated_at_ms, parse_timestamp_ms,
    resolve_target_modified_at_ms, resolve_thread_updated_at_seconds, rollout_file_activity_ms,
    thread_time_or_present, time_to_restore, timestamp_from_text, Present,
};

fn time(text: &str) -> Option<i128> {
    parse_timestamp_ms(&parse_json(text).expect("a JSON value"))
}

#[test]
fn numbers_are_seconds_millis_or_micros() {
    assert_eq!(normalize_codex_timestamp_ms(10_000_000_000), 10_000_000_000_000);
    assert_eq!(normalize_codex_timestamp_ms(10_000_000_001), 10_000_000_001);
    assert_eq!(normalize_codex_timestamp_ms(10_000_000_000_000), 10_000_000_000_000);
    assert_eq!(normalize_codex_timestamp_ms(1_704_067_200_000_999), 1_704_067_200_000);
    assert_eq!(normalize_codex_timestamp_ms(-5), -5_000);
    assert_eq!(normalize_codex_timestamp_ms(i64::MIN), i64::MIN as i128 * 1_000);
}

#[test]
fn times_are_read_from_numbers_and_texts() {
    assert_eq!(time("1704067200"), Some(1_704_067_200_000));
    assert_eq!(time("\"2024-01-01T00:00:00Z\""), Some(1_704_067_200_000));
    assert_eq!(time("\"2024-01-01T01:00:00.5+01:00\""), Some(1_704_067_200_500));
    assert_eq!(time("\"1704067200\""), Some(1_704_067_200_000));
    assert_eq!(time("\"soon\""), None);
    assert_eq!(time("1.5"), None);
    assert_eq!(time("null"), None);
    assert_eq!(timestamp_from_text("7", None), Some(7_000));
    assert_eq!(timestamp_from_text("7", Some(3)), Some(3));
}

#[test]
fn index_entries_and_lines_have_times() {
    let entry = parse_json("{\"updated_at\":\"2024-01-01T00:00:00Z\"}").expect("entry");
    assert_eq!(parse_session_index_updated_at_ms(&entry), Some(1_704_067_200_000));
    let line = parse_json("{\"timestamp\":1704067200}").expect("line");
    assert_eq!(parse_rollout_line_timestamp_ms(&line), Some(1_704_067_200_000));
    assert_eq!(parse_rollout_line_timestamp_ms(&entry), None);
}

#[test]
fn activity_is_the_latest_time_in_the_file() {
    let content =
        "\n{\"timestamp\":5}\nnot json\n{\"timestamp\":9}\r\n{\"timestamp\":7}\n{\"other\":1}";
    assert_eq!(rollout_file_activity_ms(content), Some(9_000));
    assert_eq!(rollout_file_activity_ms("{}\n"), None);
}

#[test]
fn index_and_activity_are_weighed() {
    assert_eq!(resolve_target_modified_at_ms(Some(0), Some(3_600_000), None), Some(0));
    assert_eq!(resolve_target_modified_at_ms(Some(0), Some(3_600_001), None), Some(3_600_001));
    assert_eq!(resolve_target_modified_at_ms(Some(3_600_001), Some(0), Some(9)), Some(0));
    assert_eq!(resolve_target_modified_at_ms(None, Some(4), Some(9)), Some(4));
    assert_eq!(resolve_target_modified_at_ms(Some(4), None, Some(9)), Some(4));
    assert_eq!(resolve_target_modified_at_ms(None, None, Some(9)), Some(9));
}

#[test]
fn seconds_are_cut_towards_zero() {
    assert_eq!(activity_seconds(1_999), 1);
    assert_eq!(activity_seconds(-1_999), -1);
    assert!(!is_apart(1, 2, 1));
    assert!(is_apart(i64::MIN, i64::MAX, 1));
}

#[test]
fn thread_times_come_from_the_activity_where_it_differs() {
    assert_eq!(resolve_thread_updated_at_seconds(Some(100), Some(4_000)), Some(4_000));
    assert_eq!(resolve_thread_updated_at_seconds(Some(100), None), Some(100));
    assert_eq!(resolve_thread_updated_at_seconds(None, Some(5)), Some(5));
    assert_eq!(resolve_thread_updated_at_seconds(None, None), None);
}

#[test]
fn thread_times_are_written_with_six_digits() {
    let now = Present { seconds: 60, text: "1970-01-01T00:01:00.000123Z".to_string() };
    assert_eq!(
        format_thread_updated_at_iso(Some(1_704_067_200), &now),
        "2024-01-01T00:00:00.000000Z"
    );
    assert_eq!(format_thread_updated_at_iso(None, &now), "1970-01-01T00:01:00.000000Z");
    assert_eq!(format_thread_updated_at_iso(Some(i64::MAX), &now), "1970-01-01T00:01:00.000123Z");
    assert_eq!(thread_time_or_present(None, &now), "1970-01-01T00:01:00.000123Z");
    assert_eq!(thread_time_or_present(Some("x".to_string()), &now), "x");
}

#[test]
fn workspace_roots_have_a_normal_form() {
    let root = |value: &str| normalize_workspace_root(value);
    assert_eq!(root(" C:/repo/src/ "), Some("C:\\repo\\src".to_string()));
    assert_eq!(root("C:\\"), Some("C:\\".to_string()));
    assert_eq!(root("\\\\?\\C:\\repo"), Some("C:\\repo".to_string()));
    assert_eq!(root("\\\\?\\UNC\\host\\share"), Some("\\\\host\\share".to_string()));
    assert_eq!(root("/home/demo//"), Some("/home/demo".to_string()));
    assert_eq!(root("home\\demo"), Some("home/demo".to_string()));
    assert_eq!(root("   "), None);
    assert_eq!(root("/home/Codex/2026-06-27/tmp"), None);
    assert_eq!(root("C:\\Codex\\2026-06-27\\tmp"), None);
}

#[test]
fn normal_forms_are_stable_once_settled() {
    for value in ["C:/repo/", "\\\\?\\UNC\\h\\s\\", "/a/b///"] {
        let once = normalize_workspace_root(value).expect("a root");
        assert_eq!(normalize_workspace_root(&once), Some(once.clone()));
        let stored = normalize_sqlite_path_text(value);
        assert_eq!(normalize_sqlite_path_text(&stored), stored);
    }
    let odd = normalize_workspace_root("\\\\?\\ C:\\foo").expect("a root");
    assert_ne!(normalize_workspace_root(&odd), Some(odd));
}

#[test]
fn projectless_roots_end_in_a_date_and_a_short_name() {
    assert!(looks_like_projectless_workspace_root("/x/2026-06-27/tmp"));
    assert!(!looks_like_projectless_workspace_root("/x/2026-6-27/tmp"));
    assert!(!looks_like_projectless_workspace_root("2026-06-27"));
    let name = "n".repeat(33);
    assert!(!looks_like_projectless_workspace_root(&format!("/x/2026-06-27/{}", name)));
    assert!(looks_like_projectless_workspace_root(&format!("/x/2026-06-27/{}", &name[1..])));
}

#[test]
fn stored_paths_lose_their_prefix() {
    assert_eq!(normalize_optional_path_text(" \\\\?\\C:\\a\\ "), "C:\\a\\");
    assert_eq!(normalize_optional_path_text("\\\\?\\UNC\\h\\s"), "\\\\h\\s");
    assert_eq!(normalize_sqlite_path_text("\\\\?\\C:\\a\\"), "C:\\a");
    assert_eq!(normalize_sqlite_path_text("/x/2026-06-27/tmp "), "/x/2026-06-27/tmp");
    assert_eq!(resolve_rollout_path(" \\\\?\\C:\\a "), "C:\\a");
    assert_eq!(resolve_rollout_path("\\\\?\\UNC\\h"), "UNC\\h");
    assert_eq!(resolve_rollout_path("sessions/a"), "sessions/a");
}

#[test]
fn database_files_have_their_places() {
    assert_eq!(sqlite_sidecar_paths("/d/state_5.sqlite"), vec![
        "/d/state_5.sqlite-wal".to_string(),
        "/d/state_5.sqlite-shm".to_string(),
    ]);
    assert_eq!(local_thread_catalog_db_path(), vec![
        "sqlite".to_string(),
        "codex-dev.db".to_string(),
    ]);
}

#[test]
fn paths_are_split_as_on_their_system() {
    let split = split_os_path("/a/b/", false);
    assert_eq!(split.parent, Some("/a".to_string()));
    assert_eq!(split.name, Some("b".to_string()));
    let split = split_os_path("C:\\a\\b.exe", true);
    assert_eq!(split.parent, Some("C:\\a".to_string()));
    assert_eq!(split.name, Some("b.exe".to_string()));
    let split = split_os_path("/", false);
    assert_eq!(split.parent, None);
    assert_eq!(split.name, None);
    assert_eq!(path_below("/a", "b", false), "/a/b");
    assert_eq!(path_below("C:\\a", "b", true), "C:\\a\\b");
    assert_eq!(path_below("C:", "b", true), "C:b");
    assert_eq!(path_below("C:/", "b", true), "C:/b");
    assert_eq!(path_below("", "b", false), "b");
    assert_eq!(path_below("\\\\?\\C:\\a", "b", true), "\\\\?\\C:\\a\\b");
    assert_eq!(path_below("\\\\?\\C:\\a\\\\x\\", "b", true), "\\\\?\\C:\\a\\x\\b");
    assert_eq!(path_below("\\\\?\\C:\\.\\a/", "b", true), "\\\\?\\C:\\.\\a/\\b");
    assert_eq!(path_below("\\\\?\\C:", "b", true), "\\\\?\\C:\\b");
    assert_eq!(path_below("\\\\?\\UNC\\h\\s\\", "b", true), "\\\\?\\UNC\\h\\s\\b");
}

fn config(content: &str) -> Result<String, String> {
    read_target_provider("config.toml", &FileText::Text(content.to_string()))
}

#[test]
fn provider_is_read_from_the_configuration() {
    assert_eq!(config("model_provider = \" relay \"\n"), Ok("relay".to_string()));
    assert_eq!(config("other = 1\n"), Ok("openai".to_string()));
    assert_eq!(config("model_provider = 3\n"), Ok("openai".to_string()));
    assert_eq!(config("model_provider = \"\"\n"), Ok("openai".to_string()));
    assert_eq!(config("  \n"), Ok("openai".to_string()));
    assert_eq!(read_target_provider("c", &FileText::Absent), Ok("openai".to_string()));
    assert_eq!(
        read_target_provider("c", &FileText::Unread("denied".to_string())),
        Err("读取 config.toml 失败 (c): denied".to_string())
    );
    let broken = config("model_provider = \n").expect_err("an error");
    assert!(broken.starts_with("解析 config.toml 失败 (config.toml): TOML parse error at line 1"));
    assert_eq!(
        read_history_visibility_provider_for_dir(
            "c",
            &FileText::Text("model_provider = \"relay\"".to_string())
        ),
        Ok("relay".to_string())
    );
    assert_eq!(provider_or_default(&None), "openai");
    assert_eq!(provider_or_default(&Some(" x ".to_string())), "x");
}

#[test]
fn target_time_goes_before_the_old_one() {
    assert_eq!(time_to_restore(Some(2), Some(1)), Some(2));
    assert_eq!(time_to_restore(None, Some(1)), Some(1));
    assert_eq!(time_to_restore::<u8>(None, None), None);
}
