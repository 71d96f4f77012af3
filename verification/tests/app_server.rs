use codex_session_visibility::app_server::{
    answer_to, app_server_candidates, build_app_server_command, bundled_app_server_path,
    configured_app_server_launch_spec, derive_app_server_executable_for_platform,
    derive_app_server_executable_from_launch_path, launch_error, macos_app_root_from_path,
    official_app_server_launch_spec, rebuild_thread_metadata, send_request, wait_for_response,
    AppServerLaunchPlatform, AppServerLaunchSpec, RebuildAction, RebuildEvent, RebuildState,
    Response,
};
use codex_session_visibility::json::{Json, JsonNumber};

fn derive(path: &str, platform: AppServerLaunchPlatform) -> Option<String> {
    derive_app_server_executable_for_platform(path, platform, false)
}

#[test]
fn windows_app_launch_path_derives_bundled_app_server_binary() {
    let launch_path = r"C:\Program Files\WindowsApps\OpenAI.Codex_1.0.0.0_x64__demo\app\Codex.exe";

    let executable = derive(launch_path, AppServerLaunchPlatform::Windows)
        .expect("derive app-server executable");

    assert_eq!(
        executable,
        r"C:\Program Files\WindowsApps\OpenAI.Codex_1.0.0.0_x64__demo\app\resources\codex.exe"
    );
}

#[test]
fn windows_cli_launch_path_uses_cli_binary_directly() {
    let launch_path = r"C:\Users\demo\AppData\Local\OpenAI\Codex\bin\codex.exe";

    let executable = derive(launch_path, AppServerLaunchPlatform::Windows)
        .expect("derive CLI app-server executable");

    assert_eq!(executable, launch_path);
}

#[test]
fn windows_unknown_launch_path_without_bundled_binary_is_ignored() {
    let launch_path = r"C:\Tools\CodexLauncher\launcher.exe";

    let executable = derive(launch_path, AppServerLaunchPlatform::Windows);

    assert!(executable.is_none());
}

#[test]
fn macos_app_launch_path_derives_resources_binary() {
    let launch_path = "/Applications/Codex.app/Contents/MacOS/Codex";

    let executable = derive(launch_path, AppServerLaunchPlatform::Macos)
        .expect("derive macOS app-server executable");

    assert_eq!(executable, "/Applications/Codex.app/Contents/Resources/codex");
}

#[test]
fn macos_resources_binary_uses_launch_path_directly() {
    let launch_path = "/Applications/Codex.app/Contents/Resources/codex";

    let executable = derive(launch_path, AppServerLaunchPlatform::Macos)
        .expect("derive macOS resource executable");

    assert_eq!(executable, launch_path);
}

#[test]
fn macos_cli_launch_path_uses_cli_binary_directly() {
    let launch_path = "/usr/local/bin/codex";

    let executable = derive(launch_path, AppServerLaunchPlatform::Macos)
        .expect("derive macOS CLI executable");

    assert_eq!(executable, launch_path);
}

#[test]
fn other_platform_launch_path_uses_binary_directly() {
    let launch_path = "/opt/codex/bin/codex";

    let executable = derive(launch_path, AppServerLaunchPlatform::Other)
        .expect("derive other platform executable");

    assert_eq!(executable, launch_path);
}

#[test]
fn app_server_command_wraps_cli_runtime_with_node_when_required() {
    let launch_spec = AppServerLaunchSpec {
        executable: r"C:\Tools\codex\codex.js".to_string(),
        node_path: Some(r"C:\Tools\node\node.exe".to_string()),
    };
    let codex_home = r"C:\Users\demo\.codex";

    let command = build_app_server_command(&launch_spec, codex_home);

    assert_eq!(command.program, r"C:\Tools\node\node.exe");
    assert_eq!(command.args.first().map(String::as_str), Some(r"C:\Tools\codex\codex.js"));
    assert!(command
        .args
        .windows(3)
        .any(|window| window == ["app-server", "--listen", "stdio://"]));
    assert_eq!(
        command
            .envs
            .iter()
            .find(|(key, _)| key == "CODEX_HOME")
            .map(|(_, value)| value.as_str()),
        Some(codex_home)
    );
}

#[test]
fn command_without_node_runs_the_executable_itself() {
    let spec = AppServerLaunchSpec::direct("/opt/codex".to_string());
    let command = build_app_server_command(&spec, "/home/demo/.codex");
    assert_eq!(command.program, "/opt/codex");
    assert_eq!(command.args, vec!["app-server", "--listen", "stdio://"]);
    assert_eq!(
        command.envs,
        vec![("CODEX_HOME".to_string(), "/home/demo/.codex".to_string())]
    );
}

#[test]
fn bundled_binary_is_preferred_where_it_is_there() {
    let launch_path = r"C:\Tools\CodexLauncher\launcher.exe";
    let bundled = r"C:\Tools\CodexLauncher\resources\codex.exe".to_string();
    assert_eq!(bundled_app_server_path(launch_path), Some(bundled.clone()));
    assert_eq!(
        derive_app_server_executable_for_platform(
            launch_path,
            AppServerLaunchPlatform::Windows,
            true
        ),
        Some(bundled)
    );
    assert_eq!(
        derive_app_server_executable_from_launch_path(r"D:\codex\CODEX.EXE", "windows", false),
        Some(r"D:\codex\CODEX.EXE".to_string())
    );
}

#[test]
fn paths_without_a_parent_have_no_app_server() {
    assert_eq!(derive("/", AppServerLaunchPlatform::Macos), None);
    assert_eq!(derive("", AppServerLaunchPlatform::Macos), None);
    assert_eq!(derive(r"C:\", AppServerLaunchPlatform::Windows), None);
    assert_eq!(bundled_app_server_path(r"\\server\share"), None);
    assert_eq!(
        derive("/Applications/Codex.app/Contents/RESOURCES/codex/", AppServerLaunchPlatform::Macos),
        Some("/Applications/Codex.app/Contents/RESOURCES/codex/".to_string())
    );
}

#[test]
fn application_bundle_ends_at_the_first_app() {
    assert_eq!(
        macos_app_root_from_path("/Applications/Codex.app/Helper.app/x"),
        Some("/Applications/Codex.app".to_string())
    );
    assert_eq!(macos_app_root_from_path("/usr/bin/codex"), None);
}

#[test]
fn platforms_are_told_by_the_name_of_the_system() {
    assert_eq!(AppServerLaunchPlatform::current("windows"), AppServerLaunchPlatform::Windows);
    assert_eq!(AppServerLaunchPlatform::current("macos"), AppServerLaunchPlatform::Macos);
    assert_eq!(AppServerLaunchPlatform::current("linux"), AppServerLaunchPlatform::Other);
}

#[test]
fn first_candidate_that_exists_is_taken() {
    let configured =
        configured_app_server_launch_spec(Some("/opt/codex/bin/codex".to_string()), "linux", false);
    let cli = AppServerLaunchSpec {
        executable: "/usr/lib/codex.js".to_string(),
        node_path: Some("/usr/bin/node".to_string()),
    };
    let candidates = app_server_candidates(
        Some("/custom/codex".to_string()),
        configured,
        Some(cli),
        AppServerLaunchPlatform::Macos,
    );
    let names: Vec<&str> = candidates.iter().map(|spec| spec.executable.as_str()).collect();
    assert_eq!(
        names,
        vec![
            "/custom/codex",
            "/opt/codex/bin/codex",
            "/usr/lib/codex.js",
            "/Applications/Codex.app/Contents/Resources/codex"
        ]
    );
    assert_eq!(
        official_app_server_launch_spec(&candidates, &vec![false, false, true, true]),
        Ok(2)
    );
    assert_eq!(
        official_app_server_launch_spec(&candidates, &vec![false; 4]),
        Err("未找到官方 Codex app-server 可执行文件: /custom/codex, /opt/codex/bin/codex, /usr/lib/codex.js, /Applications/Codex.app/Contents/Resources/codex".to_string())
    );
}

#[test]
fn empty_name_in_the_environment_is_no_candidate() {
    assert!(configured_app_server_launch_spec(None, "linux", false).is_none());
    let candidates =
        app_server_candidates(Some(String::new()), None, None, AppServerLaunchPlatform::Other);
    assert!(candidates.is_empty());
    assert_eq!(
        official_app_server_launch_spec(&candidates, &Vec::new()),
        Err("未找到官方 Codex app-server 可执行文件: ".to_string())
    );
}

#[test]
fn launch_error_names_both_paths() {
    assert_eq!(
        launch_error("/opt/codex", "/home/demo", "not found"),
        "启动官方 Codex app-server 失败 (/opt/codex / CODEX_HOME=/home/demo): not found"
    );
}

fn sent(action: RebuildAction) -> serde_json::Value {
    match action {
        RebuildAction::Send(line) => {
            assert!(line.ends_with('\n'));
            serde_json::from_str(&line).expect("parse request")
        }
        other => panic!("no request was sent: {:?}", other),
    }
}

#[test]
fn conversation_initializes_and_lists() {
    let (state, action) =
        rebuild_thread_metadata(RebuildState::Starting, RebuildEvent::Started, "1.2.3");
    assert_eq!(state, RebuildState::Initializing);
    let request = sent(action);
    let expected: serde_json::Value = serde_json::from_str(
        "{\"method\":\"initialize\",\"id\":1,\"params\":{\"clientInfo\":{\"name\":\"cockpit-tools\",\"version\":\"1.2.3\"},\"capabilities\":null}}",
    )
    .expect("expected request");
    assert_eq!(request, expected);

    let (state, action) = rebuild_thread_metadata(
        state,
        RebuildEvent::Line("{\"method\":\"notice\"}".to_string()),
        "1.2.3",
    );
    assert_eq!(state, RebuildState::Initializing);
    assert!(matches!(action, RebuildAction::Wait));

    let (state, action) = rebuild_thread_metadata(
        state,
        RebuildEvent::Line("{\"id\":1,\"result\":{}}".to_string()),
        "1.2.3",
    );
    assert_eq!(state, RebuildState::Listing);
    let request = sent(action);
    let expected: serde_json::Value = serde_json::from_str(
        "{\"method\":\"thread/list\",\"id\":2,\"params\":{\"cursor\":null,\"limit\":1,\"sortKey\":\"updated_at\",\"sortDirection\":\"desc\",\"modelProviders\":null,\"sourceKinds\":[],\"archived\":false}}",
    )
    .expect("expected request");
    assert_eq!(request, expected);

    let (state, action) = rebuild_thread_metadata(
        state,
        RebuildEvent::Line("{\"id\":2,\"result\":{\"data\":[]}}".to_string()),
        "1.2.3",
    );
    assert_eq!(state, RebuildState::Finished);
    assert!(matches!(action, RebuildAction::Finish(Ok(()))));
}

#[test]
fn conversation_ends_with_the_first_error() {
    let (state, action) = rebuild_thread_metadata(
        RebuildState::Listing,
        RebuildEvent::Line("{\"id\":2,\"error\":{\"code\":-1}}".to_string()),
        "1",
    );
    assert_eq!(state, RebuildState::Finished);
    match action {
        RebuildAction::Finish(Err(text)) => {
            assert_eq!(text, "官方 app-server 返回错误 (id=2): {\"code\":-1}")
        }
        other => panic!("unexpected action: {:?}", other),
    }

    let (_, action) =
        rebuild_thread_metadata(RebuildState::Initializing, RebuildEvent::TimedOut, "1");
    match action {
        RebuildAction::Finish(Err(text)) => {
            assert_eq!(text, "等待官方 app-server 响应超时 (id=1)")
        }
        other => panic!("unexpected action: {:?}", other),
    }

    let (_, action) = rebuild_thread_metadata(
        RebuildState::Initializing,
        RebuildEvent::WriteFailed("broken pipe".to_string()),
        "1",
    );
    match action {
        RebuildAction::Finish(Err(text)) => {
            assert_eq!(text, "写入官方 app-server 请求失败: broken pipe")
        }
        other => panic!("unexpected action: {:?}", other),
    }
}

#[test]
fn responses_are_matched_by_their_id() {
    assert!(matches!(wait_for_response("not json", 1), Response::Unrelated));
    assert!(matches!(wait_for_response("{\"id\":2,\"result\":1}", 1), Response::Unrelated));
    assert!(matches!(wait_for_response("{\"id\":\"1\",\"result\":1}", 1), Response::Unrelated));
    assert!(matches!(wait_for_response("{\"id\":1,\"result\":null}", 1), Response::Accepted));
    match wait_for_response("{\"id\":-12}", -12) {
        Response::Refused(text) => {
            assert_eq!(text, "官方 app-server 响应缺少 result (id=-12): {\"id\":-12}")
        }
        _ => panic!("an answer without a result is a refusal"),
    }
    match wait_for_response("{\"id\":1}", 1) {
        Response::Refused(text) => {
            assert_eq!(text, "官方 app-server 响应缺少 result (id=1): {\"id\":1}")
        }
        other => panic!("unexpected response: {:?}", other),
    }
    match answer_to(
        &Json::Object(vec![
            (
                "id".to_string(),
                Json::Number(JsonNumber { integer: Some(7), literal: "7".to_string() }),
            ),
            ("error".to_string(), Json::Null),
        ]),
        7,
    ) {
        Response::Refused(text) => assert_eq!(text, "官方 app-server 返回错误 (id=7): null"),
        other => panic!("unexpected response: {:?}", other),
    }
}

#[test]
fn request_with_a_number_that_is_none_is_refused() {
    let request =
        Json::Number(JsonNumber { integer: Some(1), literal: "one".to_string() });
    assert_eq!(
        send_request(&request),
        Err("序列化官方 app-server 请求失败: invalid number".to_string())
    );
    assert_eq!(send_request(&Json::Null), Ok("null\n".to_string()));
}
