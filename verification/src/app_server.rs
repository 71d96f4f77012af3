//! The official app server: which executable it is, how it is started, and what is said to it so
//! that it reads the threads again.

use vstd::prelude::*;

use crate::json::{
    compact_json, member_of, number_json, numbers_canonical, parse_json, parsed_json, render_json,
    set_entry, Json, JsonTree,
};
use crate::os_path::{
    below, is_letter, name_below_a_directory_splits_off, path_below, split_of, split_os_path,
};
use crate::text::{
    chars_of, decimal, finishes_with, holds_part, join, joined, lowered, opt_view, same_text,
    signed_decimal, signed_decimal_text, stands_at, string_of, to_ascii_lowercase, views,
};

verus! {

/// A way to start the app server: an executable, run by a Node.js where one is given.
#[derive(Debug)]
pub struct AppServerLaunchSpec {
    pub executable: String,
    pub node_path: Option<String>,
}

impl AppServerLaunchSpec {
    /// The executable, run by itself.
    pub fn direct(executable: String) -> (spec: AppServerLaunchSpec)
        ensures
            spec.executable@ == executable@,
            spec.node_path is None,
    {
        AppServerLaunchSpec { executable, node_path: None }
    }
}

/// The systems whose installations of the application differ.
#[derive(Debug, Clone, Copy, PartialEq, Eq, Structural)]
pub enum AppServerLaunchPlatform {
    Windows,
    Macos,
    Other,
}

/// The platform that an operating system's name stands for.
pub open spec fn platform_of(os: Seq<char>) -> AppServerLaunchPlatform {
    if os == "windows"@ {
        AppServerLaunchPlatform::Windows
    } else if os == "macos"@ {
        AppServerLaunchPlatform::Macos
    } else {
        AppServerLaunchPlatform::Other
    }
}

impl AppServerLaunchPlatform {
    /// The platform of the operating system with the name `os`.
    pub fn current(os: &str) -> (platform: AppServerLaunchPlatform)
        ensures
            platform == platform_of(os@),
    {
        if same_text(os, "windows") {
            AppServerLaunchPlatform::Windows
        } else if same_text(os, "macos") {
            AppServerLaunchPlatform::Macos
        } else {
            AppServerLaunchPlatform::Other
        }
    }
}

/// The text of a path of one of the two styles up to and including its first `.app`.
pub open spec fn app_root(path: Seq<char>) -> Option<Seq<char>> {
    if holds_part(path, ".app"@) {
        Some(path.take(first_app(path, 0) as int + 4))
    } else {
        None
    }
}

/// The position of the first `.app` in `path` from `from` on.
pub open spec fn first_app(path: Seq<char>, from: nat) -> nat
    decreases path.len() - from,
{
    if from >= path.len() || stands_at(path, from as int, ".app"@) {
        from
    } else {
        first_app(path, from + 1)
    }
}

/// The path of the application bundle that `path` is in, on macOS.
pub fn macos_app_root_from_path(path: &str) -> (root: Option<String>)
    ensures
        opt_view(root) == app_root(path@),
{
    let chars = chars_of(path);
    proof {
        reveal_strlit(".app");
        assert(".app"@ =~= seq!['.', 'a', 'p', 'p']);
    }
    let mut i: usize = 0;
    while i < chars.len()
        invariant
            i <= chars@.len(),
            chars@ == path@,
            ".app"@ == seq!['.', 'a', 'p', 'p'],
            first_app(path@, 0) == first_app(path@, i as nat),
            forall|j: int| 0 <= j < i ==> !stands_at(path@, j, ".app"@),
        decreases chars@.len() - i,
    {
        let found = chars.len() - i >= 4 && chars[i] == '.' && chars[i + 1] == 'a' && chars[i + 2]
            == 'p' && chars[i + 3] == 'p';
        assert(found == stands_at(path@, i as int, ".app"@)) by {
            if i + 4 <= path@.len() {
                let part = path@.subrange(i as int, i + 4);
                assert(part[0] == path@[i as int] && part[1] == path@[i + 1] && part[2] == path@[i
                    + 2] && part[3] == path@[i + 3]);
                if found {
                    assert(part =~= ".app"@);
                }
            }
        }
        if found {
            assert(holds_part(path@, ".app"@));
            let root = string_of(&chars, 0, i + 4);
            assert(root@ =~= path@.take(i + 4));
            return Some(root);
        }
        i += 1;
    }
    assert(!holds_part(path@, ".app"@)) by {
        if holds_part(path@, ".app"@) {
            let at = choose|at: int| stands_at(path@, at, ".app"@);
            assert(!stands_at(path@, at, ".app"@));
        }
    }
    None
}

/// The executable that the application on Windows brings along, for an application at
/// `launch_path`.
pub open spec fn bundled_path(launch_path: Seq<char>) -> Option<Seq<char>> {
    match split_of(launch_path, true).parent {
        Some(parent) => Some(below(below(parent, "resources"@, true), "codex.exe"@, true)),
        None => None,
    }
}

/// The executable that the application on Windows brings along, for an application at
/// `launch_path`. Whether it is there decides what is started.
pub fn bundled_app_server_path(launch_path: &str) -> (bundled: Option<String>)
    ensures
        opt_view(bundled) == bundled_path(launch_path@),
{
    match split_os_path(launch_path, true).parent {
        Some(parent) => {
            let resources = path_below(parent.as_str(), "resources", true);
            Some(path_below(resources.as_str(), "codex.exe", true))
        },
        None => None,
    }
}

/// Whether two texts are equal but for the case of ASCII letters.
pub open spec fn same_letters(a: Seq<char>, b: Seq<char>) -> bool {
    lowered(a) == lowered(b)
}

fn has_same_letters(a: &str, b: &str) -> (same: bool)
    ensures
        same == same_letters(a@, b@),
{
    same_text(to_ascii_lowercase(a).as_str(), to_ascii_lowercase(b).as_str())
}

/// Whether `path` is that of an executable among the resources of an application bundle.
pub open spec fn is_resource_binary(path: Seq<char>) -> bool {
    &&& split_of(path, false).name == Some("codex"@)
    &&& split_of(path, false).parent matches Some(parent) && split_of(
        parent,
        false,
    ).name matches Some(name) && same_letters(name, "Resources"@)
}

/// The app server of an installation that is started by `launch_path`.
pub open spec fn app_server_of(
    launch_path: Seq<char>,
    platform: AppServerLaunchPlatform,
    bundled_exists: bool,
) -> Option<Seq<char>> {
    match platform {
        AppServerLaunchPlatform::Windows => match (
            bundled_path(launch_path),
            split_of(launch_path, true).name,
        ) {
            (Some(bundled), Some(name)) => if bundled_exists || name == "Codex.exe"@ {
                Some(bundled)
            } else if same_letters(name, "codex.exe"@) {
                Some(launch_path)
            } else {
                None
            },
            _ => None,
        },
        AppServerLaunchPlatform::Macos => if split_of(launch_path, false).parent is None {
            None
        } else if is_resource_binary(launch_path) {
            Some(launch_path)
        } else {
            match app_root(launch_path) {
                Some(root) => Some(
                    below(
                        below(below(root, "Contents"@, false), "Resources"@, false),
                        "codex"@,
                        false,
                    ),
                ),
                None => Some(launch_path),
            }
        },
        AppServerLaunchPlatform::Other => Some(launch_path),
    }
}

fn is_resource_path(path: &str) -> (yes: bool)
    ensures
        yes == is_resource_binary(path@),
{
    let split = split_os_path(path, false);
    let named = match &split.name {
        Some(name) => same_text(name.as_str(), "codex"),
        None => false,
    };
    let among_resources = match &split.parent {
        Some(parent) => match split_os_path(parent.as_str(), false).name {
            Some(name) => has_same_letters(name.as_str(), "Resources"),
            None => false,
        },
        None => false,
    };
    named && among_resources
}

/// The app server of an installation that is started by `launch_path`: the executable that an
/// application brings along, or a command-line tool itself. `bundled_exists` says whether the file
/// of `bundled_app_server_path` is there.
pub fn derive_app_server_executable_for_platform(
    launch_path: &str,
    platform: AppServerLaunchPlatform,
    bundled_exists: bool,
) -> (executable: Option<String>)
    ensures
        opt_view(executable) == app_server_of(launch_path@, platform, bundled_exists),
{
    match platform {
        AppServerLaunchPlatform::Windows => {
            let bundled = match bundled_app_server_path(launch_path) {
                Some(bundled) => bundled,
                None => return None,
            };
            let name = match split_os_path(launch_path, true).name {
                Some(name) => name,
                None => return None,
            };
            if bundled_exists || same_text(name.as_str(), "Codex.exe") {
                return Some(bundled);
            }
            if has_same_letters(name.as_str(), "codex.exe") {
                return Some(launch_path.to_owned());
            }
            None
        },
        AppServerLaunchPlatform::Macos => {
            if split_os_path(launch_path, false).parent.is_none() {
                return None;
            }
            if is_resource_path(launch_path) {
                return Some(launch_path.to_owned());
            }
            if let Some(root) = macos_app_root_from_path(launch_path) {
                let contents = path_below(root.as_str(), "Contents", false);
                let resources = path_below(contents.as_str(), "Resources", false);
                return Some(path_below(resources.as_str(), "codex", false));
            }
            Some(launch_path.to_owned())
        },
        AppServerLaunchPlatform::Other => Some(launch_path.to_owned()),
    }
}

/// The app server of an installation on the operating system with the name `os`.
pub fn derive_app_server_executable_from_launch_path(
    launch_path: &str,
    os: &str,
    bundled_exists: bool,
) -> (executable: Option<String>)
    ensures
        opt_view(executable) == app_server_of(launch_path@, platform_of(os@), bundled_exists),
{
    derive_app_server_executable_for_platform(
        launch_path,
        AppServerLaunchPlatform::current(os),
        bundled_exists,
    )
}

/// The way to start the app server of the installation that is configured to be started by
/// `launch_path`.
pub fn configured_app_server_launch_spec(
    launch_path: Option<String>,
    os: &str,
    bundled_exists: bool,
) -> (spec: Option<AppServerLaunchSpec>)
    ensures
        match launch_path {
            Some(path) => match app_server_of(path@, platform_of(os@), bundled_exists) {
                Some(executable) => spec matches Some(spec) && spec.executable@ == executable
                    && spec.node_path is None,
                None => spec is None,
            },
            None => spec is None,
        },
{
    match launch_path {
        Some(path) => match derive_app_server_executable_from_launch_path(
            path.as_str(),
            os,
            bundled_exists,
        ) {
            Some(executable) => Some(AppServerLaunchSpec::direct(executable)),
            None => None,
        },
        None => None,
    }
}

/// What an `AppServerLaunchSpec` says.
pub open spec fn spec_text(spec: AppServerLaunchSpec) -> (Seq<char>, Option<Seq<char>>) {
    (spec.executable@, opt_view(spec.node_path))
}

/// What each of the ways says.
pub open spec fn spec_texts(specs: Seq<AppServerLaunchSpec>) -> Seq<
    (Seq<char>, Option<Seq<char>>),
> {
    specs.map_values(|spec: AppServerLaunchSpec| spec_text(spec))
}

/// A way alone where there is one, else nothing.
pub open spec fn candidate(spec: Option<AppServerLaunchSpec>) -> Seq<
    (Seq<char>, Option<Seq<char>>),
> {
    match spec {
        Some(spec) => seq![spec_text(spec)],
        None => seq![],
    }
}

/// The ways to start the app server, the preferred first: the executable that the environment
/// names, the configured installation, the command-line tool, and on macOS the place where the
/// application is usually installed.
pub open spec fn candidates(
    named: Option<Seq<char>>,
    configured: Option<AppServerLaunchSpec>,
    cli_runtime: Option<AppServerLaunchSpec>,
    platform: AppServerLaunchPlatform,
) -> Seq<(Seq<char>, Option<Seq<char>>)> {
    (match named {
        Some(path) => if path.len() > 0 {
            seq![(path, None)]
        } else {
            seq![]
        },
        None => seq![],
    }) + candidate(configured) + candidate(cli_runtime) + (if platform
        == AppServerLaunchPlatform::Macos {
        seq![("/Applications/Codex.app/Contents/Resources/codex"@, None)]
    } else {
        seq![]
    })
}

/// The ways to start the app server, the preferred first.
pub fn app_server_candidates(
    named: Option<String>,
    configured: Option<AppServerLaunchSpec>,
    cli_runtime: Option<AppServerLaunchSpec>,
    platform: AppServerLaunchPlatform,
) -> (specs: Vec<AppServerLaunchSpec>)
    ensures
        spec_texts(specs@) == candidates(opt_view(named), configured, cli_runtime, platform),
{
    let ghost wanted = candidates(opt_view(named), configured, cli_runtime, platform);
    let mut specs: Vec<AppServerLaunchSpec> = Vec::new();
    if let Some(path) = named {
        if !path.as_str().is_empty() {
            specs.push(AppServerLaunchSpec::direct(path));
        }
    }
    if let Some(spec) = configured {
        specs.push(spec);
    }
    if let Some(spec) = cli_runtime {
        specs.push(spec);
    }
    if platform == AppServerLaunchPlatform::Macos {
        specs.push(
            AppServerLaunchSpec::direct(
                "/Applications/Codex.app/Contents/Resources/codex".to_owned(),
            ),
        );
    }
    assert(spec_texts(specs@) =~= wanted);
    specs
}

/// The executables of the ways.
pub open spec fn executables(specs: Seq<AppServerLaunchSpec>) -> Seq<Seq<char>> {
    specs.map_values(|spec: AppServerLaunchSpec| spec.executable@)
}

/// The position of the first that is there, from `from` on.
pub open spec fn first_there(exist: Seq<bool>, from: nat) -> Option<nat>
    decreases exist.len() - from,
{
    if from >= exist.len() {
        None
    } else if exist[from as int] {
        Some(from)
    } else {
        first_there(exist, from + 1)
    }
}

/// The first that is there is one that is there, and none before it is; there is none only where
/// nothing is there.
pub proof fn first_there_has_none_before_it(exist: Seq<bool>, from: nat, i: int)
    ensures
        match first_there(exist, from) {
            Some(at) => from <= at < exist.len() && exist[at as int] && (from <= i < at ==> !exist[i]),
            None => from <= i < exist.len() ==> !exist[i],
        },
    decreases exist.len() - from,
{
    if from < exist.len() && !exist[from as int] {
        first_there_has_none_before_it(exist, from + 1, i);
    }
}

/// The first way whose executable is there, by its position: `exist` says of each whether it is.
/// Where none is, the error lists them all.
pub fn official_app_server_launch_spec(
    specs: &Vec<AppServerLaunchSpec>,
    exist: &Vec<bool>,
) -> (found: Result<usize, String>)
    requires
        specs@.len() == exist@.len(),
    ensures
        match first_there(exist@, 0) {
            Some(at) => found matches Ok(found) && found == at,
            None => found is Err,
        },
        match found {
            Ok(at) => {
                &&& at < specs@.len()
                &&& exist@[at as int]
                &&& forall|i: int| 0 <= i < at ==> !exist@[i]
            },
            Err(text) => {
                &&& forall|i: int| 0 <= i < exist@.len() ==> !exist@[i]
                &&& text@ == "未找到官方 Codex app-server 可执行文件: "@ + joined(
                    executables(specs@),
                    ", "@,
                )
            },
        },
{
    let mut i: usize = 0;
    while i < specs.len()
        invariant
            i <= specs@.len() == exist@.len(),
            first_there(exist@, 0) == first_there(exist@, i as nat),
            forall|j: int| 0 <= j < i ==> !exist@[j],
        decreases specs@.len() - i,
    {
        if exist[i] {
            return Ok(i);
        }
        i += 1;
    }
    let mut paths: Vec<String> = Vec::new();
    let mut k: usize = 0;
    while k < specs.len()
        invariant
            k <= specs@.len(),
            paths@.len() == k,
            forall|j: int| 0 <= j < k ==> (#[trigger] paths@[j])@ == specs@[j].executable@,
        decreases specs@.len() - k,
    {
        paths.push(specs[k].executable.clone());
        k += 1;
    }
    assert(views(paths@) =~= executables(specs@));
    Err(
        "未找到官方 Codex app-server 可执行文件: ".to_owned().concat(join(&paths, ", ").as_str()),
    )
}

/// A command: its program, its arguments and what it gets in its environment.
#[derive(Debug)]
pub struct AppServerCommand {
    pub program: String,
    pub args: Vec<String>,
    pub envs: Vec<(String, String)>,
}

/// The command that starts the app server on the data directory `codex_home`, so that it listens on
/// its standard input.
pub fn build_app_server_command(spec: &AppServerLaunchSpec, codex_home: &str) -> (command:
    AppServerCommand)
    ensures
        ({
            let flags = seq!["app-server"@, "--listen"@, "stdio://"@];
            match spec.node_path {
                Some(node) => command.program@ == node@ && views(command.args@)
                    == seq![spec.executable@] + flags,
                None => command.program@ == spec.executable@ && views(command.args@) == flags,
            }
        }),
        command.envs@.len() == 1,
        command.envs@[0].0@ == "CODEX_HOME"@,
        command.envs@[0].1@ == codex_home@,
{
    let mut args: Vec<String> = Vec::new();
    let program = match &spec.node_path {
        Some(node) => {
            args.push(spec.executable.clone());
            node.clone()
        },
        None => spec.executable.clone(),
    };
    args.push("app-server".to_owned());
    args.push("--listen".to_owned());
    args.push("stdio://".to_owned());
    proof {
        let flags = seq!["app-server"@, "--listen"@, "stdio://"@];
        if spec.node_path is Some {
            assert(views(args@) =~= seq![spec.executable@] + flags);
        } else {
            assert(views(args@) =~= flags);
        }
    }
    let mut envs: Vec<(String, String)> = Vec::new();
    envs.push(("CODEX_HOME".to_owned(), codex_home.to_owned()));
    AppServerCommand { program, args, envs }
}

/// Says that the app server could not be started.
pub fn launch_error(executable: &str, codex_home: &str, message: &str) -> (text: String)
    ensures
        text@ == "启动官方 Codex app-server 失败 ("@ + executable@ + " / CODEX_HOME="@ + codex_home@
            + "): "@ + message@,
{
    "启动官方 Codex app-server 失败 (".to_owned().concat(executable).concat(
        " / CODEX_HOME=",
    ).concat(codex_home).concat("): ").concat(message)
}

/// The request that opens a conversation with the app server.
pub open spec fn initialize_request(client_version: Seq<char>) -> JsonTree {
    JsonTree::Object(
        Map::empty().insert("method"@, JsonTree::Text("initialize"@)).insert(
            "id"@,
            JsonTree::Number(Some(1), decimal(1)),
        ).insert(
            "params"@,
            JsonTree::Object(
                Map::empty().insert(
                    "clientInfo"@,
                    JsonTree::Object(
                        Map::empty().insert("name"@, JsonTree::Text("cockpit-tools"@)).insert(
                            "version"@,
                            JsonTree::Text(client_version),
                        ),
                    ),
                ).insert("capabilities"@, JsonTree::Null),
            ),
        ),
    )
}

/// The request for the most recent thread, which makes the app server read all threads.
pub open spec fn thread_list_request() -> JsonTree {
    JsonTree::Object(
        Map::empty().insert("method"@, JsonTree::Text("thread/list"@)).insert(
            "id"@,
            JsonTree::Number(Some(2), decimal(2)),
        ).insert(
            "params"@,
            JsonTree::Object(
                Map::empty().insert("cursor"@, JsonTree::Null).insert(
                    "limit"@,
                    JsonTree::Number(Some(1), decimal(1)),
                ).insert("sortKey"@, JsonTree::Text("updated_at"@)).insert(
                    "sortDirection"@,
                    JsonTree::Text("desc"@),
                ).insert("modelProviders"@, JsonTree::Null).insert(
                    "sourceKinds"@,
                    JsonTree::List(seq![]),
                ).insert("archived"@, JsonTree::Bool(false)),
            ),
        ),
    )
}

/// The line that carries a request.
pub open spec fn request_line(request: JsonTree) -> Seq<char> {
    compact_json(request) + "\n"@
}

/// The line that carries a request. It fails only where a number is not written as JSON writes it.
pub fn send_request(request: &Json) -> (line: Result<String, String>)
    ensures
        match line {
            Ok(line) => numbers_canonical(request@) && line@ == request_line(request@),
            Err(error) => !numbers_canonical(request@) && error@
                == "序列化官方 app-server 请求失败: "@ + "invalid number"@,
        },
{
    match render_json(request) {
        Ok(text) => Ok(text.concat("\n")),
        Err(error) => Err("序列化官方 app-server 请求失败: ".to_owned().concat(error.as_str())),
    }
}

fn text_json(text: &str) -> (json: Json)
    ensures
        json@ == JsonTree::Text(text@),
{
    Json::Text(text.to_owned())
}

fn build_initialize_request(client_version: &str) -> (request: Json)
    ensures
        request@ == initialize_request(client_version@),
        numbers_canonical(request@),
{
    let mut info: Vec<(String, Json)> = Vec::new();
    set_entry(&mut info, "name".to_owned(), text_json("cockpit-tools"));
    set_entry(&mut info, "version".to_owned(), text_json(client_version));
    let info = Json::Object(info);
    proof {
        let members = info@->Object_0;
        assert forall|key: Seq<char>| #[trigger] members.contains_key(key) implies numbers_canonical(
            members[key],
        ) by {
            assert(members[key] is Text);
        }
    }
    let mut params: Vec<(String, Json)> = Vec::new();
    set_entry(&mut params, "clientInfo".to_owned(), info);
    set_entry(&mut params, "capabilities".to_owned(), Json::Null);
    let params = Json::Object(params);
    proof {
        let members = params@->Object_0;
        assert forall|key: Seq<char>| #[trigger] members.contains_key(key) implies numbers_canonical(
            members[key],
        ) by {
            assert(members[key] is Null || members[key] == info@);
        }
    }
    let id = number_json(1);
    let mut request: Vec<(String, Json)> = Vec::new();
    set_entry(&mut request, "method".to_owned(), text_json("initialize"));
    set_entry(&mut request, "id".to_owned(), id);
    set_entry(&mut request, "params".to_owned(), params);
    let request = Json::Object(request);
    proof {
        let members = request@->Object_0;
        assert forall|key: Seq<char>| #[trigger] members.contains_key(key) implies numbers_canonical(
            members[key],
        ) by {
            assert(members[key] is Text || members[key] == id@ || members[key] == params@);
        }
    }
    request
}

fn build_thread_list_request() -> (request: Json)
    ensures
        request@ == thread_list_request(),
        numbers_canonical(request@),
{
    let limit = number_json(1);
    let mut params: Vec<(String, Json)> = Vec::new();
    set_entry(&mut params, "cursor".to_owned(), Json::Null);
    set_entry(&mut params, "limit".to_owned(), limit);
    set_entry(&mut params, "sortKey".to_owned(), text_json("updated_at"));
    set_entry(&mut params, "sortDirection".to_owned(), text_json("desc"));
    set_entry(&mut params, "modelProviders".to_owned(), Json::Null);
    let kinds = Json::List(Vec::new());
    assert(kinds@ == JsonTree::List(seq![]));
    set_entry(&mut params, "sourceKinds".to_owned(), kinds);
    set_entry(&mut params, "archived".to_owned(), Json::Bool(false));
    let params = Json::Object(params);
    proof {
        let members = params@->Object_0;
        assert forall|key: Seq<char>| #[trigger] members.contains_key(key) implies numbers_canonical(
            members[key],
        ) by {
            assert(members[key] is Null || members[key] is Text || members[key] is Bool
                || members[key] == limit@ || members[key] == kinds@);
        }
    }
    let id = number_json(2);
    let mut request: Vec<(String, Json)> = Vec::new();
    set_entry(&mut request, "method".to_owned(), text_json("thread/list"));
    set_entry(&mut request, "id".to_owned(), id);
    set_entry(&mut request, "params".to_owned(), params);
    let request = Json::Object(request);
    proof {
        let members = request@->Object_0;
        assert forall|key: Seq<char>| #[trigger] members.contains_key(key) implies numbers_canonical(
            members[key],
        ) by {
            assert(members[key] is Text || members[key] == id@ || members[key] == params@);
        }
    }
    request
}

/// What a line from the app server means for a request.
#[derive(Debug)]
pub enum Response {
    /// It is no answer to the request.
    Unrelated,
    /// The request was carried out.
    Accepted,
    /// The request failed, for the reason given.
    Refused(String),
}

/// What a `Response` says.
pub enum ResponseText {
    Unrelated,
    Accepted,
    Refused(Seq<char>),
}

impl View for Response {
    type V = ResponseText;

    open spec fn view(&self) -> ResponseText {
        match *self {
            Response::Unrelated => ResponseText::Unrelated,
            Response::Accepted => ResponseText::Accepted,
            Response::Refused(text) => ResponseText::Refused(text@),
        }
    }
}

/// What a message means for the request `id`.
pub open spec fn message_means(message: JsonTree, id: i64) -> ResponseText {
    if member_of(message, "id"@) matches Some(JsonTree::Number(Some(number), _)) && number == id {
        match member_of(message, "error"@) {
            Some(error) => ResponseText::Refused(
                "官方 app-server 返回错误 (id="@ + signed_decimal(id as int) + "): "@ + compact_json(error),
            ),
            None => if member_of(message, "result"@) is Some {
                ResponseText::Accepted
            } else {
                ResponseText::Refused(
                    "官方 app-server 响应缺少 result (id="@ + signed_decimal(id as int) + "): "@
                        + compact_json(message),
                )
            },
        }
    } else {
        ResponseText::Unrelated
    }
}

/// What a line means for the request `id`. One that is no JSON means nothing.
pub open spec fn line_means(line: Seq<char>, id: i64) -> ResponseText {
    match parsed_json(line) {
        Some(message) => message_means(message, id),
        None => ResponseText::Unrelated,
    }
}

fn refusal(before: &str, id: i64, document: &Json) -> (text: String)
    requires
        numbers_canonical(document@),
    ensures
        text@ == before@ + signed_decimal(id as int) + "): "@ + compact_json(document@),
{
    let start = before.to_owned().concat(signed_decimal_text(id).as_str()).concat("): ");
    match render_json(document) {
        Ok(text) => start.concat(text.as_str()),
        Err(_) => start,
    }
}

/// What a message means for the request `request_id`.
pub fn answer_to(message: &Json, request_id: i64) -> (response: Response)
    requires
        numbers_canonical(message@),
    ensures
        response@ == message_means(message@, request_id),
{
    let related = match message.get("id") {
        Some(Json::Number(number)) => match number.integer {
            Some(integer) => integer == request_id,
            None => false,
        },
        _ => false,
    };
    if !related {
        return Response::Unrelated;
    }
    if let Some(error) = message.get("error") {
        proof {
            let members = message@->Object_0;
            assert(members.contains_key("error"@));
        }
        return Response::Refused(refusal("官方 app-server 返回错误 (id=", request_id, error));
    }
    if message.get("result").is_some() {
        return Response::Accepted;
    }
    Response::Refused(refusal("官方 app-server 响应缺少 result (id=", request_id, message))
}

/// What a line means for the request `request_id`.
pub fn wait_for_response(line: &str, request_id: i64) -> (response: Response)
    ensures
        response@ == line_means(line@, request_id),
{
    match parse_json(line) {
        Some(message) => answer_to(&message, request_id),
        None => Response::Unrelated,
    }
}

/// How far the conversation with the app server has come.
#[derive(Debug, Clone, Copy, PartialEq, Eq, Structural)]
pub enum RebuildState {
    Starting,
    /// The first request was sent, and its answer is awaited.
    Initializing,
    /// The second request was sent, and its answer is awaited.
    Listing,
    Finished,
}

/// What happened in the conversation with the app server.
#[derive(Debug)]
pub enum RebuildEvent {
    /// The app server is running.
    Started,
    /// It wrote a line.
    Line(String),
    /// It wrote nothing for too long, or ended.
    TimedOut,
    /// A request could not be written, for the reason given.
    WriteFailed(String),
}

/// What is to be done in the conversation with the app server.
#[derive(Debug)]
pub enum RebuildAction {
    /// Write the line, then wait.
    Send(String),
    /// Wait for the next line.
    Wait,
    /// End the app server; this is the result.
    Finish(Result<(), String>),
}

/// What a `RebuildAction` says.
pub enum RebuildActionText {
    Send(Seq<char>),
    Wait,
    Finish(Result<(), Seq<char>>),
}

impl View for RebuildAction {
    type V = RebuildActionText;

    open spec fn view(&self) -> RebuildActionText {
        match *self {
            RebuildAction::Send(line) => RebuildActionText::Send(line@),
            RebuildAction::Wait => RebuildActionText::Wait,
            RebuildAction::Finish(Ok(())) => RebuildActionText::Finish(Ok(())),
            RebuildAction::Finish(Err(text)) => RebuildActionText::Finish(Err(text@)),
        }
    }
}

/// What is said of a request without an answer.
pub open spec fn timeout_text(id: i64) -> Seq<char> {
    "等待官方 app-server 响应超时 (id="@ + signed_decimal(id as int) + ")"@
}

/// What an event leads to while the answer to the request `id` is awaited: `next` where it was
/// carried out.
pub open spec fn awaited(
    state: RebuildState,
    event: RebuildEvent,
    id: i64,
    next: (RebuildState, RebuildActionText),
) -> (RebuildState, RebuildActionText) {
    match event {
        RebuildEvent::Started => (state, RebuildActionText::Wait),
        RebuildEvent::Line(line) => match line_means(line@, id) {
            ResponseText::Unrelated => (state, RebuildActionText::Wait),
            ResponseText::Accepted => next,
            ResponseText::Refused(text) => (
                RebuildState::Finished,
                RebuildActionText::Finish(Err(text)),
            ),
        },
        RebuildEvent::TimedOut => (
            RebuildState::Finished,
            RebuildActionText::Finish(Err(timeout_text(id))),
        ),
        RebuildEvent::WriteFailed(message) => (
            RebuildState::Finished,
            RebuildActionText::Finish(Err("写入官方 app-server 请求失败: "@ + message@)),
        ),
    }
}

/// What an event leads to in the conversation with the app server.
pub open spec fn rebuild_step(
    state: RebuildState,
    event: RebuildEvent,
    client_version: Seq<char>,
) -> (RebuildState, RebuildActionText) {
    match state {
        RebuildState::Starting => if event is Started {
            (
                RebuildState::Initializing,
                RebuildActionText::Send(request_line(initialize_request(client_version))),
            )
        } else {
            (state, RebuildActionText::Wait)
        },
        RebuildState::Initializing => awaited(
            state,
            event,
            1,
            (
                RebuildState::Listing,
                RebuildActionText::Send(request_line(thread_list_request())),
            ),
        ),
        RebuildState::Listing => awaited(
            state,
            event,
            2,
            (RebuildState::Finished, RebuildActionText::Finish(Ok(()))),
        ),
        RebuildState::Finished => (state, RebuildActionText::Wait),
    }
}

fn timeout_error(id: i64) -> (text: String)
    ensures
        text@ == timeout_text(id),
{
    "等待官方 app-server 响应超时 (id=".to_owned().concat(signed_decimal_text(id).as_str()).concat(
        ")",
    )
}

fn send_or_finish(state: RebuildState, request: Json) -> (step: (RebuildState, RebuildAction))
    requires
        numbers_canonical(request@),
    ensures
        step.0 == state,
        step.1@ == RebuildActionText::Send(request_line(request@)),
{
    match send_request(&request) {
        Ok(line) => (state, RebuildAction::Send(line)),
        Err(error) => (RebuildState::Finished, RebuildAction::Finish(Err(error))),
    }
}

/// The conversation with the app server that makes it read the threads again: what an event leads
/// to in it. The app server is initialized, then asked for the most recent thread.
pub fn rebuild_thread_metadata(
    state: RebuildState,
    event: RebuildEvent,
    client_version: &str,
) -> (step: (RebuildState, RebuildAction))
    ensures
        (step.0, step.1@) == rebuild_step(state, event, client_version@),
{
    let id: i64 = match state {
        RebuildState::Starting => {
            return match event {
                RebuildEvent::Started => send_or_finish(
                    RebuildState::Initializing,
                    build_initialize_request(client_version),
                ),
                _ => (state, RebuildAction::Wait),
            };
        },
        RebuildState::Initializing => 1,
        RebuildState::Listing => 2,
        RebuildState::Finished => return (state, RebuildAction::Wait),
    };
    match event {
        RebuildEvent::Started => (state, RebuildAction::Wait),
        RebuildEvent::Line(line) => match wait_for_response(line.as_str(), id) {
            Response::Unrelated => (state, RebuildAction::Wait),
            Response::Accepted => if id == 1 {
                send_or_finish(RebuildState::Listing, build_thread_list_request())
            } else {
                (RebuildState::Finished, RebuildAction::Finish(Ok(())))
            },
            Response::Refused(text) => (RebuildState::Finished, RebuildAction::Finish(Err(text))),
        },
        RebuildEvent::TimedOut => (
            RebuildState::Finished,
            RebuildAction::Finish(Err(timeout_error(id))),
        ),
        RebuildEvent::WriteFailed(message) => (
            RebuildState::Finished,
            RebuildAction::Finish(
                Err("写入官方 app-server 请求失败: ".to_owned().concat(message.as_str())),
            ),
        ),
    }
}

/// The rebuild succeeds only when the app server has carried out both requests: it is told to list
/// threads only after it has accepted to be initialized, and success needs an accepted listing.
pub proof fn rebuild_succeeds_only_after_both_answers(
    state: RebuildState,
    event: RebuildEvent,
    client_version: Seq<char>,
)
    ensures
        ({
            let (next, action) = rebuild_step(state, event, client_version);
            &&& action == RebuildActionText::Finish(Ok::<(), Seq<char>>(())) ==> state
                == RebuildState::Listing && (event matches RebuildEvent::Line(line) && line_means(
                line@,
                2,
            ) == ResponseText::Accepted)
            &&& next == RebuildState::Listing && state != RebuildState::Listing ==> state
                == RebuildState::Initializing && (event matches RebuildEvent::Line(line)
                && line_means(line@, 1) == ResponseText::Accepted)
            &&& action is Finish <==> next == RebuildState::Finished && state
                != RebuildState::Finished
        }),
{
}

/// However far the conversation has come after its start, silence ends it with an error.
pub proof fn silence_ends_the_rebuild(state: RebuildState, client_version: Seq<char>)
    requires
        state == RebuildState::Initializing || state == RebuildState::Listing,
    ensures
        rebuild_step(state, RebuildEvent::TimedOut, client_version).1 matches RebuildActionText::Finish(
            Err(_),
        ),
{
}

proof fn lemma_directory_words()
    ensures
        "resources"@.len() == 9 && "resources"@.last() == 's',
        "codex.exe"@.len() == 9 && "codex.exe"@.last() == 'e',
        "Contents"@.len() == 8 && "Contents"@.last() == 's',
        "Resources"@.len() == 9 && "Resources"@.last() == 's',
        "codex"@.len() == 5 && "codex"@.last() == 'x',
        ".app"@.len() == 4 && ".app"@.last() == 'p',
        forall|i: int|
            0 <= i < "resources"@.len() ==> #[trigger] "resources"@[i] != '/' && "resources"@[i]
                != '\\',
        forall|i: int|
            0 <= i < "codex.exe"@.len() ==> #[trigger] "codex.exe"@[i] != '/' && "codex.exe"@[i]
                != '\\',
        forall|i: int|
            0 <= i < "Contents"@.len() ==> #[trigger] "Contents"@[i] != '/' && "Contents"@[i]
                != '\\',
        forall|i: int|
            0 <= i < "Resources"@.len() ==> #[trigger] "Resources"@[i] != '/' && "Resources"@[i]
                != '\\',
        forall|i: int|
            0 <= i < "codex"@.len() ==> #[trigger] "codex"@[i] != '/' && "codex"@[i] != '\\',
{
    reveal_strlit("resources");
    reveal_strlit("codex.exe");
    reveal_strlit("Contents");
    reveal_strlit("Resources");
    reveal_strlit("codex");
    reveal_strlit(".app");
}

/// On Windows the app server of an application in a directory of a drive is the executable among
/// the application's resources, where that is there or the application is `Codex.exe`. Else a
/// command-line tool, `codex.exe` in another case, is started itself, and there is none for any
/// other program.
pub proof fn windows_application_brings_its_app_server(
    directory: Seq<char>,
    name: Seq<char>,
    bundled_exists: bool,
)
    requires
        directory.len() > 3,
        is_letter(directory[0]),
        directory[1] == ':',
        directory[2] == '\\' || directory[2] == '/',
        directory.last() != '/',
        directory.last() != '\\',
        directory.last() != '.',
        name.len() > 0,
        forall|i: int| 0 <= i < name.len() ==> #[trigger] name[i] != '/' && name[i] != '\\',
        name != seq!['.'],
        name != seq!['.', '.'],
    ensures
        ({
            let path = directory + seq!['\\'] + name;
            let bundled = directory + seq!['\\'] + "resources"@ + seq!['\\'] + "codex.exe"@;
            let server = app_server_of(path, AppServerLaunchPlatform::Windows, bundled_exists);
            &&& bundled_path(path) == Some(bundled)
            &&& bundled_exists || name == "Codex.exe"@ ==> server == Some(bundled)
            &&& !bundled_exists && name != "Codex.exe"@ && lowered(name) == "codex.exe"@ ==> server
                == Some(path)
            &&& !bundled_exists && name != "Codex.exe"@ && lowered(name) != "codex.exe"@
                ==> server is None
        }),
{
    lemma_directory_words();
    name_below_a_directory_splits_off(directory, name, true);
    name_below_a_directory_splits_off(directory, "resources"@, true);
    let resources = directory + seq!['\\'] + "resources"@;
    assert(resources.last() == "resources"@.last());
    assert(resources[0] == directory[0] && resources[1] == directory[1] && resources[2]
        == directory[2]);
    name_below_a_directory_splits_off(resources, "codex.exe"@, true);
    reveal_strlit("codex.exe");
    assert(lowered("codex.exe"@) =~= "codex.exe"@);
}

proof fn lemma_first_app(path: Seq<char>, from: nat, at: nat)
    requires
        from <= at < path.len(),
        stands_at(path, at as int, ".app"@),
        forall|i: int| from <= i < at ==> !stands_at(path, i, ".app"@),
    ensures
        first_app(path, from) == at,
    decreases at - from,
{
    if from < at {
        assert(!stands_at(path, from as int, ".app"@));
        lemma_first_app(path, from + 1, at);
    }
}

/// The application bundle that a path is in ends with the first `.app` of the path.
pub proof fn bundle_ends_with_the_first_app(before: Seq<char>, after: Seq<char>)
    requires
        forall|i: int|
            0 <= i < before.len() ==> !stands_at(before + ".app"@ + after, i, ".app"@),
    ensures
        app_root(before + ".app"@ + after) == Some(before + ".app"@),
{
    let path = before + ".app"@ + after;
    let at = before.len();
    lemma_directory_words();
    assert(path.subrange(at as int, at as int + 4) =~= ".app"@);
    assert(stands_at(path, at as int, ".app"@));
    lemma_first_app(path, 0, at);
    assert(path.take(at as int + 4) =~= before + ".app"@);
}

/// On macOS the app server of a program in an application bundle is the executable among the
/// resources of the bundle, unless the program is such an executable itself.
pub proof fn macos_bundle_brings_its_app_server(
    before: Seq<char>,
    after: Seq<char>,
    bundled_exists: bool,
)
    requires
        forall|i: int|
            0 <= i < before.len() ==> !stands_at(before + ".app"@ + after, i, ".app"@),
        split_of(before + ".app"@ + after, false).parent is Some,
        !is_resource_binary(before + ".app"@ + after),
    ensures
        app_server_of(
            before + ".app"@ + after,
            AppServerLaunchPlatform::Macos,
            bundled_exists,
        ) == Some(
            before + ".app"@ + seq!['/'] + "Contents"@ + seq!['/'] + "Resources"@ + seq!['/']
                + "codex"@,
        ),
{
    bundle_ends_with_the_first_app(before, after);
    lemma_directory_words();
    let root = before + ".app"@;
    assert(root.last() == ".app"@.last());
    name_below_a_directory_splits_off(root, "Contents"@, false);
    let contents = root + seq!['/'] + "Contents"@;
    assert(contents.last() == "Contents"@.last());
    name_below_a_directory_splits_off(contents, "Resources"@, false);
    let resources = contents + seq!['/'] + "Resources"@;
    assert(resources.last() == "Resources"@.last());
    name_below_a_directory_splits_off(resources, "codex"@, false);
}

/// On macOS an executable `codex` in a directory `Resources`, in whatever case, is started itself,
/// and so is a program outside of any bundle; on other systems every program is.
pub proof fn command_line_tools_are_started_themselves(
    base: Seq<char>,
    directory: Seq<char>,
    path: Seq<char>,
    bundled_exists: bool,
)
    requires
        base.len() > 0,
        base.last() != '/',
        base.last() != '.',
        directory.len() > 0,
        lowered(directory) == lowered("Resources"@),
        forall|i: int| 0 <= i < directory.len() ==> #[trigger] directory[i] != '/',
        directory.last() != '.',
        directory != seq!['.', '.'],
    ensures
        ({
            let tool = base + seq!['/'] + directory + seq!['/'] + "codex"@;
            app_server_of(tool, AppServerLaunchPlatform::Macos, bundled_exists) == Some(tool)
        }),
        split_of(path, false).parent is Some && !holds_part(path, ".app"@) ==> app_server_of(
            path,
            AppServerLaunchPlatform::Macos,
            bundled_exists,
        ) == Some(path),
        app_server_of(path, AppServerLaunchPlatform::Other, bundled_exists) == Some(path),
{
    lemma_directory_words();
    name_below_a_directory_splits_off(base, directory, false);
    let parent = base + seq!['/'] + directory;
    assert(parent.last() == directory.last());
    name_below_a_directory_splits_off(parent, "codex"@, false);
}

/// Each system but Windows and macOS counts as another one.
pub proof fn platform_is_told_by_its_name(os: Seq<char>)
    ensures
        platform_of(os) == AppServerLaunchPlatform::Windows <==> os == "windows"@,
        platform_of(os) == AppServerLaunchPlatform::Macos <==> os == "macos"@,
{
    reveal_strlit("windows");
    reveal_strlit("macos");
    assert("windows"@.len() != "macos"@.len());
}

/// The app server is looked for at the path that the environment names, unless that is empty; at the
/// configured installation; at the command-line tool; and on macOS where the application is usually
/// installed; in this order, and nowhere else.
pub proof fn candidates_are_in_order_of_preference(
    named: Option<Seq<char>>,
    configured: Option<AppServerLaunchSpec>,
    cli_runtime: Option<AppServerLaunchSpec>,
    platform: AppServerLaunchPlatform,
)
    ensures
        ({
            let all = candidates(named, configured, cli_runtime, platform);
            let a: int = if named matches Some(path) && path.len() > 0 {
                1
            } else {
                0
            };
            let b: int = if configured is Some {
                a + 1
            } else {
                a
            };
            let c: int = if cli_runtime is Some {
                b + 1
            } else {
                b
            };
            &&& all.len() == if platform == AppServerLaunchPlatform::Macos {
                c + 1
            } else {
                c
            }
            &&& named matches Some(path) ==> (path.len() > 0 ==> all[0] == (
                path,
                None::<Seq<char>>,
            ))
            &&& configured matches Some(spec) ==> all[a] == (
                spec.executable@,
                opt_view(spec.node_path),
            )
            &&& cli_runtime matches Some(spec) ==> all[b] == (
                spec.executable@,
                opt_view(spec.node_path),
            )
            &&& platform == AppServerLaunchPlatform::Macos ==> all[c] == (
                "/Applications/Codex.app/Contents/Resources/codex"@,
                None::<Seq<char>>,
            )
        }),
{
}

proof fn lemma_request_words()
    ensures
        "method"@.len() == 6,
        "id"@.len() == 2,
        "params"@.len() == 6,
        "method"@ != "params"@,
        "name"@.len() == 4,
        "version"@.len() == 7,
        "clientInfo"@.len() == 10,
        "capabilities"@.len() == 12,
        "cursor"@.len() == 6,
        "limit"@.len() == 5,
        "sortKey"@.len() == 7,
        "sortDirection"@.len() == 13,
        "modelProviders"@.len() == 14,
        "sourceKinds"@.len() == 11,
        "archived"@.len() == 8,
{
    reveal_strlit("method");
    reveal_strlit("id");
    reveal_strlit("params");
    reveal_strlit("name");
    reveal_strlit("version");
    reveal_strlit("clientInfo");
    reveal_strlit("capabilities");
    reveal_strlit("cursor");
    reveal_strlit("limit");
    reveal_strlit("sortKey");
    reveal_strlit("sortDirection");
    reveal_strlit("modelProviders");
    reveal_strlit("sourceKinds");
    reveal_strlit("archived");
    assert("method"@[0] == 'm' && "params"@[0] == 'p');
}

/// The app server is first asked to initialize, under the number one, by a client that says its name
/// and version and has no capabilities. It is then asked, under the number two, for the one thread
/// that was updated last, of any provider and source, that is not archived.
pub proof fn requests_say_what_is_asked_for(client_version: Seq<char>)
    ensures
        ({
            let first = initialize_request(client_version);
            &&& member_of(first, "method"@) == Some(JsonTree::Text("initialize"@))
            &&& member_of(first, "id"@) matches Some(JsonTree::Number(Some(id), _)) && id == 1
            &&& member_of(first, "params"@) matches Some(params) && member_of(
                params,
                "capabilities"@,
            ) == Some(JsonTree::Null) && (member_of(params, "clientInfo"@) matches Some(info)
                && member_of(info, "name"@) == Some(JsonTree::Text("cockpit-tools"@)) && member_of(
                info,
                "version"@,
            ) == Some(JsonTree::Text(client_version)))
        }),
        ({
            let second = thread_list_request();
            &&& member_of(second, "method"@) == Some(JsonTree::Text("thread/list"@))
            &&& member_of(second, "id"@) matches Some(JsonTree::Number(Some(id), _)) && id == 2
            &&& member_of(second, "params"@) matches Some(params) && {
                &&& member_of(params, "cursor"@) == Some(JsonTree::Null)
                &&& member_of(params, "limit"@) matches Some(JsonTree::Number(Some(limit), _))
                    && limit == 1
                &&& member_of(params, "sortKey"@) == Some(JsonTree::Text("updated_at"@))
                &&& member_of(params, "sortDirection"@) == Some(JsonTree::Text("desc"@))
                &&& member_of(params, "modelProviders"@) == Some(JsonTree::Null)
                &&& member_of(params, "sourceKinds"@) == Some(JsonTree::List(seq![]))
                &&& member_of(params, "archived"@) == Some(JsonTree::Bool(false))
            }
        }),
{
    lemma_request_words();
}

/// A message is about a request exactly where it has its number as a whole number. It refuses the
/// request where it has an error, whatever else it has, or where it has no result; else the request
/// was carried out.
pub proof fn message_answers_the_request_of_its_number(message: JsonTree, id: i64)
    ensures
        ({
            let related = member_of(message, "id"@) matches Some(JsonTree::Number(Some(number), _))
                && number == id;
            let failed = member_of(message, "error"@) is Some;
            let carried_out = member_of(message, "result"@) is Some;
            &&& message_means(message, id) is Unrelated <==> !related
            &&& message_means(message, id) is Accepted <==> related && !failed && carried_out
            &&& message_means(message, id) is Refused <==> related && (failed || !carried_out)
            &&& message_means(message, id) matches ResponseText::Refused(text) ==> finishes_with(
                text,
                signed_decimal(id as int) + "): "@ + compact_json(
                    if failed {
                        member_of(message, "error"@)->0
                    } else {
                        message
                    },
                ),
            )
        }),
{
    if let ResponseText::Refused(text) = message_means(message, id) {
        let document = if member_of(message, "error"@) is Some {
            member_of(message, "error"@)->0
        } else {
            message
        };
        let end = signed_decimal(id as int) + "): "@ + compact_json(document);
        assert(text.subrange(text.len() - end.len(), text.len() as int) =~= end);
    }
}

/// The conversation with the app server: once it runs it is asked to initialize. While an answer is
/// awaited, a line that is no answer changes nothing, a refusal ends the rebuild with its reason, and
/// so do silence and a request that could not be written. When the first request was carried out the
/// second one is sent, and when that was, the rebuild has succeeded.
pub proof fn conversation_takes_its_course(
    state: RebuildState,
    line: String,
    message: String,
    client_version: Seq<char>,
)
    requires
        state == RebuildState::Initializing || state == RebuildState::Listing,
    ensures
        rebuild_step(RebuildState::Starting, RebuildEvent::Started, client_version) == (
            RebuildState::Initializing,
            RebuildActionText::Send(compact_json(initialize_request(client_version)) + "\n"@),
        ),
        ({
            let id: i64 = if state == RebuildState::Initializing {
                1
            } else {
                2
            };
            let (next, action) = rebuild_step(state, RebuildEvent::Line(line), client_version);
            match parsed_json(line@) {
                None => next == state && action is Wait,
                Some(answer) => match message_means(answer, id) {
                    ResponseText::Unrelated => next == state && action is Wait,
                    ResponseText::Refused(text) => next == RebuildState::Finished && action
                        == RebuildActionText::Finish(Err(text)),
                    ResponseText::Accepted => if state == RebuildState::Initializing {
                        next == RebuildState::Listing && action == RebuildActionText::Send(
                            compact_json(thread_list_request()) + "\n"@,
                        )
                    } else {
                        next == RebuildState::Finished && action == RebuildActionText::Finish(
                            Ok::<(), Seq<char>>(()),
                        )
                    },
                },
            }
        }),
        rebuild_step(state, RebuildEvent::WriteFailed(message), client_version) matches (
            RebuildState::Finished,
            RebuildActionText::Finish(Err(text)),
        ) && finishes_with(text, message@),
        rebuild_step(state, RebuildEvent::TimedOut, client_version).0 == RebuildState::Finished,
        rebuild_step(state, RebuildEvent::Started, client_version) == (
            state,
            RebuildActionText::Wait,
        ),
{
    let text = "写入官方 app-server 请求失败: "@ + message@;
    assert(text.subrange(text.len() - message@.len(), text.len() as int) =~= message@);
}

} // verus!
