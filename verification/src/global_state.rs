//! The global state of the desktop application: which project roots it shows, and which host it
//! has selected.

use vstd::prelude::*;

use crate::files::FileText;
use crate::json::{
    entry_map, get_entry, lemma_text_list_reads_back, lemma_trees, list_of_texts, member_of,
    numbers_canonical, parse_json, parsed_json, pretty_json, reads_back, render_json_pretty,
    set_entry, text_list, text_member, text_of, trees, with_member, within_levels, Json, JsonTree,
};
use crate::paths::{
    is_settled, normalize_workspace_root, normalized_root, normalized_root_is_stable,
};
use crate::rollouts::{push_new, with_new};
use crate::sqlite::{format_sqlite_read_error, located};
use crate::text::{
    is_white, lemma_trimmed_blank, lemma_trimmed_whole, lowered, opt_view, same_text,
    to_ascii_lowercase, trim, trimmed, views, white_space_around_a_text_is_dropped,
};
use crate::threads::text_set;

verus! {

/// What a repair of the global state does, or would do.
#[derive(Debug, Clone, Copy, PartialEq, Eq, Structural)]
pub struct GlobalStateRepairResult {
    pub repaired_project_root_count: usize,
    pub reset_remote_host_selection: bool,
}

/// An object without members.
pub open spec fn empty_object() -> JsonTree {
    JsonTree::Object(Map::empty())
}

/// The state that a text gives: an empty object where it is no JSON.
pub open spec fn state_in(text: Seq<char>) -> JsonTree {
    match parsed_json(text) {
        Some(state) => state,
        None => empty_object(),
    }
}

/// The state that a file gives, or the error of reading it. A missing file gives an empty object.
pub open spec fn state_of(path: Seq<char>, file: FileText) -> Result<JsonTree, Seq<char>> {
    match file {
        FileText::Absent => Ok(empty_object()),
        FileText::Unread(message) => Err(
            located("读取 Codex 全局状态失败"@, path, message@),
        ),
        FileText::Text(text) => Ok(state_in(text@)),
    }
}

/// Reads the global state from the file at `path`.
pub fn read_global_state(path: &str, file: &FileText) -> (state: Result<Json, String>)
    ensures
        match state_of(path@, *file) {
            Ok(tree) => state matches Ok(state) && state@ == tree && reads_back(tree),
            Err(text) => state matches Err(error) && error@ == text,
        },
{
    proof {
        assert(reads_back(empty_object()));
    }
    match file {
        FileText::Absent => Ok(Json::Object(Vec::new())),
        FileText::Unread(message) => Err(
            format_sqlite_read_error(path, "读取 Codex 全局状态失败", message.as_str()),
        ),
        FileText::Text(text) => match parse_json(text.as_str()) {
            Some(state) => Ok(state),
            None => Ok(Json::Object(Vec::new())),
        },
    }
}

/// The normalized root that a value of a list gives, where it is text and has one.
pub open spec fn listed_root(value: JsonTree) -> Option<Seq<char>> {
    match text_of(value) {
        Some(text) => normalized_root(text),
        None => None,
    }
}

/// The values of the list under `key`; none where there is no list.
pub open spec fn list_member(state: JsonTree, key: Seq<char>) -> Seq<JsonTree> {
    match member_of(state, key) {
        Some(JsonTree::List(values)) => values,
        _ => seq![],
    }
}

/// Whether the list under `key` has the workspace.
pub open spec fn lists_root(state: JsonTree, key: Seq<char>, workspace: Seq<char>) -> bool {
    exists|i: int|
        0 <= i < list_member(state, key).len() && #[trigger] listed_root(list_member(state, key)[i])
            == Some(workspace)
}

fn root_listed_by(value: &Json) -> (root: Option<String>)
    ensures
        opt_view(root) == listed_root(value@),
{
    match value.as_str() {
        Some(text) => normalize_workspace_root(text),
        None => None,
    }
}

/// Whether the list under `key` has the workspace.
pub fn global_state_array_contains(state: &Json, key: &str, workspace: &str) -> (yes: bool)
    ensures
        yes == lists_root(state@, key@, workspace@),
{
    let values = match state.get(key) {
        Some(Json::List(values)) => values,
        _ => return false,
    };
    let ghost listed = list_member(state@, key@);
    proof {
        lemma_trees(values@);
        assert(listed == trees(values@));
    }
    let mut i: usize = 0;
    while i < values.len()
        invariant
            i <= values@.len(),
            listed == list_member(state@, key@),
            listed.len() == values@.len(),
            forall|j: int| 0 <= j < values@.len() ==> listed[j] == #[trigger] values@[j].tree(),
            forall|j: int| 0 <= j < i ==> #[trigger] listed_root(listed[j]) != Some(workspace@),
        decreases values@.len() - i,
    {
        assert(listed[i as int] == values@[i as int].tree());
        if let Some(root) = root_listed_by(&values[i]) {
            if same_text(root.as_str(), workspace) {
                assert(listed_root(listed[i as int]) == Some(workspace@));
                return true;
            }
        }
        i += 1;
    }
    false
}

/// Whether another host than the local one is selected.
pub open spec fn selects_other_host(state: JsonTree) -> bool {
    match text_member(state, "selected-remote-host-id"@) {
        Some(host) => {
            let name = lowered(trimmed(host));
            name.len() > 0 && name != "local"@
        },
        None => false,
    }
}

/// Whether another host than the local one is selected.
pub fn should_reset_sidebar_host_selection(state: &Json) -> (yes: bool)
    ensures
        yes == selects_other_host(state@),
{
    match state.get_str("selected-remote-host-id") {
        Some(host) => {
            let name = to_ascii_lowercase(trim(host).as_str());
            !name.as_str().is_empty() && !same_text(name.as_str(), "local")
        },
        None => false,
    }
}

/// Whether a root has a normalized form that one of the two lists lacks.
pub open spec fn root_is_missing(state: JsonTree, root: Seq<char>) -> bool {
    normalized_root(root) matches Some(workspace) && !(lists_root(state, "project-order"@, workspace)
        && lists_root(state, "electron-saved-workspace-roots"@, workspace))
}

/// How many of the roots have a normalized form that one of the two lists lacks.
pub open spec fn missing_root_count(state: JsonTree, roots: Seq<Seq<char>>) -> nat
    decreases roots.len(),
{
    if roots.len() == 0 {
        0
    } else {
        missing_root_count(state, roots.drop_last()) + if root_is_missing(state, roots.last()) {
            1nat
        } else {
            0nat
        }
    }
}

/// What a repair of the state would do.
pub open spec fn preview_of(state: JsonTree, roots: Seq<Seq<char>>) -> (nat, bool) {
    if roots.len() == 0 {
        (0, false)
    } else if state is Object {
        (missing_root_count(state, roots), selects_other_host(state))
    } else {
        (roots.len(), false)
    }
}

/// What a repair of the state `state` would do.
pub fn preview_state_repair(state: &Json, workspace_roots: &Vec<String>) -> (result:
    GlobalStateRepairResult)
    ensures
        result.repaired_project_root_count == preview_of(state@, views(workspace_roots@)).0,
        result.reset_remote_host_selection == preview_of(state@, views(workspace_roots@)).1,
{
    let ghost roots = views(workspace_roots@);
    if workspace_roots.len() == 0 {
        return GlobalStateRepairResult {
            repaired_project_root_count: 0,
            reset_remote_host_selection: false,
        };
    }
    match state {
        Json::Object(_) => {},
        _ => {
            return GlobalStateRepairResult {
                repaired_project_root_count: workspace_roots.len(),
                reset_remote_host_selection: false,
            };
        },
    }
    let mut count: usize = 0;
    let mut i: usize = 0;
    while i < workspace_roots.len()
        invariant
            i <= workspace_roots@.len(),
            roots == views(workspace_roots@),
            count <= i,
            count == missing_root_count(state@, roots.take(i as int)),
        decreases workspace_roots@.len() - i,
    {
        proof {
            assert(roots.take(i + 1).drop_last() =~= roots.take(i as int));
            assert(roots.take(i + 1).last() == workspace_roots@[i as int]@);
        }
        if let Some(root) = normalize_workspace_root(workspace_roots[i].as_str()) {
            if !global_state_array_contains(state, "project-order", root.as_str())
                || !global_state_array_contains(
                state,
                "electron-saved-workspace-roots",
                root.as_str(),
            ) {
                count += 1;
            }
        }
        i += 1;
    }
    assert(roots.take(i as int) =~= roots);
    GlobalStateRepairResult {
        repaired_project_root_count: count,
        reset_remote_host_selection: should_reset_sidebar_host_selection(state),
    }
}

/// What a repair of the state in the file at `path` would do. Without roots nothing is read.
pub fn preview_global_state_project_root_repair(
    path: &str,
    file: &FileText,
    workspace_roots: &Vec<String>,
) -> (result: Result<GlobalStateRepairResult, String>)
    ensures
        if workspace_roots@.len() == 0 {
            result matches Ok(result) && result.repaired_project_root_count == 0
                && !result.reset_remote_host_selection
        } else {
            match state_of(path@, *file) {
                Ok(state) => result matches Ok(result) && result.repaired_project_root_count
                    == preview_of(state, views(workspace_roots@)).0
                    && result.reset_remote_host_selection == preview_of(
                    state,
                    views(workspace_roots@),
                ).1,
                Err(text) => result matches Err(error) && error@ == text,
            }
        },
{
    if workspace_roots.len() == 0 {
        return Ok(
            GlobalStateRepairResult {
                repaired_project_root_count: 0,
                reset_remote_host_selection: false,
            },
        );
    }
    match read_global_state(path, file) {
        Ok(state) => Ok(preview_state_repair(&state, workspace_roots)),
        Err(text) => Err(text),
    }
}

/// The normalized roots that the values of a list give.
pub open spec fn listed_roots(values: Seq<JsonTree>) -> Seq<Seq<char>>
    decreases values.len(),
{
    if values.len() == 0 {
        seq![]
    } else {
        match listed_root(values.last()) {
            Some(root) => listed_roots(values.drop_last()).push(root),
            None => listed_roots(values.drop_last()),
        }
    }
}

/// `roots` with the normalized forms of the additions that it lacks.
pub open spec fn merged_roots(roots: Seq<Seq<char>>, additions: Seq<Seq<char>>) -> Seq<Seq<char>>
    decreases additions.len(),
{
    if additions.len() == 0 {
        roots
    } else {
        let before = merged_roots(roots, additions.drop_last());
        match normalized_root(additions.last()) {
            Some(root) => with_new(before, root),
            None => before,
        }
    }
}

/// How many roots the list under `key` lacks.
pub open spec fn merge_count(state: JsonTree, key: Seq<char>, additions: Seq<Seq<char>>) -> int {
    let roots = listed_roots(list_member(state, key));
    merged_roots(roots, additions).len() - roots.len()
}

/// The state with the additions in the list under `key`. The list is left as it is where it lacks
/// none of them; else it holds normalized roots alone.
pub open spec fn merged_state(
    state: JsonTree,
    key: Seq<char>,
    additions: Seq<Seq<char>>,
) -> JsonTree {
    if merge_count(state, key, additions) > 0 {
        with_member(
            state,
            key,
            text_list(merged_roots(listed_roots(list_member(state, key)), additions)),
        )
    } else {
        state
    }
}

proof fn lemma_merged_roots(roots: Seq<Seq<char>>, additions: Seq<Seq<char>>)
    ensures
        roots.len() <= merged_roots(roots, additions).len() <= roots.len() + additions.len(),
        merged_roots(roots, additions).take(roots.len() as int) == roots,
        forall|i: int|
            0 <= i < additions.len() ==> (normalized_root(#[trigger] additions[i]) matches Some(
                root,
            ) ==> merged_roots(roots, additions).contains(root)),
        merged_roots(roots, additions).len() == roots.len() <==> forall|i: int|
            0 <= i < additions.len() ==> (normalized_root(#[trigger] additions[i]) matches Some(
                root,
            ) ==> roots.contains(root)),
    decreases additions.len(),
{
    if additions.len() == 0 {
        assert(roots.take(roots.len() as int) =~= roots);
    } else {
        let rest = additions.drop_last();
        lemma_merged_roots(roots, rest);
        let before = merged_roots(roots, rest);
        let after = merged_roots(roots, additions);
        assert(after.take(roots.len() as int) =~= before.take(roots.len() as int));
        assert forall|i: int| 0 <= i < additions.len() implies (normalized_root(
            #[trigger] additions[i],
        ) matches Some(root) ==> after.contains(root)) by {
            if let Some(root) = normalized_root(additions[i]) {
                if i < rest.len() {
                    assert(rest[i] == additions[i]);
                    let j = choose|j: int| 0 <= j < before.len() && before[j] == root;
                    assert(after[j] == root);
                } else if !before.contains(root) {
                    assert(after[before.len() as int] == root);
                }
            }
        }
        if after.len() == roots.len() {
            assert(before.len() == roots.len());
            assert(before =~= roots) by {
                assert(before.take(roots.len() as int) =~= before);
            }
            assert forall|i: int| 0 <= i < additions.len() implies (normalized_root(
                #[trigger] additions[i],
            ) matches Some(root) ==> roots.contains(root)) by {
                if i < rest.len() {
                    assert(rest[i] == additions[i]);
                }
            }
        }
        if forall|i: int|
            0 <= i < additions.len() ==> (normalized_root(#[trigger] additions[i]) matches Some(
                root,
            ) ==> roots.contains(root)) {
            assert forall|i: int| 0 <= i < rest.len() implies (normalized_root(
                #[trigger] rest[i],
            ) matches Some(root) ==> roots.contains(root)) by {
                assert(rest[i] == additions[i]);
            }
            assert(before =~= roots) by {
                assert(before.take(roots.len() as int) =~= before);
            }
            assert(additions[additions.len() - 1] == additions.last());
        }
    }
}

fn roots_in_list(values: &Vec<Json>) -> (roots: Vec<String>)
    ensures
        views(roots@) == listed_roots(trees(values@)),
{
    let ghost listed = trees(values@);
    proof {
        lemma_trees(values@);
    }
    let mut roots: Vec<String> = Vec::new();
    let mut i: usize = 0;
    assert(views(roots@) =~= listed_roots(listed.take(0)));
    while i < values.len()
        invariant
            i <= values@.len(),
            listed.len() == values@.len(),
            forall|j: int| 0 <= j < values@.len() ==> listed[j] == #[trigger] values@[j].tree(),
            views(roots@) == listed_roots(listed.take(i as int)),
        decreases values@.len() - i,
    {
        let ghost before = roots@;
        proof {
            assert(listed.take(i + 1).drop_last() =~= listed.take(i as int));
            assert(listed[i as int] == values@[i as int].tree());
        }
        if let Some(root) = root_listed_by(&values[i]) {
            roots.push(root);
            assert(views(roots@) =~= views(before).push(root@));
        }
        i += 1;
    }
    assert(listed.take(i as int) =~= listed);
    roots
}

/// Adds to the list under `key` the normalized forms of the additions that it lacks, and says how
/// many there were.
pub fn merge_string_array(
    entries: &mut Vec<(String, Json)>,
    key: &str,
    additions: &Vec<String>,
) -> (added: usize)
    ensures
        JsonTree::Object(entry_map(final(entries)@)) == merged_state(
            JsonTree::Object(entry_map(old(entries)@)),
            key@,
            views(additions@),
        ),
        added == merge_count(
            JsonTree::Object(entry_map(old(entries)@)),
            key@,
            views(additions@),
        ),
{
    let ghost state = JsonTree::Object(entry_map(entries@));
    let ghost wanted = views(additions@);
    let mut roots: Vec<String> = match get_entry(&*entries, key) {
        Some(Json::List(values)) => roots_in_list(values),
        _ => Vec::new(),
    };
    let ghost first = listed_roots(list_member(state, key@));
    assert(views(roots@) =~= first);
    let mut seen = text_set(&roots);
    let mut added: usize = 0;
    let mut i: usize = 0;
    while i < additions.len()
        invariant
            i <= additions@.len(),
            wanted == views(additions@),
            views(roots@) == merged_roots(first, wanted.take(i as int)),
            seen@ == views(roots@).to_set(),
            added <= i,
            added == views(roots@).len() - first.len(),
        decreases additions@.len() - i,
    {
        let ghost before = views(roots@);
        proof {
            assert(wanted.take(i + 1).drop_last() =~= wanted.take(i as int));
            assert(wanted.take(i + 1).last() == additions@[i as int]@);
        }
        if let Some(root) = normalize_workspace_root(additions[i].as_str()) {
            if push_new(&mut roots, &mut seen, root) {
                added += 1;
            }
        }
        i += 1;
    }
    assert(wanted.take(i as int) =~= wanted);
    if added > 0 {
        set_entry(entries, key.to_owned(), list_of_texts(roots));
    }
    added
}

/// The state once it is repaired.
pub open spec fn repaired_state(state: JsonTree, roots: Seq<Seq<char>>) -> JsonTree {
    let merged = with_roots(state, roots);
    if selects_other_host(merged) {
        with_member(merged, "selected-remote-host-id"@, JsonTree::Text("local"@))
    } else {
        merged
    }
}

/// The state as an object; an empty one where it is something else.
pub open spec fn as_object(state: JsonTree) -> JsonTree {
    if state is Object {
        state
    } else {
        empty_object()
    }
}

/// The state with the roots in both lists.
pub open spec fn with_roots(state: JsonTree, roots: Seq<Seq<char>>) -> JsonTree {
    merged_state(
        merged_state(as_object(state), "project-order"@, roots),
        "electron-saved-workspace-roots"@,
        roots,
    )
}

/// What a repair of the state does: how many roots it adds to the list that lacks most, and whether
/// it selects the local host again.
pub open spec fn repair_of(state: JsonTree, roots: Seq<Seq<char>>) -> (int, bool) {
    let in_order = merge_count(as_object(state), "project-order"@, roots);
    let in_saved = merge_count(
        merged_state(as_object(state), "project-order"@, roots),
        "electron-saved-workspace-roots"@,
        roots,
    );
    (
        if in_order < in_saved {
            in_saved
        } else {
            in_order
        },
        selects_other_host(with_roots(state, roots)),
    )
}

/// Repairs a state: the roots stand in both lists, and the local host is selected.
pub fn repair_state(state: Json, workspace_roots: &Vec<String>) -> (repaired: (
    Json,
    GlobalStateRepairResult,
))
    ensures
        repaired.0@ == repaired_state(state@, views(workspace_roots@)),
        repaired.1.repaired_project_root_count == repair_of(state@, views(workspace_roots@)).0,
        repaired.1.reset_remote_host_selection == repair_of(state@, views(workspace_roots@)).1,
{
    let ghost whole = state@;
    let mut entries: Vec<(String, Json)> = match state {
        Json::Object(entries) => entries,
        _ => Vec::new(),
    };
    assert(JsonTree::Object(entry_map(entries@)) == as_object(whole)) by {
        if !(whole is Object) {
            assert(entry_map(entries@) =~= Map::<Seq<char>, JsonTree>::empty());
        }
    }
    let added_project_order = merge_string_array(&mut entries, "project-order", workspace_roots);
    let added_saved_roots = merge_string_array(
        &mut entries,
        "electron-saved-workspace-roots",
        workspace_roots,
    );
    let mut merged = Json::Object(entries);
    let reset = should_reset_sidebar_host_selection(&merged);
    if reset {
        merged =
        match merged {
            Json::Object(mut entries) => {
                set_entry(
                    &mut entries,
                    "selected-remote-host-id".to_owned(),
                    Json::Text("local".to_owned()),
                );
                Json::Object(entries)
            },
            other => other,
        };
    }
    let count = if added_project_order < added_saved_roots {
        added_saved_roots
    } else {
        added_project_order
    };
    (
        merged,
        GlobalStateRepairResult {
            repaired_project_root_count: count,
            reset_remote_host_selection: reset,
        },
    )
}

proof fn lemma_with_member_reads_back(state: JsonTree, key: Seq<char>, value: JsonTree)
    requires
        state is Object,
        reads_back(state),
        numbers_canonical(value),
        within_levels(value, 126),
    ensures
        with_member(state, key, value) is Object,
        reads_back(with_member(state, key, value)),
{
    let members = state->Object_0;
    let next = members.insert(key, value);
    assert forall|k: Seq<char>| #[trigger] next.contains_key(k) implies numbers_canonical(next[k])
        && within_levels(next[k], 126) by {
        if k != key {
            assert(members.contains_key(k));
        }
    }
}

proof fn lemma_merged_state_reads_back(
    state: JsonTree,
    key: Seq<char>,
    additions: Seq<Seq<char>>,
)
    requires
        state is Object,
        reads_back(state),
    ensures
        merged_state(state, key, additions) is Object,
        reads_back(merged_state(state, key, additions)),
{
    let roots = merged_roots(listed_roots(list_member(state, key)), additions);
    let list = text_list(roots);
    lemma_text_list_reads_back(roots);
    lemma_with_member_reads_back(state, key, list);
}

/// A repair of the global state, and the new content of its file where there is any.
#[derive(Debug)]
pub struct GlobalStateRepair {
    pub result: GlobalStateRepairResult,
    pub content: Option<String>,
}

/// Repairs the global state in the file at `path`: the roots stand in both of its lists, and the
/// local host is selected. The file gets new content only where something changes; without roots
/// nothing does.
pub fn repair_global_state_project_roots(
    path: &str,
    file: &FileText,
    workspace_roots: &Vec<String>,
) -> (repair: Result<GlobalStateRepair, String>)
    ensures
        if workspace_roots@.len() == 0 {
            repair matches Ok(repair) && repair.result.repaired_project_root_count == 0
                && !repair.result.reset_remote_host_selection && repair.content is None
        } else {
            match state_of(path@, *file) {
                Ok(state) => {
                    let roots = views(workspace_roots@);
                    let (count, reset) = repair_of(state, roots);
                    &&& repair matches Ok(repair)
                    &&& repair.result.repaired_project_root_count == count
                    &&& repair.result.reset_remote_host_selection == reset
                    &&& match repair.content {
                        Some(content) => {
                            &&& count > 0 || reset
                            &&& content@ == pretty_json(repaired_state(state, roots)) + "\n"@
                            &&& state_in(content@) == repaired_state(state, roots)
                        },
                        None => count == 0 && !reset,
                    }
                },
                Err(text) => repair matches Err(error) && error@ == text,
            }
        },
{
    if workspace_roots.len() == 0 {
        return Ok(
            GlobalStateRepair {
                result: GlobalStateRepairResult {
                    repaired_project_root_count: 0,
                    reset_remote_host_selection: false,
                },
                content: None,
            },
        );
    }
    let state = match read_global_state(path, file) {
        Ok(state) => state,
        Err(text) => return Err(text),
    };
    let ghost whole = state@;
    let ghost roots = views(workspace_roots@);
    proof {
        assert(reads_back(empty_object()));
        let object = as_object(whole);
        lemma_merged_state_reads_back(object, "project-order"@, roots);
        lemma_merged_state_reads_back(
            merged_state(object, "project-order"@, roots),
            "electron-saved-workspace-roots"@,
            roots,
        );
        let local = JsonTree::Text("local"@);
        assert(numbers_canonical(local) && within_levels(local, 126));
        lemma_with_member_reads_back(
            with_roots(whole, roots),
            "selected-remote-host-id"@,
            local,
        );
        reveal_strlit("\n");
        assert("\n"@ =~= seq!['\n']);
    }
    let (repaired, result) = repair_state(state, workspace_roots);
    if result.repaired_project_root_count == 0 && !result.reset_remote_host_selection {
        return Ok(GlobalStateRepair { result, content: None });
    }
    match render_json_pretty(&repaired) {
        Ok(text) => Ok(GlobalStateRepair { result, content: Some(text.concat("\n")) }),
        Err(error) => Err("serialize Codex global state failed: ".to_owned().concat(error.as_str())),
    }
}

proof fn lemma_listed_roots(values: Seq<JsonTree>, root: Seq<char>)
    ensures
        listed_roots(values).contains(root) <==> exists|i: int|
            0 <= i < values.len() && #[trigger] listed_root(values[i]) == Some(root),
    decreases values.len(),
{
    if values.len() > 0 {
        let rest = values.drop_last();
        lemma_listed_roots(rest, root);
        let before = listed_roots(rest);
        let after = listed_roots(values);
        if after.contains(root) {
            let j = choose|j: int| 0 <= j < after.len() && after[j] == root;
            if j < before.len() {
                assert(before[j] == root);
                let i = choose|i: int|
                    0 <= i < rest.len() && #[trigger] listed_root(rest[i]) == Some(root);
                assert(listed_root(values[i]) == Some(root));
            } else {
                assert(listed_root(values[values.len() - 1]) == Some(root));
            }
        }
        if exists|i: int| 0 <= i < values.len() && #[trigger] listed_root(values[i]) == Some(root) {
            let i = choose|i: int|
                0 <= i < values.len() && #[trigger] listed_root(values[i]) == Some(root);
            if i < rest.len() {
                assert(listed_root(rest[i]) == Some(root));
                let j = choose|j: int| 0 <= j < before.len() && before[j] == root;
                assert(after[j] == root);
            } else {
                assert(after[before.len() as int] == root);
            }
        }
    }
}

proof fn lemma_merge_count_zero(state: JsonTree, key: Seq<char>, roots: Seq<Seq<char>>)
    ensures
        merge_count(state, key, roots) >= 0,
        merge_count(state, key, roots) == 0 <==> forall|i: int|
            0 <= i < roots.len() ==> (normalized_root(#[trigger] roots[i]) matches Some(root)
                ==> lists_root(state, key, root)),
{
    let values = list_member(state, key);
    let listed = listed_roots(values);
    lemma_merged_roots(listed, roots);
    assert forall|root: Seq<char>| listed.contains(root) <==> lists_root(state, key, root) by {
        lemma_listed_roots(values, root);
    }
}

proof fn lemma_missing_root_count_zero(state: JsonTree, roots: Seq<Seq<char>>)
    ensures
        missing_root_count(state, roots) == 0 <==> forall|i: int|
            0 <= i < roots.len() ==> !root_is_missing(state, #[trigger] roots[i]),
    decreases roots.len(),
{
    if roots.len() > 0 {
        let rest = roots.drop_last();
        lemma_missing_root_count_zero(state, rest);
        assert(roots[roots.len() - 1] == roots.last());
        assert forall|i: int| 0 <= i < rest.len() implies #[trigger] rest[i] == roots[i] by {}
        if missing_root_count(state, roots) == 0 {
            assert forall|i: int| 0 <= i < roots.len() implies !root_is_missing(
                state,
                #[trigger] roots[i],
            ) by {
                if i < rest.len() {
                    assert(!root_is_missing(state, rest[i]));
                }
            }
        }
        if forall|i: int| 0 <= i < roots.len() ==> !root_is_missing(state, #[trigger] roots[i]) {
            assert forall|i: int| 0 <= i < rest.len() implies !root_is_missing(
                state,
                #[trigger] rest[i],
            ) by {
                assert(!root_is_missing(state, roots[i]));
            }
        }
    }
}

proof fn lemma_keys_differ()
    ensures
        "project-order"@ != "electron-saved-workspace-roots"@,
        "project-order"@ != "selected-remote-host-id"@,
        "electron-saved-workspace-roots"@ != "selected-remote-host-id"@,
{
    reveal_strlit("project-order");
    reveal_strlit("electron-saved-workspace-roots");
    reveal_strlit("selected-remote-host-id");
    assert("project-order"@.len() == 13);
    assert("electron-saved-workspace-roots"@.len() == 30);
    assert("selected-remote-host-id"@.len() == 23);
}

/// A preview finds roots to repair exactly where a repair adds some, and a host to reset exactly
/// where a repair resets it, unless the state is no object and none of the roots has a normalized
/// form.
pub proof fn preview_agrees_with_repair(state: JsonTree, roots: Seq<Seq<char>>)
    requires
        roots.len() > 0,
        state is Object || exists|i: int|
            0 <= i < roots.len() && normalized_root(#[trigger] roots[i]) is Some,
    ensures
        preview_of(state, roots).0 == 0 <==> repair_of(state, roots).0 == 0,
        preview_of(state, roots).1 == repair_of(state, roots).1,
{
    lemma_keys_differ();
    let order = "project-order"@;
    let saved = "electron-saved-workspace-roots"@;
    let host = "selected-remote-host-id"@;
    let given = state;
    let state = as_object(given);
    let first = merged_state(state, order, roots);
    let second = merged_state(first, saved, roots);
    assert(member_of(first, saved) == member_of(state, saved));
    assert(member_of(second, host) == member_of(state, host));
    lemma_merge_count_zero(state, order, roots);
    lemma_merge_count_zero(first, saved, roots);
    lemma_missing_root_count_zero(state, roots);
    assert forall|root: Seq<char>| lists_root(first, saved, root) == lists_root(
        state,
        saved,
        root,
    ) by {
        assert(list_member(first, saved) == list_member(state, saved));
    }
    if repair_of(state, roots).0 == 0 {
        assert forall|i: int| 0 <= i < roots.len() implies !root_is_missing(
            state,
            #[trigger] roots[i],
        ) by {}
    }
    if preview_of(state, roots).0 == 0 {
        assert forall|i: int| 0 <= i < roots.len() implies (normalized_root(
            #[trigger] roots[i],
        ) matches Some(root) ==> lists_root(state, order, root) && lists_root(first, saved, root)) by {
            assert(!root_is_missing(state, roots[i]));
        }
    }
    if !(given is Object) {
        let i = choose|i: int| 0 <= i < roots.len() && normalized_root(#[trigger] roots[i]) is Some;
        assert(!lists_root(state, order, normalized_root(roots[i])->0)) by {
            assert(list_member(state, order).len() == 0);
        }
        assert(merge_count(state, order, roots) > 0);
    }
}

proof fn lemma_merge_adds_missing_roots(
    state: JsonTree,
    key: Seq<char>,
    listed: Seq<Seq<char>>,
    roots: Seq<Seq<char>>,
)
    requires
        key == "project-order"@ || key == "electron-saved-workspace-roots"@,
        forall|root: Seq<char>| #[trigger] listed.contains(root) <==> lists_root(state, key, root),
    ensures
        merged_roots(listed, roots).len() - listed.len() <= missing_root_count(state, roots),
    decreases roots.len(),
{
    if roots.len() > 0 {
        let rest = roots.drop_last();
        let before = merged_roots(listed, rest);
        lemma_merge_adds_missing_roots(state, key, listed, rest);
        lemma_merged_roots(listed, rest);
        if let Some(root) = normalized_root(roots.last()) {
            if listed.contains(root) {
                let i = choose|i: int| 0 <= i < listed.len() && listed[i] == root;
                assert(before[i] == before.take(listed.len() as int)[i]);
                assert(before.contains(root));
            } else {
                assert(root_is_missing(state, roots.last()));
            }
        }
    }
}

/// A repair adds no more roots than a preview finds to be missing.
pub proof fn repair_adds_no_more_than_the_preview_finds(state: JsonTree, roots: Seq<Seq<char>>)
    ensures
        repair_of(state, roots).0 <= preview_of(state, roots).0,
{
    lemma_keys_differ();
    let order = "project-order"@;
    let saved = "electron-saved-workspace-roots"@;
    let object = as_object(state);
    let first = merged_state(object, order, roots);
    assert(member_of(first, saved) == member_of(object, saved));
    assert(list_member(first, saved) == list_member(object, saved));
    let in_order = list_member(object, order);
    let in_saved = list_member(object, saved);
    lemma_merged_roots(listed_roots(in_order), roots);
    lemma_merged_roots(listed_roots(in_saved), roots);
    if state is Object {
        assert forall|root: Seq<char>| #[trigger] listed_roots(in_order).contains(root)
            <==> lists_root(state, order, root) by {
            lemma_listed_roots(in_order, root);
        }
        assert forall|root: Seq<char>| #[trigger] listed_roots(in_saved).contains(root)
            <==> lists_root(state, saved, root) by {
            lemma_listed_roots(in_saved, root);
        }
        lemma_merge_adds_missing_roots(state, order, listed_roots(in_order), roots);
        lemma_merge_adds_missing_roots(state, saved, listed_roots(in_saved), roots);
    }
}

proof fn lemma_merged_state_lists(
    state: JsonTree,
    key: Seq<char>,
    roots: Seq<Seq<char>>,
    i: int,
)
    requires
        state is Object,
        0 <= i < roots.len(),
        normalized_root(roots[i]) matches Some(root) && (is_settled(root) || merge_count(
            state,
            key,
            roots,
        ) == 0),
    ensures
        lists_root(merged_state(state, key, roots), key, normalized_root(roots[i])->0),
{
    let root = normalized_root(roots[i])->0;
    let listed = listed_roots(list_member(state, key));
    let all = merged_roots(listed, roots);
    let next = merged_state(state, key, roots);
    lemma_merge_count_zero(state, key, roots);
    if merge_count(state, key, roots) > 0 {
        lemma_merged_roots(listed, roots);
        normalized_root_is_stable(roots[i]);
        assert(all.contains(root));
        let j = choose|j: int| 0 <= j < all.len() && all[j] == root;
        let values = list_member(next, key);
        assert(values =~= all.map_values(|text: Seq<char>| JsonTree::Text(text)));
        assert(values[j] == JsonTree::Text(root));
        assert(listed_root(values[j]) == Some(root));
    }
}

/// A repaired state needs no further repair for the same roots, unless roots were added and the
/// normalized form of one of them has surrounding white space or an extended-length prefix.
pub proof fn repaired_state_needs_no_repair(state: JsonTree, roots: Seq<Seq<char>>)
    requires
        repair_of(state, roots).0 == 0 || forall|i: int|
            0 <= i < roots.len() ==> (normalized_root(#[trigger] roots[i]) matches Some(root)
                ==> is_settled(root)),
    ensures
        preview_of(repaired_state(state, roots), roots) == (0nat, false),
{
    lemma_keys_differ();
    let order = "project-order"@;
    let saved = "electron-saved-workspace-roots"@;
    let host = "selected-remote-host-id"@;
    let object = as_object(state);
    let first = merged_state(object, order, roots);
    let second = merged_state(first, saved, roots);
    let last = repaired_state(state, roots);
    assert(second == with_roots(state, roots));
    assert(list_member(last, order) == list_member(first, order));
    assert(list_member(last, saved) == list_member(second, saved));
    assert forall|i: int| 0 <= i < roots.len() implies !root_is_missing(last, #[trigger] roots[i]) by {
        if let Some(root) = normalized_root(roots[i]) {
            lemma_merge_count_zero(object, order, roots);
            lemma_merge_count_zero(first, saved, roots);
            lemma_merged_state_lists(object, order, roots, i);
            lemma_merged_state_lists(first, saved, roots, i);
            assert(lists_root(last, order, root));
            assert(lists_root(last, saved, root));
        }
    }
    lemma_missing_root_count_zero(last, roots);
    assert(!selects_other_host(last)) by {
        if selects_other_host(second) {
            reveal_strlit("local");
            lemma_trimmed_whole("local"@);
            assert(lowered("local"@) =~= "local"@);
            assert(text_member(last, host) == Some("local"@));
        }
    }
}

/// The host that is selected is another than the local one where its name, without white space
/// around it, is any but `local`, in whatever case; a blank name, and one that is no text, selects
/// none.
pub proof fn other_host_is_told_by_its_name(
    state: JsonTree,
    before: Seq<char>,
    name: Seq<char>,
    after: Seq<char>,
)
    requires
        forall|i: int| 0 <= i < before.len() ==> is_white(#[trigger] before[i]),
        forall|i: int| 0 <= i < after.len() ==> is_white(#[trigger] after[i]),
        name.len() > 0,
        !is_white(name[0]),
        !is_white(name.last()),
    ensures
        member_of(state, "selected-remote-host-id"@) == Some(JsonTree::Text(before + name + after))
            ==> (selects_other_host(state) <==> lowered(name) != "local"@),
        member_of(state, "selected-remote-host-id"@) == Some(JsonTree::Text(before))
            ==> !selects_other_host(state),
        !(member_of(state, "selected-remote-host-id"@) matches Some(JsonTree::Text(_)))
            ==> !selects_other_host(state),
{
    white_space_around_a_text_is_dropped(before, name, after);
    lemma_trimmed_blank(before);
    assert(lowered(name).len() == name.len());
}

/// A repair selects the local host where another one was selected, and leaves the selection alone
/// where none was; all but that and the two lists of roots is as it was.
pub proof fn repair_keeps_the_rest_of_the_state(
    state: JsonTree,
    roots: Seq<Seq<char>>,
    key: Seq<char>,
)
    requires
        state is Object,
    ensures
        ({
            let next = repaired_state(state, roots);
            &&& next is Object
            &&& repair_of(state, roots).1 == selects_other_host(state)
            &&& member_of(next, "selected-remote-host-id"@) == if selects_other_host(state) {
                Some(JsonTree::Text("local"@))
            } else {
                member_of(state, "selected-remote-host-id"@)
            }
            &&& key != "selected-remote-host-id"@ && key != "project-order"@ && key
                != "electron-saved-workspace-roots"@ ==> member_of(next, key) == member_of(
                state,
                key,
            )
        }),
{
    lemma_keys_differ();
    let order = "project-order"@;
    let saved = "electron-saved-workspace-roots"@;
    let host = "selected-remote-host-id"@;
    let first = merged_state(state, order, roots);
    let second = merged_state(first, saved, roots);
    assert(second == with_roots(state, roots));
    assert(member_of(first, host) == member_of(state, host));
    assert(member_of(second, host) == member_of(state, host));
    assert(selects_other_host(second) == selects_other_host(state));
}

/// Whether one of the values is a text with this workspace.
pub open spec fn has_workspace(values: Seq<JsonTree>, root: Seq<char>) -> bool {
    exists|i: int|
        0 <= i < values.len() && ((#[trigger] values[i]) matches JsonTree::Text(text)
            && normalized_root(text) == Some(root))
}

/// Whether one of the roots has this workspace.
pub open spec fn is_workspace_among(roots: Seq<Seq<char>>, root: Seq<char>) -> bool {
    exists|i: int| 0 <= i < roots.len() && normalized_root(#[trigger] roots[i]) == Some(root)
}

proof fn lemma_has_workspace(state: JsonTree, key: Seq<char>, root: Seq<char>)
    ensures
        lists_root(state, key, root) <==> has_workspace(list_member(state, key), root),
{
    let values = list_member(state, key);
    if lists_root(state, key, root) {
        let i = choose|i: int|
            0 <= i < values.len() && #[trigger] listed_root(values[i]) == Some(root);
        assert(values[i] matches JsonTree::Text(text) && normalized_root(text) == Some(root));
    }
    if has_workspace(values, root) {
        let i = choose|i: int|
            0 <= i < values.len() && ((#[trigger] values[i]) matches JsonTree::Text(text)
                && normalized_root(text) == Some(root));
        assert(listed_root(values[i]) == Some(root));
    }
}

proof fn lemma_merged_roots_members(
    roots: Seq<Seq<char>>,
    additions: Seq<Seq<char>>,
    root: Seq<char>,
)
    ensures
        merged_roots(roots, additions).contains(root) <==> roots.contains(root)
            || is_workspace_among(additions, root),
    decreases additions.len(),
{
    if additions.len() > 0 {
        let rest = additions.drop_last();
        let before = merged_roots(roots, rest);
        let after = merged_roots(roots, additions);
        lemma_merged_roots_members(roots, rest, root);
        assert(additions[additions.len() - 1] == additions.last());
        if is_workspace_among(rest, root) {
            let i = choose|i: int|
                0 <= i < rest.len() && normalized_root(#[trigger] rest[i]) == Some(root);
            assert(normalized_root(additions[i]) == Some(root));
        }
        if is_workspace_among(additions, root) {
            let i = choose|i: int|
                0 <= i < additions.len() && normalized_root(#[trigger] additions[i]) == Some(root);
            if i < rest.len() {
                assert(rest[i] == additions[i]);
                assert(is_workspace_among(rest, root));
            }
        }
        if let Some(new) = normalized_root(additions.last()) {
            if !before.contains(new) {
                assert(after == before.push(new));
                assert(after[before.len() as int] == new);
                if before.contains(root) {
                    let i = choose|i: int| 0 <= i < before.len() && before[i] == root;
                    assert(after[i] == root);
                }
                if after.contains(root) {
                    let i = choose|i: int| 0 <= i < after.len() && after[i] == root;
                    if i < before.len() {
                        assert(before[i] == root);
                    }
                }
            }
        }
    }
}

proof fn lemma_merged_list(
    state: JsonTree,
    key: Seq<char>,
    roots: Seq<Seq<char>>,
    root: Seq<char>,
)
    requires
        state is Object,
    ensures
        ({
            let before = list_member(state, key);
            let after = list_member(merged_state(state, key, roots), key);
            &&& merge_count(state, key, roots) == 0 ==> after == before
            &&& merge_count(state, key, roots) > 0 ==> (after.contains(JsonTree::Text(root))
                <==> has_workspace(before, root) || is_workspace_among(roots, root))
            &&& merge_count(state, key, roots) == 0 <==> forall|i: int|
                0 <= i < roots.len() ==> (normalized_root(#[trigger] roots[i]) matches Some(found)
                    ==> has_workspace(before, found))
        }),
{
    let before = list_member(state, key);
    let listed = listed_roots(before);
    let all = merged_roots(listed, roots);
    let after = list_member(merged_state(state, key, roots), key);
    lemma_merge_count_zero(state, key, roots);
    lemma_merged_roots_members(listed, roots, root);
    lemma_listed_roots(before, root);
    lemma_has_workspace(state, key, root);
    assert forall|found: Seq<char>| #[trigger] lists_root(state, key, found) == has_workspace(
        before,
        found,
    ) by {
        lemma_has_workspace(state, key, found);
    }
    if merge_count(state, key, roots) > 0 {
        assert(after =~= all.map_values(|text: Seq<char>| JsonTree::Text(text)));
        if all.contains(root) {
            let i = choose|i: int| 0 <= i < all.len() && all[i] == root;
            assert(after[i] == JsonTree::Text(root));
        }
        if after.contains(JsonTree::Text(root)) {
            let i = choose|i: int| 0 <= i < after.len() && after[i] == JsonTree::Text(root);
            assert(all[i] == root);
        }
    }
}

/// Each of the two lists is left alone where it has the workspaces of all roots. Else it has, in
/// normalized form, exactly the workspaces that it had and those of the roots.
pub proof fn both_lists_get_every_workspace(
    state: JsonTree,
    roots: Seq<Seq<char>>,
    key: Seq<char>,
    root: Seq<char>,
)
    requires
        state is Object,
        key == "project-order"@ || key == "electron-saved-workspace-roots"@,
    ensures
        ({
            let before = list_member(state, key);
            let after = list_member(repaired_state(state, roots), key);
            if forall|i: int|
                0 <= i < roots.len() ==> (normalized_root(#[trigger] roots[i]) matches Some(found)
                    ==> has_workspace(before, found)) {
                after == before
            } else {
                after.contains(JsonTree::Text(root)) <==> has_workspace(before, root)
                    || is_workspace_among(roots, root)
            }
        }),
{
    lemma_keys_differ();
    let order = "project-order"@;
    let saved = "electron-saved-workspace-roots"@;
    let first = merged_state(state, order, roots);
    let second = merged_state(first, saved, roots);
    assert(second == with_roots(state, roots));
    assert(first is Object);
    assert(list_member(first, saved) == list_member(state, saved));
    assert(list_member(second, order) == list_member(first, order));
    assert(list_member(repaired_state(state, roots), key) == list_member(second, key));
    lemma_merged_list(state, order, roots, root);
    lemma_merged_list(first, saved, roots, root);
    lemma_merge_count_zero(state, order, roots);
    lemma_merge_count_zero(first, saved, roots);
}

/// A root is counted as missing where it has a workspace that one of the two lists lacks, each root
/// for itself. Without roots nothing is counted or reset, and where the state is no object all roots
/// are counted.
pub proof fn preview_counts_the_roots_that_a_list_lacks(state: JsonTree, roots: Seq<Seq<char>>)
    ensures
        roots.len() == 0 ==> preview_of(state, roots) == (0nat, false),
        roots.len() > 0 && !(state is Object) ==> preview_of(state, roots) == (roots.len(), false),
        roots.len() > 0 && state is Object ==> {
            &&& preview_of(state, roots).0 == roots.filter(
                |root: Seq<char>|
                    normalized_root(root) matches Some(found) && !(has_workspace(
                        list_member(state, "project-order"@),
                        found,
                    ) && has_workspace(
                        list_member(state, "electron-saved-workspace-roots"@),
                        found,
                    )),
            ).len()
            &&& preview_of(state, roots).1 == selects_other_host(state)
        },
{
    lemma_missing_roots_filtered(state, roots);
}

proof fn lemma_missing_roots_filtered(state: JsonTree, roots: Seq<Seq<char>>)
    ensures
        missing_root_count(state, roots) == roots.filter(
            |root: Seq<char>|
                normalized_root(root) matches Some(found) && !(has_workspace(
                    list_member(state, "project-order"@),
                    found,
                ) && has_workspace(list_member(state, "electron-saved-workspace-roots"@), found)),
        ).len(),
    decreases roots.len(),
{
    reveal(Seq::filter);
    if roots.len() > 0 {
        lemma_missing_roots_filtered(state, roots.drop_last());
        if let Some(found) = normalized_root(roots.last()) {
            lemma_has_workspace(state, "project-order"@, found);
            lemma_has_workspace(state, "electron-saved-workspace-roots"@, found);
        }
    }
}

/// A repair counts the workspaces that it adds to the list to which it adds most, each of them once
/// however many roots have it.
pub proof fn repair_counts_the_workspaces_that_it_adds(
    listed: Seq<Seq<char>>,
    roots: Seq<Seq<char>>,
    root: Seq<char>,
    state: JsonTree,
)
    ensures
        merged_roots(listed, Seq::empty()) == listed,
        match normalized_root(root) {
            Some(found) => if merged_roots(listed, roots).contains(found) {
                merged_roots(listed, roots.push(root)) == merged_roots(listed, roots)
            } else {
                merged_roots(listed, roots.push(root)) == merged_roots(listed, roots).push(found)
            },
            None => merged_roots(listed, roots.push(root)) == merged_roots(listed, roots),
        },
        state is Object ==> {
            let in_order = listed_roots(list_member(state, "project-order"@));
            let in_saved = listed_roots(list_member(state, "electron-saved-workspace-roots"@));
            let order_growth = merged_roots(in_order, roots).len() - in_order.len();
            let saved_growth = merged_roots(in_saved, roots).len() - in_saved.len();
            &&& repair_of(state, roots).0 >= order_growth
            &&& repair_of(state, roots).0 >= saved_growth
            &&& repair_of(state, roots).0 == order_growth || repair_of(state, roots).0
                == saved_growth
        },
{
    assert(roots.push(root).drop_last() =~= roots);
    assert(roots.push(root).last() == root);
    lemma_keys_differ();
    if state is Object {
        let order = "project-order"@;
        let saved = "electron-saved-workspace-roots"@;
        let first = merged_state(state, order, roots);
        assert(member_of(first, saved) == member_of(state, saved));
        assert(list_member(first, saved) == list_member(state, saved));
    }
}

} // verus!
