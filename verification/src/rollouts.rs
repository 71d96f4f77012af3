//! Rollout files: the record on a file's first line says which session it holds, and is changed
//! where it does not agree with the provider, the session index and the state database.

use vstd::hash_map::StringHashMap;
use vstd::hash_set::StringHashSet;
use vstd::prelude::*;
use vstd::utf8::{decode_utf8_encode_utf8, encode_utf8};

use crate::first_line::{
    content_of, first_line, first_line_of_a_text, head_has_the_first_line, is_head_of,
    lines_follow_the_first_line, read_first_line, rewritten_file_has_the_new_first_line,
    rewritten_file_is_rewritten_text, text_with_first_line, with_first_line,
};
use crate::json::{
    compact_json, member_of, numbers_canonical, parse_json, parsed_json, reads_back, render_json,
    set_entry, take_entry, text_member, text_of, with_member, within_levels, Json, JsonTree,
};
use crate::order::{
    in_order, in_order_is_sorted, is_path_less, path_less, path_less_is_total,
    path_less_is_transitive, place, Sortable,
};
use crate::paths::{
    is_settled, normalize_workspace_root, normalized_root, normalized_root_is_stable,
};
use crate::session_index::{index_view, indexed_root, root_text, session_index_workspace_root};
use crate::text::{
    begins_with, ends_with, finishes_with, lemma_trimmed_whole, lines_of, opt_view, same_opt,
    same_text, starts_with, trim, trimmed, views,
};
use crate::thread_source::{effective_source, resolve_effective_thread_source, ThreadSources};
use crate::threads::{read_sqlite_thread_ids, thread_ids, ThreadIds};
use crate::timestamps::{
    indexed_time, latest_time, line_time, opt_int, or_else, parse_session_index_updated_at_ms,
    record_time, resolve_target_modified_at_ms, rollout_file_activity_ms, settled_time, time_field,
    SESSION_INDEX_ACTIVITY_DRIFT_MS,
};

verus! {

/// Whether a file with this name is a rollout file.
pub open spec fn is_rollout_name(name: Seq<char>) -> bool {
    begins_with(name, "rollout-"@) && finishes_with(name, ".jsonl"@)
}

/// A file is a rollout file by its name, whatever stands between the two parts that all such names
/// have; a name without one of them is that of another file.
pub proof fn rollout_files_are_told_by_their_names(name: Seq<char>, middle: Seq<char>)
    ensures
        is_rollout_name("rollout-"@ + middle + ".jsonl"@),
        is_rollout_name(name) ==> name.len() >= 8 && name.take(8) == "rollout-"@ && name.skip(
            name.len() - 6,
        ) == ".jsonl"@,
{
    reveal_strlit("rollout-");
    reveal_strlit(".jsonl");
    let whole = "rollout-"@ + middle + ".jsonl"@;
    assert(whole.subrange(0, 8) =~= "rollout-"@);
    assert(whole.subrange(whole.len() - 6, whole.len() as int) =~= ".jsonl"@);
    if is_rollout_name(name) {
        assert(name.take(8) =~= name.subrange(0, 8));
        assert(name.skip(name.len() - 6) =~= name.subrange(name.len() - 6, name.len() as int));
    }
}

/// Whether a file with this name is a rollout file.
pub fn is_rollout_file_name(name: &str) -> (yes: bool)
    ensures
        yes == (begins_with(name@, "rollout-"@) && finishes_with(name@, ".jsonl"@)),
        yes == is_rollout_name(name@),
{
    starts_with(name, "rollout-") && ends_with(name, ".jsonl")
}

/// Whether a document is the record with which a rollout file begins.
pub open spec fn is_meta(record: JsonTree) -> bool {
    &&& text_member(record, "type"@) == Some("session_meta"@)
    &&& member_of(record, "payload"@) matches Some(payload) && payload is Object
}

/// The record that a first line holds.
pub open spec fn meta_on(line: Seq<char>) -> Option<JsonTree> {
    if trimmed(line).len() == 0 {
        None
    } else {
        match parsed_json(line) {
            Some(record) => if is_meta(record) {
                Some(record)
            } else {
                None
            },
            None => None,
        }
    }
}

/// Whether a document is the record with which a rollout file begins.
pub fn is_session_meta_record(record: &Json) -> (yes: bool)
    ensures
        yes == is_meta(record@),
{
    let typed = match record.get_str("type") {
        Some(text) => same_text(text, "session_meta"),
        None => false,
    };
    typed && match record.get("payload") {
        Some(Json::Object(_)) => true,
        _ => false,
    }
}

/// Reads the record that a first line holds.
pub fn parse_session_meta_record(first_line: &str) -> (meta: Option<Json>)
    ensures
        match meta {
            Some(meta) => meta_on(first_line@) == Some(meta@),
            None => meta_on(first_line@) is None,
        },
        meta matches Some(meta) ==> reads_back(meta@),
        meta matches Some(meta) ==> parsed_json(trimmed(first_line@)) == Some(meta@),
{
    if trim(first_line).as_str().is_empty() {
        return None;
    }
    match parse_json(first_line) {
        Some(record) => if is_session_meta_record(&record) {
            Some(record)
        } else {
            None
        },
        None => None,
    }
}

/// What stands under the key for a session's id, whatever it is.
pub open spec fn id_field(tree: JsonTree) -> Option<JsonTree> {
    or_else(member_of(tree, "id"@), member_of(tree, "session_id"@))
}

/// The id that a document gives, where it is text.
pub open spec fn own_id(tree: JsonTree) -> Option<Seq<char>> {
    match id_field(tree) {
        Some(id) => text_of(id),
        None => None,
    }
}

/// The session that a record belongs to: as its payload says, else as it says itself.
pub open spec fn meta_id(meta: JsonTree) -> Option<Seq<char>> {
    or_else(
        match member_of(meta, "payload"@) {
            Some(payload) => own_id(payload),
            None => None,
        },
        own_id(meta),
    )
}

fn get_own_id(value: &Json) -> (id: Option<String>)
    ensures
        opt_view(id) == own_id(value@),
{
    let field = match value.get("id") {
        Some(field) => field,
        None => match value.get("session_id") {
            Some(field) => field,
            None => return None,
        },
    };
    match field.as_str() {
        Some(id) => Some(id.to_owned()),
        None => None,
    }
}

/// The session that a record belongs to.
pub fn session_meta_id(meta: &Json) -> (id: Option<String>)
    ensures
        opt_view(id) == meta_id(meta@),
{
    if let Some(payload) = meta.get("payload") {
        if let Some(id) = get_own_id(payload) {
            return Some(id);
        }
    }
    get_own_id(meta)
}

/// What a record gives as its working directory, whatever it is.
pub open spec fn cwd_field(meta: JsonTree) -> Option<JsonTree> {
    or_else(
        match member_of(meta, "payload"@) {
            Some(payload) => member_of(payload, "cwd"@),
            None => None,
        },
        member_of(meta, "cwd"@),
    )
}

/// The workspace root of a record, in normalized form.
pub open spec fn meta_root(meta: JsonTree) -> Option<Seq<char>> {
    match cwd_field(meta) {
        Some(cwd) => match text_of(cwd) {
            Some(text) => normalized_root(text),
            None => None,
        },
        None => None,
    }
}

fn root_of_field(field: &Json) -> (root: Option<String>)
    ensures
        opt_view(root) == match text_of(field@) {
            Some(text) => normalized_root(text),
            None => None,
        },
{
    match field.as_str() {
        Some(text) => normalize_workspace_root(text),
        None => None,
    }
}

/// The workspace root of a record, in normalized form.
pub fn session_meta_cwd(meta: &Json) -> (root: Option<String>)
    ensures
        opt_view(root) == meta_root(meta@),
{
    if let Some(payload) = meta.get("payload") {
        if let Some(cwd) = payload.get("cwd") {
            return root_of_field(cwd);
        }
    }
    match meta.get("cwd") {
        Some(cwd) => root_of_field(cwd),
        None => None,
    }
}

/// The entry of a record's session in the index.
pub open spec fn meta_entry(meta: JsonTree, index: Map<Seq<char>, JsonTree>) -> Option<JsonTree> {
    match meta_id(meta) {
        Some(id) => if index.contains_key(id) {
            Some(index[id])
        } else {
            None
        },
        None => None,
    }
}

fn find_meta_entry<'a>(meta: &Json, index: &'a StringHashMap<Json>) -> (entry: Option<&'a Json>)
    ensures
        match entry {
            Some(entry) => meta_entry(meta@, index_view(index@)) == Some(entry@),
            None => meta_entry(meta@, index_view(index@)) is None,
        },
{
    match session_meta_id(meta) {
        Some(id) => index.get(id.as_str()),
        None => None,
    }
}

/// The modification time that a rollout file should have.
pub open spec fn target_time(
    meta: JsonTree,
    index: Map<Seq<char>, JsonTree>,
    content: Option<Seq<char>>,
    fallback_ms: Option<int>,
) -> Option<int> {
    let indexed = match meta_entry(meta, index) {
        Some(entry) => indexed_time(entry),
        None => None,
    };
    let activity = match content {
        Some(content) => latest_time(lines_of(content)),
        None => None,
    };
    or_else(
        settled_time(indexed, activity, SESSION_INDEX_ACTIVITY_DRIFT_MS as int),
        fallback_ms,
    )
}

/// The modification time that a rollout file should have, in milliseconds: `content` is what the
/// file holds, where it is text, and `fallback_ms` the time it has.
pub fn rollout_target_modified_ms(
    meta: &Json,
    index: &StringHashMap<Json>,
    content: &Option<String>,
    fallback_ms: Option<i128>,
) -> (target: Option<i128>)
    ensures
        opt_int(target) == target_time(
            meta@,
            index_view(index@),
            opt_view(*content),
            opt_int(fallback_ms),
        ),
{
    let indexed = match find_meta_entry(meta, index) {
        Some(entry) => parse_session_index_updated_at_ms(entry),
        None => None,
    };
    let activity = match content {
        Some(content) => rollout_file_activity_ms(content.as_str()),
        None => None,
    };
    resolve_target_modified_at_ms(indexed, activity, fallback_ms)
}

/// The workspace root that the index gives for a record's session.
pub open spec fn wanted_root(meta: JsonTree, index: Map<Seq<char>, JsonTree>) -> Option<Seq<char>> {
    match meta_entry(meta, index) {
        Some(entry) => indexed_root(entry),
        None => None,
    }
}

/// The plain source that a record should have, where its own is not text.
pub open spec fn wanted_source(
    meta: JsonTree,
    sources: Map<Seq<char>, Seq<char>>,
) -> Option<Seq<char>> {
    match member_of(meta, "payload"@) {
        Some(payload) => match member_of(payload, "source"@) {
            Some(source) => if source is Text {
                None
            } else {
                match meta_id(meta) {
                    Some(id) => effective_source(id, sources),
                    None => None,
                }
            },
            None => None,
        },
        None => None,
    }
}

/// Whether the record names `provider`; one without a provider names the empty one.
pub open spec fn provider_matches(meta: JsonTree, provider: Seq<char>) -> bool {
    match member_of(meta, "payload"@) {
        Some(payload) => match text_member(payload, "model_provider"@) {
            Some(current) => current == provider,
            None => provider.len() == 0,
        },
        None => provider.len() == 0,
    }
}

/// Whether the record's workspace root is that of the index, where the index gives one.
pub open spec fn root_matches(meta: JsonTree, index: Map<Seq<char>, JsonTree>) -> bool {
    wanted_root(meta, index) is None || meta_root(meta) == wanted_root(meta, index)
}

/// Whether nothing in the record has to change.
pub open spec fn record_matches(
    meta: JsonTree,
    provider: Seq<char>,
    index: Map<Seq<char>, JsonTree>,
    sources: Map<Seq<char>, Seq<char>>,
) -> bool {
    &&& provider_matches(meta, provider)
    &&& root_matches(meta, index)
    &&& wanted_source(meta, sources) is None
}

/// `tree` with the text under `key`, where there is one.
pub open spec fn with_text(tree: JsonTree, key: Seq<char>, text: Option<Seq<char>>) -> JsonTree {
    match text {
        Some(text) => with_member(tree, key, JsonTree::Text(text)),
        None => tree,
    }
}

/// The record with the provider, and with the workspace root and the source that it should have.
pub open spec fn updated_meta(
    meta: JsonTree,
    provider: Seq<char>,
    index: Map<Seq<char>, JsonTree>,
    sources: Map<Seq<char>, Seq<char>>,
) -> JsonTree {
    let root = if root_matches(meta, index) {
        None
    } else {
        wanted_root(meta, index)
    };
    let payload = member_of(meta, "payload"@)->0;
    let named = with_text(payload, "model_provider"@, Some(provider));
    let placed = with_text(named, "cwd"@, root);
    with_member(meta, "payload"@, with_text(placed, "source"@, wanted_source(meta, sources)))
}

proof fn lemma_texts_read_back(payload: JsonTree, key: Seq<char>, text: Option<Seq<char>>)
    requires
        payload is Object,
        numbers_canonical(payload),
        within_levels(payload, 126),
    ensures
        with_text(payload, key, text) is Object,
        numbers_canonical(with_text(payload, key, text)),
        within_levels(with_text(payload, key, text), 126),
{
    if let Some(text) = text {
        let members = payload->Object_0;
        let next = members.insert(key, JsonTree::Text(text));
        assert forall|k: Seq<char>| #[trigger] next.contains_key(k) implies numbers_canonical(
            next[k],
        ) && within_levels(next[k], 125) by {
            if k != key {
                assert(members.contains_key(k));
            }
        }
    }
}

proof fn lemma_updated_meta(
    meta: JsonTree,
    provider: Seq<char>,
    index: Map<Seq<char>, JsonTree>,
    sources: Map<Seq<char>, Seq<char>>,
)
    requires
        is_meta(meta),
        reads_back(meta),
    ensures
        is_meta(updated_meta(meta, provider, index, sources)),
        reads_back(updated_meta(meta, provider, index, sources)),
{
    reveal_strlit("type");
    reveal_strlit("payload");
    assert("type"@.len() != "payload"@.len());
    let members = meta->Object_0;
    let payload = members["payload"@];
    assert(members.contains_key("payload"@));
    let root = if root_matches(meta, index) {
        None
    } else {
        wanted_root(meta, index)
    };
    let named = with_text(payload, "model_provider"@, Some(provider));
    let placed = with_text(named, "cwd"@, root);
    let last = with_text(placed, "source"@, wanted_source(meta, sources));
    lemma_texts_read_back(payload, "model_provider"@, Some(provider));
    lemma_texts_read_back(named, "cwd"@, root);
    lemma_texts_read_back(placed, "source"@, wanted_source(meta, sources));
    let next = members.insert("payload"@, last);
    assert forall|k: Seq<char>| #[trigger] next.contains_key(k) implies numbers_canonical(next[k])
        && within_levels(next[k], 126) by {
        if k != "payload"@ {
            assert(members.contains_key(k));
        }
    }
}

/// The record on the first line of a file, once it is updated, needs no further update, unless the
/// workspace root that it was given has surrounding white space or an extended-length prefix.
pub proof fn updated_record_matches(
    meta: JsonTree,
    provider: Seq<char>,
    index: Map<Seq<char>, JsonTree>,
    sources: Map<Seq<char>, Seq<char>>,
)
    requires
        is_meta(meta),
        !root_matches(meta, index) ==> is_settled(wanted_root(meta, index)->0),
    ensures
        is_meta(updated_meta(meta, provider, index, sources)),
        record_matches(updated_meta(meta, provider, index, sources), provider, index, sources),
        meta_id(updated_meta(meta, provider, index, sources)) == meta_id(meta),
{
    reveal_strlit("type");
    assert("type"@.len() == 4);
    reveal_strlit("payload");
    reveal_strlit("id");
    reveal_strlit("session_id");
    reveal_strlit("cwd");
    reveal_strlit("model_provider");
    reveal_strlit("source");
    assert("id"@.len() == 2 && "session_id"@.len() == 10 && "payload"@.len() == 7);
    assert("cwd"@.len() == 3 && "model_provider"@.len() == 14 && "source"@.len() == 6);
    let next = updated_meta(meta, provider, index, sources);
    let payload = member_of(meta, "payload"@)->0;
    let next_payload = member_of(next, "payload"@)->0;
    assert(member_of(next, "payload"@) is Some);
    assert(own_id(next_payload) == own_id(payload));
    assert(own_id(next) == own_id(meta));
    assert(meta_id(next) == meta_id(meta));
    assert(wanted_root(next, index) == wanted_root(meta, index));
    if root_matches(meta, index) {
        assert(member_of(next_payload, "cwd"@) == member_of(payload, "cwd"@));
        assert(member_of(next, "cwd"@) == member_of(meta, "cwd"@));
        assert(meta_root(next) == meta_root(meta));
    } else {
        let root = wanted_root(meta, index)->0;
        assert(member_of(next_payload, "cwd"@) == Some(JsonTree::Text(root)));
        let entry = meta_entry(meta, index)->0;
        normalized_root_is_stable(root_text(entry)->0);
        assert(meta_root(next) == Some(root));
    }
}

proof fn lemma_updated_meta_id(
    meta: JsonTree,
    provider: Seq<char>,
    index: Map<Seq<char>, JsonTree>,
    sources: Map<Seq<char>, Seq<char>>,
)
    requires
        is_meta(meta),
    ensures
        meta_id(updated_meta(meta, provider, index, sources)) == meta_id(meta),
{
    reveal_strlit("payload");
    reveal_strlit("id");
    reveal_strlit("session_id");
    reveal_strlit("cwd");
    reveal_strlit("model_provider");
    reveal_strlit("source");
    assert("id"@.len() == 2 && "session_id"@.len() == 10 && "payload"@.len() == 7);
    assert("cwd"@.len() == 3 && "model_provider"@.len() == 14 && "source"@.len() == 6);
    let next = updated_meta(meta, provider, index, sources);
    assert(own_id(member_of(next, "payload"@)->0) == own_id(member_of(meta, "payload"@)->0));
    assert(own_id(next) == own_id(meta));
}

/// An update of a record leaves the time at which it was written as it was.
pub proof fn updated_record_keeps_its_time(
    meta: JsonTree,
    provider: Seq<char>,
    index: Map<Seq<char>, JsonTree>,
    sources: Map<Seq<char>, Seq<char>>,
)
    requires
        is_meta(meta),
    ensures
        record_time(updated_meta(meta, provider, index, sources)) == record_time(meta),
{
    reveal_strlit("payload");
    reveal_strlit("cwd");
    reveal_strlit("model_provider");
    reveal_strlit("source");
    reveal_strlit("timestamp");
    reveal_strlit("time");
    reveal_strlit("created_at");
    reveal_strlit("createdAt");
    assert("payload"@.len() == 7 && "cwd"@.len() == 3 && "model_provider"@.len() == 14);
    assert("source"@.len() == 6 && "timestamp"@.len() == 9 && "time"@.len() == 4);
    assert("created_at"@.len() == 10 && "createdAt"@.len() == 9);
    let next = updated_meta(meta, provider, index, sources);
    let payload = member_of(meta, "payload"@)->0;
    let next_payload = member_of(next, "payload"@)->0;
    assert(time_field(next_payload) == time_field(payload));
    assert(time_field(next) == time_field(meta));
}

/// The record with the provider, and with the workspace root and the source where they are given.
fn update_meta(
    meta: Json,
    provider: &str,
    root: Option<String>,
    source: Option<String>,
) -> (updated: Json)
    requires
        is_meta(meta@),
    ensures
        updated@ == with_member(
            meta@,
            "payload"@,
            with_text(
                with_text(
                    with_text(member_of(meta@, "payload"@)->0, "model_provider"@, Some(provider@)),
                    "cwd"@,
                    opt_view(root),
                ),
                "source"@,
                opt_view(source),
            ),
        ),
{
    match meta {
        Json::Object(mut entries) => {
            let payload = match take_entry(&mut entries, "payload") {
                Some(payload) => payload,
                None => return Json::Object(entries),
            };
            let next = match payload {
                Json::Object(mut members) => {
                    set_entry(
                        &mut members,
                        "model_provider".to_owned(),
                        Json::Text(provider.to_owned()),
                    );
                    if let Some(root) = root {
                        set_entry(&mut members, "cwd".to_owned(), Json::Text(root));
                    }
                    if let Some(source) = source {
                        set_entry(&mut members, "source".to_owned(), Json::Text(source));
                    }
                    Json::Object(members)
                },
                other => other,
            };
            set_entry(&mut entries, "payload".to_owned(), next);
            Json::Object(entries)
        },
        other => other,
    }
}

/// What has to change about a rollout file: nothing, only its modification time, or its first line
/// too.
pub open spec fn rollout_change(
    meta: JsonTree,
    provider: Seq<char>,
    index: Map<Seq<char>, JsonTree>,
    sources: Map<Seq<char>, Seq<char>>,
    modified_ms: Option<i128>,
    target_ms: Option<i128>,
) -> Option<Option<Seq<char>>> {
    if record_matches(meta, provider, index, sources) {
        if target_ms is None || modified_ms == target_ms {
            None
        } else {
            Some(None)
        }
    } else {
        Some(Some(compact_json(updated_meta(meta, provider, index, sources))))
    }
}

/// Whether a text is one line, and holds the record.
pub open spec fn holds_record(line: Seq<char>, record: JsonTree) -> bool {
    &&& meta_on(line) == Some(record)
    &&& trimmed(line) == line
    &&& line.len() > 0
    &&& line.last() != '\r'
    &&& forall|i: int| 0 <= i < line.len() ==> line[i] != '\n'
}

proof fn lemma_latest_time_of_update(lines: Seq<Seq<char>>, line: Seq<char>)
    requires
        lines.len() > 0,
        line_time(line) == line_time(lines[0]),
    ensures
        latest_time(lines.update(0, line)) == latest_time(lines),
    decreases lines.len(),
{
    let next = lines.update(0, line);
    if lines.len() > 1 {
        lemma_latest_time_of_update(lines.drop_last(), line);
        assert(next.drop_last() =~= lines.drop_last().update(0, line));
        assert(next.last() == lines.last());
    } else {
        assert(next.drop_last() =~= lines.drop_last());
        assert(next.last() == line && lines.last() == lines[0]);
    }
}

/// A file that gets its updated record as its first line should have the same modification time as
/// before.
pub proof fn new_first_line_keeps_the_target_time(
    meta: JsonTree,
    provider: Seq<char>,
    index: Map<Seq<char>, JsonTree>,
    sources: Map<Seq<char>, Seq<char>>,
    text: Seq<char>,
    line: Seq<char>,
    fallback_ms: Option<int>,
)
    requires
        is_meta(meta),
        text.len() > 0,
        parsed_json(trimmed(lines_of(text)[0])) == Some(meta),
        holds_record(line, updated_meta(meta, provider, index, sources)),
    ensures
        target_time(
            updated_meta(meta, provider, index, sources),
            index,
            Some(text_with_first_line(text, line)),
            fallback_ms,
        ) == target_time(meta, index, Some(text), fallback_ms),
{
    let lines = lines_of(text);
    lines_follow_the_first_line(text, line);
    updated_record_keeps_its_time(meta, provider, index, sources);
    lemma_updated_meta_id(meta, provider, index, sources);
    assert(line_time(line) == line_time(lines[0]));
    lemma_latest_time_of_update(lines, line);
}

/// What has to change about a rollout file that begins with the record `meta`: nothing, only its
/// modification time, or its first line too. A new first line holds the updated record.
pub fn plan_rollout_change(
    meta: Json,
    target_provider: &str,
    index: &StringHashMap<Json>,
    sources: &ThreadSources,
    modified_ms: Option<i128>,
    target_ms: Option<i128>,
) -> (change: Option<Option<String>>)
    requires
        is_meta(meta@),
        reads_back(meta@),
        sources.wf(),
    ensures
        ({
            let index = index_view(index@);
            let updated = updated_meta(meta@, target_provider@, index, sources@);
            let wanted = rollout_change(
                meta@,
                target_provider@,
                index,
                sources@,
                modified_ms,
                target_ms,
            );
            &&& match change {
                Some(line) => wanted == Some(opt_view(line)),
                None => wanted is None,
            }
            &&& change matches Some(Some(line)) ==> holds_record(line@, updated)
        }),
{
    let ghost index_map = index_view(index@);
    let ghost whole = meta@;
    let session_id = session_meta_id(&meta);
    let mut provider_matches = false;
    let mut wants_source = false;
    if let Some(payload) = meta.get("payload") {
        provider_matches =
        match payload.get_str("model_provider") {
            Some(current) => same_text(current, target_provider),
            None => target_provider.is_empty(),
        };
        wants_source =
        match payload.get("source") {
            Some(Json::Text(_)) => false,
            Some(_) => true,
            None => false,
        };
    }
    let target_source = if wants_source {
        match &session_id {
            Some(id) => resolve_effective_thread_source(id.as_str(), sources),
            None => None,
        }
    } else {
        None
    };
    let target_root = match find_meta_entry(&meta, index) {
        Some(entry) => session_index_workspace_root(entry),
        None => None,
    };
    let current_root = session_meta_cwd(&meta);
    let cwd_matches = target_root.is_none() || same_opt(&current_root, &target_root);
    let time_matches = match (target_ms, modified_ms) {
        (Some(target), Some(modified)) => target == modified,
        (Some(_), None) => false,
        (None, _) => true,
    };
    if provider_matches && cwd_matches && target_source.is_none() {
        return if time_matches {
            None
        } else {
            Some(None)
        };
    }
    let root = if cwd_matches {
        None
    } else {
        target_root
    };
    proof {
        lemma_updated_meta(whole, target_provider@, index_map, sources@);
    }
    let updated = update_meta(meta, target_provider, root, target_source);
    match render_json(&updated) {
        Ok(line) => {
            proof {
                lemma_trimmed_whole(line@);
            }
            Some(Some(line))
        },
        Err(_) => Some(None),
    }
}

/// A rollout file, as far as it was read.
#[derive(Debug)]
pub struct RolloutFile {
    /// Where it is, as messages say it.
    pub path: String,
    /// The parts of its path below the data directory.
    pub relative_path: Vec<String>,
    /// Its bytes, at least as far as its first line feed.
    pub head: Vec<u8>,
    /// The modification time that it has, in milliseconds.
    pub modified_ms: Option<i128>,
    /// The modification time that it should have, in milliseconds, where the system has such a
    /// time.
    pub target_modified_ms: Option<i128>,
}

/// What came of reading a rollout file.
#[derive(Debug)]
pub enum RolloutEntry {
    /// It could not be read, for the reason given.
    Unread(String),
    Read(RolloutFile),
}

/// The record with which a rollout file begins; nothing where its first line holds none. A file
/// that could not be read is an error, as is a first line that is no UTF-8.
pub open spec fn entry_meta(entry: RolloutEntry) -> Result<Option<JsonTree>, Seq<char>> {
    match entry {
        RolloutEntry::Unread(text) => Err(text@),
        RolloutEntry::Read(file) => match first_line(file.path@, file.head@) {
            Ok(Some((line, _))) => Ok(meta_on(line)),
            Ok(None) => Ok(None),
            Err(text) => Err(text),
        },
    }
}

/// Whether white space around the first line of a file makes no difference to its record.
pub open spec fn reads_alike(entry: RolloutEntry, record: JsonTree) -> bool {
    entry matches RolloutEntry::Read(file) ==> (first_line(file.path@, file.head@) matches Ok(
        Some((line, _)),
    ) ==> parsed_json(trimmed(line)) == Some(record))
}

/// The record with which a rollout file begins.
pub fn read_session_meta(entry: &RolloutEntry) -> (meta: Result<Option<Json>, String>)
    ensures
        match entry_meta(*entry) {
            Ok(Some(record)) => meta matches Ok(Some(meta)) && meta@ == record && is_meta(record)
                && reads_back(record) && reads_alike(*entry, record),
            Ok(None) => meta matches Ok(None),
            Err(text) => meta matches Err(error) && error@ == text,
        },
{
    match entry {
        RolloutEntry::Unread(text) => Err(text.clone()),
        RolloutEntry::Read(file) => match read_first_line(file.path.as_str(), &file.head) {
            Ok(Some((line, _))) => Ok(parse_session_meta_record(line.as_str())),
            Ok(None) => Ok(None),
            Err(text) => Err(text),
        },
    }
}

/// The file with the modification time that it should have, where it begins with a record:
/// `content` is what it holds, where it is text.
pub fn with_target_time(
    entry: RolloutEntry,
    index: &StringHashMap<Json>,
    content: &Option<String>,
) -> (next: RolloutEntry)
    ensures
        match (entry, entry_meta(entry)) {
            (RolloutEntry::Read(file), Ok(Some(meta))) => {
                &&& next matches RolloutEntry::Read(filled)
                &&& filled.path == file.path
                &&& filled.relative_path == file.relative_path
                &&& filled.head == file.head
                &&& filled.modified_ms == file.modified_ms
                &&& opt_int(filled.target_modified_ms) == target_time(
                    meta,
                    index_view(index@),
                    opt_view(*content),
                    opt_int(file.modified_ms),
                )
            },
            _ => next == entry,
        },
{
    let meta = match read_session_meta(&entry) {
        Ok(Some(meta)) => meta,
        _ => return entry,
    };
    match entry {
        RolloutEntry::Read(file) => {
            let target_modified_ms = rollout_target_modified_ms(
                &meta,
                index,
                content,
                file.modified_ms,
            );
            RolloutEntry::Read(RolloutFile { target_modified_ms, ..file })
        },
        RolloutEntry::Unread(text) => RolloutEntry::Unread(text),
    }
}

/// A change of a rollout file.
#[derive(Debug)]
pub struct RolloutProviderChange {
    /// Which of the files that were looked at it is.
    pub file: usize,
    pub relative_path: Vec<String>,
    pub updated_first_line: Option<String>,
    pub target_modified_ms: Option<i128>,
}

/// What a `RolloutProviderChange` says.
pub struct ChangeText {
    pub file: int,
    pub relative_path: Seq<Seq<char>>,
    pub updated_first_line: Option<Seq<char>>,
    pub target_modified_ms: Option<i128>,
}

impl View for RolloutProviderChange {
    type V = ChangeText;

    open spec fn view(&self) -> ChangeText {
        ChangeText {
            file: self.file as int,
            relative_path: views(self.relative_path@),
            updated_first_line: opt_view(self.updated_first_line),
            target_modified_ms: self.target_modified_ms,
        }
    }
}

/// What each of the changes says.
pub open spec fn change_texts(changes: Seq<RolloutProviderChange>) -> Seq<ChangeText> {
    changes.map_values(|change: RolloutProviderChange| change@)
}

impl Sortable for RolloutProviderChange {
    open spec fn after(self, other: Self) -> bool {
        path_less(views(other.relative_path@), views(self.relative_path@))
    }

    proof fn after_is_an_order(a: Self, b: Self, c: Self) {
        let x = views(a.relative_path@);
        let y = views(b.relative_path@);
        let z = views(c.relative_path@);
        path_less_is_total(x, y);
        path_less_is_total(y, z);
        path_less_is_total(x, z);
        if z != x && !a.after(b) && !b.after(c) && a.after(c) && x != y {
            path_less_is_transitive(z, x, y);
        }
    }

    fn is_after(&self, other: &Self) -> (after: bool) {
        is_path_less(&other.relative_path, &self.relative_path)
    }
}

/// The changes that the files need, in the order of the files; or the error of the first file that
/// has one.
pub open spec fn rollout_changes(
    entries: Seq<RolloutEntry>,
    provider: Seq<char>,
    index: Map<Seq<char>, JsonTree>,
    sources: Map<Seq<char>, Seq<char>>,
) -> Result<Seq<ChangeText>, Seq<char>>
    decreases entries.len(),
{
    if entries.len() == 0 {
        Ok(seq![])
    } else {
        match rollout_changes(entries.drop_last(), provider, index, sources) {
            Err(text) => Err(text),
            Ok(changes) => match entry_meta(entries.last()) {
                Err(text) => Err(text),
                Ok(None) => Ok(changes),
                Ok(Some(meta)) => {
                    let file = entries.last()->Read_0;
                    match rollout_change(
                        meta,
                        provider,
                        index,
                        sources,
                        file.modified_ms,
                        file.target_modified_ms,
                    ) {
                        None => Ok(changes),
                        Some(line) => Ok(
                            changes.push(
                                ChangeText {
                                    file: entries.len() - 1,
                                    relative_path: views(file.relative_path@),
                                    updated_first_line: line,
                                    target_modified_ms: file.target_modified_ms,
                                },
                            ),
                        ),
                    }
                },
            },
        }
    }
}

/// What has to change about a file, where it begins with a record.
pub open spec fn entry_change(
    entry: RolloutEntry,
    provider: Seq<char>,
    index: Map<Seq<char>, JsonTree>,
    sources: Map<Seq<char>, Seq<char>>,
) -> Option<Option<Seq<char>>> {
    match (entry_meta(entry), entry) {
        (Ok(Some(meta)), RolloutEntry::Read(file)) => rollout_change(
            meta,
            provider,
            index,
            sources,
            file.modified_ms,
            file.target_modified_ms,
        ),
        _ => None,
    }
}

/// The time, where it is one that the system has a value for.
pub open spec fn known_time(known: spec_fn(int) -> bool, time: Option<int>) -> Option<int> {
    match time {
        Some(time) if known(time) => Some(time),
        _ => None,
    }
}

/// Whether an entry is what is found of a file with these bytes: its beginning, and the modification
/// time that the file should have where it begins with a record. A time that the system has no value
/// for is none.
pub open spec fn is_found(
    entry: RolloutEntry,
    bytes: Seq<u8>,
    index: Map<Seq<char>, JsonTree>,
    known: spec_fn(int) -> bool,
) -> bool {
    entry matches RolloutEntry::Read(file) ==> {
        &&& is_head_of(file.head@, bytes)
        &&& entry_meta(entry) matches Ok(Some(meta)) ==> opt_int(file.target_modified_ms)
            == known_time(
            known,
            target_time(meta, index, content_of(bytes), opt_int(file.modified_ms)),
        )
    }
}

/// Whether a file that was found as `entry` is found as `next` once its change is made: its bytes
/// have the new first line where it gets one, and it has the modification time that it should have
/// where there is such a time. A file without a change is as it was.
pub open spec fn is_changed_to(
    entry: RolloutEntry,
    bytes: Seq<u8>,
    next: RolloutEntry,
    provider: Seq<char>,
    index: Map<Seq<char>, JsonTree>,
    sources: Map<Seq<char>, Seq<char>>,
    known: spec_fn(int) -> bool,
) -> bool {
    match entry_change(entry, provider, index, sources) {
        None => next == entry,
        Some(line) => {
            let file = entry->Read_0;
            &&& next matches RolloutEntry::Read(changed)
            &&& changed.path@ == file.path@
            &&& file.target_modified_ms is Some ==> changed.modified_ms == file.target_modified_ms
            &&& is_found(
                next,
                match line {
                    Some(line) => with_first_line(bytes, line),
                    None => bytes,
                },
                index,
                known,
            )
        },
    }
}

/// Whether a file that begins with the record of a session names the provider there; one that names
/// none names the empty one.
pub open spec fn names_provider(entry: RolloutEntry, provider: Seq<char>) -> bool {
    entry_meta(entry) matches Ok(Some(meta)) ==> (member_of(meta, "payload"@) matches Some(payload)
        && (text_member(payload, "model_provider"@) == Some(provider) || text_member(
        payload,
        "model_provider"@,
    ) is None && provider.len() == 0))
}

/// Whether the workspace root that a file's record gets, where it gets one, has neither surrounding
/// white space nor an extended-length prefix.
pub open spec fn new_root_is_settled(
    entry: RolloutEntry,
    index: Map<Seq<char>, JsonTree>,
) -> bool {
    entry_meta(entry) matches Ok(Some(meta)) ==> root_matches(meta, index) || is_settled(
        wanted_root(meta, index)->0,
    )
}

/// Whether files with these bytes, found as `entries`, are found as `next` once their changes are
/// made.
pub open spec fn are_changed_to(
    entries: Seq<RolloutEntry>,
    files: Seq<Seq<u8>>,
    next: Seq<RolloutEntry>,
    provider: Seq<char>,
    index: Map<Seq<char>, JsonTree>,
    sources: Map<Seq<char>, Seq<char>>,
    known: spec_fn(int) -> bool,
) -> bool {
    &&& next.len() == entries.len()
    &&& files.len() == entries.len()
    &&& forall|i: int|
        0 <= i < entries.len() ==> is_found_and_changed(
            entries[i],
            files[i],
            #[trigger] next[i],
            provider,
            index,
            sources,
            known,
        )
}

/// Whether a file with these bytes, found as `entry`, is found as `next` once its change is made.
pub open spec fn is_found_and_changed(
    entry: RolloutEntry,
    bytes: Seq<u8>,
    next: RolloutEntry,
    provider: Seq<char>,
    index: Map<Seq<char>, JsonTree>,
    sources: Map<Seq<char>, Seq<char>>,
    known: spec_fn(int) -> bool,
) -> bool {
    &&& is_found(entry, bytes, index, known)
    &&& is_changed_to(entry, bytes, next, provider, index, sources, known)
    &&& new_root_is_settled(entry, index)
}

/// Whether every new first line holds the updated record of its file.
spec fn lines_hold_records(
    entries: Seq<RolloutEntry>,
    provider: Seq<char>,
    index: Map<Seq<char>, JsonTree>,
    sources: Map<Seq<char>, Seq<char>>,
) -> bool {
    forall|i: int|
        0 <= i < entries.len() ==> line_holds_record(
            #[trigger] entries[i],
            provider,
            index,
            sources,
        )
}

spec fn line_holds_record(
    entry: RolloutEntry,
    provider: Seq<char>,
    index: Map<Seq<char>, JsonTree>,
    sources: Map<Seq<char>, Seq<char>>,
) -> bool {
    &&& entry_change(entry, provider, index, sources) matches Some(Some(line)) ==> holds_record(
        line,
        updated_meta(entry_meta(entry)->Ok_0->0, provider, index, sources),
    )
    &&& entry_meta(entry) matches Ok(Some(meta)) ==> reads_alike(entry, meta)
}

/// The time that a file should have, but for the one that it has.
spec fn wanted_time(
    meta: JsonTree,
    index: Map<Seq<char>, JsonTree>,
    content: Option<Seq<char>>,
) -> Option<int> {
    target_time(meta, index, content, None)
}

proof fn lemma_rewriting_keeps_the_time(
    file: RolloutFile,
    bytes: Seq<u8>,
    meta: JsonTree,
    line: Seq<char>,
    provider: Seq<char>,
    index: Map<Seq<char>, JsonTree>,
    sources: Map<Seq<char>, Seq<char>>,
)
    requires
        is_head_of(file.head@, bytes),
        entry_meta(RolloutEntry::Read(file)) == Ok::<Option<JsonTree>, Seq<char>>(Some(meta)),
        reads_alike(RolloutEntry::Read(file), meta),
        holds_record(line, updated_meta(meta, provider, index, sources)),
    ensures
        wanted_time(
            updated_meta(meta, provider, index, sources),
            index,
            content_of(with_first_line(bytes, line)),
        ) == wanted_time(meta, index, content_of(bytes)),
{
    head_has_the_first_line(file.path@, file.head@, bytes);
    rewritten_file_is_rewritten_text(bytes, line);
    lemma_updated_meta_id(meta, provider, index, sources);
    if let Some(text) = content_of(bytes) {
        decode_utf8_encode_utf8(bytes);
        assert(bytes.len() > 0);
        assert(text.len() > 0) by {
            if text.len() == 0 {
                assert(encode_utf8(text) =~= seq![]);
            }
        }
        first_line_of_a_text(text);
        new_first_line_keeps_the_target_time(meta, provider, index, sources, text, line, None);
    }
}

proof fn lemma_changed_file_needs_no_change(
    entry: RolloutEntry,
    bytes: Seq<u8>,
    next: RolloutEntry,
    provider: Seq<char>,
    index: Map<Seq<char>, JsonTree>,
    sources: Map<Seq<char>, Seq<char>>,
    known: spec_fn(int) -> bool,
)
    requires
        entry_meta(entry) is Ok,
        is_found(entry, bytes, index, known),
        is_changed_to(entry, bytes, next, provider, index, sources, known),
        new_root_is_settled(entry, index),
        line_holds_record(entry, provider, index, sources),
    ensures
        entry_meta(next) is Ok,
        entry_change(next, provider, index, sources) is None,
{
    if let Some(line) = entry_change(entry, provider, index, sources) {
        let meta = entry_meta(entry)->Ok_0->0;
        let file = entry->Read_0;
        let changed = next->Read_0;
        lemma_entry_meta_is_meta(entry);
        head_has_the_first_line(file.path@, file.head@, bytes);
        match line {
            Some(line) => {
                let updated = updated_meta(meta, provider, index, sources);
                let next_bytes = with_first_line(bytes, line);
                rewritten_file_has_the_new_first_line(file.path@, bytes, line);
                head_has_the_first_line(changed.path@, changed.head@, next_bytes);
                updated_record_matches(meta, provider, index, sources);
                assert(entry_meta(next) == Ok::<Option<JsonTree>, Seq<char>>(Some(updated)));
                lemma_rewriting_keeps_the_time(
                    file,
                    bytes,
                    meta,
                    line,
                    provider,
                    index,
                    sources,
                );
                assert(wanted_time(updated, index, content_of(next_bytes)) == wanted_time(
                    meta,
                    index,
                    content_of(bytes),
                ));
            },
            None => {
                head_has_the_first_line(changed.path@, changed.head@, bytes);
                assert(entry_meta(next) == entry_meta(entry));
            },
        }
    }
}

proof fn lemma_entry_meta_is_meta(entry: RolloutEntry)
    ensures
        entry_meta(entry) matches Ok(Some(meta)) ==> is_meta(meta) && entry is Read,
{
}

proof fn lemma_second_collection(
    entries: Seq<RolloutEntry>,
    files: Seq<Seq<u8>>,
    next: Seq<RolloutEntry>,
    provider: Seq<char>,
    index: Map<Seq<char>, JsonTree>,
    sources: Map<Seq<char>, Seq<char>>,
    known: spec_fn(int) -> bool,
)
    requires
        rollout_changes(entries, provider, index, sources) is Ok,
        lines_hold_records(entries, provider, index, sources),
        are_changed_to(entries, files, next, provider, index, sources, known),
    ensures
        rollout_changes(next, provider, index, sources) == Ok::<Seq<ChangeText>, Seq<char>>(seq![]),
    decreases entries.len(),
{
    if entries.len() > 0 {
        let rest = entries.drop_last();
        let next_rest = next.drop_last();
        let files_rest = files.drop_last();
        assert forall|i: int| 0 <= i < rest.len() implies line_holds_record(
            #[trigger] rest[i],
            provider,
            index,
            sources,
        ) by {
            assert(rest[i] == entries[i]);
        }
        assert forall|i: int| 0 <= i < rest.len() implies is_found_and_changed(
            rest[i],
            files_rest[i],
            #[trigger] next_rest[i],
            provider,
            index,
            sources,
            known,
        ) by {
            assert(next_rest[i] == next[i] && rest[i] == entries[i]);
            assert(files_rest[i] == files[i]);
        }
        lemma_second_collection(rest, files_rest, next_rest, provider, index, sources, known);
        let last = entries.len() - 1;
        assert(entries[last] == entries.last() && next[last] == next.last());
        assert(line_holds_record(entries[last], provider, index, sources));
        lemma_changed_file_needs_no_change(
            entries.last(),
            files.last(),
            next.last(),
            provider,
            index,
            sources,
            known,
        );
        lemma_entry_meta_is_meta(next.last());
    }
}

/// The same texts once more.
pub fn copy_texts(texts: &Vec<String>) -> (copy: Vec<String>)
    ensures
        views(copy@) == views(texts@),
{
    let mut copy: Vec<String> = Vec::new();
    let mut i: usize = 0;
    while i < texts.len()
        invariant
            i <= texts@.len(),
            copy@.len() == i,
            forall|j: int| 0 <= j < i ==> (#[trigger] copy@[j])@ == texts@[j]@,
        decreases texts@.len() - i,
    {
        copy.push(texts[i].clone());
        i += 1;
    }
    assert(views(copy@) =~= views(texts@));
    copy
}

proof fn lemma_error_stays(
    entries: Seq<RolloutEntry>,
    n: int,
    provider: Seq<char>,
    index: Map<Seq<char>, JsonTree>,
    sources: Map<Seq<char>, Seq<char>>,
)
    requires
        0 <= n <= entries.len(),
        rollout_changes(entries.take(n), provider, index, sources) is Err,
    ensures
        rollout_changes(entries, provider, index, sources) == rollout_changes(
            entries.take(n),
            provider,
            index,
            sources,
        ),
    decreases entries.len(),
{
    if n < entries.len() {
        assert(entries.drop_last().take(n) =~= entries.take(n));
        lemma_error_stays(entries.drop_last(), n, provider, index, sources);
    } else {
        assert(entries.take(n) =~= entries);
    }
}

/// The changes that the rollout files need so that their sessions show under `target_provider`, in
/// the order of their paths; or the error of the first file that has one. Once the changes are
/// made, whatever bytes the files had, every file that begins with the record of a session names
/// `target_provider` there, and a second collection finds nothing, unless a workspace root that was
/// written has surrounding white space or an extended-length prefix.
pub fn collect_rollout_provider_changes(
    entries: &Vec<RolloutEntry>,
    target_provider: &str,
    index: &StringHashMap<Json>,
    sources: &ThreadSources,
) -> (changes: Result<Vec<RolloutProviderChange>, String>)
    requires
        sources.wf(),
    ensures
        match rollout_changes(entries@, target_provider@, index_view(index@), sources@) {
            Ok(wanted) => changes matches Ok(changes) && exists|
                planned: Seq<RolloutProviderChange>,
            | #[trigger] change_texts(planned) == wanted && changes@ == in_order(planned),
            Err(text) => changes matches Err(error) && error@ == text,
        },
        changes is Ok ==> forall|
            files: Seq<Seq<u8>>,
            next: Seq<RolloutEntry>,
            known: spec_fn(int) -> bool,
        | #[trigger]
            are_changed_to(
                entries@,
                files,
                next,
                target_provider@,
                index_view(index@),
                sources@,
                known,
            ) ==> rollout_changes(next, target_provider@, index_view(index@), sources@) == Ok::<
                Seq<ChangeText>,
                Seq<char>,
            >(seq![]) && forall|i: int|
                0 <= i < next.len() ==> names_provider(#[trigger] next[i], target_provider@),
{
    let ghost index_map = index_view(index@);
    let ghost provider = target_provider@;
    let mut changes: Vec<RolloutProviderChange> = Vec::new();
    let ghost mut planned: Seq<RolloutProviderChange> = seq![];
    let mut i: usize = 0;
    assert(change_texts(planned) =~= seq![]);
    while i < entries.len()
        invariant
            sources.wf(),
            i <= entries@.len(),
            index_map == index_view(index@),
            provider == target_provider@,
            changes@ == in_order(planned),
            rollout_changes(entries@.take(i as int), provider, index_map, sources@) == Ok::<
                Seq<ChangeText>,
                Seq<char>,
            >(change_texts(planned)),
            forall|j: int|
                0 <= j < i ==> line_holds_record(
                    #[trigger] entries@[j],
                    provider,
                    index_map,
                    sources@,
                ),
        decreases entries@.len() - i,
    {
        assert(entries@.take(i + 1).drop_last() =~= entries@.take(i as int));
        let meta = match read_session_meta(&entries[i]) {
            Ok(meta) => meta,
            Err(text) => {
                proof {
                    lemma_error_stays(entries@, i + 1, provider, index_map, sources@);
                }
                return Err(text);
            },
        };
        if let (Some(meta), RolloutEntry::Read(file)) = (meta, &entries[i]) {
            let change = plan_rollout_change(
                meta,
                target_provider,
                index,
                sources,
                file.modified_ms,
                file.target_modified_ms,
            );
            if let Some(updated_first_line) = change {
                let change = RolloutProviderChange {
                    file: i,
                    relative_path: copy_texts(&file.relative_path),
                    updated_first_line,
                    target_modified_ms: file.target_modified_ms,
                };
                place(&mut changes, change);
                proof {
                    let before = planned;
                    planned = planned.push(change);
                    assert(planned.drop_last() =~= before);
                    assert(change_texts(planned) =~= change_texts(before).push(change@));
                }
            }
        }
        i += 1;
    }
    assert(entries@.take(i as int) =~= entries@);
    proof {
        assert forall|
            files: Seq<Seq<u8>>,
            next: Seq<RolloutEntry>,
            known: spec_fn(int) -> bool,
        | #[trigger]
            are_changed_to(
                entries@,
                files,
                next,
                provider,
                index_map,
                sources@,
                known,
            ) implies rollout_changes(next, provider, index_map, sources@) == Ok::<
            Seq<ChangeText>,
            Seq<char>,
        >(seq![]) && forall|i: int|
            0 <= i < next.len() ==> names_provider(#[trigger] next[i], provider) by {
            lemma_second_collection(
                entries@,
                files,
                next,
                provider,
                index_map,
                sources@,
                known,
            );
            files_without_changes_name_the_provider(next, provider, index_map, sources@);
        }
    }
    Ok(changes)
}

/// `texts` with `text` at the end, unless it is among them.
pub open spec fn with_new(texts: Seq<Seq<char>>, text: Seq<char>) -> Seq<Seq<char>> {
    if texts.contains(text) {
        texts
    } else {
        texts.push(text)
    }
}

/// The sessions of the files, each once, in the order of the files; or the error of the first file
/// that has one.
pub open spec fn session_ids(entries: Seq<RolloutEntry>) -> Result<Seq<Seq<char>>, Seq<char>>
    decreases entries.len(),
{
    if entries.len() == 0 {
        Ok(seq![])
    } else {
        match session_ids(entries.drop_last()) {
            Err(text) => Err(text),
            Ok(ids) => match entry_meta(entries.last()) {
                Err(text) => Err(text),
                Ok(None) => Ok(ids),
                Ok(Some(meta)) => match meta_id(meta) {
                    Some(id) => Ok(with_new(ids, id)),
                    None => Ok(ids),
                },
            },
        }
    }
}

proof fn lemma_session_ids_error(entries: Seq<RolloutEntry>, n: int)
    requires
        0 <= n <= entries.len(),
        session_ids(entries.take(n)) is Err,
    ensures
        session_ids(entries) == session_ids(entries.take(n)),
    decreases entries.len(),
{
    if n < entries.len() {
        assert(entries.drop_last().take(n) =~= entries.take(n));
        lemma_session_ids_error(entries.drop_last(), n);
    } else {
        assert(entries.take(n) =~= entries);
    }
}

/// Puts `text` at the end of the texts, unless it is among them, and says whether it did.
pub fn push_new(texts: &mut Vec<String>, seen: &mut StringHashSet, text: String) -> (added: bool)
    requires
        old(seen)@ == views(old(texts)@).to_set(),
    ensures
        views(final(texts)@) == with_new(views(old(texts)@), text@),
        final(seen)@ == views(final(texts)@).to_set(),
        added == !views(old(texts)@).contains(text@),
{
    let ghost before = views(texts@);
    if seen.insert(text.clone()) {
        texts.push(text);
        proof {
            let after = views(texts@);
            assert(after =~= before.push(text@));
            assert forall|t: Seq<char>| after.to_set().contains(t) == before.to_set().insert(
                text@,
            ).contains(t) by {
                if before.contains(t) {
                    let j = choose|j: int| 0 <= j < before.len() && before[j] == t;
                    assert(after[j] == t);
                }
                if t == text@ {
                    assert(after[before.len() as int] == t);
                }
            }
            assert(after.to_set() =~= before.to_set().insert(text@));
        }
        true
    } else {
        assert(before.to_set().insert(text@) =~= before.to_set());
        false
    }
}

/// The sessions of the rollout files, each once; or the error of the first file that has one.
pub fn collect_active_rollout_session_ids(entries: &Vec<RolloutEntry>) -> (ids: Result<
    Vec<String>,
    String,
>)
    ensures
        match session_ids(entries@) {
            Ok(wanted) => ids matches Ok(ids) && views(ids@) == wanted,
            Err(text) => ids matches Err(error) && error@ == text,
        },
{
    let mut ids: Vec<String> = Vec::new();
    let mut seen = StringHashSet::new();
    let mut i: usize = 0;
    assert(views(ids@) =~= seq![]);
    assert(seen@ =~= views(ids@).to_set());
    while i < entries.len()
        invariant
            i <= entries@.len(),
            session_ids(entries@.take(i as int)) == Ok::<Seq<Seq<char>>, Seq<char>>(views(ids@)),
            seen@ == views(ids@).to_set(),
        decreases entries@.len() - i,
    {
        assert(entries@.take(i + 1).drop_last() =~= entries@.take(i as int));
        let meta = match read_session_meta(&entries[i]) {
            Ok(meta) => meta,
            Err(text) => {
                proof {
                    lemma_session_ids_error(entries@, i + 1);
                }
                return Err(text);
            },
        };
        if let Some(meta) = meta {
            if let Some(id) = session_meta_id(&meta) {
                let _ = push_new(&mut ids, &mut seen, id);
            }
        }
        i += 1;
    }
    assert(entries@.take(i as int) =~= entries@);
    Ok(ids)
}

/// No session is listed twice.
pub proof fn session_ids_are_distinct(entries: Seq<RolloutEntry>)
    ensures
        session_ids(entries) matches Ok(ids) ==> ids.no_duplicates(),
    decreases entries.len(),
{
    if entries.len() > 0 {
        session_ids_are_distinct(entries.drop_last());
    }
}

/// How many of the texts are not in the set.
pub open spec fn count_outside(texts: Seq<Seq<char>>, set: Set<Seq<char>>) -> nat
    decreases texts.len(),
{
    if texts.len() == 0 {
        0
    } else {
        count_outside(texts.drop_last(), set) + if set.contains(texts.last()) {
            0nat
        } else {
            1nat
        }
    }
}

/// Counts the sessions of rollout files that have no row in the state database. Where there are no
/// sessions, the database does not matter.
pub fn count_missing_sqlite_thread_rows(
    session_ids: &Vec<String>,
    path: &str,
    sqlite_ids: ThreadIds,
) -> (count: Result<usize, String>)
    ensures
        if session_ids@.len() == 0 {
            count matches Ok(0)
        } else {
            match thread_ids(path@, sqlite_ids) {
                Ok(set) => count matches Ok(count) && count == count_outside(
                    views(session_ids@),
                    set,
                ),
                Err(text) => count matches Err(error) && error@ == text,
            }
        },
{
    if session_ids.len() == 0 {
        return Ok(0);
    }
    let known = match read_sqlite_thread_ids(path, sqlite_ids) {
        Ok(known) => known,
        Err(text) => return Err(text),
    };
    let ghost texts = views(session_ids@);
    let mut count: usize = 0;
    let mut i: usize = 0;
    while i < session_ids.len()
        invariant
            i <= session_ids@.len(),
            texts == views(session_ids@),
            count <= i,
            count == count_outside(texts.take(i as int), known@),
        decreases session_ids@.len() - i,
    {
        assert(texts.take(i + 1).drop_last() =~= texts.take(i as int));
        assert(texts.take(i + 1).last() == session_ids@[i as int]@);
        if !known.contains(session_ids[i].as_str()) {
            count += 1;
        }
        i += 1;
    }
    assert(texts.take(i as int) =~= texts);
    Ok(count)
}

/// The workspace root of a record: as the index gives it, else as the record does.
pub open spec fn active_root(meta: JsonTree, index: Map<Seq<char>, JsonTree>) -> Option<Seq<char>> {
    or_else(wanted_root(meta, index), meta_root(meta))
}

/// The workspace roots of the files, each once, in the order of the files; or the error of the
/// first file that has one.
pub open spec fn workspace_roots(
    entries: Seq<RolloutEntry>,
    index: Map<Seq<char>, JsonTree>,
) -> Result<Seq<Seq<char>>, Seq<char>>
    decreases entries.len(),
{
    if entries.len() == 0 {
        Ok(seq![])
    } else {
        match workspace_roots(entries.drop_last(), index) {
            Err(text) => Err(text),
            Ok(roots) => match entry_meta(entries.last()) {
                Err(text) => Err(text),
                Ok(None) => Ok(roots),
                Ok(Some(meta)) => match active_root(meta, index) {
                    Some(root) => Ok(with_new(roots, root)),
                    None => Ok(roots),
                },
            },
        }
    }
}

proof fn lemma_workspace_roots_error(
    entries: Seq<RolloutEntry>,
    index: Map<Seq<char>, JsonTree>,
    n: int,
)
    requires
        0 <= n <= entries.len(),
        workspace_roots(entries.take(n), index) is Err,
    ensures
        workspace_roots(entries, index) == workspace_roots(entries.take(n), index),
    decreases entries.len(),
{
    if n < entries.len() {
        assert(entries.drop_last().take(n) =~= entries.take(n));
        lemma_workspace_roots_error(entries.drop_last(), index, n);
    } else {
        assert(entries.take(n) =~= entries);
    }
}

/// The workspace roots of the rollout files, each once; or the error of the first file that has
/// one.
pub fn collect_active_rollout_workspace_roots(
    entries: &Vec<RolloutEntry>,
    index: &StringHashMap<Json>,
) -> (roots: Result<Vec<String>, String>)
    ensures
        match workspace_roots(entries@, index_view(index@)) {
            Ok(wanted) => roots matches Ok(roots) && views(roots@) == wanted,
            Err(text) => roots matches Err(error) && error@ == text,
        },
{
    let ghost index_map = index_view(index@);
    let mut roots: Vec<String> = Vec::new();
    let mut seen = StringHashSet::new();
    let mut i: usize = 0;
    assert(views(roots@) =~= seq![]);
    assert(seen@ =~= views(roots@).to_set());
    while i < entries.len()
        invariant
            i <= entries@.len(),
            index_map == index_view(index@),
            workspace_roots(entries@.take(i as int), index_map) == Ok::<
                Seq<Seq<char>>,
                Seq<char>,
            >(views(roots@)),
            seen@ == views(roots@).to_set(),
        decreases entries@.len() - i,
    {
        assert(entries@.take(i + 1).drop_last() =~= entries@.take(i as int));
        let meta = match read_session_meta(&entries[i]) {
            Ok(meta) => meta,
            Err(text) => {
                proof {
                    lemma_workspace_roots_error(entries@, index_map, i + 1);
                }
                return Err(text);
            },
        };
        if let Some(meta) = meta {
            let indexed = match find_meta_entry(&meta, index) {
                Some(entry) => session_index_workspace_root(entry),
                None => None,
            };
            let root = match indexed {
                Some(root) => Some(root),
                None => session_meta_cwd(&meta),
            };
            if let Some(root) = root {
                let _ = push_new(&mut roots, &mut seen, root);
            }
        }
        i += 1;
    }
    assert(entries@.take(i as int) =~= entries@);
    Ok(roots)
}

/// The first line of a file holds the record of a session exactly where it is a JSON object of type
/// `session_meta` whose payload is an object.
pub proof fn first_line_of_a_session_has_its_type(line: Seq<char>, record: JsonTree)
    ensures
        meta_on(line) == Some(record) <==> trimmed(line).len() > 0 && parsed_json(line) == Some(
            record,
        ) && member_of(record, "type"@) == Some(JsonTree::Text("session_meta"@)) && (member_of(
            record,
            "payload"@,
        ) matches Some(payload) && payload is Object),
{
}

/// A rollout file whose first line is left alone names exactly the provider that is wanted; one that
/// names none is left alone only where that is the empty one.
pub proof fn record_left_alone_names_the_provider(
    meta: JsonTree,
    provider: Seq<char>,
    index: Map<Seq<char>, JsonTree>,
    sources: Map<Seq<char>, Seq<char>>,
    modified_ms: Option<i128>,
    target_ms: Option<i128>,
)
    requires
        is_meta(meta),
        !(rollout_change(meta, provider, index, sources, modified_ms, target_ms) matches Some(
            Some(_),
        )),
    ensures
        member_of(meta, "payload"@) matches Some(payload) && (text_member(
            payload,
            "model_provider"@,
        ) == Some(provider) || text_member(payload, "model_provider"@) is None && provider.len()
            == 0),
{
}

/// A rollout file whose first line is left alone is in the workspace that the index gives for its
/// session, where it gives one, and has no plain source from another thread that it lacks.
pub proof fn record_left_alone_agrees_with_the_index(
    meta: JsonTree,
    provider: Seq<char>,
    index: Map<Seq<char>, JsonTree>,
    sources: Map<Seq<char>, Seq<char>>,
    modified_ms: Option<i128>,
    target_ms: Option<i128>,
    id: Seq<char>,
    cwd: Seq<char>,
    root: Seq<char>,
)
    requires
        is_meta(meta),
        text_member(member_of(meta, "payload"@)->0, "id"@) == Some(id),
        !(rollout_change(meta, provider, index, sources, modified_ms, target_ms) matches Some(
            Some(_),
        )),
    ensures
        ({
            let payload = member_of(meta, "payload"@)->0;
            &&& index.contains_key(id) && text_member(index[id], "cwd"@) == Some(cwd)
                && normalized_root(cwd) == Some(root) ==> match member_of(payload, "cwd"@) {
                Some(JsonTree::Text(own)) => normalized_root(own) == Some(root),
                Some(_) => false,
                None => text_member(meta, "cwd"@) matches Some(own) && normalized_root(own) == Some(
                    root,
                ),
            }
            &&& member_of(payload, "source"@) matches Some(source) ==> (!(source is Text)
                ==> effective_source(id, sources) is None)
        }),
{
}

/// The first line of a rollout file is left alone where the record names the provider, its source is
/// text or absent, and the index has no workspace for its session.
pub proof fn record_that_agrees_is_left_alone(
    meta: JsonTree,
    provider: Seq<char>,
    index: Map<Seq<char>, JsonTree>,
    sources: Map<Seq<char>, Seq<char>>,
    modified_ms: Option<i128>,
    target_ms: Option<i128>,
)
    requires
        is_meta(meta),
        text_member(member_of(meta, "payload"@)->0, "model_provider"@) == Some(provider),
        member_of(member_of(meta, "payload"@)->0, "source"@) matches Some(source)
            ==> source is Text,
        forall|id: Seq<char>| #[trigger]
            index.contains_key(id) ==> meta_id(meta) != Some(id) || indexed_root(index[id]) is None
                || indexed_root(index[id]) == meta_root(meta),
    ensures
        !(rollout_change(meta, provider, index, sources, modified_ms, target_ms) matches Some(
            Some(_),
        )),
{
}

/// Whatever else changes, a rollout file gets the modification time that it should have: nothing is
/// to be done about it only where it has that time already, or there is none that it should have.
pub proof fn file_left_alone_has_its_time(
    meta: JsonTree,
    provider: Seq<char>,
    index: Map<Seq<char>, JsonTree>,
    sources: Map<Seq<char>, Seq<char>>,
    modified_ms: Option<i128>,
    target_ms: Option<i128>,
)
    ensures
        rollout_change(meta, provider, index, sources, modified_ms, target_ms) is None
            ==> target_ms is None || modified_ms == target_ms,
        rollout_change(meta, provider, index, sources, modified_ms, target_ms) == Some(
            None::<Seq<char>>,
        ) ==> target_ms is Some && modified_ms != target_ms,
{
}

/// The record that a rollout file gets names the wanted provider. Its working directory is the
/// workspace of the index where it gets another, and its source the plain one from above where it
/// gets one. All else in the record and in its payload is as it was.
pub proof fn updated_record_has_what_is_wanted(
    meta: JsonTree,
    provider: Seq<char>,
    index: Map<Seq<char>, JsonTree>,
    sources: Map<Seq<char>, Seq<char>>,
    key: Seq<char>,
)
    requires
        is_meta(meta),
    ensures
        ({
            let next = updated_meta(meta, provider, index, sources);
            let payload = member_of(meta, "payload"@)->0;
            let next_payload = member_of(next, "payload"@)->0;
            &&& member_of(next, "payload"@) is Some
            &&& key != "payload"@ ==> member_of(next, key) == member_of(meta, key)
            &&& member_of(next_payload, "model_provider"@) == Some(JsonTree::Text(provider))
            &&& match wanted_root(meta, index) {
                Some(root) => if meta_root(meta) == Some(root) {
                    member_of(next_payload, "cwd"@) == member_of(payload, "cwd"@)
                } else {
                    member_of(next_payload, "cwd"@) == Some(JsonTree::Text(root))
                },
                None => member_of(next_payload, "cwd"@) == member_of(payload, "cwd"@),
            }
            &&& match (member_of(payload, "source"@), meta_id(meta)) {
                (Some(JsonTree::Text(source)), _) => member_of(next_payload, "source"@) == Some(
                    JsonTree::Text(source),
                ),
                (Some(source), Some(id)) => member_of(next_payload, "source"@) == match effective_source(
                    id,
                    sources,
                ) {
                    Some(plain) => Some(JsonTree::Text(plain)),
                    None => Some(source),
                },
                (source, _) => member_of(next_payload, "source"@) == source,
            }
            &&& key != "model_provider"@ && key != "cwd"@ && key != "source"@ ==> member_of(
                next_payload,
                key,
            ) == member_of(payload, key)
        }),
{
    reveal_strlit("cwd");
    reveal_strlit("model_provider");
    reveal_strlit("source");
    assert("cwd"@.len() == 3 && "model_provider"@.len() == 14 && "source"@.len() == 6);
}

/// The session of a record is that under `id` in its payload, else that under `session_id` there;
/// where the first of them that is there is no text, or there is none, the record itself is asked
/// in the same way.
pub proof fn session_is_that_of_the_payload(meta: JsonTree, payload: JsonTree, id: Seq<char>)
    requires
        member_of(meta, "payload"@) == Some(payload),
    ensures
        member_of(payload, "id"@) == Some(JsonTree::Text(id)) ==> meta_id(meta) == Some(id),
        member_of(payload, "id"@) is None && member_of(payload, "session_id"@) == Some(
            JsonTree::Text(id),
        ) ==> meta_id(meta) == Some(id),
        (member_of(payload, "id"@) is None && member_of(payload, "session_id"@) is None) || (
        member_of(payload, "id"@) matches Some(other) && !(other is Text)) || (member_of(
            payload,
            "id"@,
        ) is None && (member_of(payload, "session_id"@) matches Some(other) && !(other is Text))) ==> {
            &&& member_of(meta, "id"@) == Some(JsonTree::Text(id)) ==> meta_id(meta) == Some(id)
            &&& member_of(meta, "id"@) is None && member_of(meta, "session_id"@) == Some(
                JsonTree::Text(id),
            ) ==> meta_id(meta) == Some(id)
            &&& member_of(meta, "id"@) is None && member_of(meta, "session_id"@) is None
                ==> meta_id(meta) is None
            &&& member_of(meta, "id"@) matches Some(other) ==> (!(other is Text) ==> meta_id(
                meta,
            ) is None)
        },
{
}

/// The workspace of a record is the `cwd` of its payload, else its own, in normalized form; a `cwd`
/// in the payload that is no text is none.
pub proof fn workspace_is_that_of_the_payload(meta: JsonTree, payload: JsonTree, cwd: Seq<char>)
    requires
        member_of(meta, "payload"@) == Some(payload),
    ensures
        member_of(payload, "cwd"@) == Some(JsonTree::Text(cwd)) ==> meta_root(meta)
            == normalized_root(cwd),
        member_of(payload, "cwd"@) matches Some(other) ==> (!(other is Text) ==> meta_root(
            meta,
        ) is None),
        member_of(payload, "cwd"@) is None && member_of(meta, "cwd"@) == Some(JsonTree::Text(cwd))
            ==> meta_root(meta) == normalized_root(cwd),
        member_of(payload, "cwd"@) is None && !(member_of(meta, "cwd"@) matches Some(
            JsonTree::Text(_),
        )) ==> meta_root(meta) is None,
{
}

/// The time that a rollout file should have is that of its session in the index, unless the records
/// in the file were written more than an hour before or after it; then it is the latest of these.
/// The time that it has counts where neither is known.
pub proof fn target_time_is_that_of_the_index(
    meta: JsonTree,
    index: Map<Seq<char>, JsonTree>,
    content: Option<Seq<char>>,
    fallback_ms: Option<int>,
)
    ensures
        ({
            let target = target_time(meta, index, content, fallback_ms);
            let indexed = match meta_id(meta) {
                Some(id) => if index.contains_key(id) {
                    indexed_time(index[id])
                } else {
                    None
                },
                None => None,
            };
            let latest = match content {
                Some(text) => latest_time(lines_of(text)),
                None => None,
            };
            match (indexed, latest) {
                (Some(a), Some(b)) => {
                    &&& -3_600_000 <= a - b <= 3_600_000 ==> target == Some(a)
                    &&& a - b > 3_600_000 || b - a > 3_600_000 ==> target == Some(b)
                },
                (Some(a), None) => target == Some(a),
                (None, Some(b)) => target == Some(b),
                (None, None) => target == fallback_ms,
            }
        }),
{
}

/// Whether a change is that of a file among those that were looked at.
pub open spec fn is_change_of(change: ChangeText, entry: RolloutEntry, file: int, line: Option<Seq<char>>) -> bool {
    &&& change.file == file
    &&& entry matches RolloutEntry::Read(read) && change.relative_path == views(read.relative_path@)
        && change.target_modified_ms == read.target_modified_ms
    &&& change.updated_first_line == line
}

/// Files are changed only where all could be read. Then there is a change for each file that needs
/// one, with its path and its new first line and time, and for no other.
pub proof fn each_file_in_need_is_changed(
    entries: Seq<RolloutEntry>,
    provider: Seq<char>,
    index: Map<Seq<char>, JsonTree>,
    sources: Map<Seq<char>, Seq<char>>,
)
    ensures
        rollout_changes(entries, provider, index, sources) is Ok <==> forall|i: int|
            0 <= i < entries.len() ==> entry_meta(#[trigger] entries[i]) is Ok,
        rollout_changes(entries, provider, index, sources) matches Ok(changes) ==> {
            &&& forall|i: int|
                0 <= i < entries.len() ==> (entry_change(
                    #[trigger] entries[i],
                    provider,
                    index,
                    sources,
                ) matches Some(line) ==> exists|c: int|
                    0 <= c < changes.len() && is_change_of(
                        #[trigger] changes[c],
                        entries[i],
                        i,
                        line,
                    ))
            &&& forall|c: int|
                0 <= c < changes.len() ==> {
                    &&& 0 <= (#[trigger] changes[c]).file < entries.len()
                    &&& entry_change(entries[changes[c].file], provider, index, sources) == Some(
                        changes[c].updated_first_line,
                    )
                }
            &&& forall|c: int, d: int|
                0 <= c < d < changes.len() ==> (#[trigger] changes[c]).file < (
                #[trigger] changes[d]).file
        },
    decreases entries.len(),
{
    if entries.len() > 0 {
        let rest = entries.drop_last();
        let last = entries.len() - 1;
        each_file_in_need_is_changed(rest, provider, index, sources);
        assert(forall|i: int| 0 <= i < rest.len() ==> rest[i] == #[trigger] entries[i]);
        assert(entries[last] == entries.last());
        assert(rollout_changes(entries, provider, index, sources) is Ok <==> forall|i: int|
            0 <= i < entries.len() ==> entry_meta(#[trigger] entries[i]) is Ok) by {
            if forall|i: int| 0 <= i < entries.len() ==> entry_meta(#[trigger] entries[i]) is Ok {
                assert forall|i: int| 0 <= i < rest.len() implies entry_meta(
                    #[trigger] rest[i],
                ) is Ok by {
                    assert(entry_meta(entries[i]) is Ok);
                }
                assert(entry_meta(entries[last]) is Ok);
            }
            if rollout_changes(entries, provider, index, sources) is Ok {
                assert forall|i: int| 0 <= i < entries.len() implies entry_meta(
                    #[trigger] entries[i],
                ) is Ok by {
                    if i < last {
                        assert(entry_meta(rest[i]) is Ok);
                    }
                }
            }
        }
        if let Ok(changes) = rollout_changes(entries, provider, index, sources) {
            let before = rollout_changes(rest, provider, index, sources)->Ok_0;
            assert(forall|c: int| 0 <= c < before.len() ==> changes[c] == #[trigger] before[c]);
            assert forall|i: int| 0 <= i < entries.len() implies (entry_change(
                #[trigger] entries[i],
                provider,
                index,
                sources,
            ) matches Some(line) ==> exists|c: int|
                0 <= c < changes.len() && is_change_of(
                    #[trigger] changes[c],
                    entries[i],
                    i,
                    line,
                )) by {
                if let Some(line) = entry_change(entries[i], provider, index, sources) {
                    if i < last {
                        assert(rest[i] == entries[i]);
                        let c = choose|c: int|
                            0 <= c < before.len() && is_change_of(
                                #[trigger] before[c],
                                rest[i],
                                i,
                                line,
                            );
                        assert(is_change_of(changes[c], entries[i], i, line));
                    } else {
                        assert(is_change_of(changes[before.len() as int], entries[i], i, line));
                    }
                }
            }
            assert forall|c: int| 0 <= c < changes.len() implies {
                &&& 0 <= (#[trigger] changes[c]).file < entries.len()
                &&& entry_change(entries[changes[c].file], provider, index, sources) == Some(
                    changes[c].updated_first_line,
                )
            } by {
                if c < before.len() {
                    assert(before[c] == changes[c]);
                    assert(rest[changes[c].file] == entries[changes[c].file]);
                }
            }
            assert forall|c: int, d: int| 0 <= c < d < changes.len() implies (
            #[trigger] changes[c]).file < (#[trigger] changes[d]).file by {
                assert(before[c] == changes[c]);
                if d < before.len() {
                    assert(before[d] == changes[d]);
                }
            }
        }
    }
}

/// Where no file needs a change, every rollout file that begins with the record of a session names
/// exactly the wanted provider there.
pub proof fn files_without_changes_name_the_provider(
    entries: Seq<RolloutEntry>,
    provider: Seq<char>,
    index: Map<Seq<char>, JsonTree>,
    sources: Map<Seq<char>, Seq<char>>,
)
    requires
        rollout_changes(entries, provider, index, sources) == Ok::<Seq<ChangeText>, Seq<char>>(
            seq![],
        ),
    ensures
        forall|i: int|
            0 <= i < entries.len() ==> names_provider(#[trigger] entries[i], provider),
{
    each_file_in_need_is_changed(entries, provider, index, sources);
    assert forall|i: int| 0 <= i < entries.len() implies names_provider(
        #[trigger] entries[i],
        provider,
    ) by {
        assert(entry_change(entries[i], provider, index, sources) is None);
    }
}

/// The sessions of the files are exactly those that their records belong to, whatever their order;
/// they are known only where all files could be read.
pub proof fn every_session_is_listed(entries: Seq<RolloutEntry>, id: Seq<char>)
    ensures
        session_ids(entries) is Ok <==> forall|i: int|
            0 <= i < entries.len() ==> entry_meta(#[trigger] entries[i]) is Ok,
        session_ids(entries) matches Ok(ids) ==> (ids.contains(id) <==> exists|i: int|
            0 <= i < entries.len() && (entry_meta(#[trigger] entries[i]) matches Ok(Some(meta))
                && meta_id(meta) == Some(id))),
    decreases entries.len(),
{
    if entries.len() > 0 {
        let rest = entries.drop_last();
        let last = entries.len() - 1;
        every_session_is_listed(rest, id);
        lemma_readable_rest(entries);
        assert(entries[last] == entries.last());
        if let Ok(ids) = session_ids(entries) {
            let before = session_ids(rest)->Ok_0;
            if let Ok(Some(meta)) = entry_meta(entries.last()) {
                if let Some(new) = meta_id(meta) {
                    lemma_with_new(before, new, id);
                }
            }
            if before.contains(id) {
                let i = choose|i: int|
                    0 <= i < rest.len() && (entry_meta(#[trigger] rest[i]) matches Ok(Some(meta))
                        && meta_id(meta) == Some(id));
                assert(entries[i] == rest[i]);
            }
            if exists|i: int|
                0 <= i < entries.len() && (entry_meta(#[trigger] entries[i]) matches Ok(Some(meta))
                    && meta_id(meta) == Some(id)) {
                let i = choose|i: int|
                    0 <= i < entries.len() && (entry_meta(
                        #[trigger] entries[i],
                    ) matches Ok(Some(meta)) && meta_id(meta) == Some(id));
                if i < last {
                    assert(rest[i] == entries[i]);
                }
            }
        }
    }
}

proof fn lemma_with_new(texts: Seq<Seq<char>>, new: Seq<char>, text: Seq<char>)
    ensures
        with_new(texts, new).contains(text) <==> texts.contains(text) || text == new,
{
    if !texts.contains(new) {
        let next = texts.push(new);
        assert(next[texts.len() as int] == new);
        if texts.contains(text) {
            let i = choose|i: int| 0 <= i < texts.len() && texts[i] == text;
            assert(next[i] == text);
        }
        if next.contains(text) {
            let i = choose|i: int| 0 <= i < next.len() && next[i] == text;
            if i < texts.len() {
                assert(texts[i] == text);
            }
        }
    }
}

proof fn lemma_readable_rest(entries: Seq<RolloutEntry>)
    requires
        entries.len() > 0,
    ensures
        (forall|i: int| 0 <= i < entries.len() ==> entry_meta(#[trigger] entries[i]) is Ok) <==> (
        forall|i: int|
            0 <= i < entries.drop_last().len() ==> entry_meta(
                #[trigger] entries.drop_last()[i],
            ) is Ok) && entry_meta(entries.last()) is Ok,
{
    let rest = entries.drop_last();
    let last = entries.len() - 1;
    assert(entries[last] == entries.last());
    if forall|i: int| 0 <= i < entries.len() ==> entry_meta(#[trigger] entries[i]) is Ok {
        assert forall|i: int| 0 <= i < rest.len() implies entry_meta(#[trigger] rest[i]) is Ok by {
            assert(entry_meta(entries[i]) is Ok);
        }
        assert(entry_meta(entries[last]) is Ok);
    }
    if (forall|i: int| 0 <= i < rest.len() ==> entry_meta(#[trigger] rest[i]) is Ok) && entry_meta(
        entries.last(),
    ) is Ok {
        assert forall|i: int| 0 <= i < entries.len() implies entry_meta(
            #[trigger] entries[i],
        ) is Ok by {
            if i < last {
                assert(entry_meta(rest[i]) is Ok);
            }
        }
    }
}

/// Whether `root` is the workspace of a file: the one that the index gives for its session, or the
/// one that its record gives where the index gives none.
pub open spec fn is_workspace_of(
    entry: RolloutEntry,
    index: Map<Seq<char>, JsonTree>,
    root: Seq<char>,
) -> bool {
    entry_meta(entry) matches Ok(Some(meta)) && if meta_id(meta) is Some && index.contains_key(
        meta_id(meta)->0,
    ) && indexed_root(index[meta_id(meta)->0]) is Some {
        indexed_root(index[meta_id(meta)->0]) == Some(root)
    } else {
        meta_root(meta) == Some(root)
    }
}

/// The workspaces of the files are exactly those of the single files, each listed once; they are
/// known only where all files could be read.
pub proof fn every_workspace_is_listed(
    entries: Seq<RolloutEntry>,
    index: Map<Seq<char>, JsonTree>,
    root: Seq<char>,
)
    ensures
        workspace_roots(entries, index) is Ok <==> forall|i: int|
            0 <= i < entries.len() ==> entry_meta(#[trigger] entries[i]) is Ok,
        workspace_roots(entries, index) matches Ok(roots) ==> roots.no_duplicates() && (
        roots.contains(root) <==> exists|i: int|
            0 <= i < entries.len() && is_workspace_of(#[trigger] entries[i], index, root)),
    decreases entries.len(),
{
    if entries.len() > 0 {
        let rest = entries.drop_last();
        let last = entries.len() - 1;
        every_workspace_is_listed(rest, index, root);
        lemma_readable_rest(entries);
        assert(entries[last] == entries.last());
        if let Ok(roots) = workspace_roots(entries, index) {
            let before = workspace_roots(rest, index)->Ok_0;
            if let Ok(Some(meta)) = entry_meta(entries.last()) {
                if let Some(new) = active_root(meta, index) {
                    lemma_with_new(before, new, root);
                }
            }
            if before.contains(root) {
                let i = choose|i: int|
                    0 <= i < rest.len() && is_workspace_of(#[trigger] rest[i], index, root);
                assert(entries[i] == rest[i]);
            }
            if exists|i: int|
                0 <= i < entries.len() && is_workspace_of(#[trigger] entries[i], index, root) {
                let i = choose|i: int|
                    0 <= i < entries.len() && is_workspace_of(#[trigger] entries[i], index, root);
                if i < last {
                    assert(rest[i] == entries[i]);
                }
            }
        }
    }
}

/// The sessions without a row are those that are not in the database, each counted once.
pub proof fn missing_sessions_are_those_outside(ids: Seq<Seq<char>>, known: Set<Seq<char>>)
    ensures
        count_outside(ids, known) == ids.filter(|id: Seq<char>| !known.contains(id)).len(),
        count_outside(ids, known) == 0 <==> forall|i: int|
            0 <= i < ids.len() ==> known.contains(#[trigger] ids[i]),
    decreases ids.len(),
{
    reveal(Seq::filter);
    if ids.len() > 0 {
        let rest = ids.drop_last();
        missing_sessions_are_those_outside(rest, known);
        assert(ids[ids.len() - 1] == ids.last());
        assert(forall|i: int| 0 <= i < rest.len() ==> rest[i] == #[trigger] ids[i]);
        if forall|i: int| 0 <= i < ids.len() ==> known.contains(#[trigger] ids[i]) {
            assert forall|i: int| 0 <= i < rest.len() implies known.contains(#[trigger] rest[i]) by {
                assert(known.contains(ids[i]));
            }
        }
        if count_outside(ids, known) == 0 {
            assert forall|i: int| 0 <= i < ids.len() implies known.contains(#[trigger] ids[i]) by {
                if i < rest.len() {
                    assert(known.contains(rest[i]));
                }
            }
        }
    }
}

/// The changes come in the order of their paths, and none is lost or made twice by that.
pub proof fn changes_come_in_the_order_of_their_paths(
    planned: Seq<RolloutProviderChange>,
    i: int,
    j: int,
)
    requires
        0 <= i < j < planned.len(),
    ensures
        !path_less(
            views(in_order(planned)[j].relative_path@),
            views(in_order(planned)[i].relative_path@),
        ),
        in_order(planned).to_multiset() == planned.to_multiset(),
{
    in_order_is_sorted(planned);
    assert(!in_order(planned)[i].after(in_order(planned)[j]));
}

} // verus!
