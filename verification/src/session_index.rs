//! The session index: a file with one JSON entry for each session, one to a line.

use vstd::hash_map::StringHashMap;
use vstd::prelude::*;

use crate::catalog::{column_or_empty, lemma_column_or_empty_text};
use crate::files::FileText;
use crate::json::{
    compact_json, member_of, numbers_canonical, parse_json, parsed_json, reads_back, render_json,
    set_entry, text_member, within_levels, Json, JsonTree,
};
use crate::paths::{normalize_workspace_root, normalized_root};
use crate::sql_expr::{
    column, lemma_literals, lemma_select_one, lemma_select_one_more, literals_are_true, select_text,
    sql_value, SqlExpr,
};
use crate::sqlite::{
    format_sqlite_read_error, has_name, is_missing_threads_table_error, located, plain_query, query,
    rows_of, rows_result, rows_view, says_no_threads_table, RowsOutcome, SqlTerm, StateDatabase,
    Statement, StatementText,
};
use crate::text::{
    holds_part, is_white, join, joined, lemma_lines_hold_no_feed, lemma_lines_of_joined,
    lemma_trimmed_blank, lemma_trimmed_carriage_return, lemma_trimmed_whole, lines, lines_of,
    lowered, opt_view, trim, trimmed, views, without_carriage_return,
};
use crate::threads::column_or_null;
use crate::timestamps::{
    format_thread_updated_at_iso, resolve_thread_updated_at_seconds, rfc3339_micros,
    settled_seconds, thread_time_text, Present,
};

verus! {

/// The session and the entry that a line of the index holds; nothing for a blank line, for one
/// that is no JSON and for one without an id.
pub open spec fn indexed_entry(line: Seq<char>) -> Option<(Seq<char>, JsonTree)> {
    if trimmed(line).len() == 0 {
        None
    } else {
        match parsed_json(trimmed(line)) {
            Some(entry) => match text_member(entry, "id"@) {
                Some(id) => Some((id, entry)),
                None => None,
            },
            None => None,
        }
    }
}

/// The entries on the lines of the index, by session; of two for one session the later counts.
pub open spec fn index_of(lines: Seq<Seq<char>>) -> Map<Seq<char>, JsonTree>
    decreases lines.len(),
{
    if lines.len() == 0 {
        Map::empty()
    } else {
        let before = index_of(lines.drop_last());
        match indexed_entry(lines.last()) {
            Some((id, entry)) => before.insert(id, entry),
            None => before,
        }
    }
}

/// What the entries of an index mean.
pub open spec fn index_view(index: Map<Seq<char>, Json>) -> Map<Seq<char>, JsonTree> {
    index.map_values(|entry: Json| entry@)
}

/// The entries in the content of the index, by session.
pub fn session_index_entries(content: &str) -> (index: StringHashMap<Json>)
    ensures
        index_view(index@) == index_of(lines_of(content@)),
{
    let lines = lines(content);
    let mut index: StringHashMap<Json> = StringHashMap::new();
    let mut i: usize = 0;
    assert(index_view(index@) =~= index_of(views(lines@).take(0)));
    assert(views(lines@).len() == lines@.len());
    while i < lines.len()
        invariant
            i <= lines@.len(),
            views(lines@).len() == lines@.len(),
            index_view(index@) == index_of(views(lines@).take(i as int)),
        decreases lines@.len() - i,
    {
        let ghost before = index@;
        let line = trim(lines[i].as_str());
        proof {
            let done = views(lines@).take(i + 1);
            assert(done.drop_last() =~= views(lines@).take(i as int));
            assert(done.last() == lines@[i as int]@);
        }
        i += 1;
        if line.as_str().is_empty() {
            continue ;
        }
        if let Some(entry) = parse_json(line.as_str()) {
            let id = match entry.get_str("id") {
                Some(id) => Some(id.to_owned()),
                None => None,
            };
            if let Some(id) = id {
                index.insert(id, entry);
                assert(index_view(index@) =~= index_view(before).insert(id@, entry@));
            }
        }
    }
    assert(views(lines@).take(i as int) =~= views(lines@));
    index
}

/// The entries of the index file at `path`, by session. A missing file has none.
pub fn read_session_index_map(path: &str, file: &FileText) -> (index: Result<
    StringHashMap<Json>,
    String,
>)
    ensures
        match *file {
            FileText::Absent => index matches Ok(index) && index_view(index@) == Map::<
                Seq<char>,
                JsonTree,
            >::empty(),
            FileText::Unread(message) => index matches Err(text) && text@ == located(
                "读取 session_index.jsonl 失败"@,
                path@,
                message@,
            ),
            FileText::Text(content) => index matches Ok(index) && index_view(index@) == index_of(
                lines_of(content@),
            ),
        },
{
    match file {
        FileText::Absent => {
            let index: StringHashMap<Json> = StringHashMap::new();
            assert(index_view(index@) =~= Map::<Seq<char>, JsonTree>::empty());
            Ok(index)
        },
        FileText::Unread(message) => Err(
            format_sqlite_read_error(path, "读取 session_index.jsonl 失败", message.as_str()),
        ),
        FileText::Text(content) => Ok(session_index_entries(content.as_str())),
    }
}

/// The entries of the index file, by session. A file that could not be read counts as one without
/// entries.
pub fn session_index_or_empty(file: &FileText) -> (index: StringHashMap<Json>)
    ensures
        index_view(index@) == index_of(file_lines(*file)),
{
    assert(index_of(seq![]) =~= Map::<Seq<char>, JsonTree>::empty());
    match file {
        FileText::Text(content) => session_index_entries(content.as_str()),
        _ => {
            let index: StringHashMap<Json> = StringHashMap::new();
            assert(index_view(index@) =~= Map::<Seq<char>, JsonTree>::empty());
            index
        },
    }
}

/// The first text under one of the keys by which an entry may give its workspace root.
pub open spec fn root_text(entry: JsonTree) -> Option<Seq<char>> {
    if let Some(text) = text_member(entry, "cwd"@) {
        Some(text)
    } else if let Some(text) = text_member(entry, "workspace_root"@) {
        Some(text)
    } else if let Some(text) = text_member(entry, "workspaceRoot"@) {
        Some(text)
    } else if let Some(text) = text_member(entry, "working_directory"@) {
        Some(text)
    } else {
        text_member(entry, "workingDirectory"@)
    }
}

/// The workspace root that an entry of the index gives, in normalized form.
pub open spec fn indexed_root(entry: JsonTree) -> Option<Seq<char>> {
    match root_text(entry) {
        Some(text) => normalized_root(text),
        None => None,
    }
}

/// The workspace root that an entry of the index gives, in normalized form.
pub fn session_index_workspace_root(entry: &Json) -> (root: Option<String>)
    ensures
        opt_view(root) == indexed_root(entry@),
{
    if let Some(text) = entry.get_str("cwd") {
        return normalize_workspace_root(text);
    }
    if let Some(text) = entry.get_str("workspace_root") {
        return normalize_workspace_root(text);
    }
    if let Some(text) = entry.get_str("workspaceRoot") {
        return normalize_workspace_root(text);
    }
    if let Some(text) = entry.get_str("working_directory") {
        return normalize_workspace_root(text);
    }
    match entry.get_str("workingDirectory") {
        Some(text) => normalize_workspace_root(text),
        None => None,
    }
}

/// A thread as the state database has it.
#[derive(Debug)]
pub struct SqliteThreadIndexRow {
    pub id: String,
    pub title: String,
    pub updated_at: Option<i64>,
    pub rollout_path: Option<String>,
}

/// The query for the threads that belong in the index.
pub open spec fn index_query(names: Seq<Seq<char>>) -> Seq<char> {
    "SELECT id, "@ + (if names.contains("title"@) {
        "COALESCE(title, '')"@
    } else {
        "''"@
    }) + ", "@ + (if names.contains("updated_at"@) {
        "updated_at"@
    } else {
        "NULL"@
    }) + ", "@ + (if names.contains("rollout_path"@) {
        "rollout_path"@
    } else {
        "NULL"@
    }) + " FROM threads ORDER BY updated_at DESC"@
}

/// What reading the threads that belong in the index takes: nothing where there are none to read,
/// else a query.
pub open spec fn index_stage(path: Seq<char>, database: StateDatabase) -> Result<
    Option<StatementText>,
    Seq<char>,
> {
    match database {
        StateDatabase::Absent => Ok(None),
        StateDatabase::Unopened(failure) => if failure.unusable {
            Ok(None)
        } else {
            Err(located("打开实例数据库失败"@, path, failure.message@))
        },
        StateDatabase::Unset(failure) => Err(
            located("设置 SQLite busy_timeout 失败"@, path, failure.message@),
        ),
        StateDatabase::Unprepared(failure) => if says_no_threads_table(failure.message@) {
            Ok(None)
        } else {
            Err(located("读取 SQLite threads 表结构失败"@, path, failure.message@))
        },
        StateDatabase::Unread(failure) => Err(
            located("读取 SQLite threads 表结构失败"@, path, failure.message@),
        ),
        StateDatabase::Columns(names) => if views(names@).contains("id"@) {
            Ok(Some(plain_query(index_query(views(names@)))))
        } else {
            Ok(None)
        },
    }
}

/// Begins to read the threads that belong in the index.
pub fn load_sqlite_thread_index_rows(path: &str, database: &StateDatabase) -> (statement: Result<
    Option<Statement>,
    String,
>)
    ensures
        match index_stage(path@, *database) {
            Ok(Some(text)) => statement matches Ok(Some(statement)) && statement@ == text,
            Ok(None) => statement matches Ok(None),
            Err(text) => statement matches Err(error) && error@ == text,
        },
{
    match database {
        StateDatabase::Absent => Ok(None),
        StateDatabase::Unopened(failure) => if failure.unusable {
            Ok(None)
        } else {
            Err(format_sqlite_read_error(path, "打开实例数据库失败", failure.message.as_str()))
        },
        StateDatabase::Unset(failure) => Err(
            format_sqlite_read_error(
                path,
                "设置 SQLite busy_timeout 失败",
                failure.message.as_str(),
            ),
        ),
        StateDatabase::Unprepared(failure) => if is_missing_threads_table_error(
            failure.message.as_str(),
        ) {
            Ok(None)
        } else {
            Err(
                format_sqlite_read_error(
                    path,
                    "读取 SQLite threads 表结构失败",
                    failure.message.as_str(),
                ),
            )
        },
        StateDatabase::Unread(failure) => Err(
            format_sqlite_read_error(
                path,
                "读取 SQLite threads 表结构失败",
                failure.message.as_str(),
            ),
        ),
        StateDatabase::Columns(names) => {
            if !has_name(names, "id") {
                return Ok(None);
            }
            let title_expr = if has_name(names, "title") {
                "COALESCE(title, '')"
            } else {
                "''"
            };
            let updated_at_expr = if has_name(names, "updated_at") {
                "updated_at"
            } else {
                "NULL"
            };
            let rollout_path_expr = if has_name(names, "rollout_path") {
                "rollout_path"
            } else {
                "NULL"
            };
            let sql = "SELECT id, ".to_owned().concat(title_expr).concat(", ").concat(
                updated_at_expr,
            ).concat(", ").concat(rollout_path_expr).concat(" FROM threads ORDER BY updated_at DESC");
            Ok(Some(query(sql)))
        },
    }
}

/// Ends reading the threads that belong in the index.
pub fn finish_sqlite_thread_index_rows(
    path: &str,
    outcome: RowsOutcome<SqliteThreadIndexRow>,
) -> (rows: Result<Vec<SqliteThreadIndexRow>, String>)
    ensures
        rows_view(rows) == rows_result(
            path@,
            outcome,
            "准备 SQLite 会话索引查询失败"@,
            "查询 SQLite 会话索引行失败"@,
            "读取 SQLite 会话索引行失败"@,
        ),
{
    rows_of(
        path,
        outcome,
        "准备 SQLite 会话索引查询失败",
        "查询 SQLite 会话索引行失败",
        "读取 SQLite 会话索引行失败",
    )
}

/// How many of the threads have no entry in the index.
pub open spec fn missing_count(
    rows: Seq<SqliteThreadIndexRow>,
    index: Map<Seq<char>, JsonTree>,
) -> nat
    decreases rows.len(),
{
    if rows.len() == 0 {
        0
    } else {
        missing_count(rows.drop_last(), index) + if index.contains_key(rows.last().id@) {
            0nat
        } else {
            1nat
        }
    }
}

/// Counts the threads that have no entry in the index.
pub fn count_missing_session_index_entries(
    index: &StringHashMap<Json>,
    rows: &Vec<SqliteThreadIndexRow>,
) -> (count: usize)
    ensures
        count == missing_count(rows@, index_view(index@)),
{
    let mut count: usize = 0;
    let mut i: usize = 0;
    while i < rows.len()
        invariant
            i <= rows@.len(),
            count <= i,
            count == missing_count(rows@.take(i as int), index_view(index@)),
        decreases rows@.len() - i,
    {
        assert(rows@.take(i + 1).drop_last() =~= rows@.take(i as int));
        if !index.contains_key(rows[i].id.as_str()) {
            count += 1;
        }
        i += 1;
    }
    assert(rows@.take(i as int) =~= rows@);
    count
}

/// The entry that stands for a thread. A thread without a title gets a name that says so.
pub open spec fn thread_entry(
    row: SqliteThreadIndexRow,
    activity: Option<i64>,
    now: Present,
) -> JsonTree {
    JsonTree::Object(
        Map::empty().insert("id"@, JsonTree::Text(row.id@)).insert(
            "thread_name"@,
            JsonTree::Text(
                if trimmed(row.title@).len() == 0 {
                    "Untitled"@
                } else {
                    row.title@
                },
            ),
        ).insert(
            "updated_at"@,
            JsonTree::Text(thread_time_text(settled_seconds(row.updated_at, activity), now)),
        ),
    )
}

proof fn lemma_thread_entry(row: SqliteThreadIndexRow, activity: Option<i64>, now: Present)
    ensures
        reads_back(thread_entry(row, activity, now)),
        text_member(thread_entry(row, activity, now), "id"@) == Some(row.id@),
{
    reveal_with_fuel(within_levels, 2);
    reveal_with_fuel(numbers_canonical, 2);
    reveal_strlit("id");
    reveal_strlit("thread_name");
    reveal_strlit("updated_at");
    assert("id"@.len() != "thread_name"@.len());
    assert("id"@.len() != "updated_at"@.len());
}

/// The entry that stands for a thread, whose rollout file was last active at `activity`.
pub fn build_session_index_entry_from_thread(
    row: &SqliteThreadIndexRow,
    activity: Option<i64>,
    now: &Present,
) -> (entry: Json)
    ensures
        entry@ == thread_entry(*row, activity, *now),
{
    let mut entries: Vec<(String, Json)> = Vec::new();
    set_entry(&mut entries, "id".to_owned(), Json::Text(row.id.clone()));
    let name = if trim(row.title.as_str()).as_str().is_empty() {
        "Untitled".to_owned()
    } else {
        row.title.clone()
    };
    set_entry(&mut entries, "thread_name".to_owned(), Json::Text(name));
    let seconds = resolve_thread_updated_at_seconds(row.updated_at, activity);
    let updated_at = format_thread_updated_at_iso(seconds, now);
    set_entry(&mut entries, "updated_at".to_owned(), Json::Text(updated_at));
    Json::Object(entries)
}

/// The lines of the index without blank ones at the end.
pub open spec fn kept_lines(lines: Seq<Seq<char>>) -> Seq<Seq<char>>
    decreases lines.len(),
{
    if lines.len() > 0 && trimmed(lines.last()).len() == 0 {
        kept_lines(lines.drop_last())
    } else {
        lines
    }
}

/// The lines with the entries of the threads that have none in the index.
pub open spec fn added_lines(
    rows: Seq<SqliteThreadIndexRow>,
    activities: Seq<Option<i64>>,
    index: Map<Seq<char>, JsonTree>,
    now: Present,
) -> Seq<Seq<char>>
    decreases rows.len(),
{
    if rows.len() == 0 {
        seq![]
    } else {
        let rest = added_lines(rows.drop_last(), activities.drop_last(), index, now);
        if index.contains_key(rows.last().id@) {
            rest
        } else {
            rest.push(
                compact_json(thread_entry(rows.last(), activities.last(), now)),
            )
        }
    }
}

/// The lines that a file holds; none where there is no file.
pub open spec fn file_lines(file: FileText) -> Seq<Seq<char>> {
    match file {
        FileText::Text(content) => lines_of(content@),
        _ => seq![],
    }
}

/// New content for the index, and how many entries it has more than before.
#[derive(Debug)]
pub struct SessionIndexUpdate {
    pub content: String,
    pub added: usize,
}

proof fn lemma_index_of_carriage_returns(lines: Seq<Seq<char>>)
    ensures
        index_of(lines.map_values(|line: Seq<char>| without_carriage_return(line))) == index_of(
            lines,
        ),
    decreases lines.len(),
{
    let stripped = lines.map_values(|line: Seq<char>| without_carriage_return(line));
    if lines.len() > 0 {
        lemma_index_of_carriage_returns(lines.drop_last());
        lemma_trimmed_carriage_return(lines.last());
        assert(stripped.drop_last() =~= lines.drop_last().map_values(
            |line: Seq<char>| without_carriage_return(line),
        ));
    }
}

proof fn lemma_kept_lines(lines: Seq<Seq<char>>)
    ensures
        index_of(kept_lines(lines)) == index_of(lines),
        kept_lines(lines).len() <= lines.len(),
        kept_lines(lines) == lines.take(kept_lines(lines).len() as int),
    decreases lines.len(),
{
    if lines.len() > 0 && trimmed(lines.last()).len() == 0 {
        lemma_kept_lines(lines.drop_last());
        let n = kept_lines(lines).len() as int;
        assert(lines.drop_last().take(n) =~= lines.take(n));
    } else {
        assert(lines.take(lines.len() as int) =~= lines);
    }
}

proof fn lemma_nothing_missing(rows: Seq<SqliteThreadIndexRow>, index: Map<Seq<char>, JsonTree>)
    requires
        forall|i: int| 0 <= i < rows.len() ==> index.contains_key(#[trigger] rows[i].id@),
    ensures
        missing_count(rows, index) == 0,
    decreases rows.len(),
{
    if rows.len() > 0 {
        let rest = rows.drop_last();
        assert forall|i: int| 0 <= i < rest.len() implies index.contains_key(
            #[trigger] rest[i].id@,
        ) by {
            assert(rest[i] == rows[i]);
        }
        lemma_nothing_missing(rest, index);
        assert(rows.last() == rows[rows.len() - 1]);
    }
}

/// Whether `next` is `index` with an entry for each of the threads: what was there is left as it
/// was, every thread has an entry, and an entry that was not there is one of the threads'.
pub open spec fn index_grows(
    index: Map<Seq<char>, JsonTree>,
    next: Map<Seq<char>, JsonTree>,
    rows: Seq<SqliteThreadIndexRow>,
    activities: Seq<Option<i64>>,
    now: Present,
) -> bool {
    &&& forall|id: Seq<char>| #[trigger]
        index.contains_key(id) ==> next.contains_key(id) && next[id] == index[id]
    &&& forall|i: int| 0 <= i < rows.len() ==> next.contains_key(#[trigger] rows[i].id@)
    &&& forall|id: Seq<char>| #[trigger]
        next.contains_key(id) && !index.contains_key(id) ==> exists|i: int|
            0 <= i < rows.len() && #[trigger] rows[i].id@ == id && next[id] == thread_entry(
                rows[i],
                activities[i],
                now,
            )
}

proof fn lemma_index_grows(
    index: Map<Seq<char>, JsonTree>,
    next: Map<Seq<char>, JsonTree>,
    after: Map<Seq<char>, JsonTree>,
    rows: Seq<SqliteThreadIndexRow>,
    activities: Seq<Option<i64>>,
    now: Present,
    i: int,
)
    requires
        0 <= i < rows.len(),
        rows.len() == activities.len(),
        index_grows(index, next, rows.take(i), activities.take(i), now),
        if index.contains_key(rows[i].id@) {
            after == next
        } else {
            after == next.insert(rows[i].id@, thread_entry(rows[i], activities[i], now))
        },
    ensures
        index_grows(index, after, rows.take(i + 1), activities.take(i + 1), now),
{
    let before = rows.take(i);
    let done = rows.take(i + 1);
    assert forall|j: int| 0 <= j < done.len() implies after.contains_key(#[trigger] done[j].id@) by {
        if j < i {
            assert(before[j] == done[j]);
        }
    }
    assert forall|id: Seq<char>| #[trigger]
        after.contains_key(id) && !index.contains_key(id) implies exists|j: int|
        0 <= j < done.len() && #[trigger] done[j].id@ == id && after[id] == thread_entry(
            done[j],
            activities.take(i + 1)[j],
            now,
        ) by {
        if id == rows[i].id@ && !index.contains_key(rows[i].id@) {
            assert(done[i].id@ == id);
        } else {
            let j = choose|j: int|
                0 <= j < before.len() && #[trigger] before[j].id@ == id && next[id] == thread_entry(
                    before[j],
                    activities.take(i)[j],
                    now,
                );
            assert(done[j] == before[j]);
            assert(done[j].id@ == id);
            assert(activities.take(i + 1)[j] == activities.take(i)[j]);
        }
    }
}

/// The new content of the index file at `path` where threads have no entry in it: what it holds,
/// without blank lines at its end, and one line for each of them. `activities` has, for each row,
/// the last activity in the thread's rollout file in seconds.
pub fn reconcile_session_index_from_sqlite(
    path: &str,
    file: &FileText,
    rows: &Vec<SqliteThreadIndexRow>,
    activities: &Vec<Option<i64>>,
    now: &Present,
) -> (update: Result<Option<SessionIndexUpdate>, String>)
    requires
        rows@.len() == activities@.len(),
    ensures
        match *file {
            FileText::Unread(message) => update matches Err(text) && text@ == located(
                "读取 session_index.jsonl 失败"@,
                path@,
                message@,
            ),
            _ => {
                let index = index_of(file_lines(*file));
                match update {
                    Ok(None) => missing_count(rows@, index) == 0,
                    Ok(Some(update)) => {
                        &&& missing_count(rows@, index) > 0
                        &&& update.added == missing_count(rows@, index)
                        &&& update.content@ == joined(
                            kept_lines(file_lines(*file)) + added_lines(
                                rows@,
                                activities@,
                                index,
                                *now,
                            ),
                            "\n"@,
                        ) + "\n"@
                        &&& index_grows(
                            index,
                            index_of(lines_of(update.content@)),
                            rows@,
                            activities@,
                            *now,
                        )
                        &&& missing_count(rows@, index_of(lines_of(update.content@))) == 0
                    },
                    Err(_) => false,
                }
            },
        },
{
    let index = match read_session_index_map(path, file) {
        Ok(index) => index,
        Err(text) => return Err(text),
    };
    let ghost old_index = index_view(index@);
    let ghost old_lines = file_lines(*file);
    assert(index_of(seq![]) =~= Map::<Seq<char>, JsonTree>::empty());
    let added = count_missing_session_index_entries(&index, rows);
    if added == 0 {
        return Ok(None);
    }
    let mut kept: Vec<String> = match file {
        FileText::Text(content) => lines(content.as_str()),
        _ => Vec::new(),
    };
    assert(views(kept@) =~= old_lines);
    while kept.len() > 0 && trim(kept[kept.len() - 1].as_str()).as_str().is_empty()
        invariant
            kept_lines(views(kept@)) == kept_lines(old_lines),
        decreases kept@.len(),
    {
        let ghost before = kept@;
        let _ = kept.pop();
        assert(views(kept@) =~= views(before).drop_last());
        assert(views(before).last() == before.last()@);
    }
    assert(views(kept@) =~= kept_lines(old_lines)) by {
        if kept@.len() > 0 {
            assert(views(kept@).last() == kept@.last()@);
        }
    }
    let ghost first = views(kept@);
    proof {
        lemma_kept_lines(old_lines);
        match file {
            FileText::Text(content) => lemma_lines_hold_no_feed(content@),
            _ => {},
        }
        assert forall|i: int, j: int|
            0 <= i < first.len() && 0 <= j < first[i].len() implies #[trigger] first[i][j] != '\n' by {
            assert(first[i] == old_lines[i]);
            assert(old_lines[i][j] != '\n');
        }
        assert(first + added_lines(rows@.take(0), activities@.take(0), old_index, *now) =~= first);
    }
    let mut i: usize = 0;
    while i < rows.len()
        invariant
            i <= rows@.len(),
            rows@.len() == activities@.len(),
            old_index == index_view(index@),
            views(kept@) == first + added_lines(
                rows@.take(i as int),
                activities@.take(i as int),
                old_index,
                *now,
            ),
            forall|i: int, j: int|
                0 <= i < kept@.len() && 0 <= j < views(kept@)[i].len() ==> #[trigger] views(
                    kept@,
                )[i][j] != '\n',
            index_grows(
                old_index,
                index_of(views(kept@)),
                rows@.take(i as int),
                activities@.take(i as int),
                *now,
            ),
        decreases rows@.len() - i,
    {
        let ghost before = kept@;
        proof {
            assert(rows@.take(i + 1).drop_last() =~= rows@.take(i as int));
            assert(activities@.take(i + 1).drop_last() =~= activities@.take(i as int));
        }
        if !index.contains_key(rows[i].id.as_str()) {
            let entry = build_session_index_entry_from_thread(&rows[i], activities[i], now);
            proof {
                lemma_thread_entry(rows@[i as int], activities@[i as int], *now);
            }
            let line = match render_json(&entry) {
                Ok(line) => line,
                Err(error) => return Err("序列化 session_index 条目失败: ".to_owned().concat(
                    error.as_str(),
                )),
            };
            kept.push(line);
            proof {
                lemma_trimmed_whole(line@);
                assert(views(kept@) =~= views(before).push(line@));
                assert(views(kept@).drop_last() =~= views(before));
                assert(views(kept@) =~= first + added_lines(
                    rows@.take(i + 1),
                    activities@.take(i + 1),
                    old_index,
                    *now,
                ));
                assert forall|a: int, j: int|
                    0 <= a < kept@.len() && 0 <= j < views(kept@)[a].len() implies #[trigger] views(
                    kept@,
                )[a][j] != '\n' by {
                    if a < before.len() {
                        assert(views(before)[a][j] != '\n');
                    }
                }
            }
        }
        proof {
            lemma_index_grows(
                old_index,
                index_of(views(before)),
                index_of(views(kept@)),
                rows@,
                activities@,
                *now,
                i as int,
            );
        }
        i += 1;
    }
    let content = join(&kept, "\n").concat("\n");
    proof {
        assert(rows@.take(i as int) =~= rows@);
        assert(activities@.take(i as int) =~= activities@);
        lemma_added_lines_len(rows@, activities@, old_index, *now);
        reveal_strlit("\n");
        assert("\n"@ =~= seq!['\n']);
        lemma_lines_of_joined(views(kept@));
        lemma_index_of_carriage_returns(views(kept@));
        lemma_nothing_missing(rows@, index_of(views(kept@)));
    }
    Ok(Some(SessionIndexUpdate { content, added }))
}

proof fn lemma_added_lines_len(
    rows: Seq<SqliteThreadIndexRow>,
    activities: Seq<Option<i64>>,
    index: Map<Seq<char>, JsonTree>,
    now: Present,
)
    ensures
        added_lines(rows, activities, index, now).len() == missing_count(rows, index),
    decreases rows.len(),
{
    if rows.len() > 0 {
        lemma_added_lines_len(rows.drop_last(), activities.drop_last(), index, now);
    }
}

/// Each line of the index that is a JSON object with an id in text is the entry of that session, in
/// place of one that came before it; every other line, and a line of white space, means nothing.
pub proof fn each_line_is_the_entry_of_its_session(
    lines: Seq<Seq<char>>,
    line: Seq<char>,
    entry: JsonTree,
    id: Seq<char>,
    other: Seq<char>,
)
    ensures
        index_of(Seq::empty()) == Map::<Seq<char>, JsonTree>::empty(),
        trimmed(line).len() > 0 && parsed_json(trimmed(line)) == Some(entry) && member_of(
            entry,
            "id"@,
        ) == Some(JsonTree::Text(id)) ==> {
            let next = index_of(lines.push(line));
            &&& next.contains_key(id) && next[id] == entry
            &&& other != id ==> next.contains_key(other) == index_of(lines).contains_key(other)
                && next[other] == index_of(lines)[other]
        },
        trimmed(line).len() == 0 || parsed_json(trimmed(line)) is None || (parsed_json(
            trimmed(line),
        ) matches Some(found) && !(member_of(found, "id"@) matches Some(JsonTree::Text(_))))
            ==> index_of(lines.push(line)) == index_of(lines),
{
    assert(lines.push(line).drop_last() =~= lines);
    assert(lines.push(line).last() == line);
}

/// Whether `text` stands under a key, and no text under the keys before it.
pub open spec fn has_text_first_at(
    entry: JsonTree,
    keys: Seq<Seq<char>>,
    k: int,
    text: Seq<char>,
) -> bool {
    &&& 0 <= k < keys.len()
    &&& member_of(entry, keys[k]) == Some(JsonTree::Text(text))
    &&& forall|j: int|
        0 <= j < k ==> !(member_of(entry, #[trigger] keys[j]) matches Some(JsonTree::Text(_)))
}

/// The workspace of an entry is the first text that it gives under `cwd`, `workspace_root`,
/// `workspaceRoot`, `working_directory` and `workingDirectory`, in this order, in normalized form.
/// An entry without such a text has none.
pub proof fn entry_gives_its_first_workspace(entry: JsonTree, k: int, text: Seq<char>)
    ensures
        ({
            let keys = seq![
                "cwd"@,
                "workspace_root"@,
                "workspaceRoot"@,
                "working_directory"@,
                "workingDirectory"@,
            ];
            &&& has_text_first_at(entry, keys, k, text) ==> indexed_root(entry) == normalized_root(
                text,
            )
            &&& (forall|j: int|
                0 <= j < 5 ==> !(member_of(entry, #[trigger] keys[j]) matches Some(
                    JsonTree::Text(_),
                ))) ==> indexed_root(entry) is None
        }),
{
    let keys = seq![
        "cwd"@,
        "workspace_root"@,
        "workspaceRoot"@,
        "working_directory"@,
        "workingDirectory"@,
    ];
    assert(keys[0] == "cwd"@);
    assert(keys[1] == "workspace_root"@);
    assert(keys[2] == "workspaceRoot"@);
    assert(keys[3] == "working_directory"@);
    assert(keys[4] == "workingDirectory"@);
}

/// The threads that the index lacks are those without an entry under their id, each counted once.
pub proof fn missing_threads_have_no_entry(
    rows: Seq<SqliteThreadIndexRow>,
    index: Map<Seq<char>, JsonTree>,
)
    ensures
        missing_count(rows, index) == rows.filter(
            |row: SqliteThreadIndexRow| !index.contains_key(row.id@),
        ).len(),
        missing_count(rows, index) == 0 <==> forall|i: int|
            0 <= i < rows.len() ==> index.contains_key((#[trigger] rows[i]).id@),
    decreases rows.len(),
{
    reveal(Seq::filter);
    if rows.len() > 0 {
        let rest = rows.drop_last();
        missing_threads_have_no_entry(rest, index);
        assert(rows[rows.len() - 1] == rows.last());
        assert(forall|i: int| 0 <= i < rest.len() ==> rest[i] == #[trigger] rows[i]);
        if forall|i: int| 0 <= i < rows.len() ==> index.contains_key((#[trigger] rows[i]).id@) {
            assert forall|i: int| 0 <= i < rest.len() implies index.contains_key(
                (#[trigger] rest[i]).id@,
            ) by {
                assert(index.contains_key(rows[i].id@));
            }
        }
        if missing_count(rows, index) == 0 {
            assert forall|i: int| 0 <= i < rows.len() implies index.contains_key(
                (#[trigger] rows[i]).id@,
            ) by {
                if i < rest.len() {
                    assert(index.contains_key(rest[i].id@));
                }
            }
        }
    }
}

/// The entry of a thread has its id, its title, or `Untitled` in place of a blank one, and the time
/// of its last update, and nothing else. The time is that of the database unless that is more than an
/// hour before or after the activity in the rollout file, and the present where neither is known.
pub proof fn entry_says_what_is_known_of_the_thread(
    row: SqliteThreadIndexRow,
    activity: Option<i64>,
    now: Present,
    key: Seq<char>,
    second: i64,
    written: Seq<char>,
)
    requires
        match (row.updated_at, activity) {
            (Some(a), Some(b)) => second == if -3_600 <= a - b <= 3_600 {
                a
            } else {
                b
            },
            (Some(a), None) => second == a,
            (None, Some(b)) => second == b,
            (None, None) => second == now.seconds,
        },
        rfc3339_micros(second) == Some(written),
    ensures
        ({
            let entry = thread_entry(row, activity, now);
            &&& member_of(entry, "id"@) == Some(JsonTree::Text(row.id@))
            &&& (forall|i: int| 0 <= i < row.title@.len() ==> is_white(#[trigger] row.title@[i]))
                ==> member_of(entry, "thread_name"@) == Some(JsonTree::Text("Untitled"@))
            &&& !(forall|i: int| 0 <= i < row.title@.len() ==> is_white(#[trigger] row.title@[i]))
                ==> member_of(entry, "thread_name"@) == Some(JsonTree::Text(row.title@))
            &&& member_of(entry, "updated_at"@) == Some(JsonTree::Text(written))
            &&& key != "id"@ && key != "thread_name"@ && key != "updated_at"@ ==> member_of(
                entry,
                key,
            ) is None
        }),
{
    reveal_strlit("id");
    reveal_strlit("thread_name");
    reveal_strlit("updated_at");
    assert("id"@.len() == 2 && "thread_name"@.len() == 11 && "updated_at"@.len() == 10);
    lemma_trimmed_blank(row.title@);
}

/// Of the lines of the index only blank ones at its end are left out, and all of these.
pub proof fn blank_lines_at_the_end_are_left_out(lines: Seq<Seq<char>>, i: int)
    ensures
        ({
            let kept = kept_lines(lines);
            &&& kept.len() <= lines.len()
            &&& 0 <= i < kept.len() ==> kept[i] == lines[i]
            &&& kept.len() <= i < lines.len() ==> trimmed(lines[i]).len() == 0
            &&& kept.len() > 0 ==> trimmed(kept.last()).len() > 0
        }),
    decreases lines.len(),
{
    if lines.len() > 0 && trimmed(lines.last()).len() == 0 {
        blank_lines_at_the_end_are_left_out(lines.drop_last(), i);
        lemma_kept_lines(lines.drop_last());
        if i == lines.len() - 1 {
            assert(lines[i] == lines.last());
        }
    }
}

/// A line is added for each thread without an entry, in the order of the threads, and for no other.
pub proof fn line_is_added_for_each_missing_thread(
    rows: Seq<SqliteThreadIndexRow>,
    activities: Seq<Option<i64>>,
    index: Map<Seq<char>, JsonTree>,
    now: Present,
    row: SqliteThreadIndexRow,
    activity: Option<i64>,
)
    requires
        rows.len() == activities.len(),
    ensures
        added_lines(Seq::empty(), Seq::empty(), index, now).len() == 0,
        index.contains_key(row.id@) ==> added_lines(
            rows.push(row),
            activities.push(activity),
            index,
            now,
        ) == added_lines(rows, activities, index, now),
        !index.contains_key(row.id@) ==> added_lines(
            rows.push(row),
            activities.push(activity),
            index,
            now,
        ) == added_lines(rows, activities, index, now).push(
            compact_json(thread_entry(row, activity, now)),
        ),
{
    assert(rows.push(row).drop_last() =~= rows);
    assert(activities.push(activity).drop_last() =~= activities);
}

/// What the query for the index selects, as expressions.
pub open spec fn selected_for_index(names: Seq<Seq<char>>) -> Seq<SqlExpr> {
    seq![
        *column("id"@),
        column_or_empty(names.contains("title"@), "title"@),
        column_or_null(names.contains("updated_at"@), "updated_at"@),
        column_or_null(names.contains("rollout_path"@), "rollout_path"@),
    ]
}

proof fn lemma_index_query_words()
    ensures
        "COALESCE(title, '')"@ == "COALESCE("@ + ("title"@ + ", "@ + "''"@) + ")"@,
        "SELECT "@ + "id"@ + ", "@ == "SELECT id, "@,
{
    reveal_strlit("COALESCE(");
    reveal_strlit("title");
    reveal_strlit(", ");
    reveal_strlit("''");
    reveal_strlit(")");
    reveal_strlit("SELECT ");
    reveal_strlit("id");
    reveal_strlit("SELECT id, ");
    reveal_strlit("COALESCE(title, '')");
    assert("COALESCE(title, '')"@ =~= "COALESCE("@ + ("title"@ + ", "@ + "''"@) + ")"@);
    assert("SELECT "@ + "id"@ + ", "@ =~= "SELECT id, "@);
}

/// The query for the index reads of every thread its id, its title, the time of its last update and
/// its rollout file; a title that is null or has no column is empty, and the others are null without
/// a column.
pub proof fn index_query_reads_the_threads(
    names: Seq<Seq<char>>,
    row: spec_fn(Seq<char>) -> SqlTerm,
)
    ensures
        index_query(names) == select_text(selected_for_index(names))
            + " FROM threads ORDER BY updated_at DESC"@,
        forall|i: int|
            0 <= i < 4 ==> literals_are_true(#[trigger] selected_for_index(names)[i]),
        selected_for_index(names).len() == 4,
        sql_value(selected_for_index(names)[0], row, SqlTerm::Null) == row("id"@),
        sql_value(selected_for_index(names)[1], row, SqlTerm::Null) == if names.contains("title"@)
            && !(row("title"@) is Null) {
            row("title"@)
        } else {
            SqlTerm::Text(seq![])
        },
        sql_value(selected_for_index(names)[2], row, SqlTerm::Null) == if names.contains(
            "updated_at"@,
        ) {
            row("updated_at"@)
        } else {
            SqlTerm::Null
        },
        sql_value(selected_for_index(names)[3], row, SqlTerm::Null) == if names.contains(
            "rollout_path"@,
        ) {
            row("rollout_path"@)
        } else {
            SqlTerm::Null
        },
{
    let all = selected_for_index(names);
    lemma_literals();
    lemma_index_query_words();
    lemma_column_or_empty_text(names.contains("title"@), "title"@);
    lemma_select_one(all[0]);
    lemma_select_one_more(seq![all[0]], all[1]);
    lemma_select_one_more(seq![all[0]].push(all[1]), all[2]);
    lemma_select_one_more(seq![all[0]].push(all[1]).push(all[2]), all[3]);
    assert(seq![all[0]].push(all[1]).push(all[2]).push(all[3]) =~= all);
    reveal_with_fuel(sql_value, 4);
    reveal_with_fuel(literals_are_true, 4);
}

/// The threads for the index are read where the table has ids. There are none to read where there is
/// no database, where it is unusable when it is opened, or where it says that it has no such table;
/// any other failure is an error.
pub proof fn index_is_read_where_the_table_has_ids(path: Seq<char>, database: StateDatabase)
    ensures
        match index_stage(path, database) {
            Ok(Some(_)) => database matches StateDatabase::Columns(names) && views(
                names@,
            ).contains("id"@),
            Ok(None) => match database {
                StateDatabase::Absent => true,
                StateDatabase::Unopened(failure) => failure.unusable,
                StateDatabase::Unprepared(failure) => holds_part(
                    lowered(failure.message@),
                    "no such table: threads"@,
                ),
                StateDatabase::Columns(names) => !views(names@).contains("id"@),
                _ => false,
            },
            Err(_) => match database {
                StateDatabase::Unopened(failure) => !failure.unusable,
                StateDatabase::Unset(_) => true,
                StateDatabase::Unprepared(failure) => !holds_part(
                    lowered(failure.message@),
                    "no such table: threads"@,
                ),
                StateDatabase::Unread(_) => true,
                _ => false,
            },
        },
{
}

} // verus!
