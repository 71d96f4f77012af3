//! The local thread catalog: a second database that lists the threads to show. It is brought in
//! line with the state database.

use vstd::prelude::*;

use crate::paths::{
    is_settled, normalize_optional_path_text, normalize_workspace_root, normalized_root,
    normalized_root_is_stable, plain_path, plain_path_is_stable,
};
use crate::sql_expr::{
    any_of, arguments, column, empty_text, is_true, lemma_any_of_text, lemma_any_of_value,
    lemma_arguments_literals, lemma_arguments_text, lemma_literals, lemma_select_one,
    lemma_select_one_more, literals_are_true, select_text, sql_text, sql_texts, sql_value, truth,
    SqlExpr,
};
use crate::sqlite::{
    column_or, format_sqlite_read_error, has_name, lemma_located, located, plain_query, query,
    rows_of, rows_result, scan_threads_table, statement_texts, text_term, threads_scan, RowsOutcome,
    SqlTerm, SqlValue, SqliteFailure, StateDatabase, Statement, StatementText, ThreadsTableColumns,
};
use crate::text::{finishes_with, join, joined, opt_view, same_text, views};
use crate::threads::text_value;

verus! {

/// A thread as the query for the catalog gives it; times are in milliseconds.
#[derive(Debug)]
pub struct CatalogQueryRow {
    pub id: String,
    pub title: String,
    pub created_at_ms: Option<i64>,
    pub updated_at_ms: Option<i64>,
    pub cwd: String,
    pub source_kind: String,
    pub source_detail: String,
    pub model_provider: String,
    pub git_branch: Option<String>,
}

/// A thread as the catalog should list it; times are in milliseconds.
#[derive(Debug)]
pub struct LocalThreadCatalogSourceRow {
    pub id: String,
    pub title: String,
    pub source_created_at_ms: i64,
    pub source_updated_at_ms: i64,
    pub cwd: String,
    pub source_kind: String,
    pub source_detail: String,
    pub model_provider: String,
    pub git_branch: Option<String>,
}

/// What a `LocalThreadCatalogSourceRow` says.
pub struct SourceText {
    pub id: Seq<char>,
    pub title: Seq<char>,
    pub created_ms: i64,
    pub updated_ms: i64,
    pub cwd: Seq<char>,
    pub source_kind: Seq<char>,
    pub source_detail: Seq<char>,
    pub model_provider: Seq<char>,
    pub git_branch: Option<Seq<char>>,
}

impl View for LocalThreadCatalogSourceRow {
    type V = SourceText;

    open spec fn view(&self) -> SourceText {
        SourceText {
            id: self.id@,
            title: self.title@,
            created_ms: self.source_created_at_ms,
            updated_ms: self.source_updated_at_ms,
            cwd: self.cwd@,
            source_kind: self.source_kind@,
            source_detail: self.source_detail@,
            model_provider: self.model_provider@,
            git_branch: opt_view(self.git_branch),
        }
    }
}

/// What each of the rows says.
pub open spec fn source_texts(rows: Seq<LocalThreadCatalogSourceRow>) -> Seq<SourceText> {
    rows.map_values(|row: LocalThreadCatalogSourceRow| row@)
}

/// One text where the condition holds, else another.
pub open spec fn either(condition: bool, yes: Seq<char>, no: Seq<char>) -> Seq<char> {
    if condition {
        yes
    } else {
        no
    }
}

fn choose_text(condition: bool, yes: &'static str, no: &'static str) -> (text: &'static str)
    ensures
        text@ == either(condition, yes@, no@),
{
    if condition {
        yes
    } else {
        no
    }
}

/// A time in milliseconds, from the column that has it so or else from the one in seconds.
pub open spec fn time_expr(
    millis: bool,
    seconds: bool,
    both: Seq<char>,
    only_millis: Seq<char>,
    only_seconds: Seq<char>,
) -> Seq<char> {
    if millis {
        either(seconds, both, only_millis)
    } else {
        either(seconds, only_seconds, "NULL"@)
    }
}

/// What a thread came from, for the catalog.
pub open spec fn source_kind_expr(columns: ThreadsTableColumns) -> Seq<char> {
    if columns.source {
        either(
            columns.thread_source,
            "COALESCE(NULLIF(source, ''), NULLIF(thread_source, ''), 'user')"@,
            "COALESCE(NULLIF(source, ''), 'user')"@,
        )
    } else {
        either(columns.thread_source, "COALESCE(NULLIF(thread_source, ''), 'user')"@, "'user'"@)
    }
}

/// The query for the threads that the catalog should list: those that are not archived, that the
/// user took part in, and that have something to show.
pub open spec fn catalog_query(columns: ThreadsTableColumns) -> Seq<char> {
    let title = sql_text(shown_or_null(columns.title, "title"@));
    let preview = sql_text(shown_or_null(columns.preview, "preview"@));
    let message = sql_text(shown_or_null(columns.first_user_message, "first_user_message"@));
    let created = time_expr(
        columns.created_at_ms,
        columns.created_at,
        "COALESCE(created_at_ms, created_at * 1000)"@,
        "created_at_ms"@,
        "created_at * 1000"@,
    );
    let updated = time_expr(
        columns.updated_at_ms,
        columns.updated_at,
        "COALESCE(updated_at_ms, updated_at * 1000)"@,
        "updated_at_ms"@,
        "updated_at * 1000"@,
    );
    "SELECT id, COALESCE("@ + title + ", "@ + preview + ", "@ + message + ", id), "@ + created
        + ", "@ + updated + ", "@ + either(columns.cwd, "COALESCE(cwd, '')"@, "''"@) + ", "@
        + source_kind_expr(columns) + ", "@ + either(
        columns.rollout_path,
        "COALESCE(rollout_path, '')"@,
        "''"@,
    ) + ", "@ + either(columns.model_provider, "COALESCE(model_provider, '')"@, "''"@) + ", "@
        + either(columns.git_branch, "git_branch"@, "NULL"@) + " FROM threads WHERE "@ + sql_text(
        is_to_be_listed(columns),
    )
}

/// The literal of a number.
pub open spec fn number(written: Seq<char>, value: i64) -> Box<SqlExpr> {
    Box::new(SqlExpr::Literal(written, SqlTerm::Integer(value)))
}

/// The condition that a column, or zero where it is null, has this value; without the column it is
/// always met.
pub open spec fn counts_as(
    there: bool,
    name: Seq<char>,
    written: Seq<char>,
    value: i64,
) -> SqlExpr {
    if there {
        SqlExpr::Equals(column_or(name, number("0"@, 0)), number(written, value))
    } else {
        SqlExpr::Equals(number("1"@, 1), number("1"@, 1))
    }
}

/// The column, or null where it is empty or not there.
pub open spec fn shown_or_null(there: bool, name: Seq<char>) -> SqlExpr {
    if there {
        SqlExpr::NullIfEmpty(column(name))
    } else {
        SqlExpr::Literal("NULL"@, SqlTerm::Null)
    }
}

/// The condition that a thread has something to show, for the catalog.
pub open spec fn has_something_to_show(columns: ThreadsTableColumns) -> SqlExpr {
    let shown = seq![
        shown_or_null(columns.preview, "preview"@),
        shown_or_null(columns.first_user_message, "first_user_message"@),
        shown_or_null(columns.title, "title"@),
        *empty_text(),
    ];
    SqlExpr::Differs(Box::new(SqlExpr::Coalesce(Box::new(arguments(shown)))), empty_text())
}

/// The condition on the threads that the catalog should list.
pub open spec fn is_to_be_listed(columns: ThreadsTableColumns) -> SqlExpr {
    SqlExpr::Both(
        Box::new(
            SqlExpr::Both(
                Box::new(counts_as(columns.archived, "archived"@, "0"@, 0)),
                Box::new(counts_as(columns.has_user_event, "has_user_event"@, "1"@, 1)),
            ),
        ),
        Box::new(has_something_to_show(columns)),
    )
}

proof fn lemma_counts_as_text(there: bool, name: Seq<char>, written: Seq<char>, value: i64)
    ensures
        sql_text(counts_as(there, name, written, value)) == if there {
            "COALESCE("@ + (name + ", "@ + "0"@) + ")"@ + " = "@ + written
        } else {
            "1"@ + " = "@ + "1"@
        },
{
    assert(sql_text(*number("0"@, 0)) == "0"@);
    assert(sql_text(*number("1"@, 1)) == "1"@);
    assert(sql_text(*number(written, value)) == written);
    assert(sql_text(*column(name)) == name);
    let arguments = SqlExpr::Else(column(name), number("0"@, 0));
    assert(sql_text(arguments) == name + ", "@ + "0"@);
    assert(sql_text(*column_or(name, number("0"@, 0))) == "COALESCE("@ + sql_text(arguments)
        + ")"@);
}

fn counts_as_text(there: bool, name: &str, written: &str) -> (text: String)
    ensures
        forall|value: i64|
            #[trigger] sql_text(counts_as(there, name@, written@, value)) == text@,
{
    proof {
        assert forall|value: i64|
            #[trigger] sql_text(counts_as(there, name@, written@, value)) == if there {
                "COALESCE("@ + (name@ + ", "@ + "0"@) + ")"@ + " = "@ + written@
            } else {
                "1"@ + " = "@ + "1"@
            } by {
            lemma_counts_as_text(there, name@, written@, value);
        }
    }
    if there {
        "COALESCE(".to_owned().concat(name.to_owned().concat(", ").concat("0").as_str()).concat(
            ")",
        ).concat(" = ").concat(written)
    } else {
        "1".to_owned().concat(" = ").concat("1")
    }
}

fn shown_text(there: bool, name: &str) -> (text: String)
    ensures
        text@ == sql_text(shown_or_null(there, name@)),
{
    assert(sql_text(*column(name@)) == name@);
    if there {
        "NULLIF(".to_owned().concat(name).concat(", '')")
    } else {
        "NULL".to_owned()
    }
}

proof fn lemma_four_joined(a: Seq<char>, b: Seq<char>, c: Seq<char>, d: Seq<char>, by: Seq<char>)
    ensures
        joined(seq![a, b, c, d], by) == a + by + b + by + c + by + d,
{
    let all = seq![a, b, c, d];
    assert(all.drop_last() =~= seq![a, b, c]);
    assert(seq![a, b, c].drop_last() =~= seq![a, b]);
    assert(seq![a, b].drop_last() =~= seq![a]);
    assert(joined(seq![a], by) == a);
    assert(joined(seq![a, b], by) == a + by + b);
    assert(joined(seq![a, b, c], by) == a + by + b + by + c);
}

/// Whether a value is something to show: neither null nor the empty text.
pub open spec fn is_shown(value: SqlTerm) -> bool {
    !(value is Null) && value != SqlTerm::Text(seq![])
}

/// The catalog should list exactly the threads that are not archived, that the user took part in,
/// and that have a preview, a first message or a title to show, as far as the table has columns for
/// these.
pub proof fn listed_threads_have_something_to_show(
    columns: ThreadsTableColumns,
    row: spec_fn(Seq<char>) -> SqlTerm,
    parameter: SqlTerm,
)
    ensures
        is_true(sql_value(is_to_be_listed(columns), row, parameter)) <==> {
            &&& columns.archived ==> row("archived"@) is Null || row("archived"@)
                == SqlTerm::Integer(0)
            &&& columns.has_user_event ==> row("has_user_event"@) == SqlTerm::Integer(1)
            &&& {
                ||| columns.preview && is_shown(row("preview"@))
                ||| columns.first_user_message && is_shown(row("first_user_message"@))
                ||| columns.title && is_shown(row("title"@))
            }
        },
{
    let preview = shown_or_null(columns.preview, "preview"@);
    let message = shown_or_null(columns.first_user_message, "first_user_message"@);
    let title = shown_or_null(columns.title, "title"@);
    let shown = seq![preview, message, title, *empty_text()];
    assert(shown.drop_last() =~= seq![preview, message, title]);
    assert(seq![preview, message, title].drop_last() =~= seq![preview, message]);
    assert(seq![preview, message].drop_last() =~= seq![preview]);
    reveal_with_fuel(arguments, 4);
    reveal_with_fuel(sql_value, 5);
    let first = counts_as(columns.archived, "archived"@, "0"@, 0);
    let second = counts_as(columns.has_user_event, "has_user_event"@, "1"@, 1);
    assert(is_true(sql_value(first, row, parameter)) <==> (columns.archived ==> row("archived"@)
        is Null || row("archived"@) == SqlTerm::Integer(0)));
    assert(is_true(sql_value(second, row, parameter)) <==> (columns.has_user_event ==> row(
        "has_user_event"@,
    ) == SqlTerm::Integer(1)));
    let all = arguments(shown);
    assert(all == SqlExpr::Else(
        Box::new(
            SqlExpr::Else(
                Box::new(SqlExpr::Else(Box::new(preview), Box::new(message))),
                Box::new(title),
            ),
        ),
        empty_text(),
    ));
    let value = sql_value(all, row, parameter);
    assert(value != SqlTerm::Text(seq![]) <==> {
        ||| columns.preview && is_shown(row("preview"@))
        ||| columns.first_user_message && is_shown(row("first_user_message"@))
        ||| columns.title && is_shown(row("title"@))
    });
    assert(!(value is Null));
    assert(sql_value(has_something_to_show(columns), row, parameter) == truth(
        value != SqlTerm::Text(seq![]),
    ));
}

/// What reading the threads for the catalog takes: nothing where there are none to read, else a
/// query.
pub open spec fn catalog_stage(path: Seq<char>, database: StateDatabase) -> Result<
    Option<StatementText>,
    Seq<char>,
> {
    match threads_scan(path, database) {
        Err(text) => Err(text),
        Ok(scan) => Ok(
            match scan.columns {
                Some(columns) => if columns.id {
                    Some(plain_query(catalog_query(columns)))
                } else {
                    None
                },
                None => None,
            },
        ),
    }
}

fn build_listing_condition(columns: ThreadsTableColumns) -> (text: String)
    ensures
        text@ == sql_text(is_to_be_listed(columns)),
{
    let archived = counts_as_text(columns.archived, "archived", "0");
    let user_event = counts_as_text(columns.has_user_event, "has_user_event", "1");
    let preview = shown_text(columns.preview, "preview");
    let message = shown_text(columns.first_user_message, "first_user_message");
    let title = shown_text(columns.title, "title");
    proof {
        let first = counts_as(columns.archived, "archived"@, "0"@, 0);
        let second = counts_as(columns.has_user_event, "has_user_event"@, "1"@, 1);
        let both = SqlExpr::Both(Box::new(first), Box::new(second));
        assert(sql_text(first) == archived@);
        assert(sql_text(second) == user_event@);
        assert(sql_text(both) == archived@ + " AND "@ + user_event@);
        let shown = seq![
            shown_or_null(columns.preview, "preview"@),
            shown_or_null(columns.first_user_message, "first_user_message"@),
            shown_or_null(columns.title, "title"@),
            *empty_text(),
        ];
        assert(sql_text(*empty_text()) == "''"@);
        assert(sql_texts(shown) =~= seq![preview@, message@, title@, "''"@]);
        lemma_arguments_text(shown);
        lemma_four_joined(preview@, message@, title@, "''"@, ", "@);
        let first_shown = SqlExpr::Coalesce(Box::new(arguments(shown)));
        assert(sql_text(first_shown) == "COALESCE("@ + sql_text(arguments(shown)) + ")"@);
        assert(sql_text(has_something_to_show(columns)) == sql_text(first_shown) + " <> "@
            + "''"@);
    }
    let all_shown = preview.concat(", ").concat(message.as_str()).concat(", ").concat(
        title.as_str(),
    ).concat(", ").concat("''");
    let shows = "COALESCE(".to_owned().concat(all_shown.as_str()).concat(")").concat(" <> ").concat(
        "''",
    );
    archived.concat(" AND ").concat(user_event.as_str()).concat(" AND ").concat(shows.as_str())
}

fn build_catalog_query(columns: ThreadsTableColumns) -> (sql: String)
    ensures
        sql@ == catalog_query(columns),
{
    let title_expr = shown_text(columns.title, "title");
    let preview_expr = shown_text(columns.preview, "preview");
    let message_expr = shown_text(columns.first_user_message, "first_user_message");
    let created_expr = match (columns.created_at_ms, columns.created_at) {
        (true, true) => "COALESCE(created_at_ms, created_at * 1000)",
        (true, false) => "created_at_ms",
        (false, true) => "created_at * 1000",
        (false, false) => "NULL",
    };
    let updated_expr = match (columns.updated_at_ms, columns.updated_at) {
        (true, true) => "COALESCE(updated_at_ms, updated_at * 1000)",
        (true, false) => "updated_at_ms",
        (false, true) => "updated_at * 1000",
        (false, false) => "NULL",
    };
    let source_expr = match (columns.source, columns.thread_source) {
        (true, true) => "COALESCE(NULLIF(source, ''), NULLIF(thread_source, ''), 'user')",
        (true, false) => "COALESCE(NULLIF(source, ''), 'user')",
        (false, true) => "COALESCE(NULLIF(thread_source, ''), 'user')",
        (false, false) => "'user'",
    };
    let cwd_expr = choose_text(columns.cwd, "COALESCE(cwd, '')", "''");
    let rollout_path_expr = choose_text(columns.rollout_path, "COALESCE(rollout_path, '')", "''");
    let model_provider_expr = choose_text(
        columns.model_provider,
        "COALESCE(model_provider, '')",
        "''",
    );
    let git_branch_expr = choose_text(columns.git_branch, "git_branch", "NULL");
    let condition = build_listing_condition(columns);
    "SELECT id, COALESCE(".to_owned().concat(title_expr.as_str()).concat(", ").concat(
        preview_expr.as_str(),
    ).concat(", ").concat(message_expr.as_str()).concat(", id), ").concat(created_expr).concat(
        ", ",
    ).concat(updated_expr).concat(", ").concat(cwd_expr).concat(", ").concat(source_expr).concat(
        ", ",
    ).concat(rollout_path_expr).concat(", ").concat(model_provider_expr).concat(", ").concat(
        git_branch_expr,
    ).concat(" FROM threads WHERE ").concat(condition.as_str())
}

/// Begins to read the threads that the catalog should list.
pub fn load_local_thread_catalog_source_rows(
    path: &str,
    database: &StateDatabase,
) -> (statement: Result<Option<Statement>, String>)
    ensures
        match catalog_stage(path@, *database) {
            Ok(Some(text)) => statement matches Ok(Some(statement)) && statement@ == text,
            Ok(None) => statement matches Ok(None),
            Err(text) => statement matches Err(error) && error@ == text,
        },
{
    let scan = match scan_threads_table(path, database) {
        Ok(scan) => scan,
        Err(text) => return Err(text),
    };
    let columns = match scan.columns {
        Some(columns) => columns,
        None => return Ok(None),
    };
    if !columns.id {
        return Ok(None);
    }
    Ok(Some(query(build_catalog_query(columns))))
}

/// A missing time counts as the beginning of time.
pub open spec fn or_zero(time: Option<i64>) -> i64 {
    match time {
        Some(time) => time,
        None => 0,
    }
}

/// The thread as the catalog should list it, where its working directory has a normalized form.
pub open spec fn catalog_source(row: CatalogQueryRow) -> Option<SourceText> {
    match normalized_root(row.cwd@) {
        Some(cwd) => Some(
            SourceText {
                id: row.id@,
                title: row.title@,
                created_ms: or_zero(row.created_at_ms),
                updated_ms: or_zero(row.updated_at_ms),
                cwd,
                source_kind: row.source_kind@,
                source_detail: plain_path(row.source_detail@),
                model_provider: row.model_provider@,
                git_branch: opt_view(row.git_branch),
            },
        ),
        None => None,
    }
}

/// The threads as the catalog should list them, without those that belong to no project.
pub open spec fn catalog_sources(rows: Seq<CatalogQueryRow>) -> Seq<SourceText>
    decreases rows.len(),
{
    if rows.len() == 0 {
        seq![]
    } else {
        match catalog_source(rows.last()) {
            Some(source) => catalog_sources(rows.drop_last()).push(source),
            None => catalog_sources(rows.drop_last()),
        }
    }
}

/// Ends reading the threads that the catalog should list.
pub fn finish_local_thread_catalog_source_rows(
    path: &str,
    outcome: RowsOutcome<CatalogQueryRow>,
) -> (sources: Result<Vec<LocalThreadCatalogSourceRow>, String>)
    ensures
        match rows_result(
            path@,
            outcome,
            "prepare local catalog source query"@,
            "query local catalog source rows"@,
            "read local catalog source row"@,
        ) {
            Ok(rows) => sources matches Ok(sources) && source_texts(sources@) == catalog_sources(
                rows,
            ),
            Err(text) => sources matches Err(error) && error@ == text,
        },
{
    let rows = match rows_of(
        path,
        outcome,
        "prepare local catalog source query",
        "query local catalog source rows",
        "read local catalog source row",
    ) {
        Ok(rows) => rows,
        Err(text) => return Err(text),
    };
    let ghost all = rows@;
    let mut sources: Vec<LocalThreadCatalogSourceRow> = Vec::new();
    assert(source_texts(sources@) =~= catalog_sources(all.take(0)));
    for row in it: rows
        invariant
            it.seq() == all,
            source_texts(sources@) == catalog_sources(all.take(it.index() as int)),
    {
        let ghost before = sources@;
        assert(all.take(it.index() + 1).drop_last() =~= all.take(it.index() as int));
        if let Some(cwd) = normalize_workspace_root(row.cwd.as_str()) {
            let source_detail = normalize_optional_path_text(row.source_detail.as_str());
            let source = LocalThreadCatalogSourceRow {
                id: row.id,
                title: row.title,
                source_created_at_ms: match row.created_at_ms {
                    Some(time) => time,
                    None => 0,
                },
                source_updated_at_ms: match row.updated_at_ms {
                    Some(time) => time,
                    None => 0,
                },
                cwd,
                source_kind: row.source_kind,
                source_detail,
                model_provider: row.model_provider,
                git_branch: row.git_branch,
            };
            sources.push(source);
            assert(source_texts(sources@) =~= source_texts(before).push(source@));
        }
    }
    assert(all.take(all.len() as int) =~= all);
    Ok(sources)
}

/// How far an attempt to look at the catalog came.
#[derive(Debug)]
pub enum CatalogDatabase {
    /// There is no such file.
    Absent,
    /// The file could not be opened.
    Unopened(SqliteFailure),
    /// The time to wait for a busy database could not be set.
    Unset(SqliteFailure),
    /// The outcome of asking for the names of its tables.
    Tables(RowsOutcome<String>),
}

/// Whether the catalog has all its tables.
pub open spec fn has_catalog_tables(names: Seq<Seq<char>>) -> bool {
    &&& names.contains("local_thread_catalog"@)
    &&& names.contains("local_thread_catalog_hosts"@)
    &&& names.contains("local_thread_catalog_metadata"@)
    &&& names.contains("local_thread_catalog_sync_state"@)
}

/// Whether the catalog has all its tables, or the error of asking for them.
pub open spec fn schema_result(path: Seq<char>, outcome: RowsOutcome<String>) -> Result<
    bool,
    Seq<char>,
> {
    match rows_result(
        path,
        outcome,
        "read local catalog schema"@,
        "query local catalog schema"@,
        "read local catalog schema row"@,
    ) {
        Ok(names) => Ok(has_catalog_tables(views(names))),
        Err(text) => Err(text),
    }
}

/// The query for the names of a database's tables.
pub fn table_name_query() -> (statement: Statement)
    ensures
        statement@ == plain_query("SELECT name FROM sqlite_master WHERE type = 'table'"@),
{
    query("SELECT name FROM sqlite_master WHERE type = 'table'".to_owned())
}

/// Whether the catalog at `path` has all its tables.
pub fn local_thread_catalog_schema_available(path: &str, outcome: RowsOutcome<String>) -> (available:
    Result<bool, String>)
    ensures
        match schema_result(path@, outcome) {
            Ok(yes) => available matches Ok(available) && available == yes,
            Err(text) => available matches Err(error) && error@ == text,
        },
{
    match rows_of(
        path,
        outcome,
        "read local catalog schema",
        "query local catalog schema",
        "read local catalog schema row",
    ) {
        Ok(names) => Ok(
            has_name(&names, "local_thread_catalog") && has_name(
                &names,
                "local_thread_catalog_hosts",
            ) && has_name(&names, "local_thread_catalog_metadata") && has_name(
                &names,
                "local_thread_catalog_sync_state",
            ),
        ),
        Err(text) => Err(text),
    }
}

/// Whether there is a catalog to work on, and threads for it; or the error of looking.
pub open spec fn catalog_result(path: Seq<char>, catalog: CatalogDatabase, sources: nat) -> Result<
    bool,
    Seq<char>,
> {
    match catalog {
        CatalogDatabase::Absent => Ok(false),
        _ => if sources == 0 {
            Ok(false)
        } else {
            match catalog {
                CatalogDatabase::Absent => Ok(false),
                CatalogDatabase::Unopened(failure) => if failure.unusable {
                    Ok(false)
                } else {
                    Err(
                        located(
                            "打开 Codex local_thread_catalog 数据库失败"@,
                            path,
                            failure.message@,
                        ),
                    )
                },
                CatalogDatabase::Unset(failure) => Err(
                    located("设置 local_thread_catalog busy_timeout 失败"@, path, failure.message@),
                ),
                CatalogDatabase::Tables(outcome) => schema_result(path, outcome),
            }
        },
    }
}

/// Whether there is a catalog to work on, and threads for it.
pub fn catalog_is_usable(
    path: &str,
    catalog: CatalogDatabase,
    sources: &Vec<LocalThreadCatalogSourceRow>,
) -> (usable: Result<bool, String>)
    ensures
        match catalog_result(path@, catalog, sources@.len()) {
            Ok(yes) => usable matches Ok(usable) && usable == yes,
            Err(text) => usable matches Err(error) && error@ == text,
        },
{
    match catalog {
        CatalogDatabase::Absent => Ok(false),
        CatalogDatabase::Unopened(failure) => if sources.len() == 0 || failure.unusable {
            Ok(false)
        } else {
            Err(
                format_sqlite_read_error(
                    path,
                    "打开 Codex local_thread_catalog 数据库失败",
                    failure.message.as_str(),
                ),
            )
        },
        CatalogDatabase::Unset(failure) => if sources.len() == 0 {
            Ok(false)
        } else {
            Err(
                format_sqlite_read_error(
                    path,
                    "设置 local_thread_catalog busy_timeout 失败",
                    failure.message.as_str(),
                ),
            )
        },
        CatalogDatabase::Tables(outcome) => if sources.len() == 0 {
            Ok(false)
        } else {
            local_thread_catalog_schema_available(path, outcome)
        },
    }
}

/// What the catalog lacks: threads that it does not list, and threads that it lists with paths in
/// another form.
#[derive(Debug, Clone, Copy, PartialEq, Eq, Structural)]
pub struct LocalThreadCatalogRepairPlan {
    pub missing_row_count: usize,
    pub stale_path_count: usize,
}

impl LocalThreadCatalogRepairPlan {
    /// Whether anything is to be repaired.
    pub fn has_work(self) -> (yes: bool)
        ensures
            yes == (self.missing_row_count > 0 || self.stale_path_count > 0),
    {
        self.missing_row_count > 0 || self.stale_path_count > 0
    }
}

/// The statement that looks up a thread in the catalog.
pub open spec fn lookup_statement(source: SourceText) -> StatementText {
    StatementText {
        sql: "SELECT cwd, source_detail FROM local_thread_catalog WHERE host_id = ?1 AND thread_id = ?2"@,
        parameters: seq![SqlTerm::Text("local"@), SqlTerm::Text(source.id)],
    }
}

/// What looking for differences between the catalog and the state database takes: nothing where
/// there is no catalog or no thread for it, else one lookup for each thread.
pub fn preview_local_thread_catalog_repair(
    path: &str,
    catalog: CatalogDatabase,
    sources: &Vec<LocalThreadCatalogSourceRow>,
) -> (lookups: Result<Option<Vec<Statement>>, String>)
    ensures
        match catalog_result(path@, catalog, sources@.len()) {
            Ok(true) => lookups matches Ok(Some(lookups)) && statement_texts(lookups@)
                == source_texts(sources@).map_values(|source: SourceText| lookup_statement(source)),
            Ok(false) => lookups matches Ok(None),
            Err(text) => lookups matches Err(error) && error@ == text,
        },
{
    match catalog_is_usable(path, catalog, sources) {
        Ok(true) => {},
        Ok(false) => return Ok(None),
        Err(text) => return Err(text),
    }
    let mut lookups: Vec<Statement> = Vec::new();
    let mut i: usize = 0;
    while i < sources.len()
        invariant
            i <= sources@.len(),
            lookups@.len() == i,
            forall|j: int|
                0 <= j < i ==> (#[trigger] lookups@[j])@ == lookup_statement(sources@[j]@),
        decreases sources@.len() - i,
    {
        let mut parameters: Vec<SqlValue> = Vec::new();
        parameters.push(SqlValue::Text("local".to_owned()));
        parameters.push(SqlValue::Text(sources[i].id.clone()));
        let statement = Statement {
            sql: "SELECT cwd, source_detail FROM local_thread_catalog WHERE host_id = ?1 AND thread_id = ?2".to_owned(),
            parameters,
        };
        assert(statement@.parameters =~= lookup_statement(sources@[i as int]@).parameters);
        lookups.push(statement);
        i += 1;
    }
    assert(statement_texts(lookups@) =~= source_texts(sources@).map_values(
        |source: SourceText| lookup_statement(source),
    ));
    Ok(Some(lookups))
}

/// What a lookup in the catalog found.
#[derive(Debug)]
pub enum CatalogLookup {
    /// The thread's working directory and source detail.
    Found(String, Option<String>),
    /// The thread is not listed.
    Missing,
    /// The lookup failed.
    Failed(SqliteFailure),
}

/// How far the lookups in the catalog came.
#[derive(Debug)]
pub enum CatalogLookups {
    /// The statement was refused.
    Unprepared(SqliteFailure),
    /// What they found, one for each thread, up to the first that failed.
    Made(Vec<CatalogLookup>),
}

/// Whether the catalog lists a thread with a path in another form.
pub open spec fn is_stale(source: SourceText, cwd: Seq<char>, detail: Option<Seq<char>>) -> bool {
    ||| normalized_root(cwd) != Some(source.cwd)
    ||| cwd != source.cwd
    ||| (match detail {
        Some(detail) => plain_path(detail),
        None => seq![],
    }) != source.source_detail
}

/// What the lookups say the catalog lacks, or the error of the one that failed.
pub open spec fn preview_result(
    path: Seq<char>,
    sources: Seq<SourceText>,
    lookups: Seq<CatalogLookup>,
) -> Result<(nat, nat), Seq<char>>
    decreases lookups.len(),
{
    if lookups.len() == 0 {
        Ok((0, 0))
    } else {
        match preview_result(path, sources, lookups.drop_last()) {
            Err(text) => Err(text),
            Ok((missing, stale)) => match lookups.last() {
                CatalogLookup::Found(cwd, detail) => if is_stale(
                    sources[lookups.len() - 1],
                    cwd@,
                    opt_view(detail),
                ) {
                    Ok((missing, stale + 1))
                } else {
                    Ok((missing, stale))
                },
                CatalogLookup::Missing => Ok((missing + 1, stale)),
                CatalogLookup::Failed(failure) => Err(
                    located("read local catalog preview row"@, path, failure.message@),
                ),
            },
        }
    }
}

fn listed_as_stale(
    source: &LocalThreadCatalogSourceRow,
    cwd: &str,
    detail: &Option<String>,
) -> (stale: bool)
    ensures
        stale == is_stale(source@, cwd@, opt_view(*detail)),
{
    let root_is_same = match normalize_workspace_root(cwd) {
        Some(root) => same_text(root.as_str(), source.cwd.as_str()),
        None => false,
    };
    let normalized_detail = match detail {
        Some(detail) => normalize_optional_path_text(detail.as_str()),
        None => String::new(),
    };
    !root_is_same || !same_text(cwd, source.cwd.as_str()) || !same_text(
        normalized_detail.as_str(),
        source.source_detail.as_str(),
    )
}

proof fn lemma_preview_error(
    path: Seq<char>,
    sources: Seq<SourceText>,
    lookups: Seq<CatalogLookup>,
    n: int,
)
    requires
        0 <= n <= lookups.len(),
        preview_result(path, sources, lookups.take(n)) is Err,
    ensures
        preview_result(path, sources, lookups) == preview_result(path, sources, lookups.take(n)),
    decreases lookups.len(),
{
    if n < lookups.len() {
        assert(lookups.drop_last().take(n) =~= lookups.take(n));
        lemma_preview_error(path, sources, lookups.drop_last(), n);
    } else {
        assert(lookups.take(n) =~= lookups);
    }
}

/// What the lookups say the catalog lacks. There is one for each thread, or one for each up to the
/// first that failed.
pub fn finish_local_thread_catalog_preview(
    path: &str,
    sources: &Vec<LocalThreadCatalogSourceRow>,
    lookups: &CatalogLookups,
) -> (plan: Result<LocalThreadCatalogRepairPlan, String>)
    requires
        lookups matches CatalogLookups::Made(made) ==> {
            ||| made@.len() == sources@.len()
            ||| 0 < made@.len() < sources@.len() && made@.last() is Failed
        },
    ensures
        match *lookups {
            CatalogLookups::Unprepared(failure) => plan matches Err(error) && error@ == located(
                "prepare local catalog preview query"@,
                path@,
                failure.message@,
            ),
            CatalogLookups::Made(made) => match preview_result(
                path@,
                source_texts(sources@),
                made@,
            ) {
                Ok((missing, stale)) => plan matches Ok(plan) && plan.missing_row_count == missing
                    && plan.stale_path_count == stale,
                Err(text) => plan matches Err(error) && error@ == text,
            },
        },
{
    let made = match lookups {
        CatalogLookups::Unprepared(failure) => {
            return Err(
                format_sqlite_read_error(
                    path,
                    "prepare local catalog preview query",
                    failure.message.as_str(),
                ),
            );
        },
        CatalogLookups::Made(made) => made,
    };
    let ghost texts = source_texts(sources@);
    let mut missing_row_count: usize = 0;
    let mut stale_path_count: usize = 0;
    let mut i: usize = 0;
    while i < made.len()
        invariant
            *lookups == CatalogLookups::Made(*made),
            i <= made@.len() <= sources@.len(),
            texts == source_texts(sources@),
            missing_row_count <= i,
            stale_path_count <= i,
            preview_result(path@, texts, made@.take(i as int)) == Ok::<(nat, nat), Seq<char>>(
                (missing_row_count as nat, stale_path_count as nat),
            ),
        decreases made@.len() - i,
    {
        assert(made@.take(i + 1).drop_last() =~= made@.take(i as int));
        assert(texts[i as int] == sources@[i as int]@);
        match &made[i] {
            CatalogLookup::Found(cwd, detail) => {
                if listed_as_stale(&sources[i], cwd.as_str(), detail) {
                    stale_path_count += 1;
                }
            },
            CatalogLookup::Missing => {
                missing_row_count += 1;
            },
            CatalogLookup::Failed(failure) => {
                proof {
                    lemma_preview_error(path@, texts, made@, i + 1);
                }
                return Err(
                    format_sqlite_read_error(
                        path,
                        "read local catalog preview row",
                        failure.message.as_str(),
                    ),
                );
            },
        }
        i += 1;
    }
    assert(made@.take(i as int) =~= made@);
    Ok(LocalThreadCatalogRepairPlan { missing_row_count, stale_path_count })
}

/// How many threads the catalog does not list.
pub fn count_missing_local_thread_catalog_rows(plan: LocalThreadCatalogRepairPlan) -> (count: usize)
    ensures
        count == plan.missing_row_count,
{
    plan.missing_row_count
}

/// The statements with which a repair of the catalog begins: one that makes sure that the host is
/// listed, and one that asks for the newest observation.
pub struct CatalogOpening {
    pub host: Statement,
    pub newest: Statement,
}

/// Begins to repair the catalog; nothing is to be done where there is none or no thread for it.
pub fn repair_local_thread_catalog_from_sqlite(
    path: &str,
    catalog: CatalogDatabase,
    sources: &Vec<LocalThreadCatalogSourceRow>,
) -> (opening: Result<Option<CatalogOpening>, String>)
    ensures
        match catalog_result(path@, catalog, sources@.len()) {
            Ok(true) => opening matches Ok(Some(opening)) && opening.host@ == (StatementText {
                sql: "INSERT OR IGNORE INTO local_thread_catalog_hosts (host_id, host_kind) VALUES (?1, 'local')"@,
                parameters: seq![SqlTerm::Text("local"@)],
            }) && opening.newest@ == (StatementText {
                sql: "SELECT COALESCE(MAX(observation_sequence), 0) FROM local_thread_catalog WHERE host_id = ?1"@,
                parameters: seq![SqlTerm::Text("local"@)],
            }),
            Ok(false) => opening matches Ok(None),
            Err(text) => opening matches Err(error) && error@ == text,
        },
{
    match catalog_is_usable(path, catalog, sources) {
        Ok(true) => {},
        Ok(false) => return Ok(None),
        Err(text) => return Err(text),
    }
    Ok(
        Some(
            CatalogOpening {
                host: local_statement(
                    "INSERT OR IGNORE INTO local_thread_catalog_hosts (host_id, host_kind) VALUES (?1, 'local')",
                ),
                newest: local_statement(
                    "SELECT COALESCE(MAX(observation_sequence), 0) FROM local_thread_catalog WHERE host_id = ?1",
                ),
            },
        ),
    )
}

/// A statement whose one parameter is the local host.
fn local_statement(sql: &str) -> (statement: Statement)
    ensures
        statement@ == (StatementText { sql: sql@, parameters: seq![SqlTerm::Text("local"@)] }),
{
    let mut parameters: Vec<SqlValue> = Vec::new();
    parameters.push(SqlValue::Text("local".to_owned()));
    let statement = Statement { sql: sql.to_owned(), parameters };
    assert(statement@.parameters =~= seq![SqlTerm::Text("local"@)]);
    statement
}

/// The columns in which the catalog says what is known of a thread.
pub open spec fn row_columns() -> Seq<Seq<char>> {
    seq![
        "display_title"@,
        "source_created_at"@,
        "source_updated_at"@,
        "cwd"@,
        "source_kind"@,
        "source_detail"@,
        "model_provider"@,
        "git_branch"@,
    ]
}

/// The values for these columns.
pub open spec fn row_values(source: SourceText) -> Seq<SqlTerm> {
    seq![
        SqlTerm::Text(source.title),
        SqlTerm::Seconds(source.created_ms),
        SqlTerm::Seconds(source.updated_ms),
        SqlTerm::Text(source.cwd),
        SqlTerm::Text(source.source_kind),
        SqlTerm::Text(source.source_detail),
        SqlTerm::Text(source.model_provider),
        text_term(source.git_branch),
    ]
}

/// The name of a column as the catalog has it.
pub open spec fn listed(name: Seq<char>) -> Seq<char> {
    "local_thread_catalog."@ + name
}

/// The name of a column as a statement would insert it.
pub open spec fn offered(name: Seq<char>) -> Seq<char> {
    "excluded."@ + name
}

/// Whether null and the empty text count as the same in a column.
pub open spec fn may_be_null(name: Seq<char>) -> bool {
    name == "source_detail"@ || name == "git_branch"@
}

/// The column, or the empty text where it is null.
pub open spec fn or_empty(name: Seq<char>) -> Box<SqlExpr> {
    Box::new(SqlExpr::Coalesce(Box::new(SqlExpr::Else(column(name), empty_text()))))
}

/// The condition that a column is not as it would be inserted.
pub open spec fn column_differs(name: Seq<char>) -> SqlExpr {
    if may_be_null(name) {
        SqlExpr::Differs(or_empty(listed(name)), or_empty(offered(name)))
    } else {
        SqlExpr::Differs(column(listed(name)), column(offered(name)))
    }
}

/// The condition that a row is a candidate for removal.
pub open spec fn is_candidate() -> SqlExpr {
    SqlExpr::Differs(
        column(listed("missing_candidate"@)),
        Box::new(SqlExpr::Literal("0"@, SqlTerm::Integer(0))),
    )
}

/// The conditions of which a row meets one that a statement brings up to date.
pub open spec fn upsert_conditions() -> Seq<SqlExpr> {
    row_columns().map_values(|name: Seq<char>| column_differs(name)).push(is_candidate())
}

/// The text that gives a column what would be inserted.
pub open spec fn taken_over(name: Seq<char>) -> Seq<char> {
    name + " = "@ + offered(name)
}

/// The text of the statement that lists a thread in the catalog, or brings its row up to date where
/// that meets one of the conditions.
pub open spec fn upsert_sql() -> Seq<char> {
    "INSERT INTO local_thread_catalog (host_id, thread_id, "@ + joined(row_columns(), ", "@)
        + ", observation_sequence, missing_candidate) VALUES (?1, ?2, ?3, ?4, ?5, ?6, ?7, ?8, ?9, ?10, ?11, 0) ON CONFLICT(host_id, thread_id) DO UPDATE SET "@
        + joined(row_columns().map_values(|name: Seq<char>| taken_over(name)), ", "@)
        + ", missing_candidate = 0 WHERE "@ + joined(sql_texts(upsert_conditions()), " OR "@)
}

/// The statement that lists a thread in the catalog, or brings its row up to date.
pub open spec fn upsert_statement(source: SourceText, sequence: i64) -> StatementText {
    StatementText {
        sql: upsert_sql(),
        parameters: seq![SqlTerm::Text("local"@), SqlTerm::Text(source.id)] + row_values(source)
            + seq![SqlTerm::Integer(sequence)],
    }
}

fn catalog_columns() -> (columns: Vec<String>)
    ensures
        views(columns@) == row_columns(),
{
    let mut columns: Vec<String> = Vec::new();
    columns.push("display_title".to_owned());
    columns.push("source_created_at".to_owned());
    columns.push("source_updated_at".to_owned());
    columns.push("cwd".to_owned());
    columns.push("source_kind".to_owned());
    columns.push("source_detail".to_owned());
    columns.push("model_provider".to_owned());
    columns.push("git_branch".to_owned());
    assert(views(columns@) =~= row_columns());
    columns
}

fn column_condition(name: &str) -> (text: String)
    ensures
        text@ == sql_text(column_differs(name@)),
{
    proof {
        assert(sql_text(*column(listed(name@))) == listed(name@));
        assert(sql_text(*column(offered(name@))) == offered(name@));
        lemma_or_empty(listed(name@));
        lemma_or_empty(offered(name@));
    }
    let there = "local_thread_catalog.".to_owned().concat(name);
    let new = "excluded.".to_owned().concat(name);
    if same_text(name, "source_detail") || same_text(name, "git_branch") {
        "COALESCE(".to_owned().concat(there.concat(", ").concat("''").as_str()).concat(")").concat(
            " <> ",
        ).concat(
            "COALESCE(".to_owned().concat(new.concat(", ").concat("''").as_str()).concat(
                ")",
            ).as_str(),
        )
    } else {
        there.concat(" <> ").concat(new.as_str())
    }
}

proof fn lemma_or_empty(name: Seq<char>)
    ensures
        sql_text(*or_empty(name)) == "COALESCE("@ + (name + ", "@ + "''"@) + ")"@,
{
    let arguments = SqlExpr::Else(column(name), empty_text());
    assert(sql_text(*column(name)) == name);
    assert(sql_text(*empty_text()) == "''"@);
    assert(sql_text(arguments) == name + ", "@ + "''"@);
    assert(*or_empty(name) == SqlExpr::Coalesce(Box::new(arguments)));
}

/// The text of the statement that lists a thread in the catalog, or brings its row up to date.
fn build_catalog_upsert() -> (sql: String)
    ensures
        sql@ == upsert_sql(),
{
    let columns = catalog_columns();
    let mut assignments: Vec<String> = Vec::new();
    let mut conditions: Vec<String> = Vec::new();
    let mut i: usize = 0;
    while i < columns.len()
        invariant
            i <= columns@.len(),
            views(columns@) == row_columns(),
            assignments@.len() == i,
            conditions@.len() == i,
            forall|j: int|
                0 <= j < i ==> (#[trigger] assignments@[j])@ == taken_over(row_columns()[j]),
            forall|j: int|
                0 <= j < i ==> (#[trigger] conditions@[j])@ == sql_text(
                    column_differs(row_columns()[j]),
                ),
        decreases columns@.len() - i,
    {
        let name = columns[i].as_str();
        assert(name@ == row_columns()[i as int]);
        assignments.push(
            name.to_owned().concat(" = ").concat("excluded.".to_owned().concat(name).as_str()),
        );
        conditions.push(column_condition(name));
        i += 1;
    }
    let ghost before = conditions@;
    let candidate = "local_thread_catalog.".to_owned().concat("missing_candidate").concat(
        " <> ",
    ).concat("0");
    proof {
        assert(views(columns@).len() == columns@.len());
        let name = listed("missing_candidate"@);
        assert(sql_text(*column(name)) == name);
        assert(sql_text(SqlExpr::Literal("0"@, SqlTerm::Integer(0))) == "0"@);
        assert(candidate@ == sql_text(is_candidate()));
    }
    conditions.push(candidate);
    assert(views(conditions@) =~= sql_texts(upsert_conditions()));
    assert(views(assignments@) =~= row_columns().map_values(|name: Seq<char>| taken_over(name)));
    "INSERT INTO local_thread_catalog (host_id, thread_id, ".to_owned().concat(
        join(&columns, ", ").as_str(),
    ).concat(
        ", observation_sequence, missing_candidate) VALUES (?1, ?2, ?3, ?4, ?5, ?6, ?7, ?8, ?9, ?10, ?11, 0) ON CONFLICT(host_id, thread_id) DO UPDATE SET ",
    ).concat(join(&assignments, ", ").as_str()).concat(
        ", missing_candidate = 0 WHERE ",
    ).concat(join(&conditions, " OR ").as_str())
}

fn catalog_upsert(source: &LocalThreadCatalogSourceRow, sequence: i64) -> (statement: Statement)
    ensures
        statement@ == upsert_statement(source@, sequence),
{
    let mut parameters: Vec<SqlValue> = Vec::new();
    parameters.push(SqlValue::Text("local".to_owned()));
    parameters.push(SqlValue::Text(source.id.clone()));
    parameters.push(SqlValue::Text(source.title.clone()));
    parameters.push(SqlValue::Seconds(source.source_created_at_ms));
    parameters.push(SqlValue::Seconds(source.source_updated_at_ms));
    parameters.push(SqlValue::Text(source.cwd.clone()));
    parameters.push(SqlValue::Text(source.source_kind.clone()));
    parameters.push(SqlValue::Text(source.source_detail.clone()));
    parameters.push(SqlValue::Text(source.model_provider.clone()));
    parameters.push(text_value(source.git_branch.clone()));
    parameters.push(SqlValue::Integer(sequence));
    let statement = Statement { sql: build_catalog_upsert(), parameters };
    assert(statement@.parameters =~= upsert_statement(source@, sequence).parameters);
    statement
}

/// The statements that list the threads, each observed after all that the catalog has seen: the
/// first gets the number after `newest`, each of the others the number after the one before it.
pub open spec fn upserts(sources: Seq<SourceText>, newest: i64) -> Seq<StatementText> {
    Seq::new(
        sources.len(),
        |i: int| upsert_statement(sources[i], (newest + i + 1) as i64),
    )
}

/// The newest observation in the catalog; where it could not be had, none counts as made.
pub open spec fn newest_or_zero(newest: Option<i64>) -> i64 {
    match newest {
        Some(newest) => newest,
        None => 0,
    }
}

/// The statements that list the threads in the catalog, given the newest observation in it.
pub fn local_thread_catalog_upserts(
    sources: &Vec<LocalThreadCatalogSourceRow>,
    newest: Option<i64>,
) -> (statements: Vec<Statement>)
    requires
        newest_or_zero(newest) + sources@.len() <= i64::MAX,
    ensures
        statement_texts(statements@) == upserts(source_texts(sources@), newest_or_zero(newest)),
{
    let newest: i64 = match newest {
        Some(newest) => newest,
        None => 0,
    };
    let mut statements: Vec<Statement> = Vec::new();
    let mut sequence: i64 = newest;
    let mut i: usize = 0;
    while i < sources.len()
        invariant
            i <= sources@.len(),
            newest + sources@.len() <= i64::MAX,
            sequence == newest + i,
            statements@.len() == i,
            forall|j: int|
                0 <= j < i ==> (#[trigger] statements@[j])@ == upsert_statement(
                    sources@[j]@,
                    (newest + j + 1) as i64,
                ),
        decreases sources@.len() - i,
    {
        sequence += 1;
        statements.push(catalog_upsert(&sources[i], sequence));
        i += 1;
    }
    assert(statement_texts(statements@) =~= upserts(source_texts(sources@), newest));
    statements
}

/// The sum of the numbers.
pub open spec fn sum(numbers: Seq<usize>) -> nat
    decreases numbers.len(),
{
    if numbers.len() == 0 {
        0
    } else {
        sum(numbers.drop_last()) + numbers.last() as nat
    }
}

/// How a repair of the catalog ends: the rows that it changed, and the statements that note it.
pub struct CatalogClosing {
    pub repaired: usize,
    pub statements: Vec<Statement>,
}

/// The statements that note a repair of the catalog: a new revision, and up to where the host was
/// observed.
pub open spec fn closing_statements(newest: i64) -> Seq<StatementText> {
    seq![
        plain_query(
            "INSERT INTO local_thread_catalog_metadata (id, catalog_revision) VALUES (1, 1) ON CONFLICT(id) DO UPDATE SET catalog_revision = local_thread_catalog_metadata.catalog_revision + 1"@,
        ),
        StatementText {
            sql: "INSERT INTO local_thread_catalog_sync_state (host_id, watermark_updated_at, initial_build_complete, observation_sequence) VALUES (?1, NULL, 1, ?2) ON CONFLICT(host_id) DO UPDATE SET initial_build_complete = 1, observation_sequence = MAX(local_thread_catalog_sync_state.observation_sequence, excluded.observation_sequence)"@,
            parameters: seq![SqlTerm::Text("local"@), SqlTerm::Integer(newest)],
        },
    ]
}

/// The statements that note a repair, given the rows that each of its statements changed.
pub open spec fn noted(changed: Seq<usize>, newest: i64) -> Seq<StatementText> {
    if sum(changed) > 0 {
        closing_statements((newest + changed.len()) as i64)
    } else {
        seq![]
    }
}

proof fn lemma_sum_take(numbers: Seq<usize>, n: int)
    requires
        0 <= n <= numbers.len(),
    ensures
        sum(numbers.take(n)) <= sum(numbers),
    decreases numbers.len() - n,
{
    if n < numbers.len() {
        lemma_sum_take(numbers, n + 1);
        assert(numbers.take(n + 1).drop_last() =~= numbers.take(n));
    } else {
        assert(numbers.take(n) =~= numbers);
    }
}

/// Ends a repair of the catalog: `changed` has the rows that each statement changed. Nothing is
/// noted where nothing changed.
pub fn finish_local_thread_catalog_repair(
    changed: &Vec<usize>,
    newest: Option<i64>,
) -> (closing: CatalogClosing)
    requires
        sum(changed@) <= usize::MAX,
        newest_or_zero(newest) + changed@.len() <= i64::MAX,
    ensures
        closing.repaired == sum(changed@),
        statement_texts(closing.statements@) == noted(changed@, newest_or_zero(newest)),
{
    let mut sequence: i64 = match newest {
        Some(newest) => newest,
        None => 0,
    };
    let ghost first = sequence;
    let mut repaired: usize = 0;
    let mut i: usize = 0;
    while i < changed.len()
        invariant
            i <= changed@.len(),
            first + changed@.len() <= i64::MAX,
            sequence == first + i,
            sum(changed@) <= usize::MAX,
            repaired == sum(changed@.take(i as int)),
        decreases changed@.len() - i,
    {
        proof {
            lemma_sum_take(changed@, i + 1);
            assert(changed@.take(i + 1).drop_last() =~= changed@.take(i as int));
        }
        repaired += changed[i];
        sequence += 1;
        i += 1;
    }
    assert(changed@.take(i as int) =~= changed@);
    let mut statements: Vec<Statement> = Vec::new();
    if repaired > 0 {
        statements.push(
            query(
                "INSERT INTO local_thread_catalog_metadata (id, catalog_revision) VALUES (1, 1) ON CONFLICT(id) DO UPDATE SET catalog_revision = local_thread_catalog_metadata.catalog_revision + 1".to_owned(),
            ),
        );
        let mut parameters: Vec<SqlValue> = Vec::new();
        parameters.push(SqlValue::Text("local".to_owned()));
        parameters.push(SqlValue::Integer(sequence));
        let statement = Statement {
            sql: "INSERT INTO local_thread_catalog_sync_state (host_id, watermark_updated_at, initial_build_complete, observation_sequence) VALUES (?1, NULL, 1, ?2) ON CONFLICT(host_id) DO UPDATE SET initial_build_complete = 1, observation_sequence = MAX(local_thread_catalog_sync_state.observation_sequence, excluded.observation_sequence)".to_owned(),
            parameters,
        };
        assert(statement@.parameters =~= closing_statements(sequence)[1].parameters);
        statements.push(statement);
        assert(statement_texts(statements@) =~= closing_statements(sequence));
    } else {
        assert(statement_texts(statements@) =~= seq![]);
    }
    CatalogClosing { repaired, statements }
}

/// A thread that the catalog lists as a repair wrote it is not stale, unless a path of it has
/// surrounding white space or an extended-length prefix.
pub proof fn repaired_row_is_not_stale(row: CatalogQueryRow)
    requires
        catalog_source(row) matches Some(source) && is_settled(source.cwd) && is_settled(
            source.source_detail,
        ),
    ensures
        ({
            let source = catalog_source(row)->0;
            !is_stale(source, source.cwd, Some(source.source_detail))
        }),
{
    normalized_root_is_stable(row.cwd@);
    plain_path_is_stable(row.source_detail@);
}

pub proof fn lemma_sources_come_from_rows(rows: Seq<CatalogQueryRow>, i: int) -> (at: int)
    requires
        0 <= i < catalog_sources(rows).len(),
    ensures
        0 <= at < rows.len(),
        catalog_source(rows[at]) == Some(catalog_sources(rows)[i]),
    decreases rows.len(),
{
    let rest = rows.drop_last();
    let before = catalog_sources(rest);
    if i < before.len() {
        let at = lemma_sources_come_from_rows(rest, i);
        assert(rest[at] == rows[at]);
        at
    } else {
        rows.len() - 1
    }
}

/// Whether the paths of a thread have neither surrounding white space nor an extended-length
/// prefix.
pub open spec fn paths_are_settled(source: SourceText) -> bool {
    is_settled(source.cwd) && is_settled(source.source_detail)
}

/// Whether a lookup found a thread as a repair writes it.
pub open spec fn is_as_written(source: SourceText, lookup: CatalogLookup) -> bool {
    lookup matches CatalogLookup::Found(cwd, detail) && cwd@ == source.cwd && opt_view(detail)
        == Some(source.source_detail)
}

/// A look at the catalog that finds every thread as a repair wrote it finds no missing and no stale
/// row, unless a path has surrounding white space or an extended-length prefix.
pub proof fn repaired_catalog_needs_no_repair(
    path: Seq<char>,
    rows: Seq<CatalogQueryRow>,
    lookups: Seq<CatalogLookup>,
)
    requires
        lookups.len() <= catalog_sources(rows).len(),
        forall|i: int|
            0 <= i < lookups.len() ==> is_as_written(
                catalog_sources(rows)[i],
                #[trigger] lookups[i],
            ) && paths_are_settled(catalog_sources(rows)[i]),
    ensures
        preview_result(path, catalog_sources(rows), lookups) == Ok::<(nat, nat), Seq<char>>(
            (0nat, 0nat),
        ),
    decreases lookups.len(),
{
    if lookups.len() > 0 {
        let rest = lookups.drop_last();
        let last = lookups.len() - 1;
        assert forall|i: int| 0 <= i < rest.len() implies is_as_written(
            catalog_sources(rows)[i],
            #[trigger] rest[i],
        ) && paths_are_settled(catalog_sources(rows)[i]) by {
            assert(rest[i] == lookups[i]);
        }
        repaired_catalog_needs_no_repair(path, rows, rest);
        let at = lemma_sources_come_from_rows(rows, last);
        assert(is_as_written(catalog_sources(rows)[last], lookups[last]));
        repaired_row_is_not_stale(rows[at]);
    }
}

/// What stands behind the text of the statement that brings a row up to date is the condition that
/// one of its parts is met.
pub proof fn upsert_writes_out_its_condition()
    ensures
        joined(sql_texts(upsert_conditions()), " OR "@) == sql_text(any_of(upsert_conditions())),
{
    lemma_any_of_text(upsert_conditions());
}

/// The value, or the empty text in place of null.
pub open spec fn or_empty_text(value: SqlTerm) -> SqlTerm {
    if value is Null {
        SqlTerm::Text(seq![])
    } else {
        value
    }
}

/// Whether a column with this value is brought up to date by another value.
pub open spec fn value_differs(name: Seq<char>, there: SqlTerm, new: SqlTerm) -> bool {
    if may_be_null(name) {
        or_empty_text(there) != or_empty_text(new)
    } else {
        !(there is Null) && !(new is Null) && there != new
    }
}

proof fn lemma_or_empty_value(
    name: Seq<char>,
    row: spec_fn(Seq<char>) -> SqlTerm,
    parameter: SqlTerm,
)
    ensures
        sql_value(*or_empty(name), row, parameter) == or_empty_text(row(name)),
{
    let arguments = SqlExpr::Else(column(name), empty_text());
    assert(sql_value(*column(name), row, parameter) == row(name));
    assert(sql_value(*empty_text(), row, parameter) == SqlTerm::Text(seq![]));
    assert(sql_value(arguments, row, parameter) == or_empty_text(row(name)));
    assert(*or_empty(name) == SqlExpr::Coalesce(Box::new(arguments)));
}

proof fn lemma_column_differs(
    name: Seq<char>,
    row: spec_fn(Seq<char>) -> SqlTerm,
    parameter: SqlTerm,
)
    ensures
        is_true(sql_value(column_differs(name), row, parameter)) <==> value_differs(
            name,
            row(listed(name)),
            row(offered(name)),
        ),
{
    lemma_or_empty_value(listed(name), row, parameter);
    lemma_or_empty_value(offered(name), row, parameter);
    assert(sql_value(*column(listed(name)), row, parameter) == row(listed(name)));
    assert(sql_value(*column(offered(name)), row, parameter) == row(offered(name)));
}

/// A row is brought up to date exactly where a column of it differs, or where it is a candidate for
/// removal.
pub proof fn upsert_changes_what_differs(row: spec_fn(Seq<char>) -> SqlTerm, parameter: SqlTerm)
    ensures
        is_true(sql_value(any_of(upsert_conditions()), row, parameter)) <==> {
            ||| exists|i: int|
                0 <= i < row_columns().len() && value_differs(
                    #[trigger] row_columns()[i],
                    row(listed(row_columns()[i])),
                    row(offered(row_columns()[i])),
                )
            ||| !(row(listed("missing_candidate"@)) is Null) && row(listed("missing_candidate"@))
                != SqlTerm::Integer(0)
        },
{
    let conditions = upsert_conditions();
    let candidate = listed("missing_candidate"@);
    let last = row_columns().len() as int;
    lemma_any_of_value(conditions, row, parameter);
    assert(conditions[last] == is_candidate());
    assert(sql_value(*column(candidate), row, parameter) == row(candidate));
    assert(sql_value(SqlExpr::Literal("0"@, SqlTerm::Integer(0)), row, parameter)
        == SqlTerm::Integer(0));
    assert(is_true(sql_value(is_candidate(), row, parameter)) <==> !(row(candidate) is Null) && row(
        candidate,
    ) != SqlTerm::Integer(0));
    assert forall|i: int| 0 <= i < last implies (is_true(
        sql_value(#[trigger] conditions[i], row, parameter),
    ) <==> value_differs(
        row_columns()[i],
        row(listed(row_columns()[i])),
        row(offered(row_columns()[i])),
    )) by {
        assert(conditions[i] == column_differs(row_columns()[i]));
        lemma_column_differs(row_columns()[i], row, parameter);
    }
    if exists|i: int|
        0 <= i < last && value_differs(
            #[trigger] row_columns()[i],
            row(listed(row_columns()[i])),
            row(offered(row_columns()[i])),
        ) {
        let i = choose|i: int|
            0 <= i < last && value_differs(
                #[trigger] row_columns()[i],
                row(listed(row_columns()[i])),
                row(offered(row_columns()[i])),
            );
        assert(is_true(sql_value(conditions[i], row, parameter)));
    }
    if exists|i: int|
        0 <= i < conditions.len() && is_true(sql_value(#[trigger] conditions[i], row, parameter)) {
        let i = choose|i: int|
            0 <= i < conditions.len() && is_true(
                sql_value(#[trigger] conditions[i], row, parameter),
            );
        if i < last {
            assert(value_differs(
                row_columns()[i],
                row(listed(row_columns()[i])),
                row(offered(row_columns()[i])),
            ));
        }
    }
}

/// A row that is as the statement would insert it, and no candidate for removal, is left alone.
pub proof fn written_row_is_left_alone(row: spec_fn(Seq<char>) -> SqlTerm, parameter: SqlTerm)
    requires
        forall|i: int|
            0 <= i < row_columns().len() ==> row(listed(#[trigger] row_columns()[i])) == row(
                offered(row_columns()[i]),
            ),
        row(listed("missing_candidate"@)) == SqlTerm::Integer(0),
    ensures
        !is_true(sql_value(any_of(upsert_conditions()), row, parameter)),
{
    upsert_changes_what_differs(row, parameter);
}

/// A row that a look at the catalog calls stale is brought up to date, unless a path has
/// surrounding white space or an extended-length prefix.
pub proof fn stale_row_is_brought_up_to_date(
    thread: CatalogQueryRow,
    cwd: Seq<char>,
    detail: Option<Seq<char>>,
    row: spec_fn(Seq<char>) -> SqlTerm,
    parameter: SqlTerm,
)
    requires
        catalog_source(thread) matches Some(source) && paths_are_settled(source) && is_stale(
            source,
            cwd,
            detail,
        ) && row(offered("cwd"@)) == SqlTerm::Text(source.cwd) && row(offered("source_detail"@))
            == SqlTerm::Text(source.source_detail),
        row(listed("cwd"@)) == SqlTerm::Text(cwd),
        row(listed("source_detail"@)) == text_term(detail),
    ensures
        is_true(sql_value(any_of(upsert_conditions()), row, parameter)),
{
    let source = catalog_source(thread)->0;
    upsert_changes_what_differs(row, parameter);
    normalized_root_is_stable(thread.cwd@);
    plain_path_is_stable(thread.source_detail@);
    reveal_strlit("cwd");
    reveal_strlit("source_detail");
    reveal_strlit("git_branch");
    assert("cwd"@.len() == 3 && "source_detail"@.len() == 13 && "git_branch"@.len() == 10);
    assert(row_columns()[3] == "cwd"@);
    assert(row_columns()[5] == "source_detail"@);
    if cwd == source.cwd {
        assert(value_differs(
            row_columns()[5],
            row(listed(row_columns()[5])),
            row(offered(row_columns()[5])),
        ));
    } else {
        assert(value_differs(
            row_columns()[3],
            row(listed(row_columns()[3])),
            row(offered(row_columns()[3])),
        ));
    }
}

/// Every statement of a repair is about the local host and about one of the threads that the
/// catalog should list; it gives each column the value that the thread has for it.
pub proof fn upserts_write_their_threads(sources: Seq<SourceText>, newest: i64, i: int)
    requires
        0 <= i < sources.len(),
    ensures
        upserts(sources, newest)[i].parameters[0] == SqlTerm::Text("local"@),
        upserts(sources, newest)[i].parameters[1] == SqlTerm::Text(sources[i].id),
        upserts(sources, newest)[i].parameters.subrange(2, 10) == row_values(sources[i]),
        row_values(sources[i]).len() == row_columns().len(),
{
    assert(upserts(sources, newest)[i].parameters.subrange(2, 10) =~= row_values(sources[i]));
}

proof fn lemma_sum_zero(numbers: Seq<usize>)
    ensures
        sum(numbers) == 0 <==> forall|i: int| 0 <= i < numbers.len() ==> (#[trigger] numbers[i]) == 0,
    decreases numbers.len(),
{
    if numbers.len() > 0 {
        let rest = numbers.drop_last();
        lemma_sum_zero(rest);
        assert(numbers.last() == numbers[numbers.len() - 1]);
        if sum(numbers) == 0 {
            assert forall|i: int| 0 <= i < numbers.len() implies (#[trigger] numbers[i]) == 0 by {
                if i < rest.len() {
                    assert(rest[i] == numbers[i]);
                }
            }
        } else if sum(rest) > 0 {
            let i = choose|i: int| 0 <= i < rest.len() && #[trigger] rest[i] != 0;
            assert(numbers[i] != 0);
        }
    }
}

/// A repair that changes no row notes nothing. One that changes some notes one new revision, and
/// up to where the host was observed.
pub proof fn changes_are_noted_once(changed: Seq<usize>, newest: i64)
    ensures
        noted(changed, newest).len() == 0 <==> forall|i: int|
            0 <= i < changed.len() ==> (#[trigger] changed[i]) == 0,
        noted(changed, newest).len() > 0 ==> noted(changed, newest) == closing_statements(
            (newest + changed.len()) as i64,
        ),
{
    lemma_sum_zero(changed);
}

/// The threads of one repair are observed one after the other, all of them after what the catalog
/// had seen; and the repair notes the last of these observations.
pub proof fn observations_go_on(sources: Seq<SourceText>, newest: i64, i: int, j: int)
    requires
        0 <= i < j < sources.len(),
        newest + sources.len() <= i64::MAX,
    ensures
        upserts(sources, newest)[i].parameters[10] matches SqlTerm::Integer(a) && upserts(
            sources,
            newest,
        )[j].parameters[10] matches SqlTerm::Integer(b) && newest < a < b <= newest + sources.len(),
        upserts(sources, newest).last().parameters[10] == closing_statements(
            (newest + sources.len()) as i64,
        )[1].parameters[1],
{
}

/// A time in milliseconds, as an expression: from the column that has it so or else from the one in
/// seconds.
pub open spec fn time_in_millis(
    has_millis: bool,
    millis: Seq<char>,
    has_seconds: bool,
    seconds: Seq<char>,
) -> SqlExpr {
    let product = SqlExpr::Times(column(seconds), number("1000"@, 1_000));
    if has_millis && has_seconds {
        SqlExpr::Coalesce(Box::new(SqlExpr::Else(column(millis), Box::new(product))))
    } else if has_millis {
        SqlExpr::Column(millis)
    } else if has_seconds {
        product
    } else {
        SqlExpr::Literal("NULL"@, SqlTerm::Null)
    }
}

/// The column, or the empty text where it is null or not there, as an expression.
pub open spec fn column_or_empty(there: bool, name: Seq<char>) -> SqlExpr {
    if there {
        *column_or(name, empty_text())
    } else {
        *empty_text()
    }
}

/// What a thread came from, for the catalog, as an expression.
pub open spec fn source_kind(columns: ThreadsTableColumns) -> SqlExpr {
    let user = SqlExpr::Literal("'user'"@, SqlTerm::Text("user"@));
    let source = SqlExpr::NullIfEmpty(column("source"@));
    let thread_source = SqlExpr::NullIfEmpty(column("thread_source"@));
    if columns.source && columns.thread_source {
        SqlExpr::Coalesce(Box::new(arguments(seq![source, thread_source, user])))
    } else if columns.source {
        SqlExpr::Coalesce(Box::new(arguments(seq![source, user])))
    } else if columns.thread_source {
        SqlExpr::Coalesce(Box::new(arguments(seq![thread_source, user])))
    } else {
        user
    }
}

/// The title under which the catalog lists a thread, as an expression.
pub open spec fn listed_title(columns: ThreadsTableColumns) -> SqlExpr {
    SqlExpr::Coalesce(
        Box::new(
            arguments(
                seq![
                    shown_or_null(columns.title, "title"@),
                    shown_or_null(columns.preview, "preview"@),
                    shown_or_null(columns.first_user_message, "first_user_message"@),
                    *column("id"@),
                ],
            ),
        ),
    )
}

/// What the query for the catalog selects, as expressions.
pub open spec fn selected_for_catalog(columns: ThreadsTableColumns) -> Seq<SqlExpr> {
    seq![
        *column("id"@),
        listed_title(columns),
        time_in_millis(columns.created_at_ms, "created_at_ms"@, columns.created_at, "created_at"@),
        time_in_millis(columns.updated_at_ms, "updated_at_ms"@, columns.updated_at, "updated_at"@),
        column_or_empty(columns.cwd, "cwd"@),
        source_kind(columns),
        column_or_empty(columns.rollout_path, "rollout_path"@),
        column_or_empty(columns.model_provider, "model_provider"@),
        if columns.git_branch {
            *column("git_branch"@)
        } else {
            SqlExpr::Literal("NULL"@, SqlTerm::Null)
        },
    ]
}

proof fn lemma_time_shape(has_millis: bool, millis: Seq<char>, has_seconds: bool, seconds: Seq<char>)
    ensures
        sql_text(time_in_millis(has_millis, millis, has_seconds, seconds)) == time_expr(
            has_millis,
            has_seconds,
            "COALESCE("@ + (millis + ", "@ + (seconds + " * "@ + "1000"@)) + ")"@,
            millis,
            seconds + " * "@ + "1000"@,
        ),
{
    let product = SqlExpr::Times(column(seconds), number("1000"@, 1_000));
    assert(sql_text(*column(seconds)) == seconds);
    assert(sql_text(*column(millis)) == millis);
    assert(sql_text(*number("1000"@, 1_000)) == "1000"@);
    assert(sql_text(product) == seconds + " * "@ + "1000"@);
    let list = SqlExpr::Else(column(millis), Box::new(product));
    assert(sql_text(list) == millis + ", "@ + sql_text(product));
    assert(sql_text(SqlExpr::Coalesce(Box::new(list))) == "COALESCE("@ + sql_text(list) + ")"@);
}

proof fn lemma_time_words()
    ensures
        "COALESCE(created_at_ms, created_at * 1000)"@ == "COALESCE("@ + ("created_at_ms"@ + ", "@ + (
        "created_at"@ + " * "@ + "1000"@)) + ")"@,
        "created_at * 1000"@ == "created_at"@ + " * "@ + "1000"@,
        "COALESCE(updated_at_ms, updated_at * 1000)"@ == "COALESCE("@ + ("updated_at_ms"@ + ", "@ + (
        "updated_at"@ + " * "@ + "1000"@)) + ")"@,
        "updated_at * 1000"@ == "updated_at"@ + " * "@ + "1000"@,
{
    reveal_strlit("COALESCE(");
    reveal_strlit("created_at_ms");
    reveal_strlit("created_at");
    reveal_strlit("updated_at_ms");
    reveal_strlit("updated_at");
    reveal_strlit(", ");
    reveal_strlit(" * ");
    reveal_strlit("1000");
    reveal_strlit(")");
    reveal_strlit("COALESCE(created_at_ms, created_at * 1000)");
    reveal_strlit("created_at * 1000");
    reveal_strlit("COALESCE(updated_at_ms, updated_at * 1000)");
    reveal_strlit("updated_at * 1000");
    assert("COALESCE(created_at_ms, created_at * 1000)"@ =~= "COALESCE("@ + ("created_at_ms"@ + ", "@
        + ("created_at"@ + " * "@ + "1000"@)) + ")"@);
    assert("created_at * 1000"@ =~= "created_at"@ + " * "@ + "1000"@);
    assert("COALESCE(updated_at_ms, updated_at * 1000)"@ =~= "COALESCE("@ + ("updated_at_ms"@ + ", "@
        + ("updated_at"@ + " * "@ + "1000"@)) + ")"@);
    assert("updated_at * 1000"@ =~= "updated_at"@ + " * "@ + "1000"@);
}

/// The column, or the empty text where it is null or not there, is written with `COALESCE`.
pub proof fn lemma_column_or_empty_text(there: bool, name: Seq<char>)
    ensures
        sql_text(column_or_empty(there, name)) == if there {
            "COALESCE("@ + (name + ", "@ + "''"@) + ")"@
        } else {
            "''"@
        },
{
    assert(sql_text(*empty_text()) == "''"@);
    assert(sql_text(*column(name)) == name);
    let list = SqlExpr::Else(column(name), empty_text());
    assert(sql_text(list) == name + ", "@ + "''"@);
    assert(sql_text(*column_or(name, empty_text())) == "COALESCE("@ + sql_text(list) + ")"@);
}

proof fn lemma_column_or_empty_words()
    ensures
        "COALESCE(cwd, '')"@ == "COALESCE("@ + ("cwd"@ + ", "@ + "''"@) + ")"@,
        "COALESCE(rollout_path, '')"@ == "COALESCE("@ + ("rollout_path"@ + ", "@ + "''"@) + ")"@,
        "COALESCE(model_provider, '')"@ == "COALESCE("@ + ("model_provider"@ + ", "@ + "''"@) + ")"@,
{
    reveal_strlit("COALESCE(");
    reveal_strlit("cwd");
    reveal_strlit("rollout_path");
    reveal_strlit("model_provider");
    reveal_strlit(", ");
    reveal_strlit("''");
    reveal_strlit(")");
    reveal_strlit("COALESCE(cwd, '')");
    reveal_strlit("COALESCE(rollout_path, '')");
    reveal_strlit("COALESCE(model_provider, '')");
    assert("COALESCE(cwd, '')"@ =~= "COALESCE("@ + ("cwd"@ + ", "@ + "''"@) + ")"@);
    assert("COALESCE(rollout_path, '')"@ =~= "COALESCE("@ + ("rollout_path"@ + ", "@ + "''"@) + ")"@);
    assert("COALESCE(model_provider, '')"@ =~= "COALESCE("@ + ("model_provider"@ + ", "@ + "''"@)
        + ")"@);
}

/// `COALESCE` of two or three arguments, written out.
pub proof fn lemma_coalesce_text(a: SqlExpr, b: SqlExpr, c: SqlExpr)
    ensures
        sql_text(SqlExpr::Coalesce(Box::new(arguments(seq![a, b])))) == "COALESCE("@ + (sql_text(a)
            + ", "@ + sql_text(b)) + ")"@,
        sql_text(SqlExpr::Coalesce(Box::new(arguments(seq![a, b, c])))) == "COALESCE("@ + (sql_text(
            a,
        ) + ", "@ + sql_text(b) + ", "@ + sql_text(c)) + ")"@,
        arguments(seq![a, b]) == SqlExpr::Else(Box::new(a), Box::new(b)),
        arguments(seq![a, b, c]) == SqlExpr::Else(
            Box::new(SqlExpr::Else(Box::new(a), Box::new(b))),
            Box::new(c),
        ),
{
    assert(seq![a, b, c].drop_last() =~= seq![a, b]);
    assert(seq![a, b].drop_last() =~= seq![a]);
    assert(arguments(seq![a]) == a);
    assert(arguments(seq![a, b]) == SqlExpr::Else(Box::new(a), Box::new(b)));
    assert(sql_text(arguments(seq![a, b])) == sql_text(a) + ", "@ + sql_text(b));
    assert(sql_text(arguments(seq![a, b, c])) == sql_text(arguments(seq![a, b])) + ", "@ + sql_text(
        c,
    ));
}

proof fn lemma_source_kind_words()
    ensures
        "COALESCE(NULLIF(source, ''), NULLIF(thread_source, ''), 'user')"@ == "COALESCE("@ + ((
        "NULLIF("@ + "source"@ + ", '')"@) + ", "@ + ("NULLIF("@ + "thread_source"@ + ", '')"@)
            + ", "@ + "'user'"@) + ")"@,
        "COALESCE(NULLIF(source, ''), 'user')"@ == "COALESCE("@ + (("NULLIF("@ + "source"@
            + ", '')"@) + ", "@ + "'user'"@) + ")"@,
        "COALESCE(NULLIF(thread_source, ''), 'user')"@ == "COALESCE("@ + (("NULLIF("@
            + "thread_source"@ + ", '')"@) + ", "@ + "'user'"@) + ")"@,
{
    reveal_strlit("COALESCE(");
    reveal_strlit("NULLIF(");
    reveal_strlit("source");
    reveal_strlit("thread_source");
    reveal_strlit(", '')");
    reveal_strlit(", ");
    reveal_strlit("'user'");
    reveal_strlit(")");
    reveal_strlit("COALESCE(NULLIF(source, ''), NULLIF(thread_source, ''), 'user')");
    reveal_strlit("COALESCE(NULLIF(source, ''), 'user')");
    reveal_strlit("COALESCE(NULLIF(thread_source, ''), 'user')");
    assert("COALESCE(NULLIF(source, ''), NULLIF(thread_source, ''), 'user')"@ =~= "COALESCE("@ + ((
    "NULLIF("@ + "source"@ + ", '')"@) + ", "@ + ("NULLIF("@ + "thread_source"@ + ", '')"@) + ", "@
        + "'user'"@) + ")"@);
    assert("COALESCE(NULLIF(source, ''), 'user')"@ =~= "COALESCE("@ + (("NULLIF("@ + "source"@
        + ", '')"@) + ", "@ + "'user'"@) + ")"@);
    assert("COALESCE(NULLIF(thread_source, ''), 'user')"@ =~= "COALESCE("@ + (("NULLIF("@
        + "thread_source"@ + ", '')"@) + ", "@ + "'user'"@) + ")"@);
}

proof fn lemma_source_kind_text(columns: ThreadsTableColumns)
    ensures
        sql_text(source_kind(columns)) == source_kind_expr(columns),
{
    let user = SqlExpr::Literal("'user'"@, SqlTerm::Text("user"@));
    let source = SqlExpr::NullIfEmpty(column("source"@));
    let thread_source = SqlExpr::NullIfEmpty(column("thread_source"@));
    assert(sql_text(user) == "'user'"@);
    assert(sql_text(*column("source"@)) == "source"@);
    assert(sql_text(*column("thread_source"@)) == "thread_source"@);
    assert(sql_text(source) == "NULLIF("@ + "source"@ + ", '')"@);
    assert(sql_text(thread_source) == "NULLIF("@ + "thread_source"@ + ", '')"@);
    lemma_coalesce_text(source, thread_source, user);
    lemma_coalesce_text(source, user, user);
    lemma_coalesce_text(thread_source, user, user);
    lemma_source_kind_words();
}

proof fn lemma_four_arguments(a: SqlExpr, b: SqlExpr, c: SqlExpr, d: SqlExpr)
    ensures
        sql_text(SqlExpr::Coalesce(Box::new(arguments(seq![a, b, c, d])))) == "COALESCE("@ + (
        sql_text(a) + ", "@ + sql_text(b) + ", "@ + sql_text(c) + ", "@ + sql_text(d)) + ")"@,
        arguments(seq![a, b, c, d]) == SqlExpr::Else(
            Box::new(
                SqlExpr::Else(Box::new(SqlExpr::Else(Box::new(a), Box::new(b))), Box::new(c)),
            ),
            Box::new(d),
        ),
{
    lemma_coalesce_text(a, b, c);
    assert(seq![a, b, c, d].drop_last() =~= seq![a, b, c]);
    lemma_arguments_text(seq![a, b, c, d]);
    assert(sql_texts(seq![a, b, c, d]) =~= seq![sql_text(a), sql_text(b), sql_text(c), sql_text(d)]);
    lemma_four_joined(sql_text(a), sql_text(b), sql_text(c), sql_text(d), ", "@);
}

proof fn lemma_title_words(title: Seq<char>, preview: Seq<char>, message: Seq<char>)
    ensures
        "SELECT "@ + "id"@ + ", "@ + ("COALESCE("@ + (title + ", "@ + preview + ", "@ + message
            + ", "@ + "id"@) + ")"@) + ", "@ == "SELECT id, COALESCE("@ + title + ", "@ + preview
            + ", "@ + message + ", id), "@,
{
    reveal_strlit("SELECT ");
    reveal_strlit("id");
    reveal_strlit(", ");
    reveal_strlit("COALESCE(");
    reveal_strlit(")");
    reveal_strlit("SELECT id, COALESCE(");
    reveal_strlit(", id), ");
    let begin = "SELECT "@ + "id"@ + ", "@ + "COALESCE("@;
    let end = ", "@ + "id"@ + ")"@ + ", "@;
    assert(begin =~= "SELECT id, COALESCE("@);
    assert(end =~= ", id), "@);
    let list = title + ", "@ + preview + ", "@ + message;
    assert("SELECT "@ + "id"@ + ", "@ + ("COALESCE("@ + (list + ", "@ + "id"@) + ")"@) + ", "@
        =~= begin + list + end);
    assert(begin + list + end =~= begin + title + ", "@ + preview + ", "@ + message + end);
}

proof fn lemma_select_nine(all: Seq<SqlExpr>)
    requires
        all.len() == 9,
    ensures
        select_text(all) == "SELECT "@ + sql_text(all[0]) + ", "@ + sql_text(all[1]) + ", "@
            + sql_text(all[2]) + ", "@ + sql_text(all[3]) + ", "@ + sql_text(all[4]) + ", "@
            + sql_text(all[5]) + ", "@ + sql_text(all[6]) + ", "@ + sql_text(all[7]) + ", "@
            + sql_text(all[8]),
{
    let s1 = seq![all[0]];
    let s2 = s1.push(all[1]);
    let s3 = s2.push(all[2]);
    let s4 = s3.push(all[3]);
    let s5 = s4.push(all[4]);
    let s6 = s5.push(all[5]);
    let s7 = s6.push(all[6]);
    let s8 = s7.push(all[7]);
    lemma_select_one(all[0]);
    lemma_select_one_more(s1, all[1]);
    lemma_select_one_more(s2, all[2]);
    lemma_select_one_more(s3, all[3]);
    lemma_select_one_more(s4, all[4]);
    lemma_select_one_more(s5, all[5]);
    lemma_select_one_more(s6, all[6]);
    lemma_select_one_more(s7, all[7]);
    lemma_select_one_more(s8, all[8]);
    assert(s8.push(all[8]) =~= all);
}

proof fn lemma_selected_times(columns: ThreadsTableColumns)
    ensures
        sql_text(
            time_in_millis(
                columns.created_at_ms,
                "created_at_ms"@,
                columns.created_at,
                "created_at"@,
            ),
        ) == time_expr(
            columns.created_at_ms,
            columns.created_at,
            "COALESCE(created_at_ms, created_at * 1000)"@,
            "created_at_ms"@,
            "created_at * 1000"@,
        ),
        sql_text(
            time_in_millis(
                columns.updated_at_ms,
                "updated_at_ms"@,
                columns.updated_at,
                "updated_at"@,
            ),
        ) == time_expr(
            columns.updated_at_ms,
            columns.updated_at,
            "COALESCE(updated_at_ms, updated_at * 1000)"@,
            "updated_at_ms"@,
            "updated_at * 1000"@,
        ),
{
    lemma_time_shape(columns.created_at_ms, "created_at_ms"@, columns.created_at, "created_at"@);
    lemma_time_shape(columns.updated_at_ms, "updated_at_ms"@, columns.updated_at, "updated_at"@);
    lemma_time_words();
}

proof fn lemma_selected_columns(columns: ThreadsTableColumns)
    ensures
        sql_text(column_or_empty(columns.cwd, "cwd"@)) == either(
            columns.cwd,
            "COALESCE(cwd, '')"@,
            "''"@,
        ),
        sql_text(column_or_empty(columns.rollout_path, "rollout_path"@)) == either(
            columns.rollout_path,
            "COALESCE(rollout_path, '')"@,
            "''"@,
        ),
        sql_text(column_or_empty(columns.model_provider, "model_provider"@)) == either(
            columns.model_provider,
            "COALESCE(model_provider, '')"@,
            "''"@,
        ),
        sql_text(selected_for_catalog(columns)[8]) == either(
            columns.git_branch,
            "git_branch"@,
            "NULL"@,
        ),
{
    lemma_column_or_empty_text(columns.cwd, "cwd"@);
    lemma_column_or_empty_text(columns.rollout_path, "rollout_path"@);
    lemma_column_or_empty_text(columns.model_provider, "model_provider"@);
    lemma_column_or_empty_words();
}

proof fn lemma_selected_title(columns: ThreadsTableColumns)
    ensures
        "SELECT "@ + sql_text(*column("id"@)) + ", "@ + sql_text(listed_title(columns)) + ", "@
            == "SELECT id, COALESCE("@ + sql_text(shown_or_null(columns.title, "title"@)) + ", "@
            + sql_text(shown_or_null(columns.preview, "preview"@)) + ", "@ + sql_text(
            shown_or_null(columns.first_user_message, "first_user_message"@),
        ) + ", id), "@,
{
    let title = shown_or_null(columns.title, "title"@);
    let preview = shown_or_null(columns.preview, "preview"@);
    let message = shown_or_null(columns.first_user_message, "first_user_message"@);
    assert(sql_text(*column("id"@)) == "id"@);
    lemma_four_arguments(title, preview, message, *column("id"@));
    lemma_title_words(sql_text(title), sql_text(preview), sql_text(message));
}

/// The query for the catalog selects these expressions of the threads that it should list.
pub proof fn catalog_query_writes_out_what_it_selects(columns: ThreadsTableColumns)
    ensures
        catalog_query(columns) == select_text(selected_for_catalog(columns))
            + " FROM threads WHERE "@ + sql_text(is_to_be_listed(columns)),
        forall|i: int|
            0 <= i < selected_for_catalog(columns).len() ==> literals_are_true(
                #[trigger] selected_for_catalog(columns)[i],
            ),
        literals_are_true(is_to_be_listed(columns)),
{
    lemma_catalog_literals(columns);
    lemma_selected_title(columns);
    lemma_selected_times(columns);
    lemma_selected_columns(columns);
    lemma_source_kind_text(columns);
    lemma_select_nine(selected_for_catalog(columns));
}

proof fn lemma_catalog_literals(columns: ThreadsTableColumns)
    ensures
        forall|i: int|
            0 <= i < selected_for_catalog(columns).len() ==> literals_are_true(
                #[trigger] selected_for_catalog(columns)[i],
            ),
        literals_are_true(is_to_be_listed(columns)),
{
    lemma_literals();
    reveal_with_fuel(literals_are_true, 6);
    let title = shown_or_null(columns.title, "title"@);
    let preview = shown_or_null(columns.preview, "preview"@);
    let message = shown_or_null(columns.first_user_message, "first_user_message"@);
    lemma_arguments_literals(seq![title, preview, message, *column("id"@)]);
    lemma_arguments_literals(seq![preview, message, title, *empty_text()]);
    let user = SqlExpr::Literal("'user'"@, SqlTerm::Text("user"@));
    let source = SqlExpr::NullIfEmpty(column("source"@));
    let thread_source = SqlExpr::NullIfEmpty(column("thread_source"@));
    lemma_arguments_literals(seq![source, thread_source, user]);
    lemma_arguments_literals(seq![source, user]);
    lemma_arguments_literals(seq![thread_source, user]);
}


/// Whether `value` is a time in milliseconds: that of the column in milliseconds where there is one
/// and it is not null, else a thousand times that of the column in seconds, else null.
pub open spec fn is_time_in_millis(
    value: SqlTerm,
    has_millis: bool,
    millis: SqlTerm,
    has_seconds: bool,
    seconds: SqlTerm,
) -> bool {
    if has_millis && !(millis is Null) {
        value == millis
    } else if has_seconds {
        match seconds {
            SqlTerm::Integer(n) => i64::MIN <= 1_000 * n <= i64::MAX ==> (
            value matches SqlTerm::Integer(m) && m == 1_000 * n),
            SqlTerm::Null => value is Null,
            _ => true,
        }
    } else {
        value is Null
    }
}

/// What the query for the catalog reads of a thread: its id; the first of its title, its preview and
/// its first message that is something to show, or else its id; the times of its creation and of its
/// last update in milliseconds; its working directory; the first of its two sources that is
/// something to show, or else that it came from the user; its rollout file; its provider; and its
/// branch. What is null, or has no column, is the empty text, but for times and branch, which are
/// null.
pub proof fn catalog_reads_of_each_thread(
    columns: ThreadsTableColumns,
    row: spec_fn(Seq<char>) -> SqlTerm,
)
    ensures
        ({
            let read = selected_for_catalog(columns).map_values(
                |expr: SqlExpr| sql_value(expr, row, SqlTerm::Null),
            );
            &&& read.len() == 9
            &&& read[0] == row("id"@)
            &&& read[1] == if columns.title && is_shown(row("title"@)) {
                row("title"@)
            } else if columns.preview && is_shown(row("preview"@)) {
                row("preview"@)
            } else if columns.first_user_message && is_shown(row("first_user_message"@)) {
                row("first_user_message"@)
            } else {
                row("id"@)
            }
            &&& is_time_in_millis(
                read[2],
                columns.created_at_ms,
                row("created_at_ms"@),
                columns.created_at,
                row("created_at"@),
            )
            &&& is_time_in_millis(
                read[3],
                columns.updated_at_ms,
                row("updated_at_ms"@),
                columns.updated_at,
                row("updated_at"@),
            )
            &&& read[4] == if columns.cwd && !(row("cwd"@) is Null) {
                row("cwd"@)
            } else {
                SqlTerm::Text(seq![])
            }
            &&& read[5] == if columns.source && is_shown(row("source"@)) {
                row("source"@)
            } else if columns.thread_source && is_shown(row("thread_source"@)) {
                row("thread_source"@)
            } else {
                SqlTerm::Text("user"@)
            }
            &&& read[6] == if columns.rollout_path && !(row("rollout_path"@) is Null) {
                row("rollout_path"@)
            } else {
                SqlTerm::Text(seq![])
            }
            &&& read[7] == if columns.model_provider && !(row("model_provider"@) is Null) {
                row("model_provider"@)
            } else {
                SqlTerm::Text(seq![])
            }
            &&& read[8] == if columns.git_branch {
                row("git_branch"@)
            } else {
                SqlTerm::Null
            }
        }),
{
    let all = selected_for_catalog(columns);
    let read = all.map_values(|expr: SqlExpr| sql_value(expr, row, SqlTerm::Null));
    assert(forall|i: int|
        0 <= i < 9 ==> #[trigger] read[i] == sql_value(all[i], row, SqlTerm::Null));
    let title = shown_or_null(columns.title, "title"@);
    let preview = shown_or_null(columns.preview, "preview"@);
    let message = shown_or_null(columns.first_user_message, "first_user_message"@);
    lemma_four_arguments(title, preview, message, *column("id"@));
    let user = SqlExpr::Literal("'user'"@, SqlTerm::Text("user"@));
    let source = SqlExpr::NullIfEmpty(column("source"@));
    let thread_source = SqlExpr::NullIfEmpty(column("thread_source"@));
    lemma_coalesce_text(source, thread_source, user);
    lemma_coalesce_text(source, user, user);
    lemma_coalesce_text(thread_source, user, user);
    reveal_with_fuel(sql_value, 6);
}

/// The catalog should list each thread that was read and has a workspace, in the order of the rows,
/// with what was read of it: its workspace in place of its working directory, its rollout file
/// without an extended-length prefix, and the beginning of time in place of a missing time.
pub proof fn thread_with_a_workspace_is_listed(rows: Seq<CatalogQueryRow>, row: CatalogQueryRow)
    ensures
        catalog_sources(Seq::empty()).len() == 0,
        match normalized_root(row.cwd@) {
            Some(root) => {
                let before = catalog_sources(rows);
                let after = catalog_sources(rows.push(row));
                let source = after.last();
                &&& after.len() == before.len() + 1
                &&& after.drop_last() == before
                &&& source.id == row.id@
                &&& source.title == row.title@
                &&& source.created_ms == match row.created_at_ms {
                    Some(time) => time,
                    None => 0,
                }
                &&& source.updated_ms == match row.updated_at_ms {
                    Some(time) => time,
                    None => 0,
                }
                &&& source.cwd == root
                &&& source.source_kind == row.source_kind@
                &&& source.source_detail == plain_path(row.source_detail@)
                &&& source.model_provider == row.model_provider@
                &&& source.git_branch == opt_view(row.git_branch)
            },
            None => catalog_sources(rows.push(row)) == catalog_sources(rows),
        },
{
    assert(rows.push(row).drop_last() =~= rows);
    assert(rows.push(row).last() == row);
    if normalized_root(row.cwd@) is Some {
        assert(catalog_sources(rows.push(row)).drop_last() =~= catalog_sources(rows));
    }
}

/// A look at the catalog counts a thread as missing where it is not listed, and as stale where it is
/// listed with another working directory, or with a source detail whose plain form is another. A
/// lookup that failed is an error.
pub proof fn lookup_counts_what_is_missing_or_stale(
    path: Seq<char>,
    sources: Seq<SourceText>,
    lookups: Seq<CatalogLookup>,
    lookup: CatalogLookup,
)
    requires
        lookups.len() < sources.len(),
        preview_result(path, sources, lookups) is Ok,
        normalized_root(sources[lookups.len() as int].cwd) == Some(
            sources[lookups.len() as int].cwd,
        ),
    ensures
        preview_result(path, sources, Seq::empty()) == Ok::<(nat, nat), Seq<char>>((0nat, 0nat)),
        ({
            let source = sources[lookups.len() as int];
            let (missing, stale) = preview_result(path, sources, lookups)->Ok_0;
            let next = preview_result(path, sources, lookups.push(lookup));
            match lookup {
                CatalogLookup::Missing => next == Ok::<(nat, nat), Seq<char>>(
                    ((missing + 1) as nat, stale),
                ),
                CatalogLookup::Failed(failure) => next matches Err(text) && finishes_with(
                    text,
                    " ("@ + path + "): "@ + failure.message@,
                ),
                CatalogLookup::Found(cwd, detail) => {
                    let same = cwd@ == source.cwd && (match detail {
                        Some(detail) => plain_path(detail@) == source.source_detail,
                        None => source.source_detail.len() == 0,
                    });
                    &&& same ==> next == Ok::<(nat, nat), Seq<char>>((missing, stale))
                    &&& !same ==> next == Ok::<(nat, nat), Seq<char>>((missing, (stale + 1) as nat))
                },
            }
        }),
{
    let source = sources[lookups.len() as int];
    assert(lookups.push(lookup).drop_last() =~= lookups);
    assert(lookups.push(lookup).last() == lookup);
    assert(source.source_detail.len() == 0 ==> source.source_detail =~= Seq::<char>::empty());
    lemma_located(path);
}

/// Each column of a row that a repair writes gets what is known of the thread under that name; times
/// are written from their milliseconds, and a missing branch as null.
pub proof fn each_column_gets_its_value(source: SourceText, sequence: i64)
    ensures
        ({
            let names = row_columns();
            let values = row_values(source);
            let given = upsert_statement(source, sequence).parameters;
            &&& names.len() == 8
            &&& values.len() == 8
            &&& names[0] == "display_title"@ && values[0] == SqlTerm::Text(source.title)
            &&& names[1] == "source_created_at"@ && values[1] == SqlTerm::Seconds(source.created_ms)
            &&& names[2] == "source_updated_at"@ && values[2] == SqlTerm::Seconds(source.updated_ms)
            &&& names[3] == "cwd"@ && values[3] == SqlTerm::Text(source.cwd)
            &&& names[4] == "source_kind"@ && values[4] == SqlTerm::Text(source.source_kind)
            &&& names[5] == "source_detail"@ && values[5] == SqlTerm::Text(source.source_detail)
            &&& names[6] == "model_provider"@ && values[6] == SqlTerm::Text(source.model_provider)
            &&& names[7] == "git_branch"@ && values[7] == match source.git_branch {
                Some(branch) => SqlTerm::Text(branch),
                None => SqlTerm::Null,
            }
            &&& given.len() == 11
            &&& given[0] == SqlTerm::Text("local"@)
            &&& given[1] == SqlTerm::Text(source.id)
            &&& given[10] == SqlTerm::Integer(sequence)
            &&& forall|i: int| 0 <= i < 8 ==> #[trigger] values[i] == given[i + 2]
        }),
{
    let values = row_values(source);
    let given = upsert_statement(source, sequence).parameters;
    assert forall|i: int| 0 <= i < 8 implies #[trigger] values[i] == given[i + 2] by {}
}

/// A row of the catalog is brought up to date exactly where its title, one of its times, its working
/// directory, its kind of source or its provider is another one, where its source detail or its
/// branch is, null and the empty text being the same there, or where it is a candidate for removal.
pub proof fn row_is_brought_up_to_date_where_it_differs(
    row: spec_fn(Seq<char>) -> SqlTerm,
    parameter: SqlTerm,
)
    ensures
        is_true(sql_value(any_of(upsert_conditions()), row, parameter)) <==> {
            ||| differs_where_there(row, "display_title"@)
            ||| differs_where_there(row, "source_created_at"@)
            ||| differs_where_there(row, "source_updated_at"@)
            ||| differs_where_there(row, "cwd"@)
            ||| differs_where_there(row, "source_kind"@)
            ||| differs_or_is_empty(row, "source_detail"@)
            ||| differs_where_there(row, "model_provider"@)
            ||| differs_or_is_empty(row, "git_branch"@)
            ||| !(row("local_thread_catalog."@ + "missing_candidate"@) is Null) && row(
                "local_thread_catalog."@ + "missing_candidate"@,
            ) != SqlTerm::Integer(0)
        },
{
    upsert_changes_what_differs(row, parameter);
    let names = row_columns();
    reveal_strlit("display_title");
    reveal_strlit("source_created_at");
    reveal_strlit("source_updated_at");
    reveal_strlit("cwd");
    reveal_strlit("source_kind");
    reveal_strlit("source_detail");
    reveal_strlit("model_provider");
    reveal_strlit("git_branch");
    assert("display_title"@.len() == 13 && "display_title"@[0] == 'd');
    assert("source_detail"@.len() == 13 && "source_detail"@[0] == 's');
    assert("source_created_at"@.len() == 17 && "source_updated_at"@.len() == 17);
    assert("cwd"@.len() == 3 && "source_kind"@.len() == 11);
    assert("model_provider"@.len() == 14 && "git_branch"@.len() == 10);
    assert forall|i: int| 0 <= i < 8 implies (value_differs(
        #[trigger] names[i],
        row(listed(names[i])),
        row(offered(names[i])),
    ) <==> if i == 5 || i == 7 {
        differs_or_is_empty(row, names[i])
    } else {
        differs_where_there(row, names[i])
    }) by {}
    assert(names[0] == "display_title"@);
    assert(names[1] == "source_created_at"@);
    assert(names[2] == "source_updated_at"@);
    assert(names[3] == "cwd"@);
    assert(names[4] == "source_kind"@);
    assert(names[5] == "source_detail"@);
    assert(names[6] == "model_provider"@);
    assert(names[7] == "git_branch"@);
}

/// Whether a column of the catalog and what would be inserted in it are two values that are there
/// and not the same.
pub open spec fn differs_where_there(row: spec_fn(Seq<char>) -> SqlTerm, name: Seq<char>) -> bool {
    let there = row("local_thread_catalog."@ + name);
    let new = row("excluded."@ + name);
    !(there is Null) && !(new is Null) && there != new
}

/// Whether a column of the catalog and what would be inserted in it are not the same, null being
/// the empty text.
pub open spec fn differs_or_is_empty(row: spec_fn(Seq<char>) -> SqlTerm, name: Seq<char>) -> bool {
    let there = row("local_thread_catalog."@ + name);
    let new = row("excluded."@ + name);
    if there is Null {
        !(new is Null) && new != SqlTerm::Text(seq![])
    } else if new is Null {
        there != SqlTerm::Text(seq![])
    } else {
        there != new
    }
}

/// There is a catalog to work on exactly where it could be opened and set up and has all its tables,
/// and there are threads for it. One that is missing, unusable or without its tables is passed over;
/// any other failure is an error, unless there are no threads.
pub proof fn catalog_is_worked_on_where_it_is_whole(
    path: Seq<char>,
    catalog: CatalogDatabase,
    sources: nat,
)
    ensures
        match catalog_result(path, catalog, sources) {
            Ok(true) => sources > 0 && (catalog matches CatalogDatabase::Tables(RowsOutcome::Rows(names))
                && views(names@).contains("local_thread_catalog"@) && views(names@).contains(
                "local_thread_catalog_hosts"@,
            ) && views(names@).contains("local_thread_catalog_metadata"@) && views(
                names@,
            ).contains("local_thread_catalog_sync_state"@)),
            Ok(false) => sources == 0 || catalog is Absent || (
            catalog matches CatalogDatabase::Unopened(failure) && failure.unusable) || (
            catalog matches CatalogDatabase::Tables(RowsOutcome::Rows(names)) && !(views(
                names@,
            ).contains("local_thread_catalog"@) && views(names@).contains(
                "local_thread_catalog_hosts"@,
            ) && views(names@).contains("local_thread_catalog_metadata"@) && views(
                names@,
            ).contains("local_thread_catalog_sync_state"@))),
            Err(_) => sources > 0 && !(catalog is Absent) && (
            catalog matches CatalogDatabase::Unopened(failure) ==> !failure.unusable) && !(
            catalog matches CatalogDatabase::Tables(RowsOutcome::Rows(_))),
        },
{
}

/// A repair notes that the host was observed up to its last thread, under the local host.
pub proof fn repair_notes_its_last_observation(changed: Seq<usize>, newest: i64, i: int)
    requires
        newest + changed.len() <= i64::MAX,
        0 <= i < changed.len(),
        changed[i] > 0,
    ensures
        noted(changed, newest).len() == 2,
        noted(changed, newest)[0].parameters.len() == 0,
        noted(changed, newest)[1].parameters == seq![
            SqlTerm::Text("local"@),
            SqlTerm::Integer((newest + changed.len()) as i64),
        ],
        sum(changed) >= changed[i],
{
    changes_are_noted_once(changed, newest);
    lemma_sum_zero(changed);
    lemma_sum_at_least(changed, i);
}

proof fn lemma_sum_at_least(numbers: Seq<usize>, i: int)
    requires
        0 <= i < numbers.len(),
    ensures
        sum(numbers) >= numbers[i],
    decreases numbers.len(),
{
    if i < numbers.len() - 1 {
        lemma_sum_at_least(numbers.drop_last(), i);
    }
}

/// Observations are counted from the newest one in the catalog, and from zero where none is known.
pub proof fn observations_begin_after_the_newest(
    sources: Seq<SourceText>,
    newest: Option<i64>,
    i: int,
)
    requires
        0 <= i < sources.len(),
        newest_or_zero(newest) + sources.len() <= i64::MAX,
    ensures
        newest matches Some(known) ==> (upserts(
            sources,
            newest_or_zero(newest),
        )[i].parameters[10] matches SqlTerm::Integer(n) && n == known + i + 1),
        newest is None ==> (upserts(
            sources,
            newest_or_zero(newest),
        )[i].parameters[10] matches SqlTerm::Integer(n) && n == i + 1),
{
}

/// A repair that changed the catalog notes one more revision than there was, or the first one; and
/// that the host is built and observed up to the later of what is noted and the last thread of the
/// repair.
pub proof fn repair_notes_a_revision_and_an_observation(newest: i64)
    ensures
        closing_statements(newest).len() == 2,
        closing_statements(newest)[0].sql
            == "INSERT INTO local_thread_catalog_metadata (id, catalog_revision) VALUES (1, 1) ON CONFLICT(id) DO UPDATE SET catalog_revision = local_thread_catalog_metadata.catalog_revision + 1"@,
        closing_statements(newest)[0].parameters.len() == 0,
        closing_statements(newest)[1].sql
            == "INSERT INTO local_thread_catalog_sync_state (host_id, watermark_updated_at, initial_build_complete, observation_sequence) VALUES (?1, NULL, 1, ?2) ON CONFLICT(host_id) DO UPDATE SET initial_build_complete = 1, observation_sequence = MAX(local_thread_catalog_sync_state.observation_sequence, excluded.observation_sequence)"@,
        closing_statements(newest)[1].parameters == seq![
            SqlTerm::Text("local"@),
            SqlTerm::Integer(newest),
        ],
{
}

} // verus!
