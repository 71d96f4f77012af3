//! The state database: what its failures mean, what its `threads` table offers, and the
//! statements that look at it and repair it.

use vstd::prelude::*;

use crate::catalog::is_shown;
use crate::sql_expr::{
    any_of, any_used, arguments, column, empty_text, is_true, is_unmarked, lemma_any_of_names,
    lemma_any_of_text, lemma_any_of_unmarked, lemma_any_of_value, lemma_arguments_literals,
    lemma_arguments_names, lemma_arguments_text, lemma_arguments_unmarked, lemma_joined_marks,
    lemma_literals, lemma_marks_two, lemma_parameter_in_text, lemma_unmarked_text,
    lemma_value_of_named, literals_are_true, marks, names_column, sql_text, sql_texts, sql_value,
    truth, uses_parameter, SqlExpr,
};
use crate::sql_table::{
    assigned_row, assignment_text, lemma_new_value, lemma_other_columns_stay, Assignment,
};
use crate::text::{
    begins_with, contains, finishes_with, holds_part, join, joined, lowered, opt_view, same_text,
    to_ascii_lowercase, views,
};

verus! {

/// A failure of SQLite: its message, and whether it shows that the file is no database or a
/// damaged one.
#[derive(Debug)]
pub struct SqliteFailure {
    pub message: String,
    pub unusable: bool,
}

/// A result whose error is taken as text.
pub open spec fn result_view<T>(result: Result<T, String>) -> Result<T, Seq<char>> {
    match result {
        Ok(value) => Ok(value),
        Err(text) => Err(text@),
    }
}

/// What is said of a failure of `action` at `path`.
pub open spec fn located(action: Seq<char>, path: Seq<char>, message: Seq<char>) -> Seq<char> {
    action + " ("@ + path + "): "@ + message
}

/// Says that reading the database at `path` failed.
pub fn format_sqlite_read_error(path: &str, action: &str, message: &str) -> (text: String)
    ensures
        text@ == located(action@, path@, message@),
{
    action.to_owned().concat(" (").concat(path).concat("): ").concat(message)
}

/// What is said of a failure to write the database at `path`.
pub open spec fn write_error(path: Seq<char>, message: Seq<char>) -> Seq<char> {
    if holds_part(lowered(message), "database is locked"@) || holds_part(
        lowered(message),
        "database busy"@,
    ) {
        located("state_5.sqlite 当前被占用，请关闭 Codex / Codex App 后重试"@, path, message)
    } else {
        located("更新 SQLite 会话可见性失败"@, path, message)
    }
}

/// Says that writing the database at `path` failed; a database in use gets a hint of its own.
pub fn format_sqlite_write_error(path: &str, message: &str) -> (text: String)
    ensures
        text@ == write_error(path@, message@),
{
    let low = to_ascii_lowercase(message);
    if contains(low.as_str(), "database is locked") || contains(low.as_str(), "database busy") {
        format_sqlite_read_error(
            path,
            "state_5.sqlite 当前被占用，请关闭 Codex / Codex App 后重试",
            message,
        )
    } else {
        format_sqlite_read_error(path, "更新 SQLite 会话可见性失败", message)
    }
}

/// Whether `message` says that there is no `threads` table.
pub open spec fn says_no_threads_table(message: Seq<char>) -> bool {
    holds_part(lowered(message), "no such table: threads"@)
}

/// Whether a failure with `message` means that there is no `threads` table.
pub fn is_missing_threads_table_error(message: &str) -> (missing: bool)
    ensures
        missing == says_no_threads_table(message@),
{
    contains(to_ascii_lowercase(message).as_str(), "no such table: threads")
}

/// A value that a statement is run with.
#[derive(Debug)]
pub enum SqlValue {
    Null,
    Integer(i64),
    Text(String),
    /// A number of milliseconds, handed over as a real number of seconds.
    Seconds(i64),
}

/// What an `SqlValue` stands for.
pub enum SqlTerm {
    Null,
    Integer(i64),
    Text(Seq<char>),
    Seconds(i64),
}

impl View for SqlValue {
    type V = SqlTerm;

    open spec fn view(&self) -> SqlTerm {
        match *self {
            SqlValue::Null => SqlTerm::Null,
            SqlValue::Integer(n) => SqlTerm::Integer(n),
            SqlValue::Text(text) => SqlTerm::Text(text@),
            SqlValue::Seconds(millis) => SqlTerm::Seconds(millis),
        }
    }
}

/// An optional text as a value of a statement.
pub open spec fn text_term(text: Option<Seq<char>>) -> SqlTerm {
    match text {
        Some(text) => SqlTerm::Text(text),
        None => SqlTerm::Null,
    }
}

/// A statement and the values for its numbered parameters.
#[derive(Debug)]
pub struct Statement {
    pub sql: String,
    pub parameters: Vec<SqlValue>,
}

/// What a `Statement` says.
#[verifier::ext_equal]
pub struct StatementText {
    pub sql: Seq<char>,
    pub parameters: Seq<SqlTerm>,
}

impl View for Statement {
    type V = StatementText;

    open spec fn view(&self) -> StatementText {
        StatementText {
            sql: self.sql@,
            parameters: self.parameters@.map_values(|value: SqlValue| value@),
        }
    }
}

/// What each of the statements says.
pub open spec fn statement_texts(statements: Seq<Statement>) -> Seq<StatementText> {
    statements.map_values(|statement: Statement| statement@)
}

/// Which columns the `threads` table has.
#[derive(Debug, Clone, Copy, PartialEq, Eq, Structural)]
pub struct ThreadsTableColumns {
    pub id: bool,
    pub model_provider: bool,
    pub has_user_event: bool,
    pub first_user_message: bool,
    pub thread_source: bool,
    pub rollout_path: bool,
    pub created_at: bool,
    pub updated_at: bool,
    pub created_at_ms: bool,
    pub updated_at_ms: bool,
    pub source: bool,
    pub cwd: bool,
    pub title: bool,
    pub archived: bool,
    pub git_branch: bool,
    pub preview: bool,
}

/// The columns among `names`; none where the table has no columns, that is, does not exist.
pub open spec fn columns_of(names: Seq<Seq<char>>) -> Option<ThreadsTableColumns> {
    if names.len() == 0 {
        None
    } else {
        Some(
            ThreadsTableColumns {
                id: names.contains("id"@),
                model_provider: names.contains("model_provider"@),
                has_user_event: names.contains("has_user_event"@),
                first_user_message: names.contains("first_user_message"@),
                thread_source: names.contains("thread_source"@),
                rollout_path: names.contains("rollout_path"@),
                created_at: names.contains("created_at"@),
                updated_at: names.contains("updated_at"@),
                created_at_ms: names.contains("created_at_ms"@),
                updated_at_ms: names.contains("updated_at_ms"@),
                source: names.contains("source"@),
                cwd: names.contains("cwd"@),
                title: names.contains("title"@),
                archived: names.contains("archived"@),
                git_branch: names.contains("git_branch"@),
                preview: names.contains("preview"@),
            },
        )
    }
}

/// Whether `name` is among `names`.
pub fn has_name(names: &Vec<String>, name: &str) -> (yes: bool)
    ensures
        yes == views(names@).contains(name@),
{
    let mut i: usize = 0;
    while i < names.len()
        invariant
            i <= names@.len(),
            forall|j: int| 0 <= j < i ==> views(names@)[j] != name@,
        decreases names@.len() - i,
    {
        if same_text(names[i].as_str(), name) {
            assert(views(names@)[i as int] == name@);
            return true;
        }
        i += 1;
    }
    false
}

/// The columns of a `threads` table whose column names are `names`.
pub fn read_threads_table_columns(names: &Vec<String>) -> (columns: Option<ThreadsTableColumns>)
    ensures
        columns == columns_of(views(names@)),
{
    if names.len() == 0 {
        return None;
    }
    Some(
        ThreadsTableColumns {
            id: has_name(names, "id"),
            model_provider: has_name(names, "model_provider"),
            has_user_event: has_name(names, "has_user_event"),
            first_user_message: has_name(names, "first_user_message"),
            thread_source: has_name(names, "thread_source"),
            rollout_path: has_name(names, "rollout_path"),
            created_at: has_name(names, "created_at"),
            updated_at: has_name(names, "updated_at"),
            created_at_ms: has_name(names, "created_at_ms"),
            updated_at_ms: has_name(names, "updated_at_ms"),
            source: has_name(names, "source"),
            cwd: has_name(names, "cwd"),
            title: has_name(names, "title"),
            archived: has_name(names, "archived"),
            git_branch: has_name(names, "git_branch"),
            preview: has_name(names, "preview"),
        },
    )
}

/// How far an attempt to look at the `threads` table of the state database came.
#[derive(Debug)]
pub enum StateDatabase {
    /// There is no such file.
    Absent,
    /// The file could not be opened.
    Unopened(SqliteFailure),
    /// The time to wait for a busy database could not be set.
    Unset(SqliteFailure),
    /// The statement that asks for the columns was refused.
    Unprepared(SqliteFailure),
    /// The columns could not be read.
    Unread(SqliteFailure),
    /// The names of the columns.
    Columns(Vec<String>),
}

/// What is known of the `threads` table, and whether the database was passed over as unusable.
pub struct ThreadsScan {
    pub columns: Option<ThreadsTableColumns>,
    pub skipped: bool,
}

/// What a failed look at the columns comes to: nothing where the database is unusable, else an
/// error.
pub open spec fn columns_failure(path: Seq<char>, failure: SqliteFailure) -> Result<
    ThreadsScan,
    Seq<char>,
> {
    if failure.unusable {
        Ok(ThreadsScan { columns: None, skipped: true })
    } else {
        Err(located("读取 SQLite threads 表结构失败"@, path, failure.message@))
    }
}

/// What a look at the `threads` table comes to. A missing or unusable database has no columns; any
/// other failure is an error.
pub open spec fn threads_scan(path: Seq<char>, database: StateDatabase) -> Result<
    ThreadsScan,
    Seq<char>,
> {
    match database {
        StateDatabase::Absent => Ok(ThreadsScan { columns: None, skipped: false }),
        StateDatabase::Unopened(failure) => if failure.unusable {
            Ok(ThreadsScan { columns: None, skipped: true })
        } else {
            Err(located("打开实例数据库失败"@, path, failure.message@))
        },
        StateDatabase::Unset(failure) => Err(
            located("设置 SQLite busy_timeout 失败"@, path, failure.message@),
        ),
        StateDatabase::Unprepared(failure) => columns_failure(path, failure),
        StateDatabase::Unread(failure) => columns_failure(path, failure),
        StateDatabase::Columns(names) => Ok(
            ThreadsScan { columns: columns_of(views(names@)), skipped: false },
        ),
    }
}

fn refuse_columns(path: &str, failure: &SqliteFailure) -> (scan: Result<ThreadsScan, String>)
    ensures
        result_view(scan) == columns_failure(path@, *failure),
{
    if failure.unusable {
        Ok(ThreadsScan { columns: None, skipped: true })
    } else {
        Err(
            format_sqlite_read_error(
                path,
                "读取 SQLite threads 表结构失败",
                failure.message.as_str(),
            ),
        )
    }
}

/// What a look at the `threads` table of the database at `path` comes to.
pub fn scan_threads_table(path: &str, database: &StateDatabase) -> (scan: Result<
    ThreadsScan,
    String,
>)
    ensures
        result_view(scan) == threads_scan(path@, *database),
{
    match database {
        StateDatabase::Absent => Ok(ThreadsScan { columns: None, skipped: false }),
        StateDatabase::Unopened(failure) => if failure.unusable {
            Ok(ThreadsScan { columns: None, skipped: true })
        } else {
            Err(format_sqlite_read_error(path, "打开实例数据库失败", failure.message.as_str()))
        },
        StateDatabase::Unset(failure) => Err(
            format_sqlite_read_error(
                path,
                "设置 SQLite busy_timeout 失败",
                failure.message.as_str(),
            ),
        ),
        StateDatabase::Unprepared(failure) => refuse_columns(path, failure),
        StateDatabase::Unread(failure) => refuse_columns(path, failure),
        StateDatabase::Columns(names) => Ok(
            ThreadsScan { columns: read_threads_table_columns(names), skipped: false },
        ),
    }
}

/// `text` alone where `there`, else nothing.
pub open spec fn part_if(there: bool, text: Seq<char>) -> Seq<Seq<char>> {
    if there {
        seq![text]
    } else {
        seq![]
    }
}

/// The condition under which a thread has something to show: a first message, a preview or a
/// title.
pub open spec fn visibility_expr(columns: ThreadsTableColumns) -> Seq<char> {
    let parts = part_if(columns.first_user_message, "NULLIF(first_user_message, '')"@) + part_if(
        columns.preview,
        "NULLIF(preview, '')"@,
    ) + part_if(columns.title, "NULLIF(title, '')"@);
    if parts.len() == 0 {
        "0"@
    } else {
        "COALESCE("@ + joined(parts, ", "@) + ", '') <> ''"@
    }
}

/// The condition under which a thread has something to show.
pub fn build_threads_visibility_expr(columns: ThreadsTableColumns) -> (expr: String)
    ensures
        expr@ == visibility_expr(columns),
{
    let mut parts: Vec<String> = Vec::new();
    if columns.first_user_message {
        parts.push("NULLIF(first_user_message, '')".to_owned());
    }
    if columns.preview {
        parts.push("NULLIF(preview, '')".to_owned());
    }
    if columns.title {
        parts.push("NULLIF(title, '')".to_owned());
    }
    assert(views(parts@) =~= part_if(
        columns.first_user_message,
        "NULLIF(first_user_message, '')"@,
    ) + part_if(columns.preview, "NULLIF(preview, '')"@) + part_if(
        columns.title,
        "NULLIF(title, '')"@,
    ));
    if parts.len() == 0 {
        "0".to_owned()
    } else {
        "COALESCE(".to_owned().concat(join(&parts, ", ").as_str()).concat(", '') <> ''")
    }
}

/// The conditions of which a thread to be repaired meets one.
pub open spec fn repair_predicates(columns: ThreadsTableColumns) -> Seq<Seq<char>> {
    part_if(columns.model_provider, "COALESCE(model_provider, '') <> ?1"@) + part_if(
        columns.has_user_event,
        "(("@ + visibility_expr(columns) + ") AND COALESCE(has_user_event, 0) <> 1)"@,
    ) + part_if(
        columns.thread_source,
        "(("@ + visibility_expr(columns) + ") AND COALESCE(thread_source, '') = '')"@,
    )
}

/// The condition that picks the threads to be repaired; none where the table has no column that a
/// repair would set.
pub open spec fn repair_where_clause(columns: ThreadsTableColumns) -> Option<Seq<char>> {
    if repair_predicates(columns).len() == 0 {
        None
    } else {
        Some(joined(repair_predicates(columns), " OR "@))
    }
}

/// The condition that picks the threads to be repaired.
pub fn build_threads_repair_where_clause(columns: ThreadsTableColumns) -> (clause: Option<String>)
    ensures
        opt_view(clause) == repair_where_clause(columns),
{
    let mut predicates: Vec<String> = Vec::new();
    if columns.model_provider {
        predicates.push("COALESCE(model_provider, '') <> ?1".to_owned());
    }
    let visibility_expr = build_threads_visibility_expr(columns);
    if columns.has_user_event {
        predicates.push(
            "((".to_owned().concat(visibility_expr.as_str()).concat(
                ") AND COALESCE(has_user_event, 0) <> 1)",
            ),
        );
    }
    if columns.thread_source {
        predicates.push(
            "((".to_owned().concat(visibility_expr.as_str()).concat(
                ") AND COALESCE(thread_source, '') = '')",
            ),
        );
    }
    assert(views(predicates@) =~= repair_predicates(columns));
    if predicates.len() == 0 {
        None
    } else {
        Some(join(&predicates, " OR "))
    }
}

/// What a repair assigns in the threads that it picks.
pub open spec fn repair_assignments(columns: ThreadsTableColumns) -> Seq<Seq<char>> {
    part_if(columns.model_provider, "model_provider = ?1"@) + part_if(
        columns.has_user_event,
        "has_user_event = CASE WHEN ("@ + visibility_expr(columns)
            + ") THEN 1 ELSE has_user_event END"@,
    ) + part_if(
        columns.thread_source,
        "thread_source = CASE WHEN COALESCE(thread_source, '') = '' AND ("@ + visibility_expr(
            columns,
        ) + ") THEN 'user' ELSE thread_source END"@,
    )
}

/// What a repair assigns in the threads that it picks.
pub open spec fn repair_set_clause(columns: ThreadsTableColumns) -> Seq<char> {
    joined(repair_assignments(columns), ", "@)
}

/// What a repair assigns in the threads that it picks.
pub fn build_threads_repair_set_clause(columns: ThreadsTableColumns) -> (clause: String)
    ensures
        clause@ == repair_set_clause(columns),
{
    let mut assignments: Vec<String> = Vec::new();
    if columns.model_provider {
        assignments.push("model_provider = ?1".to_owned());
    }
    let visibility_expr = build_threads_visibility_expr(columns);
    if columns.has_user_event {
        assignments.push(
            "has_user_event = CASE WHEN (".to_owned().concat(visibility_expr.as_str()).concat(
                ") THEN 1 ELSE has_user_event END",
            ),
        );
    }
    if columns.thread_source {
        assignments.push(
            "thread_source = CASE WHEN COALESCE(thread_source, '') = '' AND (".to_owned().concat(
                visibility_expr.as_str(),
            ).concat(") THEN 'user' ELSE thread_source END"),
        );
    }
    assert(views(assignments@) =~= repair_assignments(columns));
    join(&assignments, ", ")
}

/// `expr` alone where `there`, else nothing.
pub open spec fn expr_if(there: bool, expr: SqlExpr) -> Seq<SqlExpr> {
    if there {
        seq![expr]
    } else {
        seq![]
    }
}

/// What a thread may show, as arguments of which the first that is there counts.
pub open spec fn shown_columns(columns: ThreadsTableColumns) -> Seq<SqlExpr> {
    expr_if(
        columns.first_user_message,
        SqlExpr::NullIfEmpty(column("first_user_message"@)),
    ) + expr_if(columns.preview, SqlExpr::NullIfEmpty(column("preview"@))) + expr_if(
        columns.title,
        SqlExpr::NullIfEmpty(column("title"@)),
    )
}

/// The condition under which a thread has something to show, as an expression.
pub open spec fn visibility(columns: ThreadsTableColumns) -> SqlExpr {
    let shown = shown_columns(columns);
    if shown.len() == 0 {
        SqlExpr::Literal("0"@, SqlTerm::Integer(0))
    } else {
        SqlExpr::Differs(
            Box::new(SqlExpr::Coalesce(Box::new(arguments(shown.push(*empty_text()))))),
            empty_text(),
        )
    }
}

/// The column, or another value where it is null.
pub open spec fn column_or(name: Seq<char>, other: Box<SqlExpr>) -> Box<SqlExpr> {
    Box::new(SqlExpr::Coalesce(Box::new(SqlExpr::Else(column(name), other))))
}

/// Whether a thread has another provider than the one that is given.
pub open spec fn provider_differs() -> SqlExpr {
    SqlExpr::Differs(column_or("model_provider"@, empty_text()), Box::new(SqlExpr::Parameter))
}

/// Whether a thread has something to show but is not noted as one that the user took part in.
pub open spec fn event_is_missing(columns: ThreadsTableColumns) -> SqlExpr {
    SqlExpr::Group(
        Box::new(
            SqlExpr::Both(
                Box::new(SqlExpr::Group(Box::new(visibility(columns)))),
                Box::new(
                    SqlExpr::Differs(
                        column_or(
                            "has_user_event"@,
                            Box::new(SqlExpr::Literal("0"@, SqlTerm::Integer(0))),
                        ),
                        Box::new(SqlExpr::Literal("1"@, SqlTerm::Integer(1))),
                    ),
                ),
            ),
        ),
    )
}

/// Whether the source of a thread is not noted.
pub open spec fn source_is_empty() -> SqlExpr {
    SqlExpr::Equals(column_or("thread_source"@, empty_text()), empty_text())
}

/// Whether a thread has something to show but its source is not noted.
pub open spec fn source_is_missing(columns: ThreadsTableColumns) -> SqlExpr {
    SqlExpr::Group(
        Box::new(
            SqlExpr::Both(
                Box::new(SqlExpr::Group(Box::new(visibility(columns)))),
                Box::new(source_is_empty()),
            ),
        ),
    )
}

/// The conditions of which a thread to be repaired meets one, as expressions.
pub open spec fn repair_conditions(columns: ThreadsTableColumns) -> Seq<SqlExpr> {
    expr_if(columns.model_provider, provider_differs()) + expr_if(
        columns.has_user_event,
        event_is_missing(columns),
    ) + expr_if(columns.thread_source, source_is_missing(columns))
}

/// `assignment` alone where `there`, else nothing.
pub open spec fn assignment_if(there: bool, assignment: Assignment) -> Seq<Assignment> {
    if there {
        seq![assignment]
    } else {
        seq![]
    }
}

/// A thread that has something to show is noted as one that the user took part in.
pub open spec fn noted_event(columns: ThreadsTableColumns) -> SqlExpr {
    SqlExpr::Case(
        Box::new(SqlExpr::Group(Box::new(visibility(columns)))),
        Box::new(SqlExpr::Literal("1"@, SqlTerm::Integer(1))),
        column("has_user_event"@),
    )
}

/// A thread that has something to show is noted to come from the user, unless its source is noted.
pub open spec fn noted_source(columns: ThreadsTableColumns) -> SqlExpr {
    SqlExpr::Case(
        Box::new(
            SqlExpr::Both(
                Box::new(source_is_empty()),
                Box::new(SqlExpr::Group(Box::new(visibility(columns)))),
            ),
        ),
        Box::new(SqlExpr::Literal("'user'"@, SqlTerm::Text("user"@))),
        column("thread_source"@),
    )
}

/// What a repair assigns in the threads that it picks, as expressions.
pub open spec fn assigned(columns: ThreadsTableColumns) -> Seq<Assignment> {
    assignment_if(
        columns.model_provider,
        Assignment { column: "model_provider"@, value: SqlExpr::Parameter },
    ) + assignment_if(
        columns.has_user_event,
        Assignment { column: "has_user_event"@, value: noted_event(columns) },
    ) + assignment_if(
        columns.thread_source,
        Assignment { column: "thread_source"@, value: noted_source(columns) },
    )
}

/// Whether the table has a column of this name among those that a repair may look at or assign.
pub open spec fn has_column(columns: ThreadsTableColumns, name: Seq<char>) -> bool {
    ||| columns.model_provider && name == "model_provider"@
    ||| columns.has_user_event && name == "has_user_event"@
    ||| columns.thread_source && name == "thread_source"@
    ||| columns.first_user_message && name == "first_user_message"@
    ||| columns.preview && name == "preview"@
    ||| columns.title && name == "title"@
}

proof fn lemma_visibility_text(columns: ThreadsTableColumns)
    ensures
        sql_text(visibility(columns)) == visibility_expr(columns),
{
    let shown = shown_columns(columns);
    let parts = part_if(columns.first_user_message, "NULLIF(first_user_message, '')"@) + part_if(
        columns.preview,
        "NULLIF(preview, '')"@,
    ) + part_if(columns.title, "NULLIF(title, '')"@);
    reveal_with_fuel(sql_text, 3);
    reveal_strlit("NULLIF(");
    reveal_strlit(", '')");
    reveal_strlit("first_user_message");
    reveal_strlit("preview");
    reveal_strlit("title");
    reveal_strlit("NULLIF(first_user_message, '')");
    reveal_strlit("NULLIF(preview, '')");
    reveal_strlit("NULLIF(title, '')");
    assert(sql_text(SqlExpr::NullIfEmpty(column("first_user_message"@)))
        =~= "NULLIF(first_user_message, '')"@);
    assert(sql_text(SqlExpr::NullIfEmpty(column("preview"@))) =~= "NULLIF(preview, '')"@);
    assert(sql_text(SqlExpr::NullIfEmpty(column("title"@))) =~= "NULLIF(title, '')"@);
    assert(sql_texts(shown) =~= parts);
    if shown.len() > 0 {
        let all = shown.push(*empty_text());
        lemma_arguments_text(all);
        assert(sql_texts(all).drop_last() =~= parts);
        assert(sql_texts(all).last() == "''"@);
        let list = joined(parts, ", "@);
        assert(sql_text(arguments(all)) == list + ", "@ + "''"@);
        reveal_strlit("COALESCE(");
        reveal_strlit(", ");
        reveal_strlit("''");
        reveal_strlit(")");
        reveal_strlit(" <> ");
        reveal_strlit(", '') <> ''");
        assert("COALESCE("@ + (list + ", "@ + "''"@) + ")"@ + " <> "@ + "''"@ =~= "COALESCE("@
            + list + ", '') <> ''"@);
    }
}

proof fn lemma_provider_text()
    ensures
        sql_text(provider_differs()) == "COALESCE(model_provider, '') <> ?1"@,
        "model_provider"@ + " = "@ + sql_text(SqlExpr::Parameter) == "model_provider = ?1"@,
{
    reveal_with_fuel(sql_text, 4);
    assert(sql_text(provider_differs()) == "COALESCE("@ + ("model_provider"@ + ", "@ + "''"@) + ")"@
        + " <> "@ + "?1"@);
    reveal_strlit("COALESCE(");
    reveal_strlit("model_provider");
    reveal_strlit(", ");
    reveal_strlit("''");
    reveal_strlit("?1");
    reveal_strlit(")");
    reveal_strlit(" <> ");
    reveal_strlit(" = ");
    reveal_strlit("COALESCE(model_provider, '') <> ?1");
    reveal_strlit("model_provider = ?1");
    assert("COALESCE("@ + ("model_provider"@ + ", "@ + "''"@) + ")"@ + " <> "@ + "?1"@
        =~= "COALESCE(model_provider, '') <> ?1"@);
    assert("model_provider"@ + " = "@ + "?1"@ =~= "model_provider = ?1"@);
}

proof fn lemma_column_or(name: Seq<char>, other: SqlExpr)
    ensures
        sql_text(*column_or(name, Box::new(other))) == "COALESCE("@ + (name + ", "@ + sql_text(
            other,
        )) + ")"@,
{
    let arguments = SqlExpr::Else(column(name), Box::new(other));
    assert(sql_text(*column(name)) == name);
    assert(sql_text(arguments) == name + ", "@ + sql_text(other));
    assert(*column_or(name, Box::new(other)) == SqlExpr::Coalesce(Box::new(arguments)));
}

proof fn lemma_event_shape(columns: ThreadsTableColumns)
    ensures
        sql_text(event_is_missing(columns)) == "("@ + ("("@ + sql_text(visibility(columns)) + ")"@
            + " AND "@ + ("COALESCE("@ + ("has_user_event"@ + ", "@ + "0"@) + ")"@ + " <> "@
            + "1"@)) + ")"@,
        sql_text(noted_event(columns)) == "CASE WHEN "@ + ("("@ + sql_text(visibility(columns))
            + ")"@) + " THEN "@ + "1"@ + " ELSE "@ + "has_user_event"@ + " END"@,
{
    let both = *(event_is_missing(columns)->Group_0);
    let differs = *(both->Both_1);
    let zero = SqlExpr::Literal("0"@, SqlTerm::Integer(0));
    assert(sql_text(zero) == "0"@);
    lemma_column_or("has_user_event"@, zero);
    assert(sql_text(*(differs->Differs_1)) == "1"@);
    assert(sql_text(differs) == "COALESCE("@ + ("has_user_event"@ + ", "@ + "0"@) + ")"@ + " <> "@
        + "1"@);
    assert(sql_text(*(both->Both_0)) == "("@ + sql_text(visibility(columns)) + ")"@);
    assert(sql_text(both) == sql_text(*(both->Both_0)) + " AND "@ + sql_text(differs));
    let noted = noted_event(columns);
    assert(sql_text(*(noted->Case_0)) == "("@ + sql_text(visibility(columns)) + ")"@);
    assert(sql_text(*(noted->Case_1)) == "1"@);
    assert(sql_text(*(noted->Case_2)) == "has_user_event"@);
}

proof fn lemma_event_words(visible: Seq<char>)
    ensures
        "("@ + ("("@ + visible + ")"@ + " AND "@ + ("COALESCE("@ + ("has_user_event"@ + ", "@
            + "0"@) + ")"@ + " <> "@ + "1"@)) + ")"@ == "(("@ + visible
            + ") AND COALESCE(has_user_event, 0) <> 1)"@,
        "has_user_event"@ + " = "@ + ("CASE WHEN "@ + ("("@ + visible + ")"@) + " THEN "@ + "1"@
            + " ELSE "@ + "has_user_event"@ + " END"@) == "has_user_event = CASE WHEN ("@ + visible
            + ") THEN 1 ELSE has_user_event END"@,
{
    reveal_strlit("COALESCE(");
    reveal_strlit("has_user_event");
    reveal_strlit(", ");
    reveal_strlit("0");
    reveal_strlit("1");
    reveal_strlit("(");
    reveal_strlit(")");
    reveal_strlit(" <> ");
    reveal_strlit(" = ");
    reveal_strlit(" AND ");
    reveal_strlit("CASE WHEN ");
    reveal_strlit(" THEN ");
    reveal_strlit(" ELSE ");
    reveal_strlit(" END");
    reveal_strlit("((");
    reveal_strlit(") AND COALESCE(has_user_event, 0) <> 1)");
    reveal_strlit("has_user_event = CASE WHEN (");
    reveal_strlit(") THEN 1 ELSE has_user_event END");
    let end = ")"@ + " AND "@ + ("COALESCE("@ + ("has_user_event"@ + ", "@ + "0"@) + ")"@ + " <> "@
        + "1"@) + ")"@;
    assert(end =~= ") AND COALESCE(has_user_event, 0) <> 1)"@);
    assert("("@ + "("@ =~= "(("@);
    assert("("@ + ("("@ + visible + ")"@ + " AND "@ + ("COALESCE("@ + ("has_user_event"@ + ", "@
        + "0"@) + ")"@ + " <> "@ + "1"@)) + ")"@ =~= "("@ + "("@ + visible + end);
    let begin = "has_user_event"@ + " = "@ + "CASE WHEN "@ + "("@;
    let rest = ")"@ + " THEN "@ + "1"@ + " ELSE "@ + "has_user_event"@ + " END"@;
    assert(begin =~= "has_user_event = CASE WHEN ("@);
    assert(rest =~= ") THEN 1 ELSE has_user_event END"@);
    assert("has_user_event"@ + " = "@ + ("CASE WHEN "@ + ("("@ + visible + ")"@) + " THEN "@ + "1"@
        + " ELSE "@ + "has_user_event"@ + " END"@) =~= begin + visible + rest);
}

proof fn lemma_source_shape(columns: ThreadsTableColumns)
    ensures
        sql_text(source_is_missing(columns)) == "("@ + ("("@ + sql_text(visibility(columns)) + ")"@
            + " AND "@ + ("COALESCE("@ + ("thread_source"@ + ", "@ + "''"@) + ")"@ + " = "@
            + "''"@)) + ")"@,
        sql_text(noted_source(columns)) == "CASE WHEN "@ + (("COALESCE("@ + ("thread_source"@
            + ", "@ + "''"@) + ")"@ + " = "@ + "''"@) + " AND "@ + ("("@ + sql_text(
            visibility(columns),
        ) + ")"@)) + " THEN "@ + "'user'"@ + " ELSE "@ + "thread_source"@ + " END"@,
{
    let empty = source_is_empty();
    assert(sql_text(*empty_text()) == "''"@);
    lemma_column_or("thread_source"@, *empty_text());
    assert(sql_text(empty) == "COALESCE("@ + ("thread_source"@ + ", "@ + "''"@) + ")"@ + " = "@
        + "''"@);
    let both = *(source_is_missing(columns)->Group_0);
    assert(sql_text(*(both->Both_0)) == "("@ + sql_text(visibility(columns)) + ")"@);
    assert(sql_text(both) == sql_text(*(both->Both_0)) + " AND "@ + sql_text(empty));
    let noted = noted_source(columns);
    let when = *(noted->Case_0);
    assert(sql_text(*(when->Both_1)) == "("@ + sql_text(visibility(columns)) + ")"@);
    assert(sql_text(when) == sql_text(empty) + " AND "@ + sql_text(*(when->Both_1)));
    assert(sql_text(*(noted->Case_1)) == "'user'"@);
    assert(sql_text(*(noted->Case_2)) == "thread_source"@);
}

proof fn lemma_source_words(visible: Seq<char>)
    ensures
        "("@ + ("("@ + visible + ")"@ + " AND "@ + ("COALESCE("@ + ("thread_source"@ + ", "@
            + "''"@) + ")"@ + " = "@ + "''"@)) + ")"@ == "(("@ + visible
            + ") AND COALESCE(thread_source, '') = '')"@,
        "thread_source"@ + " = "@ + ("CASE WHEN "@ + (("COALESCE("@ + ("thread_source"@ + ", "@
            + "''"@) + ")"@ + " = "@ + "''"@) + " AND "@ + ("("@ + visible + ")"@)) + " THEN "@
            + "'user'"@ + " ELSE "@ + "thread_source"@ + " END"@)
            == "thread_source = CASE WHEN COALESCE(thread_source, '') = '' AND ("@ + visible
            + ") THEN 'user' ELSE thread_source END"@,
{
    reveal_strlit("COALESCE(");
    reveal_strlit("thread_source");
    reveal_strlit(", ");
    reveal_strlit("''");
    reveal_strlit("'user'");
    reveal_strlit("(");
    reveal_strlit(")");
    reveal_strlit(" = ");
    reveal_strlit(" AND ");
    reveal_strlit("CASE WHEN ");
    reveal_strlit(" THEN ");
    reveal_strlit(" ELSE ");
    reveal_strlit(" END");
    reveal_strlit("((");
    reveal_strlit(") AND COALESCE(thread_source, '') = '')");
    reveal_strlit("thread_source = CASE WHEN COALESCE(thread_source, '') = '' AND (");
    reveal_strlit(") THEN 'user' ELSE thread_source END");
    let empty = "COALESCE("@ + ("thread_source"@ + ", "@ + "''"@) + ")"@ + " = "@ + "''"@;
    let end = ")"@ + " AND "@ + empty + ")"@;
    assert(end =~= ") AND COALESCE(thread_source, '') = '')"@);
    assert("("@ + "("@ =~= "(("@);
    assert("("@ + ("("@ + visible + ")"@ + " AND "@ + empty) + ")"@ =~= "("@ + "("@ + visible + end);
    let begin = "thread_source"@ + " = "@ + "CASE WHEN "@ + empty + " AND "@ + "("@;
    let rest = ")"@ + " THEN "@ + "'user'"@ + " ELSE "@ + "thread_source"@ + " END"@;
    assert(begin =~= "thread_source = CASE WHEN COALESCE(thread_source, '') = '' AND ("@);
    assert(rest =~= ") THEN 'user' ELSE thread_source END"@);
    assert("thread_source"@ + " = "@ + ("CASE WHEN "@ + (empty + " AND "@ + ("("@ + visible + ")"@))
        + " THEN "@ + "'user'"@ + " ELSE "@ + "thread_source"@ + " END"@) =~= begin + visible
        + rest);
}

proof fn lemma_three_conditions(
    there: (bool, bool, bool),
    exprs: (SqlExpr, SqlExpr, SqlExpr),
)
    ensures
        sql_texts(
            expr_if(there.0, exprs.0) + expr_if(there.1, exprs.1) + expr_if(there.2, exprs.2),
        ) == part_if(there.0, sql_text(exprs.0)) + part_if(there.1, sql_text(exprs.1)) + part_if(
            there.2,
            sql_text(exprs.2),
        ),
{
    assert(sql_texts(
        expr_if(there.0, exprs.0) + expr_if(there.1, exprs.1) + expr_if(there.2, exprs.2),
    ) =~= part_if(there.0, sql_text(exprs.0)) + part_if(there.1, sql_text(exprs.1)) + part_if(
        there.2,
        sql_text(exprs.2),
    ));
}

/// The texts of the assignments.
pub open spec fn assignment_texts(assignments: Seq<Assignment>) -> Seq<Seq<char>> {
    assignments.map_values(|assignment: Assignment| assignment_text(assignment))
}

proof fn lemma_three_assignments(
    there: (bool, bool, bool),
    given: (Assignment, Assignment, Assignment),
)
    ensures
        assignment_texts(
            assignment_if(there.0, given.0) + assignment_if(there.1, given.1) + assignment_if(
                there.2,
                given.2,
            ),
        ) == part_if(there.0, assignment_text(given.0)) + part_if(
            there.1,
            assignment_text(given.1),
        ) + part_if(there.2, assignment_text(given.2)),
{
    assert(assignment_texts(
        assignment_if(there.0, given.0) + assignment_if(there.1, given.1) + assignment_if(
            there.2,
            given.2,
        ),
    ) =~= part_if(there.0, assignment_text(given.0)) + part_if(there.1, assignment_text(given.1))
        + part_if(there.2, assignment_text(given.2)));
}

proof fn lemma_clause_parts(columns: ThreadsTableColumns)
    ensures
        sql_texts(repair_conditions(columns)) == repair_predicates(columns),
        assignment_texts(assigned(columns)) == repair_assignments(columns),
{
    lemma_visibility_text(columns);
    lemma_provider_text();
    lemma_event_shape(columns);
    lemma_event_words(visibility_expr(columns));
    lemma_source_shape(columns);
    lemma_source_words(visibility_expr(columns));
    let there = (columns.model_provider, columns.has_user_event, columns.thread_source);
    lemma_three_conditions(
        there,
        (provider_differs(), event_is_missing(columns), source_is_missing(columns)),
    );
    lemma_three_assignments(
        there,
        (
            Assignment { column: "model_provider"@, value: SqlExpr::Parameter },
            Assignment { column: "has_user_event"@, value: noted_event(columns) },
            Assignment { column: "thread_source"@, value: noted_source(columns) },
        ),
    );
}

/// The clauses of a repair are its conditions and its assignments, written out.
pub proof fn clauses_write_out_the_repair(columns: ThreadsTableColumns)
    ensures
        repair_where_clause(columns) == if repair_conditions(columns).len() == 0 {
            None
        } else {
            Some(sql_text(any_of(repair_conditions(columns))))
        },
        repair_set_clause(columns) == joined(assignment_texts(assigned(columns)), ", "@),
{
    lemma_clause_parts(columns);
    let conditions = repair_conditions(columns);
    assert(sql_texts(conditions).len() == conditions.len());
    if conditions.len() > 0 {
        lemma_any_of_text(conditions);
    }
}

/// The row once a repair has made its assignments; all of them look at the row as it was.
pub open spec fn repaired_row(
    columns: ThreadsTableColumns,
    row: spec_fn(Seq<char>) -> SqlTerm,
    provider: Seq<char>,
) -> spec_fn(Seq<char>) -> SqlTerm {
    assigned_row(row, assigned(columns), SqlTerm::Text(provider))
}

proof fn lemma_columns_differ()
    ensures
        "model_provider"@ != "has_user_event"@,
        "model_provider"@ != "thread_source"@,
        "has_user_event"@ != "thread_source"@,
        forall|name: Seq<char>|
            name == "first_user_message"@ || name == "preview"@ || name == "title"@
                ==> #[trigger] is_looked_at(name),
{
    reveal_strlit("model_provider");
    reveal_strlit("has_user_event");
    reveal_strlit("thread_source");
    reveal_strlit("first_user_message");
    reveal_strlit("preview");
    reveal_strlit("title");
    assert("model_provider"@[0] == 'm' && "has_user_event"@[0] == 'h');
    assert("model_provider"@.len() == 14 && "has_user_event"@.len() == 14);
    assert("thread_source"@.len() == 13 && "first_user_message"@.len() == 18);
    assert("preview"@.len() == 7 && "title"@.len() == 5);
}

/// Whether a column is none of those that a repair assigns.
pub open spec fn is_looked_at(name: Seq<char>) -> bool {
    name != "model_provider"@ && name != "has_user_event"@ && name != "thread_source"@
}

proof fn lemma_visibility_names(columns: ThreadsTableColumns, name: Seq<char>)
    requires
        names_column(visibility(columns), name),
    ensures
        has_column(columns, name),
        is_looked_at(name),
{
    lemma_columns_differ();
    reveal_with_fuel(names_column, 3);
    let shown = shown_columns(columns);
    let all = shown.push(*empty_text());
    lemma_arguments_names(all, name);
    let i = choose|i: int| 0 <= i < all.len() && names_column(#[trigger] all[i], name);
    assert(i < shown.len());
    assert(shown[i] == all[i]);
    assert(is_looked_at(name));
}

proof fn lemma_repaired_value(
    columns: ThreadsTableColumns,
    row: spec_fn(Seq<char>) -> SqlTerm,
    provider: Seq<char>,
    i: int,
)
    requires
        0 <= i < assigned(columns).len(),
    ensures
        repaired_row(columns, row, provider)(assigned(columns)[i].column) == sql_value(
            assigned(columns)[i].value,
            row,
            SqlTerm::Text(provider),
        ),
{
    lemma_columns_differ();
    let given = assigned(columns);
    let names = given.map_values(|given: Assignment| given.column);
    let values = given.map_values(
        |given: Assignment| sql_value(given.value, row, SqlTerm::Text(provider)),
    );
    assert(forall|k: int| 0 <= k < names.len() ==> #[trigger] names[k] == given[k].column);
    lemma_new_value(row, names, values, i);
}

/// Columns that a repair does not assign hold what they held.
pub proof fn repair_keeps_other_columns(
    columns: ThreadsTableColumns,
    row: spec_fn(Seq<char>) -> SqlTerm,
    provider: Seq<char>,
    name: Seq<char>,
)
    requires
        is_looked_at(name),
    ensures
        repaired_row(columns, row, provider)(name) == row(name),
{
    let given = assigned(columns);
    let names = given.map_values(|given: Assignment| given.column);
    let values = given.map_values(
        |given: Assignment| sql_value(given.value, row, SqlTerm::Text(provider)),
    );
    assert forall|i: int| 0 <= i < names.len() implies names[i] != name by {
        assert(names[i] == given[i].column);
    }
    lemma_other_columns_stay(row, names, values, name);
}

/// A repaired row meets none of the conditions by which rows are picked: each assignment makes the
/// condition on its column false. So a repair, read by the rules of `sql_value`, leaves nothing to
/// count.
pub proof fn repaired_row_is_not_picked(
    columns: ThreadsTableColumns,
    row: spec_fn(Seq<char>) -> SqlTerm,
    provider: Seq<char>,
)
    ensures
        forall|i: int|
            0 <= i < repair_conditions(columns).len() ==> !is_true(
                sql_value(
                    #[trigger] repair_conditions(columns)[i],
                    repaired_row(columns, row, provider),
                    SqlTerm::Text(provider),
                ),
            ),
        repair_conditions(columns).len() > 0 ==> !is_true(
            sql_value(
                any_of(repair_conditions(columns)),
                repaired_row(columns, row, provider),
                SqlTerm::Text(provider),
            ),
        ),
{
    let parameter = SqlTerm::Text(provider);
    let next = repaired_row(columns, row, provider);
    let visible = visibility(columns);
    let conditions = repair_conditions(columns);
    lemma_columns_differ();
    reveal_strlit("user");
    assert forall|name: Seq<char>| #[trigger] names_column(visible, name) implies row(name) == next(
        name,
    ) by {
        lemma_visibility_names(columns, name);
        repair_keeps_other_columns(columns, row, provider, name);
    }
    lemma_value_of_named(visible, row, next, parameter);
    let given = assigned(columns);
    let second: int = if columns.model_provider {
        1
    } else {
        0
    };
    let third: int = if columns.has_user_event {
        second + 1
    } else {
        second
    };
    if columns.model_provider {
        lemma_repaired_value(columns, row, provider, 0);
        assert(given[0].column == "model_provider"@ && given[0].value == SqlExpr::Parameter);
    }
    if columns.has_user_event {
        lemma_repaired_value(columns, row, provider, second);
        assert(given[second].column == "has_user_event"@);
        assert(given[second].value == noted_event(columns));
    }
    if columns.thread_source {
        lemma_repaired_value(columns, row, provider, third);
        assert(given[third].column == "thread_source"@);
        assert(given[third].value == noted_source(columns));
    }
    reveal_with_fuel(sql_value, 7);
    if columns.model_provider {
        assert(!is_true(sql_value(provider_differs(), next, parameter)));
    }
    if columns.has_user_event {
        assert(!is_true(sql_value(event_is_missing(columns), next, parameter)));
    }
    if columns.thread_source {
        assert("user"@.len() == 4);
        assert(!is_true(sql_value(source_is_missing(columns), next, parameter)));
    }
    if conditions.len() > 0 {
        lemma_any_of_value(conditions, next, parameter);
    }
}

proof fn lemma_visibility_is_plain(columns: ThreadsTableColumns)
    ensures
        is_unmarked(visibility(columns)),
        !uses_parameter(visibility(columns)),
{
    reveal_with_fuel(is_unmarked, 3);
    reveal_with_fuel(uses_parameter, 3);
    reveal_strlit("first_user_message");
    reveal_strlit("preview");
    reveal_strlit("title");
    reveal_strlit("''");
    reveal_strlit("0");
    let shown = shown_columns(columns);
    let all = shown.push(*empty_text());
    assert forall|i: int| 0 <= i < all.len() implies is_unmarked(#[trigger] all[i])
        && !uses_parameter(all[i]) by {
        if i < shown.len() {
            assert(all[i] == shown[i]);
        }
    }
    lemma_arguments_unmarked(all);
}

/// Whether an expression is written without question marks, uses the parameter where it is said to,
/// and names columns of the table alone.
spec fn fits(columns: ThreadsTableColumns, expr: SqlExpr, used: bool) -> bool {
    &&& is_unmarked(expr)
    &&& uses_parameter(expr) == used
    &&& forall|name: Seq<char>| #[trigger] names_column(expr, name) ==> has_column(columns, name)
}

proof fn lemma_visibility_fits(columns: ThreadsTableColumns)
    ensures
        fits(columns, SqlExpr::Group(Box::new(visibility(columns))), false),
{
    lemma_visibility_is_plain(columns);
    let group = SqlExpr::Group(Box::new(visibility(columns)));
    assert forall|name: Seq<char>| #[trigger] names_column(group, name) implies has_column(
        columns,
        name,
    ) by {
        lemma_visibility_names(columns, name);
    }
}

proof fn lemma_column_or_fits(
    columns: ThreadsTableColumns,
    name: Seq<char>,
    written: Seq<char>,
    value: SqlTerm,
)
    requires
        has_column(columns, name),
        !name.contains('?'),
        !written.contains('?'),
    ensures
        fits(columns, *column_or(name, Box::new(SqlExpr::Literal(written, value))), false),
{
    reveal_with_fuel(is_unmarked, 4);
    reveal_with_fuel(uses_parameter, 4);
    reveal_with_fuel(names_column, 4);
}

proof fn lemma_two_fit(
    columns: ThreadsTableColumns,
    a: SqlExpr,
    b: SqlExpr,
    in_a: bool,
    in_b: bool,
)
    requires
        fits(columns, a, in_a),
        fits(columns, b, in_b),
    ensures
        fits(columns, SqlExpr::Differs(Box::new(a), Box::new(b)), in_a || in_b),
        fits(columns, SqlExpr::Equals(Box::new(a), Box::new(b)), in_a || in_b),
        fits(columns, SqlExpr::Both(Box::new(a), Box::new(b)), in_a || in_b),
        fits(
            columns,
            SqlExpr::Group(Box::new(SqlExpr::Both(Box::new(a), Box::new(b)))),
            in_a || in_b,
        ),
{
    let differs = SqlExpr::Differs(Box::new(a), Box::new(b));
    let equals = SqlExpr::Equals(Box::new(a), Box::new(b));
    let both = SqlExpr::Both(Box::new(a), Box::new(b));
    let group = SqlExpr::Group(Box::new(both));
    assert forall|name: Seq<char>| #[trigger] names_column(differs, name) implies has_column(
        columns,
        name,
    ) by {
        assert(names_column(a, name) || names_column(b, name));
    }
    assert forall|name: Seq<char>| #[trigger] names_column(equals, name) implies has_column(
        columns,
        name,
    ) by {
        assert(names_column(a, name) || names_column(b, name));
    }
    assert forall|name: Seq<char>| #[trigger] names_column(both, name) implies has_column(
        columns,
        name,
    ) by {
        assert(names_column(a, name) || names_column(b, name));
    }
    assert forall|name: Seq<char>| #[trigger] names_column(group, name) implies has_column(
        columns,
        name,
    ) by {
        assert(names_column(both, name));
    }
    assert(is_unmarked(both) && uses_parameter(both) == (in_a || in_b));
}

proof fn lemma_case_fits(columns: ThreadsTableColumns, a: SqlExpr, b: SqlExpr, c: SqlExpr)
    requires
        fits(columns, a, false),
        fits(columns, b, false),
        fits(columns, c, false),
    ensures
        fits(columns, SqlExpr::Case(Box::new(a), Box::new(b), Box::new(c)), false),
{
    let case = SqlExpr::Case(Box::new(a), Box::new(b), Box::new(c));
    assert forall|name: Seq<char>| #[trigger] names_column(case, name) implies has_column(
        columns,
        name,
    ) by {
        assert(names_column(a, name) || names_column(b, name) || names_column(c, name));
    }
}

proof fn lemma_provider_fits(columns: ThreadsTableColumns)
    requires
        columns.model_provider,
    ensures
        fits(columns, provider_differs(), true),
        fits(columns, SqlExpr::Parameter, true),
{
    reveal_strlit("model_provider");
    reveal_strlit("''");
    lemma_column_or_fits(columns, "model_provider"@, "''"@, SqlTerm::Text(seq![]));
    lemma_two_fit(
        columns,
        *column_or("model_provider"@, empty_text()),
        SqlExpr::Parameter,
        false,
        true,
    );
}

proof fn lemma_event_fits(columns: ThreadsTableColumns)
    requires
        columns.has_user_event,
    ensures
        fits(columns, event_is_missing(columns), false),
        fits(columns, noted_event(columns), false),
{
    reveal_strlit("has_user_event");
    reveal_strlit("0");
    reveal_strlit("1");
    lemma_visibility_fits(columns);
    lemma_column_or_fits(columns, "has_user_event"@, "0"@, SqlTerm::Integer(0));
    let zero = Box::new(SqlExpr::Literal("0"@, SqlTerm::Integer(0)));
    let one = SqlExpr::Literal("1"@, SqlTerm::Integer(1));
    let noted = *column_or("has_user_event"@, zero);
    let visible = SqlExpr::Group(Box::new(visibility(columns)));
    assert(fits(columns, one, false));
    lemma_two_fit(columns, noted, one, false, false);
    lemma_two_fit(
        columns,
        visible,
        SqlExpr::Differs(Box::new(noted), Box::new(one)),
        false,
        false,
    );
    assert(fits(columns, *column("has_user_event"@), false));
    lemma_case_fits(columns, visible, one, *column("has_user_event"@));
}

proof fn lemma_source_fits(columns: ThreadsTableColumns)
    requires
        columns.thread_source,
    ensures
        fits(columns, source_is_missing(columns), false),
        fits(columns, noted_source(columns), false),
{
    reveal_strlit("thread_source");
    reveal_strlit("''");
    reveal_strlit("'user'");
    lemma_visibility_fits(columns);
    lemma_column_or_fits(columns, "thread_source"@, "''"@, SqlTerm::Text(seq![]));
    let noted = *column_or("thread_source"@, empty_text());
    let visible = SqlExpr::Group(Box::new(visibility(columns)));
    assert(fits(columns, *empty_text(), false));
    lemma_two_fit(columns, noted, *empty_text(), false, false);
    lemma_two_fit(columns, visible, source_is_empty(), false, false);
    lemma_two_fit(columns, source_is_empty(), visible, false, false);
    let when = SqlExpr::Both(Box::new(source_is_empty()), Box::new(visible));
    let user = SqlExpr::Literal("'user'"@, SqlTerm::Text("user"@));
    assert(fits(columns, when, false));
    assert(fits(columns, user, false));
    assert(fits(columns, *column("thread_source"@), false));
    lemma_case_fits(columns, when, user, *column("thread_source"@));
}

proof fn lemma_conditions_fit(columns: ThreadsTableColumns, i: int)
    requires
        0 <= i < repair_conditions(columns).len(),
    ensures
        fits(columns, repair_conditions(columns)[i], columns.model_provider && i == 0),
{
    if columns.model_provider {
        lemma_provider_fits(columns);
    }
    if columns.has_user_event {
        lemma_event_fits(columns);
    }
    if columns.thread_source {
        lemma_source_fits(columns);
    }
}

proof fn lemma_assignments_fit(columns: ThreadsTableColumns, i: int)
    requires
        0 <= i < assigned(columns).len(),
    ensures
        has_column(columns, assigned(columns)[i].column),
        fits(columns, assigned(columns)[i].value, columns.model_provider && i == 0),
        marks(assignment_text(assigned(columns)[i]), columns.model_provider && i == 0),
        assignment_text(assigned(columns)[i]).len() > 0,
{
    let given = assigned(columns)[i];
    if columns.model_provider {
        lemma_provider_fits(columns);
    }
    if columns.has_user_event {
        lemma_event_fits(columns);
    }
    if columns.thread_source {
        lemma_source_fits(columns);
    }
    assert(fits(columns, given.value, columns.model_provider && i == 0));
    lemma_parameter_in_text(given.value);
    reveal_strlit(" = ");
    reveal_strlit("model_provider");
    reveal_strlit("has_user_event");
    reveal_strlit("thread_source");
    assert(!given.column.contains('?'));
    lemma_marks_two(
        given.column,
        " = "@,
        sql_text(given.value),
        false,
        uses_parameter(given.value),
    );
}

proof fn lemma_clause_lengths(columns: ThreadsTableColumns)
    ensures
        repair_conditions(columns).len() == assigned(columns).len(),
        repair_conditions(columns).len() == 0 <==> !columns.model_provider
            && !columns.has_user_event && !columns.thread_source,
{
}

proof fn lemma_condition_marks(columns: ThreadsTableColumns)
    ensures
        repair_conditions(columns).len() > 0 ==> (holds_part(
            sql_text(any_of(repair_conditions(columns))),
            "?1"@,
        ) <==> columns.model_provider),
{
    lemma_clause_lengths(columns);
    let conditions = repair_conditions(columns);
    if conditions.len() > 0 {
        assert forall|i: int| 0 <= i < conditions.len() implies is_unmarked(
            #[trigger] conditions[i],
        ) && (uses_parameter(conditions[i]) <==> columns.model_provider && i == 0) by {
            lemma_conditions_fit(columns, i);
        }
        lemma_any_of_unmarked(conditions);
        lemma_any_of_names(conditions, seq![]);
        lemma_parameter_in_text(any_of(conditions));
        assert(uses_parameter(conditions[0]) <==> columns.model_provider);
    }
}

proof fn lemma_assignment_marks(columns: ThreadsTableColumns)
    ensures
        holds_part(repair_set_clause(columns), "?1"@) <==> columns.model_provider,
        repair_set_clause(columns).len() == 0 <==> assigned(columns).len() == 0,
{
    clauses_write_out_the_repair(columns);
    let given = assigned(columns);
    let texts = assignment_texts(given);
    let used = Seq::new(given.len(), |i: int| columns.model_provider && i == 0);
    assert forall|i: int| 0 <= i < texts.len() implies marks(#[trigger] texts[i], used[i])
        && texts[i].len() > 0 by {
        assert(texts[i] == assignment_text(given[i]));
        lemma_assignments_fit(columns, i);
    }
    assert(!", "@.contains('?')) by {
        reveal_strlit(", ");
    }
    lemma_joined_marks(texts, ", "@, used);
    assert(any_used(used) <==> columns.model_provider) by {
        if columns.model_provider {
            assert(used[0]);
        }
    }
    if !columns.model_provider {
        lemma_unmarked_text(repair_set_clause(columns));
    }
    if texts.len() > 0 {
        assert(texts[texts.len() - 1].len() > 0);
    }
}

/// The clauses of a repair fit the table and each other. There is no condition exactly where
/// nothing is assigned, that is, where the table has none of the columns that a repair sets. The
/// provider's parameter stands in both clauses where the table has a column for it, and else in
/// neither. And neither names a column that the table does not have.
pub proof fn clauses_fit_the_table(columns: ThreadsTableColumns)
    ensures
        repair_where_clause(columns) is None <==> !columns.model_provider && !columns.has_user_event
            && !columns.thread_source,
        repair_where_clause(columns) is None <==> repair_set_clause(columns).len() == 0,
        repair_where_clause(columns) matches Some(clause) ==> (holds_part(clause, "?1"@)
            <==> columns.model_provider),
        holds_part(repair_set_clause(columns), "?1"@) <==> columns.model_provider,
        forall|i: int, name: Seq<char>|
            0 <= i < repair_conditions(columns).len() && #[trigger] names_column(
                repair_conditions(columns)[i],
                name,
            ) ==> has_column(columns, name),
        forall|i: int|
            0 <= i < assigned(columns).len() ==> has_column(
                columns,
                (#[trigger] assigned(columns)[i]).column,
            ),
        forall|i: int, name: Seq<char>|
            0 <= i < assigned(columns).len() && #[trigger] names_column(
                assigned(columns)[i].value,
                name,
            ) ==> has_column(columns, name),
{
    clauses_write_out_the_repair(columns);
    lemma_clause_lengths(columns);
    let conditions = repair_conditions(columns);
    let given = assigned(columns);
    assert forall|i: int, name: Seq<char>|
        0 <= i < conditions.len() && #[trigger] names_column(conditions[i], name) implies has_column(
        columns,
        name,
    ) by {
        lemma_conditions_fit(columns, i);
    }
    assert forall|i: int| 0 <= i < given.len() implies has_column(
        columns,
        (#[trigger] given[i]).column,
    ) by {
        lemma_assignments_fit(columns, i);
    }
    assert forall|i: int, name: Seq<char>|
        0 <= i < given.len() && #[trigger] names_column(given[i].value, name) implies has_column(
        columns,
        name,
    ) by {
        lemma_assignments_fit(columns, i);
    }
    lemma_condition_marks(columns);
    lemma_assignment_marks(columns);
}

/// What comes next in work on a database: nothing, since the result is known, or a statement.
#[derive(Debug)]
pub enum Stage<T> {
    Done(T),
    Run(Statement),
}

/// What a `Stage` says.
pub enum StageText<T> {
    Done(T),
    Run(StatementText),
}

/// What a stage says, or the error in its place.
pub open spec fn stage_view<T>(stage: Result<Stage<T>, String>) -> Result<StageText<T>, Seq<char>> {
    match stage {
        Ok(Stage::Done(value)) => Ok(StageText::Done(value)),
        Ok(Stage::Run(statement)) => Ok(StageText::Run(statement@)),
        Err(text) => Err(text@),
    }
}

/// A query without parameters.
pub open spec fn plain_query(sql: Seq<char>) -> StatementText {
    StatementText { sql, parameters: seq![] }
}

/// A query without parameters.
pub fn query(sql: String) -> (statement: Statement)
    ensures
        statement@ == plain_query(sql@),
{
    let parameters: Vec<SqlValue> = Vec::new();
    let statement = Statement { sql, parameters };
    assert(statement@.parameters =~= seq![]);
    statement
}

/// How far a query that gives rows came.
#[derive(Debug)]
pub enum RowsOutcome<T> {
    /// The statement was refused.
    Unprepared(SqliteFailure),
    /// The query did not run.
    Unqueried(SqliteFailure),
    /// A row could not be read.
    Unread(SqliteFailure),
    /// All rows, in order.
    Rows(Vec<T>),
}

/// The query for the columns of the `threads` table. Each row has the name in its second place.
pub fn threads_column_query() -> (statement: Statement)
    ensures
        statement@ == plain_query("PRAGMA table_info(threads)"@),
{
    query("PRAGMA table_info(threads)".to_owned())
}

/// The rows of a query, or the error for the step that failed, each named by its own words.
pub open spec fn rows_result<T>(
    path: Seq<char>,
    outcome: RowsOutcome<T>,
    preparing: Seq<char>,
    querying: Seq<char>,
    reading: Seq<char>,
) -> Result<Seq<T>, Seq<char>> {
    match outcome {
        RowsOutcome::Unprepared(failure) => Err(located(preparing, path, failure.message@)),
        RowsOutcome::Unqueried(failure) => Err(located(querying, path, failure.message@)),
        RowsOutcome::Unread(failure) => Err(located(reading, path, failure.message@)),
        RowsOutcome::Rows(rows) => Ok(rows@),
    }
}

/// A list of rows, or the error in its place.
pub open spec fn rows_view<T>(rows: Result<Vec<T>, String>) -> Result<Seq<T>, Seq<char>> {
    match rows {
        Ok(rows) => Ok(rows@),
        Err(text) => Err(text@),
    }
}

/// The rows of a query, or the error for the step that failed.
pub fn rows_of<T>(
    path: &str,
    outcome: RowsOutcome<T>,
    preparing: &str,
    querying: &str,
    reading: &str,
) -> (rows: Result<Vec<T>, String>)
    ensures
        rows_view(rows) == rows_result(path@, outcome, preparing@, querying@, reading@),
{
    match outcome {
        RowsOutcome::Unprepared(failure) => Err(
            format_sqlite_read_error(path, preparing, failure.message.as_str()),
        ),
        RowsOutcome::Unqueried(failure) => Err(
            format_sqlite_read_error(path, querying, failure.message.as_str()),
        ),
        RowsOutcome::Unread(failure) => Err(
            format_sqlite_read_error(path, reading, failure.message.as_str()),
        ),
        RowsOutcome::Rows(rows) => Ok(rows),
    }
}

/// How far a transaction came.
#[derive(Debug)]
pub enum TransactionOutcome {
    /// It did not begin.
    Unbegun(SqliteFailure),
    /// A statement of it failed.
    Unexecuted(SqliteFailure),
    /// It could not be committed.
    Uncommitted(SqliteFailure),
    /// It was committed; the rows that its statements changed.
    Committed(usize),
}

/// What a transaction comes to in which every failure counts.
pub open spec fn transaction_result(path: Seq<char>, outcome: TransactionOutcome) -> Result<
    usize,
    Seq<char>,
> {
    match outcome {
        TransactionOutcome::Unbegun(failure) => Err(write_error(path, failure.message@)),
        TransactionOutcome::Unexecuted(failure) => Err(write_error(path, failure.message@)),
        TransactionOutcome::Uncommitted(failure) => Err(write_error(path, failure.message@)),
        TransactionOutcome::Committed(rows) => Ok(rows),
    }
}

/// What a transaction on the database at `path` comes to in which every failure counts.
pub fn finish_transaction(path: &str, outcome: &TransactionOutcome) -> (rows: Result<usize, String>)
    ensures
        result_view(rows) == transaction_result(path@, *outcome),
{
    match outcome {
        TransactionOutcome::Unbegun(failure) => Err(
            format_sqlite_write_error(path, failure.message.as_str()),
        ),
        TransactionOutcome::Unexecuted(failure) => Err(
            format_sqlite_write_error(path, failure.message.as_str()),
        ),
        TransactionOutcome::Uncommitted(failure) => Err(
            format_sqlite_write_error(path, failure.message.as_str()),
        ),
        TransactionOutcome::Committed(rows) => Ok(*rows),
    }
}

/// Whether a thread has something to show: a first message, a preview or a title, each where the
/// table has a column for it.
pub open spec fn shows_something(
    columns: ThreadsTableColumns,
    row: spec_fn(Seq<char>) -> SqlTerm,
) -> bool {
    ||| columns.first_user_message && is_shown(row("first_user_message"@))
    ||| columns.preview && is_shown(row("preview"@))
    ||| columns.title && is_shown(row("title"@))
}

proof fn lemma_arguments_value(
    parts: Seq<SqlExpr>,
    row: spec_fn(Seq<char>) -> SqlTerm,
    parameter: SqlTerm,
)
    requires
        parts.len() > 0,
    ensures
        sql_value(arguments(parts), row, parameter) is Null <==> forall|i: int|
            0 <= i < parts.len() ==> sql_value(#[trigger] parts[i], row, parameter) is Null,
        !(sql_value(arguments(parts), row, parameter) is Null) ==> exists|i: int|
            0 <= i < parts.len() && sql_value(#[trigger] parts[i], row, parameter) == sql_value(
                arguments(parts),
                row,
                parameter,
            ),
    decreases parts.len(),
{
    if parts.len() > 1 {
        let rest = parts.drop_last();
        lemma_arguments_value(rest, row, parameter);
        assert(arguments(parts) == SqlExpr::Else(Box::new(arguments(rest)), Box::new(parts.last())));
        assert(parts.last() == parts[parts.len() - 1]);
        assert(forall|i: int| 0 <= i < rest.len() ==> rest[i] == #[trigger] parts[i]);
        if sql_value(arguments(rest), row, parameter) is Null {
            assert(sql_value(arguments(parts), row, parameter) == sql_value(
                parts.last(),
                row,
                parameter,
            ));
            assert forall|i: int| 0 <= i < rest.len() implies sql_value(
                #[trigger] parts[i],
                row,
                parameter,
            ) is Null by {
                assert(sql_value(rest[i], row, parameter) is Null);
            }
        } else {
            let i = choose|i: int|
                0 <= i < rest.len() && sql_value(#[trigger] rest[i], row, parameter) == sql_value(
                    arguments(rest),
                    row,
                    parameter,
                );
            assert(sql_value(parts[i], row, parameter) == sql_value(
                arguments(parts),
                row,
                parameter,
            ));
        }
    } else {
        assert(arguments(parts) == parts[0]);
    }
}

proof fn lemma_visibility_value(
    columns: ThreadsTableColumns,
    row: spec_fn(Seq<char>) -> SqlTerm,
    parameter: SqlTerm,
)
    ensures
        sql_value(visibility(columns), row, parameter) == truth(shows_something(columns, row)),
{
    let shown = shown_columns(columns);
    if shown.len() > 0 {
        let all = shown.push(*empty_text());
        let list = arguments(all);
        let value = sql_value(list, row, parameter);
        let empty = SqlTerm::Text(seq![]);
        assert(all.drop_last() =~= shown);
        assert(list == SqlExpr::Else(Box::new(arguments(shown)), empty_text()));
        assert(sql_value(*empty_text(), row, parameter) == empty);
        lemma_arguments_value(shown, row, parameter);
        assert forall|i: int| 0 <= i < shown.len() implies sql_value(
            #[trigger] shown[i],
            row,
            parameter,
        ) != empty by {}
        let first = SqlExpr::NullIfEmpty(column("first_user_message"@));
        let second = SqlExpr::NullIfEmpty(column("preview"@));
        let third = SqlExpr::NullIfEmpty(column("title"@));
        assert(sql_value(*column("first_user_message"@), row, parameter) == row(
            "first_user_message"@,
        ));
        assert(sql_value(*column("preview"@), row, parameter) == row("preview"@));
        assert(sql_value(*column("title"@), row, parameter) == row("title"@));
        assert(!(sql_value(first, row, parameter) is Null) <==> is_shown(row("first_user_message"@)));
        assert(!(sql_value(second, row, parameter) is Null) <==> is_shown(row("preview"@)));
        assert(!(sql_value(third, row, parameter) is Null) <==> is_shown(row("title"@)));
        let a: int = if columns.first_user_message {
            1
        } else {
            0
        };
        let b: int = if columns.preview {
            a + 1
        } else {
            a
        };
        assert(columns.first_user_message ==> shown[0] == first);
        assert(columns.preview ==> shown[a] == second);
        assert(columns.title ==> shown[b] == third);
        assert forall|i: int| 0 <= i < shown.len() implies (columns.first_user_message
            && #[trigger] shown[i] == first) || (columns.preview && shown[i] == second) || (
        columns.title && shown[i] == third) by {}
        assert(value != empty <==> shows_something(columns, row));
        let coalesced = SqlExpr::Coalesce(Box::new(list));
        assert(sql_value(coalesced, row, parameter) == value);
        assert(visibility(columns) == SqlExpr::Differs(Box::new(coalesced), empty_text()));
    }
}

/// A repair picks exactly the threads that have another provider than the wanted one, and those with
/// something to show that are not noted as ones that the user took part in, or whose source is not
/// noted, as far as the table has columns for these.
pub proof fn repair_picks_the_threads_in_need(
    columns: ThreadsTableColumns,
    row: spec_fn(Seq<char>) -> SqlTerm,
    provider: Seq<char>,
)
    requires
        repair_conditions(columns).len() > 0,
    ensures
        is_true(
            sql_value(any_of(repair_conditions(columns)), row, SqlTerm::Text(provider)),
        ) <==> {
            ||| columns.model_provider && (if row("model_provider"@) is Null {
                provider.len() > 0
            } else {
                row("model_provider"@) != SqlTerm::Text(provider)
            })
            ||| columns.has_user_event && shows_something(columns, row) && row("has_user_event"@)
                != SqlTerm::Integer(1)
            ||| columns.thread_source && shows_something(columns, row) && !is_shown(
                row("thread_source"@),
            )
        },
        repair_conditions(columns).len() > 0 <==> columns.model_provider || columns.has_user_event
            || columns.thread_source,
{
    let parameter = SqlTerm::Text(provider);
    let conditions = repair_conditions(columns);
    lemma_visibility_value(columns, row, parameter);
    lemma_any_of_value(conditions, row, parameter);
    let empty = Seq::<char>::empty();
    assert(provider.len() == 0 ==> provider =~= empty);
    let first = provider_differs();
    let second = event_is_missing(columns);
    let third = source_is_missing(columns);
    lemma_condition_values(columns, row, provider);
    let a: int = if columns.model_provider {
        1
    } else {
        0
    };
    let b: int = if columns.has_user_event {
        a + 1
    } else {
        a
    };
    assert(columns.model_provider ==> conditions[0] == first);
    assert(columns.has_user_event ==> conditions[a] == second);
    assert(columns.thread_source ==> conditions[b] == third);
    assert forall|i: int| 0 <= i < conditions.len() implies (columns.model_provider
        && #[trigger] conditions[i] == first) || (columns.has_user_event && conditions[i] == second)
        || (columns.thread_source && conditions[i] == third) by {}
}

proof fn lemma_condition_values(
    columns: ThreadsTableColumns,
    row: spec_fn(Seq<char>) -> SqlTerm,
    provider: Seq<char>,
)
    ensures
        is_true(sql_value(provider_differs(), row, SqlTerm::Text(provider))) <==> (if row(
            "model_provider"@,
        ) is Null {
            provider.len() > 0
        } else {
            row("model_provider"@) != SqlTerm::Text(provider)
        }),
        is_true(sql_value(event_is_missing(columns), row, SqlTerm::Text(provider)))
            <==> shows_something(columns, row) && row("has_user_event"@) != SqlTerm::Integer(1),
        is_true(sql_value(source_is_missing(columns), row, SqlTerm::Text(provider)))
            <==> shows_something(columns, row) && !is_shown(row("thread_source"@)),
        is_true(sql_value(source_is_empty(), row, SqlTerm::Text(provider))) <==> !is_shown(
            row("thread_source"@),
        ),
        sql_value(source_is_empty(), row, SqlTerm::Text(provider)) == truth(
            !is_shown(row("thread_source"@)),
        ),
{
    let parameter = SqlTerm::Text(provider);
    lemma_visibility_value(columns, row, parameter);
    assert(provider.len() == 0 ==> provider =~= Seq::<char>::empty());
    let empty = SqlTerm::Text(Seq::<char>::empty());
    assert(sql_value(*empty_text(), row, parameter) == empty);
    assert(sql_value(*column("model_provider"@), row, parameter) == row("model_provider"@));
    assert(sql_value(*column("has_user_event"@), row, parameter) == row("has_user_event"@));
    assert(sql_value(*column("thread_source"@), row, parameter) == row("thread_source"@));
    let zero = Box::new(SqlExpr::Literal("0"@, SqlTerm::Integer(0)));
    let one = Box::new(SqlExpr::Literal("1"@, SqlTerm::Integer(1)));
    assert(sql_value(*zero, row, parameter) == SqlTerm::Integer(0));
    assert(sql_value(*one, row, parameter) == SqlTerm::Integer(1));
    lemma_column_or_value("model_provider"@, empty_text(), row, parameter);
    lemma_column_or_value("thread_source"@, empty_text(), row, parameter);
    lemma_column_or_value("has_user_event"@, zero, row, parameter);
    assert(sql_value(SqlExpr::Parameter, row, parameter) == parameter);
    let shown = SqlExpr::Group(Box::new(visibility(columns)));
    assert(sql_value(shown, row, parameter) == truth(shows_something(columns, row)));
    let differs = SqlExpr::Differs(column_or("has_user_event"@, zero), one);
    assert(is_true(sql_value(differs, row, parameter)) <==> row("has_user_event"@)
        != SqlTerm::Integer(1));
    let both = SqlExpr::Both(Box::new(shown), Box::new(differs));
    assert(event_is_missing(columns) == SqlExpr::Group(Box::new(both)));
    assert(is_true(sql_value(both, row, parameter)) <==> is_true(sql_value(shown, row, parameter))
        && is_true(sql_value(differs, row, parameter)));
    let noted = SqlExpr::Both(Box::new(shown), Box::new(source_is_empty()));
    assert(source_is_missing(columns) == SqlExpr::Group(Box::new(noted)));
    assert(is_true(sql_value(noted, row, parameter)) <==> is_true(sql_value(shown, row, parameter))
        && is_true(sql_value(source_is_empty(), row, parameter)));
}

proof fn lemma_column_or_value(
    name: Seq<char>,
    other: Box<SqlExpr>,
    row: spec_fn(Seq<char>) -> SqlTerm,
    parameter: SqlTerm,
)
    ensures
        sql_value(*column_or(name, other), row, parameter) == if row(name) is Null {
            sql_value(*other, row, parameter)
        } else {
            row(name)
        },
{
    let list = SqlExpr::Else(column(name), other);
    assert(sql_value(*column(name), row, parameter) == row(name));
    assert(sql_value(list, row, parameter) == if row(name) is Null {
        sql_value(*other, row, parameter)
    } else {
        row(name)
    });
    assert(*column_or(name, other) == SqlExpr::Coalesce(Box::new(list)));
}

/// A repaired thread has the wanted provider. One with something to show is noted as one that the
/// user took part in, and to come from the user where its source was not noted. All else in it is as
/// it was.
pub proof fn repaired_thread_has_what_is_wanted(
    columns: ThreadsTableColumns,
    row: spec_fn(Seq<char>) -> SqlTerm,
    provider: Seq<char>,
    name: Seq<char>,
)
    ensures
        ({
            let next = repaired_row(columns, row, provider);
            &&& columns.model_provider ==> next("model_provider"@) == SqlTerm::Text(provider)
            &&& columns.has_user_event ==> next("has_user_event"@) == if shows_something(
                columns,
                row,
            ) {
                SqlTerm::Integer(1)
            } else {
                row("has_user_event"@)
            }
            &&& columns.thread_source ==> next("thread_source"@) == if shows_something(columns, row)
                && !is_shown(row("thread_source"@)) {
                SqlTerm::Text("user"@)
            } else {
                row("thread_source"@)
            }
            &&& name != "model_provider"@ && name != "has_user_event"@ && name != "thread_source"@
                ==> next(name) == row(name)
        }),
{
    let parameter = SqlTerm::Text(provider);
    let next = repaired_row(columns, row, provider);
    let given = assigned(columns);
    lemma_condition_values(columns, row, provider);
    lemma_visibility_value(columns, row, parameter);
    if is_looked_at(name) {
        repair_keeps_other_columns(columns, row, provider, name);
    }
    let second: int = if columns.model_provider {
        1
    } else {
        0
    };
    let third: int = if columns.has_user_event {
        second + 1
    } else {
        second
    };
    let shown = SqlExpr::Group(Box::new(visibility(columns)));
    assert(sql_value(shown, row, parameter) == truth(shows_something(columns, row)));
    if columns.model_provider {
        lemma_repaired_value(columns, row, provider, 0);
        assert(given[0].column == "model_provider"@ && given[0].value == SqlExpr::Parameter);
        assert(sql_value(SqlExpr::Parameter, row, parameter) == parameter);
    }
    if columns.has_user_event {
        lemma_repaired_value(columns, row, provider, second);
        assert(given[second].column == "has_user_event"@);
        assert(given[second].value == noted_event(columns));
        assert(sql_value(*column("has_user_event"@), row, parameter) == row("has_user_event"@));
        assert(sql_value(SqlExpr::Literal("1"@, SqlTerm::Integer(1)), row, parameter)
            == SqlTerm::Integer(1));
    }
    if columns.thread_source {
        lemma_repaired_value(columns, row, provider, third);
        assert(given[third].column == "thread_source"@);
        assert(given[third].value == noted_source(columns));
        let when = SqlExpr::Both(Box::new(source_is_empty()), Box::new(shown));
        assert(is_true(sql_value(when, row, parameter)) <==> is_true(
            sql_value(source_is_empty(), row, parameter),
        ) && is_true(sql_value(shown, row, parameter)));
        assert(sql_value(*column("thread_source"@), row, parameter) == row("thread_source"@));
        assert(sql_value(SqlExpr::Literal("'user'"@, SqlTerm::Text("user"@)), row, parameter)
            == SqlTerm::Text("user"@));
    }
}

/// The literals in the clauses of a repair are written as SQL writes their values.
pub proof fn repair_is_written_with_true_literals(columns: ThreadsTableColumns)
    ensures
        forall|i: int|
            0 <= i < repair_conditions(columns).len() ==> literals_are_true(
                #[trigger] repair_conditions(columns)[i],
            ),
        forall|i: int|
            0 <= i < assigned(columns).len() ==> literals_are_true(
                (#[trigger] assigned(columns)[i]).value,
            ),
{
    lemma_literals();
    let shown = shown_columns(columns);
    assert(literals_are_true(*column("first_user_message"@)));
    assert(literals_are_true(*column("preview"@)));
    assert(literals_are_true(*column("title"@)));
    assert(literals_are_true(*empty_text()));
    if shown.len() > 0 {
        let all = shown.push(*empty_text());
        assert forall|i: int| 0 <= i < all.len() implies literals_are_true(#[trigger] all[i]) by {}
        lemma_arguments_literals(all);
    }
    reveal_with_fuel(literals_are_true, 4);
    assert(literals_are_true(visibility(columns)));
    assert(literals_are_true(provider_differs()));
    assert(literals_are_true(source_is_empty()));
    assert(literals_are_true(*column_or(
        "has_user_event"@,
        Box::new(SqlExpr::Literal("0"@, SqlTerm::Integer(0))),
    )));
    assert(literals_are_true(event_is_missing(columns)));
    assert(literals_are_true(source_is_missing(columns)));
    assert(literals_are_true(noted_event(columns)));
    assert(literals_are_true(noted_source(columns)));
}

/// A table has each of the columns that it has a name for, and no other; one without columns is not
/// there.
pub proof fn columns_are_those_with_a_name(names: Seq<Seq<char>>)
    ensures
        columns_of(names) is None <==> names.len() == 0,
        columns_of(names) matches Some(columns) ==> {
            &&& columns.id <==> names.contains("id"@)
            &&& columns.model_provider <==> names.contains("model_provider"@)
            &&& columns.has_user_event <==> names.contains("has_user_event"@)
            &&& columns.first_user_message <==> names.contains("first_user_message"@)
            &&& columns.thread_source <==> names.contains("thread_source"@)
            &&& columns.rollout_path <==> names.contains("rollout_path"@)
            &&& columns.created_at <==> names.contains("created_at"@)
            &&& columns.updated_at <==> names.contains("updated_at"@)
            &&& columns.created_at_ms <==> names.contains("created_at_ms"@)
            &&& columns.updated_at_ms <==> names.contains("updated_at_ms"@)
            &&& columns.source <==> names.contains("source"@)
            &&& columns.cwd <==> names.contains("cwd"@)
            &&& columns.title <==> names.contains("title"@)
            &&& columns.archived <==> names.contains("archived"@)
            &&& columns.git_branch <==> names.contains("git_branch"@)
            &&& columns.preview <==> names.contains("preview"@)
        },
{
}

/// A look at the database is no error where there is none, where it is unusable before its table is
/// known, or where its columns are known; it passes over the database exactly where that is
/// unusable. Every error ends with the path and the reason.
pub proof fn unusable_databases_are_passed_over(path: Seq<char>, database: StateDatabase)
    ensures
        ({
            let failure = match database {
                StateDatabase::Absent => None,
                StateDatabase::Unopened(failure) => Some(failure),
                StateDatabase::Unset(failure) => Some(failure),
                StateDatabase::Unprepared(failure) => Some(failure),
                StateDatabase::Unread(failure) => Some(failure),
                StateDatabase::Columns(_) => None,
            };
            match threads_scan(path, database) {
                Ok(scan) => {
                    &&& scan.skipped <==> failure is Some
                    &&& failure matches Some(failure) ==> failure.unusable && !(database is Unset)
                        && scan.columns is None
                    &&& database is Absent ==> scan.columns is None
                    &&& database matches StateDatabase::Columns(names) ==> (scan.columns is Some
                        <==> names@.len() > 0)
                },
                Err(text) => failure matches Some(failure) && (database is Unset
                    || !failure.unusable) && finishes_with(
                    text,
                    " ("@ + path + "): "@ + failure.message@,
                ),
            }
        }),
{
    if let Err(text) = threads_scan(path, database) {
        lemma_located(path);
    }
}

/// What is said of a failure ends with the path and the message.
pub proof fn lemma_located(path: Seq<char>)
    ensures
        forall|action: Seq<char>, message: Seq<char>|
            finishes_with(
                #[trigger] located(action, path, message),
                " ("@ + path + "): "@ + message,
            ),
{
    assert forall|action: Seq<char>, message: Seq<char>| finishes_with(
        #[trigger] located(action, path, message),
        " ("@ + path + "): "@ + message,
    ) by {
        let end = " ("@ + path + "): "@ + message;
        let text = located(action, path, message);
        assert(text =~= action + end);
        assert(text.subrange(text.len() - end.len(), text.len() as int) =~= end);
    }
}

/// The error of a write says what was done, the path and the reason; a database that is in use is
/// told by the reason, whatever the case of its letters.
pub proof fn write_error_says_where_and_why(path: Seq<char>, message: Seq<char>)
    ensures
        finishes_with(write_error(path, message), " ("@ + path + "): "@ + message),
        begins_with(
            write_error(path, message),
            if holds_part(lowered(message), "database is locked"@) || holds_part(
                lowered(message),
                "database busy"@,
            ) {
                "state_5.sqlite 当前被占用，请关闭 Codex / Codex App 后重试"@
            } else {
                "更新 SQLite 会话可见性失败"@
            },
        ),
{
    lemma_located(path);
    let action = if holds_part(lowered(message), "database is locked"@) || holds_part(
        lowered(message),
        "database busy"@,
    ) {
        "state_5.sqlite 当前被占用，请关闭 Codex / Codex App 后重试"@
    } else {
        "更新 SQLite 会话可见性失败"@
    };
    let text = write_error(path, message);
    assert(text == located(action, path, message));
    assert(text.subrange(0, action.len() as int) =~= action);
}

/// Rows are had exactly where the query was prepared and made and every row was read; else the
/// error begins with what failed, and ends with the path and the reason.
pub proof fn rows_are_all_or_none<T>(
    path: Seq<char>,
    outcome: RowsOutcome<T>,
    preparing: Seq<char>,
    querying: Seq<char>,
    reading: Seq<char>,
)
    ensures
        match rows_result(path, outcome, preparing, querying, reading) {
            Ok(found) => outcome matches RowsOutcome::Rows(rows) && rows@ == found,
            Err(text) => match outcome {
                RowsOutcome::Unprepared(failure) => begins_with(text, preparing) && finishes_with(
                    text,
                    " ("@ + path + "): "@ + failure.message@,
                ),
                RowsOutcome::Unqueried(failure) => begins_with(text, querying) && finishes_with(
                    text,
                    " ("@ + path + "): "@ + failure.message@,
                ),
                RowsOutcome::Unread(failure) => begins_with(text, reading) && finishes_with(
                    text,
                    " ("@ + path + "): "@ + failure.message@,
                ),
                RowsOutcome::Rows(_) => false,
            },
        },
{
    lemma_located(path);
    if let Err(text) = rows_result(path, outcome, preparing, querying, reading) {
        assert(outcome is Unprepared ==> text.subrange(0, preparing.len() as int) =~= preparing);
        assert(outcome is Unqueried ==> text.subrange(0, querying.len() as int) =~= querying);
        assert(outcome is Unread ==> text.subrange(0, reading.len() as int) =~= reading);
    }
}

/// A transaction in which every failure counts succeeds exactly where it was committed, with the
/// rows that it changed.
pub proof fn transaction_succeeds_once_committed(
    path: Seq<char>,
    outcome: TransactionOutcome,
    rows: usize,
)
    ensures
        transaction_result(path, outcome) == Ok::<usize, Seq<char>>(rows) <==> outcome
            == TransactionOutcome::Committed(rows),
{
}

} // verus!
