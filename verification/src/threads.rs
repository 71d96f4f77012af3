//! Repairs in the `threads` table: providers, paths and times, and the rows that other parts read
//! from it.

use vstd::hash_set::StringHashSet;
use vstd::prelude::*;

use crate::paths::{
    is_settled, normalize_optional_path_text, normalize_sqlite_path_text, plain_path,
    plain_path_is_stable, stored_path, stored_path_is_stable,
};
use crate::sql_expr::{
    column, empty_text, is_true, lemma_literals, lemma_select_one, lemma_select_one_more,
    literals_are_true, select_text, sql_text, sql_value, SqlExpr,
};
use crate::sqlite::{
    build_threads_repair_set_clause, build_threads_repair_where_clause, format_sqlite_read_error,
    format_sqlite_write_error, is_missing_threads_table_error, located, plain_query, query,
    repair_set_clause, repair_where_clause, result_view, rows_of, rows_result, rows_view,
    says_no_threads_table, scan_threads_table, stage_view, statement_texts, text_term, threads_scan,
    write_error, RowsOutcome, SqlTerm, SqlValue, SqliteFailure, Stage, StageText, StateDatabase,
    Statement, StatementText, ThreadsTableColumns, TransactionOutcome,
};
use crate::text::{holds_part, lowered, opt_view, same_opt, views};
use crate::timestamps::{activity_seconds, distance, is_apart, is_readable_time, whole_seconds};

verus! {

/// How many threads need a repair, and whether the database was passed over as unusable.
#[derive(Debug, Clone, Copy, PartialEq, Eq, Structural)]
pub struct SqliteProviderScan {
    pub rows_to_update: usize,
    pub skipped_unusable_database: bool,
}

/// The values for a statement that compares or sets the provider: the provider, where the table
/// has a column for it.
pub open spec fn provider_terms(columns: ThreadsTableColumns, provider: Seq<char>) -> Seq<SqlTerm> {
    if columns.model_provider {
        seq![SqlTerm::Text(provider)]
    } else {
        seq![]
    }
}

fn provider_statement(
    columns: ThreadsTableColumns,
    provider: &str,
    sql: String,
) -> (statement: Statement)
    ensures
        statement@ == (StatementText {
            sql: sql@,
            parameters: provider_terms(columns, provider@),
        }),
{
    let mut parameters: Vec<SqlValue> = Vec::new();
    if columns.model_provider {
        parameters.push(SqlValue::Text(provider.to_owned()));
    }
    let statement = Statement { sql, parameters };
    assert(statement@.parameters =~= provider_terms(columns, provider@));
    statement
}

/// What counting the threads that need a repair takes.
pub open spec fn count_stage(path: Seq<char>, database: StateDatabase, provider: Seq<char>) -> Result<
    StageText<SqliteProviderScan>,
    Seq<char>,
> {
    match threads_scan(path, database) {
        Err(text) => Err(text),
        Ok(scan) => Ok(
            match scan.columns {
                Some(columns) => match repair_where_clause(columns) {
                    Some(clause) => StageText::Run(
                        StatementText {
                            sql: "SELECT COUNT(*) FROM threads WHERE "@ + clause,
                            parameters: provider_terms(columns, provider),
                        },
                    ),
                    None => StageText::Done(
                        SqliteProviderScan {
                            rows_to_update: 0,
                            skipped_unusable_database: scan.skipped,
                        },
                    ),
                },
                None => StageText::Done(
                    SqliteProviderScan {
                        rows_to_update: 0,
                        skipped_unusable_database: scan.skipped,
                    },
                ),
            },
        ),
    }
}

/// Begins to count the threads that need a repair so that they show under `target_provider`.
pub fn count_sqlite_rows_to_update(
    path: &str,
    database: &StateDatabase,
    target_provider: &str,
) -> (stage: Result<Stage<SqliteProviderScan>, String>)
    ensures
        stage_view(stage) == count_stage(path@, *database, target_provider@),
{
    let scan = match scan_threads_table(path, database) {
        Ok(scan) => scan,
        Err(text) => return Err(text),
    };
    let none = SqliteProviderScan {
        rows_to_update: 0,
        skipped_unusable_database: scan.skipped,
    };
    let columns = match scan.columns {
        Some(columns) => columns,
        None => return Ok(Stage::Done(none)),
    };
    match build_threads_repair_where_clause(columns) {
        Some(clause) => {
            let sql = "SELECT COUNT(*) FROM threads WHERE ".to_owned().concat(clause.as_str());
            Ok(Stage::Run(provider_statement(columns, target_provider, sql)))
        },
        None => Ok(Stage::Done(none)),
    }
}

/// What a count of the threads that need a repair comes to.
pub open spec fn count_result(path: Seq<char>, outcome: Result<i64, SqliteFailure>) -> Result<
    SqliteProviderScan,
    Seq<char>,
> {
    match outcome {
        Ok(count) => Ok(
            SqliteProviderScan {
                rows_to_update: if count > 0 {
                    count as usize
                } else {
                    0
                },
                skipped_unusable_database: false,
            },
        ),
        Err(failure) => if failure.unusable {
            Ok(SqliteProviderScan { rows_to_update: 0, skipped_unusable_database: true })
        } else if says_no_threads_table(failure.message@) {
            Ok(SqliteProviderScan { rows_to_update: 0, skipped_unusable_database: false })
        } else {
            Err(located("统计 SQLite 会话可见性差异失败"@, path, failure.message@))
        },
    }
}

/// Ends a count of the threads that need a repair.
pub fn finish_sqlite_row_count(path: &str, outcome: Result<i64, SqliteFailure>) -> (scan: Result<
    SqliteProviderScan,
    String,
>)
    ensures
        result_view(scan) == count_result(path@, outcome),
{
    match outcome {
        Ok(count) => Ok(
            SqliteProviderScan {
                rows_to_update: if count > 0 {
                    count as usize
                } else {
                    0
                },
                skipped_unusable_database: false,
            },
        ),
        Err(failure) => if failure.unusable {
            Ok(SqliteProviderScan { rows_to_update: 0, skipped_unusable_database: true })
        } else if is_missing_threads_table_error(failure.message.as_str()) {
            Ok(SqliteProviderScan { rows_to_update: 0, skipped_unusable_database: false })
        } else {
            Err(
                format_sqlite_read_error(
                    path,
                    "统计 SQLite 会话可见性差异失败",
                    failure.message.as_str(),
                ),
            )
        },
    }
}

/// What repairing the threads takes.
pub open spec fn update_stage(path: Seq<char>, database: StateDatabase, provider: Seq<char>) -> Result<
    StageText<usize>,
    Seq<char>,
> {
    match threads_scan(path, database) {
        Err(text) => Err(text),
        Ok(scan) => Ok(
            match scan.columns {
                Some(columns) => match repair_where_clause(columns) {
                    Some(clause) => StageText::Run(
                        StatementText {
                            sql: "UPDATE threads SET "@ + repair_set_clause(columns) + " WHERE "@
                                + clause,
                            parameters: provider_terms(columns, provider),
                        },
                    ),
                    None => StageText::Done(0),
                },
                None => StageText::Done(0),
            },
        ),
    }
}

/// Begins to repair the threads so that they show under `target_provider`.
pub fn update_sqlite_provider(
    path: &str,
    database: &StateDatabase,
    target_provider: &str,
) -> (stage: Result<Stage<usize>, String>)
    ensures
        stage_view(stage) == update_stage(path@, *database, target_provider@),
{
    let scan = match scan_threads_table(path, database) {
        Ok(scan) => scan,
        Err(text) => return Err(text),
    };
    let columns = match scan.columns {
        Some(columns) => columns,
        None => return Ok(Stage::Done(0)),
    };
    match build_threads_repair_where_clause(columns) {
        Some(clause) => {
            let set_clause = build_threads_repair_set_clause(columns);
            let sql = "UPDATE threads SET ".to_owned().concat(set_clause.as_str()).concat(
                " WHERE ",
            ).concat(clause.as_str());
            Ok(Stage::Run(provider_statement(columns, target_provider, sql)))
        },
        None => Ok(Stage::Done(0)),
    }
}

/// What a repair of the threads comes to: an unusable database and a missing table count as
/// nothing to repair.
pub open spec fn update_result(path: Seq<char>, outcome: TransactionOutcome) -> Result<
    usize,
    Seq<char>,
> {
    match outcome {
        TransactionOutcome::Unbegun(failure) => Err(write_error(path, failure.message@)),
        TransactionOutcome::Unexecuted(failure) => if failure.unusable || says_no_threads_table(
            failure.message@,
        ) {
            Ok(0)
        } else {
            Err(write_error(path, failure.message@))
        },
        TransactionOutcome::Uncommitted(failure) => if failure.unusable {
            Ok(0)
        } else {
            Err(write_error(path, failure.message@))
        },
        TransactionOutcome::Committed(rows) => Ok(rows),
    }
}

/// Ends a repair of the threads.
pub fn finish_sqlite_provider_update(path: &str, outcome: TransactionOutcome) -> (rows: Result<
    usize,
    String,
>)
    ensures
        result_view(rows) == update_result(path@, outcome),
{
    match outcome {
        TransactionOutcome::Unbegun(failure) => Err(
            format_sqlite_write_error(path, failure.message.as_str()),
        ),
        TransactionOutcome::Unexecuted(failure) => if failure.unusable
            || is_missing_threads_table_error(failure.message.as_str()) {
            Ok(0)
        } else {
            Err(format_sqlite_write_error(path, failure.message.as_str()))
        },
        TransactionOutcome::Uncommitted(failure) => if failure.unusable {
            Ok(0)
        } else {
            Err(format_sqlite_write_error(path, failure.message.as_str()))
        },
        TransactionOutcome::Committed(rows) => Ok(rows),
    }
}

/// Counting and repairing look at the same threads: they fail alike, they have nothing to do
/// alike, and else their statements share the condition and its values.
pub proof fn count_and_update_agree(path: Seq<char>, database: StateDatabase, provider: Seq<char>)
    ensures
        match (count_stage(path, database, provider), update_stage(path, database, provider)) {
            (Err(a), Err(b)) => a == b,
            (Ok(StageText::Done(scan)), Ok(StageText::Done(rows))) => scan.rows_to_update == 0
                && rows == 0,
            (Ok(StageText::Run(count)), Ok(StageText::Run(update))) => {
                &&& count.parameters == update.parameters
                &&& exists|clause: Seq<char>, set: Seq<char>|
                    count.sql == "SELECT COUNT(*) FROM threads WHERE "@ + clause && update.sql
                        == #[trigger] ("UPDATE threads SET "@ + set + " WHERE "@ + clause)
            },
            _ => false,
        },
{
    if let Ok(scan) = threads_scan(path, database) {
        if let Some(columns) = scan.columns {
            if let Some(clause) = repair_where_clause(columns) {
                let set = repair_set_clause(columns);
                let update = update_stage(path, database, provider)->Ok_0->Run_0;
                assert(update.sql == "UPDATE threads SET "@ + set + " WHERE "@ + clause);
            }
        }
    }
}

/// The paths of a thread.
#[derive(Debug)]
pub struct ThreadPathRow {
    pub id: String,
    pub cwd: Option<String>,
    pub rollout_path: Option<String>,
}

/// What looking at the paths of the threads takes.
pub open spec fn path_stage(path: Seq<char>, database: StateDatabase) -> Result<
    StageText<usize>,
    Seq<char>,
> {
    match threads_scan(path, database) {
        Err(text) => Err(text),
        Ok(scan) => Ok(
            match scan.columns {
                Some(columns) => if columns.id && (columns.cwd || columns.rollout_path) {
                    StageText::Run(plain_query(path_query(columns)))
                } else {
                    StageText::Done(0)
                },
                None => StageText::Done(0),
            },
        ),
    }
}

/// The query for the paths of the threads.
pub open spec fn path_query(columns: ThreadsTableColumns) -> Seq<char> {
    "SELECT id, "@ + (if columns.cwd {
        "cwd"@
    } else {
        "NULL"@
    }) + ", "@ + (if columns.rollout_path {
        "rollout_path"@
    } else {
        "NULL"@
    }) + " FROM threads"@
}

/// Begins to look at the paths of the threads, to count those that need another form.
pub fn count_sqlite_thread_paths_to_update(path: &str, database: &StateDatabase) -> (stage: Result<
    Stage<usize>,
    String,
>)
    ensures
        stage_view(stage) == path_stage(path@, *database),
{
    let scan = match scan_threads_table(path, database) {
        Ok(scan) => scan,
        Err(text) => return Err(text),
    };
    let columns = match scan.columns {
        Some(columns) => columns,
        None => return Ok(Stage::Done(0)),
    };
    if !columns.id || (!columns.cwd && !columns.rollout_path) {
        return Ok(Stage::Done(0));
    }
    let cwd_expr = if columns.cwd {
        "cwd"
    } else {
        "NULL"
    };
    let rollout_expr = if columns.rollout_path {
        "rollout_path"
    } else {
        "NULL"
    };
    let sql = "SELECT id, ".to_owned().concat(cwd_expr).concat(", ").concat(rollout_expr).concat(
        " FROM threads",
    );
    Ok(Stage::Run(query(sql)))
}

/// The form in which a thread's working directory should be stored.
pub open spec fn next_cwd(row: ThreadPathRow) -> Option<Seq<char>> {
    match row.cwd {
        Some(cwd) => Some(stored_path(cwd@)),
        None => None,
    }
}

/// The form in which the path of a thread's rollout file should be stored.
pub open spec fn next_rollout_path(row: ThreadPathRow) -> Option<Seq<char>> {
    match row.rollout_path {
        Some(path) => Some(plain_path(path@)),
        None => None,
    }
}

/// Whether a path of the thread is to be stored in another form.
pub open spec fn paths_change(row: ThreadPathRow) -> bool {
    next_cwd(row) != opt_view(row.cwd) || next_rollout_path(row) != opt_view(row.rollout_path)
}

/// How many of the threads have a path that is to be stored in another form.
pub open spec fn path_change_count(rows: Seq<ThreadPathRow>) -> nat
    decreases rows.len(),
{
    if rows.len() == 0 {
        0
    } else {
        path_change_count(rows.drop_last()) + if paths_change(rows.last()) {
            1nat
        } else {
            0nat
        }
    }
}

/// The statement that stores the paths of a thread in their form.
pub open spec fn path_update(columns: ThreadsTableColumns, row: ThreadPathRow) -> StatementText {
    let cwd = text_term(next_cwd(row));
    let rollout_path = text_term(next_rollout_path(row));
    let id = SqlTerm::Text(row.id@);
    if columns.cwd && columns.rollout_path {
        StatementText {
            sql: "UPDATE threads SET cwd = ?1, rollout_path = ?2 WHERE id = ?3"@,
            parameters: seq![cwd, rollout_path, id],
        }
    } else if columns.cwd {
        StatementText {
            sql: "UPDATE threads SET cwd = ?1 WHERE id = ?2"@,
            parameters: seq![cwd, id],
        }
    } else {
        StatementText {
            sql: "UPDATE threads SET rollout_path = ?1 WHERE id = ?2"@,
            parameters: seq![rollout_path, id],
        }
    }
}

/// The statements that store all paths in their form, one for each thread with a path in another.
pub open spec fn path_updates(columns: ThreadsTableColumns, rows: Seq<ThreadPathRow>) -> Seq<
    StatementText,
>
    decreases rows.len(),
{
    if rows.len() == 0 {
        seq![]
    } else if paths_change(rows.last()) {
        path_updates(columns, rows.drop_last()).push(path_update(columns, rows.last()))
    } else {
        path_updates(columns, rows.drop_last())
    }
}

/// The rows with the paths of the threads, or the error of their query.
pub open spec fn path_rows(path: Seq<char>, outcome: RowsOutcome<ThreadPathRow>) -> Result<
    Seq<ThreadPathRow>,
    Seq<char>,
> {
    rows_result(
        path,
        outcome,
        "prepare SQLite path query"@,
        "query SQLite paths"@,
        "read SQLite path row"@,
    )
}

fn take_path_rows(path: &str, outcome: RowsOutcome<ThreadPathRow>) -> (rows: Result<
    Vec<ThreadPathRow>,
    String,
>)
    ensures
        rows_view(rows) == path_rows(path@, outcome),
{
    rows_of(
        path,
        outcome,
        "prepare SQLite path query",
        "query SQLite paths",
        "read SQLite path row",
    )
}

fn next_paths(row: &ThreadPathRow) -> (paths: (Option<String>, Option<String>))
    ensures
        opt_view(paths.0) == next_cwd(*row),
        opt_view(paths.1) == next_rollout_path(*row),
{
    let cwd = match &row.cwd {
        Some(cwd) => Some(normalize_sqlite_path_text(cwd.as_str())),
        None => None,
    };
    let rollout_path = match &row.rollout_path {
        Some(path) => Some(normalize_optional_path_text(path.as_str())),
        None => None,
    };
    (cwd, rollout_path)
}

/// Ends the count of the threads with a path that is to be stored in another form.
pub fn finish_thread_path_count(path: &str, outcome: RowsOutcome<ThreadPathRow>) -> (count: Result<
    usize,
    String,
>)
    ensures
        match path_rows(path@, outcome) {
            Ok(rows) => count matches Ok(count) && count == path_change_count(rows),
            Err(text) => count matches Err(error) && error@ == text,
        },
{
    let rows = match take_path_rows(path, outcome) {
        Ok(rows) => rows,
        Err(text) => return Err(text),
    };
    let mut count: usize = 0;
    let mut i: usize = 0;
    while i < rows.len()
        invariant
            i <= rows@.len(),
            count <= i,
            count == path_change_count(rows@.take(i as int)),
        decreases rows@.len() - i,
    {
        assert(rows@.take(i + 1).drop_last() =~= rows@.take(i as int));
        let (cwd, rollout_path) = next_paths(&rows[i]);
        if !same_opt(&cwd, &rows[i].cwd) || !same_opt(&rollout_path, &rows[i].rollout_path) {
            count += 1;
        }
        i += 1;
    }
    assert(rows@.take(i as int) =~= rows@);
    Ok(count)
}

/// An optional text as a value of a statement.
pub fn text_value(text: Option<String>) -> (value: SqlValue)
    ensures
        value@ == text_term(opt_view(text)),
{
    match text {
        Some(text) => SqlValue::Text(text),
        None => SqlValue::Null,
    }
}

fn path_update_statement(
    columns: ThreadsTableColumns,
    row: &ThreadPathRow,
    cwd: Option<String>,
    rollout_path: Option<String>,
) -> (statement: Statement)
    requires
        opt_view(cwd) == next_cwd(*row),
        opt_view(rollout_path) == next_rollout_path(*row),
    ensures
        statement@ == path_update(columns, *row),
{
    let mut parameters: Vec<SqlValue> = Vec::new();
    let sql = if columns.cwd && columns.rollout_path {
        parameters.push(text_value(cwd));
        parameters.push(text_value(rollout_path));
        "UPDATE threads SET cwd = ?1, rollout_path = ?2 WHERE id = ?3"
    } else if columns.cwd {
        parameters.push(text_value(cwd));
        "UPDATE threads SET cwd = ?1 WHERE id = ?2"
    } else {
        parameters.push(text_value(rollout_path));
        "UPDATE threads SET rollout_path = ?1 WHERE id = ?2"
    };
    parameters.push(SqlValue::Text(row.id.clone()));
    let statement = Statement { sql: sql.to_owned(), parameters };
    assert(statement@.parameters =~= path_update(columns, *row).parameters);
    statement
}

/// The statements that store the paths of the threads in their form. Where there are any, they are
/// run in one transaction, and their number is the result.
pub fn normalize_sqlite_thread_paths(
    path: &str,
    columns: ThreadsTableColumns,
    outcome: RowsOutcome<ThreadPathRow>,
) -> (statements: Result<Vec<Statement>, String>)
    requires
        columns.cwd || columns.rollout_path,
    ensures
        match path_rows(path@, outcome) {
            Ok(rows) => statements matches Ok(statements) && statement_texts(statements@)
                == path_updates(columns, rows),
            Err(text) => statements matches Err(error) && error@ == text,
        },
{
    let rows = match take_path_rows(path, outcome) {
        Ok(rows) => rows,
        Err(text) => return Err(text),
    };
    let mut statements: Vec<Statement> = Vec::new();
    let mut i: usize = 0;
    assert(statement_texts(statements@) =~= path_updates(columns, rows@.take(0)));
    while i < rows.len()
        invariant
            i <= rows@.len(),
            statement_texts(statements@) == path_updates(columns, rows@.take(i as int)),
        decreases rows@.len() - i,
    {
        assert(rows@.take(i + 1).drop_last() =~= rows@.take(i as int));
        let (cwd, rollout_path) = next_paths(&rows[i]);
        if !same_opt(&cwd, &rows[i].cwd) || !same_opt(&rollout_path, &rows[i].rollout_path) {
            let ghost before = statements@;
            let statement = path_update_statement(columns, &rows[i], cwd, rollout_path);
            statements.push(statement);
            assert(statement_texts(statements@) =~= statement_texts(before).push(statement@));
        }
        i += 1;
    }
    assert(rows@.take(i as int) =~= rows@);
    Ok(statements)
}

/// The count of the threads with a path to store in another form is the number of statements that
/// store them.
pub proof fn path_count_is_number_of_updates(
    columns: ThreadsTableColumns,
    rows: Seq<ThreadPathRow>,
)
    ensures
        path_updates(columns, rows).len() == path_change_count(rows),
    decreases rows.len(),
{
    if rows.len() > 0 {
        path_count_is_number_of_updates(columns, rows.drop_last());
    }
}

/// A thread whose stored paths are those that a repair gave it needs no further repair, unless one
/// of them has surrounding white space or an extended-length prefix.
pub proof fn repaired_paths_need_no_repair(row: ThreadPathRow, repaired: ThreadPathRow)
    requires
        opt_view(repaired.cwd) == next_cwd(row),
        opt_view(repaired.rollout_path) == next_rollout_path(row),
        next_cwd(row) matches Some(cwd) ==> is_settled(cwd),
        next_rollout_path(row) matches Some(path) ==> is_settled(path),
    ensures
        !paths_change(repaired),
{
    if let Some(cwd) = row.cwd {
        stored_path_is_stable(cwd@);
    }
    if let Some(path) = row.rollout_path {
        plain_path_is_stable(path@);
    }
}

/// The rollout file of a thread and when the database says it was last updated, in seconds.
#[derive(Debug)]
pub struct ThreadTimeRow {
    pub id: String,
    pub rollout_path: String,
    pub updated_at: Option<i64>,
}

/// The condition that a thread has a rollout file.
pub open spec fn has_rollout_path() -> SqlExpr {
    SqlExpr::Both(
        Box::new(SqlExpr::IsThere(column("rollout_path"@))),
        Box::new(SqlExpr::Differs(column("rollout_path"@), empty_text())),
    )
}

proof fn lemma_rollout_path_text()
    ensures
        "SELECT id, rollout_path, updated_at FROM threads WHERE rollout_path IS NOT NULL AND rollout_path <> ''"@
            == "SELECT id, rollout_path, updated_at FROM threads WHERE "@ + sql_text(
            has_rollout_path(),
        ),
{
    let name = column("rollout_path"@);
    assert(sql_text(*name) == "rollout_path"@);
    assert(sql_text(*empty_text()) == "''"@);
    let there = SqlExpr::IsThere(name);
    let differs = SqlExpr::Differs(name, empty_text());
    assert(sql_text(there) == "rollout_path"@ + " IS NOT NULL"@);
    assert(sql_text(differs) == "rollout_path"@ + " <> "@ + "''"@);
    assert(sql_text(has_rollout_path()) == sql_text(there) + " AND "@ + sql_text(differs));
    reveal_strlit(
        "SELECT id, rollout_path, updated_at FROM threads WHERE rollout_path IS NOT NULL AND rollout_path <> ''",
    );
    reveal_strlit("SELECT id, rollout_path, updated_at FROM threads WHERE ");
    reveal_strlit("rollout_path");
    reveal_strlit(" IS NOT NULL");
    reveal_strlit(" AND ");
    reveal_strlit(" <> ");
    reveal_strlit("''");
    assert("SELECT id, rollout_path, updated_at FROM threads WHERE rollout_path IS NOT NULL AND rollout_path <> ''"@
        =~= "SELECT id, rollout_path, updated_at FROM threads WHERE "@ + sql_text(
        has_rollout_path(),
    ));
}

/// What looking at the times of the threads takes.
pub open spec fn time_stage(path: Seq<char>, database: StateDatabase) -> Result<
    StageText<usize>,
    Seq<char>,
> {
    match threads_scan(path, database) {
        Err(text) => Err(text),
        Ok(scan) => Ok(
            match scan.columns {
                Some(columns) => if columns.id && columns.rollout_path && columns.updated_at {
                    StageText::Run(
                        plain_query(
                            "SELECT id, rollout_path, updated_at FROM threads WHERE "@ + sql_text(
                                has_rollout_path(),
                            ),
                        ),
                    )
                } else {
                    StageText::Done(0)
                },
                None => StageText::Done(0),
            },
        ),
    }
}

/// Begins to bring the times of the threads in line with the activity in their rollout files.
pub fn repair_sqlite_thread_timestamps(path: &str, database: &StateDatabase) -> (stage: Result<
    Stage<usize>,
    String,
>)
    ensures
        stage_view(stage) == time_stage(path@, *database),
{
    let scan = match scan_threads_table(path, database) {
        Ok(scan) => scan,
        Err(text) => return Err(text),
    };
    let columns = match scan.columns {
        Some(columns) => columns,
        None => return Ok(Stage::Done(0)),
    };
    if !columns.id || !columns.rollout_path || !columns.updated_at {
        return Ok(Stage::Done(0));
    }
    proof {
        lemma_rollout_path_text();
    }
    Ok(
        Stage::Run(
            query(
                "SELECT id, rollout_path, updated_at FROM threads WHERE rollout_path IS NOT NULL AND rollout_path <> ''".to_owned(),
            ),
        ),
    )
}

/// The rows with the times of the threads, or the error of their query. A missing table has none.
pub open spec fn time_rows(path: Seq<char>, outcome: RowsOutcome<ThreadTimeRow>) -> Result<
    Seq<ThreadTimeRow>,
    Seq<char>,
> {
    if outcome matches RowsOutcome::Unprepared(failure) && says_no_threads_table(failure.message@) {
        Ok(seq![])
    } else {
        rows_result(
            path,
            outcome,
            "准备 SQLite 会话时间修复查询失败"@,
            "查询 SQLite 会话时间失败"@,
            "读取 SQLite 会话时间失败"@,
        )
    }
}

/// The rows with the times of the threads.
pub fn thread_time_rows(path: &str, outcome: RowsOutcome<ThreadTimeRow>) -> (rows: Result<
    Vec<ThreadTimeRow>,
    String,
>)
    ensures
        rows_view(rows) == time_rows(path@, outcome),
{
    if let RowsOutcome::Unprepared(failure) = &outcome {
        if is_missing_threads_table_error(failure.message.as_str()) {
            return Ok(Vec::new());
        }
    }
    rows_of(
        path,
        outcome,
        "准备 SQLite 会话时间修复查询失败",
        "查询 SQLite 会话时间失败",
        "读取 SQLite 会话时间失败",
    )
}

/// Whether a thread's time is more than a second from the activity in its rollout file.
pub open spec fn time_changes(updated_at: Option<i64>, activity_ms: Option<i128>) -> bool {
    match activity_ms {
        Some(activity_ms) => distance(
            match updated_at {
                Some(seconds) => seconds as int,
                None => 0,
            },
            whole_seconds(activity_ms as int),
        ) > 1,
        None => false,
    }
}

/// The statement that gives a thread the time of its rollout file's activity.
pub open spec fn time_update(
    columns: ThreadsTableColumns,
    id: Seq<char>,
    activity_ms: i128,
) -> StatementText {
    let seconds = whole_seconds(activity_ms as int);
    if columns.updated_at_ms {
        StatementText {
            sql: "UPDATE threads SET updated_at = ?1, updated_at_ms = ?2 WHERE id = ?3"@,
            parameters: seq![
                SqlTerm::Integer(seconds as i64),
                SqlTerm::Integer((seconds * 1_000) as i64),
                SqlTerm::Text(id),
            ],
        }
    } else {
        StatementText {
            sql: "UPDATE threads SET updated_at = ?1 WHERE id = ?2"@,
            parameters: seq![SqlTerm::Integer(seconds as i64), SqlTerm::Text(id)],
        }
    }
}

/// The statements that give the threads the times of their rollout files' activity, one for each
/// thread whose time is off.
pub open spec fn time_updates(
    columns: ThreadsTableColumns,
    rows: Seq<ThreadTimeRow>,
    activities: Seq<Option<i128>>,
) -> Seq<StatementText>
    decreases rows.len(),
{
    if rows.len() == 0 {
        seq![]
    } else {
        let rest = time_updates(columns, rows.drop_last(), activities.drop_last());
        if time_changes(rows.last().updated_at, activities.last()) {
            rest.push(time_update(columns, rows.last().id@, activities.last()->0))
        } else {
            rest
        }
    }
}

/// Whether the times that a repair would write can be held by 64-bit signed integers.
pub open spec fn time_fits(
    columns: ThreadsTableColumns,
    updated_at: Option<i64>,
    activity_ms: Option<i128>,
) -> bool {
    activity_ms matches Some(time) ==> {
        &&& is_readable_time(time as int)
        &&& columns.updated_at_ms && time_changes(updated_at, activity_ms) ==> i64::MIN
            <= whole_seconds(time as int) * 1_000
    }
}

fn time_update_statement(columns: ThreadsTableColumns, id: &str, activity_ms: i128) -> (statement:
    Statement)
    requires
        is_readable_time(activity_ms as int),
        columns.updated_at_ms ==> i64::MIN <= whole_seconds(activity_ms as int) * 1_000,
    ensures
        statement@ == time_update(columns, id@, activity_ms),
{
    let seconds: i64 = activity_seconds(activity_ms);
    let mut parameters: Vec<SqlValue> = Vec::new();
    parameters.push(SqlValue::Integer(seconds));
    let sql = if columns.updated_at_ms {
        parameters.push(SqlValue::Integer(seconds * 1_000));
        "UPDATE threads SET updated_at = ?1, updated_at_ms = ?2 WHERE id = ?3"
    } else {
        "UPDATE threads SET updated_at = ?1 WHERE id = ?2"
    };
    parameters.push(SqlValue::Text(id.to_owned()));
    let statement = Statement { sql: sql.to_owned(), parameters };
    assert(statement@.parameters =~= time_update(columns, id@, activity_ms).parameters);
    statement
}

/// The statements that give the threads the times of their rollout files' activity. `activities`
/// has, for each row, the last activity in the thread's rollout file in milliseconds, and nothing
/// where there is no such file or no activity in it.
pub fn finish_thread_time_repair(
    columns: ThreadsTableColumns,
    rows: &Vec<ThreadTimeRow>,
    activities: &Vec<Option<i128>>,
) -> (statements: Vec<Statement>)
    requires
        rows@.len() == activities@.len(),
        forall|i: int|
            0 <= i < rows@.len() ==> time_fits(
                columns,
                (#[trigger] rows@[i]).updated_at,
                activities@[i],
            ),
    ensures
        statement_texts(statements@) == time_updates(columns, rows@, activities@),
{
    let mut statements: Vec<Statement> = Vec::new();
    let mut i: usize = 0;
    assert(statement_texts(statements@) =~= time_updates(
        columns,
        rows@.take(0),
        activities@.take(0),
    ));
    while i < rows.len()
        invariant
            i <= rows@.len(),
            rows@.len() == activities@.len(),
            forall|i: int|
                0 <= i < rows@.len() ==> time_fits(
                    columns,
                    (#[trigger] rows@[i]).updated_at,
                    activities@[i],
                ),
            statement_texts(statements@) == time_updates(
                columns,
                rows@.take(i as int),
                activities@.take(i as int),
            ),
        decreases rows@.len() - i,
    {
        assert(rows@.take(i + 1).drop_last() =~= rows@.take(i as int));
        assert(activities@.take(i + 1).drop_last() =~= activities@.take(i as int));
        assert(time_fits(columns, rows@[i as int].updated_at, activities@[i as int]));
        if let Some(activity_ms) = activities[i] {
            let current: i64 = match rows[i].updated_at {
                Some(seconds) => seconds,
                None => 0,
            };
            if is_apart(current, activity_seconds(activity_ms), 1) {
                let ghost before = statements@;
                let statement = time_update_statement(columns, rows[i].id.as_str(), activity_ms);
                statements.push(statement);
                assert(statement_texts(statements@) =~= statement_texts(before).push(statement@));
            }
        }
        i += 1;
    }
    assert(rows@.take(i as int) =~= rows@);
    assert(activities@.take(i as int) =~= activities@);
    statements
}

/// A thread that was given the time of its rollout file's activity needs no further repair.
pub proof fn repaired_time_needs_no_repair(activity_ms: i128)
    requires
        is_readable_time(activity_ms as int),
    ensures
        !time_changes(Some(whole_seconds(activity_ms as int) as i64), Some(activity_ms)),
{
}

/// How far reading the ids of the threads came.
#[derive(Debug)]
pub enum ThreadIds {
    /// There is no database.
    Absent,
    /// It could not be opened.
    Unopened(SqliteFailure),
    /// The outcome of the query.
    Queried(RowsOutcome<String>),
}

/// The ids of the threads, or the error of their query. A missing or unusable database has none,
/// nor has one without a `threads` table.
pub open spec fn thread_ids(path: Seq<char>, ids: ThreadIds) -> Result<Set<Seq<char>>, Seq<char>> {
    match ids {
        ThreadIds::Absent => Ok(Set::empty()),
        ThreadIds::Unopened(failure) => if failure.unusable {
            Ok(Set::empty())
        } else {
            Err(located("打开实例数据库失败"@, path, failure.message@))
        },
        ThreadIds::Queried(outcome) => if outcome matches RowsOutcome::Unprepared(failure)
            && says_no_threads_table(failure.message@) {
            Ok(Set::empty())
        } else {
            match rows_result(
                path,
                outcome,
                "prepare SQLite thread id query failed"@,
                "query SQLite thread ids failed"@,
                "read SQLite thread id failed"@,
            ) {
                Ok(rows) => Ok(views(rows).to_set()),
                Err(text) => Err(text),
            }
        },
    }
}

/// The query for the ids of the threads.
pub fn thread_id_query() -> (statement: Statement)
    ensures
        statement@ == plain_query("SELECT id FROM threads"@),
{
    query("SELECT id FROM threads".to_owned())
}

/// The ids of the threads.
pub fn read_sqlite_thread_ids(path: &str, ids: ThreadIds) -> (found: Result<StringHashSet, String>)
    ensures
        match thread_ids(path@, ids) {
            Ok(set) => found matches Ok(found) && found@ == set,
            Err(text) => found matches Err(error) && error@ == text,
        },
{
    let outcome = match ids {
        ThreadIds::Absent => return Ok(StringHashSet::new()),
        ThreadIds::Unopened(failure) => {
            if failure.unusable {
                return Ok(StringHashSet::new());
            }
            return Err(
                format_sqlite_read_error(path, "打开实例数据库失败", failure.message.as_str()),
            );
        },
        ThreadIds::Queried(outcome) => outcome,
    };
    if let RowsOutcome::Unprepared(failure) = &outcome {
        if is_missing_threads_table_error(failure.message.as_str()) {
            return Ok(StringHashSet::new());
        }
    }
    let rows = match rows_of(
        path,
        outcome,
        "prepare SQLite thread id query failed",
        "query SQLite thread ids failed",
        "read SQLite thread id failed",
    ) {
        Ok(rows) => rows,
        Err(text) => return Err(text),
    };
    Ok(text_set(&rows))
}

/// The set of the texts.
pub fn text_set(texts: &Vec<String>) -> (set: StringHashSet)
    ensures
        set@ == views(texts@).to_set(),
{
    let mut set = StringHashSet::new();
    let mut i: usize = 0;
    while i < texts.len()
        invariant
            i <= texts@.len(),
            set@ == views(texts@.take(i as int)).to_set(),
        decreases texts@.len() - i,
    {
        let _ = set.insert(texts[i].clone());
        proof {
            let before = views(texts@.take(i as int));
            let after = views(texts@.take(i + 1));
            let text = texts@[i as int]@;
            assert(after =~= before.push(text));
            assert forall|t: Seq<char>| after.to_set().contains(t) == before.to_set().insert(
                text,
            ).contains(t) by {
                if before.contains(t) {
                    let j = choose|j: int| 0 <= j < before.len() && before[j] == t;
                    assert(after[j] == t);
                }
                if t == text {
                    assert(after[i as int] == t);
                }
            }
            assert(after.to_set() =~= before.to_set().insert(text));
        }
        i += 1;
    }
    assert(texts@.take(i as int) =~= texts@);
    set
}

/// Whether `seconds` are the whole seconds of a time, without its milliseconds, towards the epoch.
pub open spec fn is_seconds_of(seconds: int, millis: int) -> bool {
    if millis >= 0 {
        1_000 * seconds <= millis < 1_000 * seconds + 1_000
    } else {
        1_000 * seconds - 1_000 < millis <= 1_000 * seconds
    }
}

/// A thread gets a statement exactly where its rollout file has an activity and the time of the
/// thread, taken as the epoch where it is null, is more than a second before or after it. The
/// statement gives it the seconds of the activity, and a thousand times as many milliseconds where
/// the table has a column for them. The statements come in the order of the threads.
pub proof fn thread_is_repaired_where_its_time_is_off(
    columns: ThreadsTableColumns,
    rows: Seq<ThreadTimeRow>,
    activities: Seq<Option<i128>>,
    row: ThreadTimeRow,
    activity: Option<i128>,
    seconds: i64,
)
    requires
        rows.len() == activities.len(),
        activity matches Some(millis) ==> is_seconds_of(seconds as int, millis as int) && i64::MIN
            <= 1_000 * seconds <= i64::MAX,
    ensures
        ({
            let before = time_updates(columns, rows, activities);
            let after = time_updates(columns, rows.push(row), activities.push(activity));
            let current = match row.updated_at {
                Some(updated_at) => updated_at as int,
                None => 0,
            };
            if activity is Some && (current - seconds > 1 || seconds - current > 1) {
                &&& after.len() == before.len() + 1
                &&& after.drop_last() == before
                &&& columns.updated_at_ms ==> after.last() == (StatementText {
                    sql: "UPDATE threads SET updated_at = ?1, updated_at_ms = ?2 WHERE id = ?3"@,
                    parameters: seq![
                        SqlTerm::Integer(seconds),
                        SqlTerm::Integer((1_000 * seconds) as i64),
                        SqlTerm::Text(row.id@),
                    ],
                })
                &&& !columns.updated_at_ms ==> after.last() == (StatementText {
                    sql: "UPDATE threads SET updated_at = ?1 WHERE id = ?2"@,
                    parameters: seq![SqlTerm::Integer(seconds), SqlTerm::Text(row.id@)],
                })
            } else {
                after == before
            }
        }),
        time_updates(columns, Seq::empty(), Seq::empty()).len() == 0,
{
    assert(rows.push(row).drop_last() =~= rows);
    assert(activities.push(activity).drop_last() =~= activities);
    let before = time_updates(columns, rows, activities);
    let after = time_updates(columns, rows.push(row), activities.push(activity));
    if after.len() > before.len() {
        assert(after.drop_last() =~= before);
    }
}

/// A thread is counted, and gets a statement, exactly where its working directory is not in the form
/// of a stored path, or its rollout file not in that of a plain one; null is in any form. The
/// statement stores each of the two in its form, as far as the table has columns for them.
pub proof fn thread_is_repaired_where_a_path_is_off(
    columns: ThreadsTableColumns,
    rows: Seq<ThreadPathRow>,
    row: ThreadPathRow,
)
    requires
        columns.cwd || columns.rollout_path,
    ensures
        ({
            let before = path_updates(columns, rows);
            let after = path_updates(columns, rows.push(row));
            let off = (row.cwd matches Some(cwd) && stored_path(cwd@) != cwd@) || (
            row.rollout_path matches Some(path) && plain_path(path@) != path@);
            let cwd = match row.cwd {
                Some(cwd) => SqlTerm::Text(stored_path(cwd@)),
                None => SqlTerm::Null,
            };
            let rollout_path = match row.rollout_path {
                Some(path) => SqlTerm::Text(plain_path(path@)),
                None => SqlTerm::Null,
            };
            let id = SqlTerm::Text(row.id@);
            &&& path_change_count(rows.push(row)) == path_change_count(rows) + (if off {
                1nat
            } else {
                0nat
            })
            &&& !off ==> after == before
            &&& off ==> after.len() == before.len() + 1 && after.drop_last() == before
                && after.last().parameters == if columns.cwd && columns.rollout_path {
                seq![cwd, rollout_path, id]
            } else if columns.cwd {
                seq![cwd, id]
            } else {
                seq![rollout_path, id]
            }
        }),
        path_updates(columns, Seq::empty()).len() == 0,
        path_change_count(Seq::empty()) == 0,
{
    assert(rows.push(row).drop_last() =~= rows);
    let before = path_updates(columns, rows);
    let after = path_updates(columns, rows.push(row));
    if after.len() > before.len() {
        assert(after.drop_last() =~= before);
    }
}

/// A count of threads is what the database counted, and none where it could count none; a database
/// that is unusable is passed over, one without the table has no threads, and any other failure is
/// an error.
pub proof fn count_is_what_was_counted(path: Seq<char>, outcome: Result<i64, SqliteFailure>)
    ensures
        match outcome {
            Ok(count) => count_result(path, outcome) matches Ok(scan)
                && !scan.skipped_unusable_database && (count <= 0 ==> scan.rows_to_update == 0) && (
            0 <= count <= usize::MAX ==> scan.rows_to_update == count),
            Err(failure) => match count_result(path, outcome) {
                Ok(scan) => scan.rows_to_update == 0 && (scan.skipped_unusable_database
                    <==> failure.unusable) && (failure.unusable || holds_part(
                    lowered(failure.message@),
                    "no such table: threads"@,
                )),
                Err(_) => !failure.unusable && !holds_part(
                    lowered(failure.message@),
                    "no such table: threads"@,
                ),
            },
        },
{
}

/// A repair of the threads comes to the rows that were committed. It comes to nothing where the
/// database turns out to be unusable once it is written, or has no such table; any other failure is
/// an error, and so is one to begin.
pub proof fn update_is_what_was_committed(path: Seq<char>, outcome: TransactionOutcome)
    ensures
        match outcome {
            TransactionOutcome::Committed(rows) => update_result(path, outcome) == Ok::<
                usize,
                Seq<char>,
            >(rows),
            TransactionOutcome::Unbegun(_) => update_result(path, outcome) is Err,
            TransactionOutcome::Unexecuted(failure) => match update_result(path, outcome) {
                Ok(rows) => rows == 0 && (failure.unusable || holds_part(
                    lowered(failure.message@),
                    "no such table: threads"@,
                )),
                Err(_) => !failure.unusable && !holds_part(
                    lowered(failure.message@),
                    "no such table: threads"@,
                ),
            },
            TransactionOutcome::Uncommitted(failure) => match update_result(path, outcome) {
                Ok(rows) => rows == 0 && failure.unusable,
                Err(_) => !failure.unusable,
            },
        },
{
}

/// What the query for the paths selects, as expressions.
pub open spec fn selected_paths(columns: ThreadsTableColumns) -> Seq<SqlExpr> {
    seq![
        *column("id"@),
        column_or_null(columns.cwd, "cwd"@),
        column_or_null(columns.rollout_path, "rollout_path"@),
    ]
}

/// The column, or null where it is not there, as an expression.
pub open spec fn column_or_null(there: bool, name: Seq<char>) -> SqlExpr {
    if there {
        *column(name)
    } else {
        SqlExpr::Literal("NULL"@, SqlTerm::Null)
    }
}

/// The query for the paths reads of every thread its id, its working directory and its rollout file;
/// one without a column is null.
pub proof fn path_query_reads_the_paths(
    columns: ThreadsTableColumns,
    row: spec_fn(Seq<char>) -> SqlTerm,
)
    ensures
        path_query(columns) == select_text(selected_paths(columns)) + " FROM threads"@,
        forall|i: int|
            0 <= i < 3 ==> literals_are_true(#[trigger] selected_paths(columns)[i]),
        selected_paths(columns).len() == 3,
        sql_value(selected_paths(columns)[0], row, SqlTerm::Null) == row("id"@),
        sql_value(selected_paths(columns)[1], row, SqlTerm::Null) == if columns.cwd {
            row("cwd"@)
        } else {
            SqlTerm::Null
        },
        sql_value(selected_paths(columns)[2], row, SqlTerm::Null) == if columns.rollout_path {
            row("rollout_path"@)
        } else {
            SqlTerm::Null
        },
{
    let all = selected_paths(columns);
    lemma_literals();
    lemma_select_one(all[0]);
    lemma_select_one_more(seq![all[0]], all[1]);
    lemma_select_one_more(seq![all[0]].push(all[1]), all[2]);
    assert(seq![all[0]].push(all[1]).push(all[2]) =~= all);
    reveal_strlit("SELECT ");
    reveal_strlit("id");
    reveal_strlit(", ");
    reveal_strlit("SELECT id, ");
    assert("SELECT "@ + "id"@ + ", "@ =~= "SELECT id, "@);
}

/// Paths are read where the table has ids and one of the paths; times where it has ids, rollout
/// files and times. Else, and where there is no table, nothing is to be done.
pub proof fn threads_are_read_where_the_table_has_them(path: Seq<char>, database: StateDatabase)
    ensures
        threads_scan(path, database) is Err <==> path_stage(path, database) is Err,
        threads_scan(path, database) is Err <==> time_stage(path, database) is Err,
        threads_scan(path, database) matches Ok(scan) ==> match scan.columns {
            Some(columns) => {
                &&& (path_stage(path, database) matches Ok(StageText::Run(_))) <==> columns.id && (
                columns.cwd || columns.rollout_path)
                &&& (time_stage(path, database) matches Ok(StageText::Run(_))) <==> columns.id
                    && columns.rollout_path && columns.updated_at
            },
            None => path_stage(path, database) == Ok::<StageText<usize>, Seq<char>>(
                StageText::Done(0),
            ) && time_stage(path, database) == Ok::<StageText<usize>, Seq<char>>(
                StageText::Done(0),
            ),
        },
        path_stage(path, database) matches Ok(StageText::Done(count)) ==> count == 0,
        time_stage(path, database) matches Ok(StageText::Done(count)) ==> count == 0,
{
}

/// Times are read of exactly the threads that have a rollout file.
pub proof fn times_are_read_of_threads_with_a_file(row: spec_fn(Seq<char>) -> SqlTerm)
    ensures
        is_true(sql_value(has_rollout_path(), row, SqlTerm::Null)) <==> !(row(
            "rollout_path"@,
        ) is Null) && row("rollout_path"@) != SqlTerm::Text(seq![]),
        literals_are_true(has_rollout_path()),
{
    lemma_literals();
    reveal_with_fuel(literals_are_true, 3);
    reveal_with_fuel(sql_value, 3);
}

/// The ids of the threads are those of the rows that were read; there are none where there is no
/// database, where it is unusable, or where it has no such table.
pub proof fn thread_ids_are_those_of_the_rows(path: Seq<char>, ids: ThreadIds, id: Seq<char>)
    ensures
        match thread_ids(path, ids) {
            Ok(found) => found.contains(id) <==> (ids matches ThreadIds::Queried(RowsOutcome::Rows(rows))
                && exists|i: int| 0 <= i < rows@.len() && (#[trigger] rows@[i])@ == id),
            Err(_) => !(ids is Absent) && !(ids matches ThreadIds::Queried(RowsOutcome::Rows(_))),
        },
        ids matches ThreadIds::Unopened(failure) ==> (thread_ids(path, ids) is Ok
            <==> failure.unusable),
{
    if let ThreadIds::Queried(RowsOutcome::Rows(rows)) = ids {
        let texts = views(rows@);
        if texts.to_set().contains(id) {
            let i = choose|i: int| 0 <= i < texts.len() && texts[i] == id;
            assert(rows@[i]@ == id);
        }
        if exists|i: int| 0 <= i < rows@.len() && (#[trigger] rows@[i])@ == id {
            let i = choose|i: int| 0 <= i < rows@.len() && (#[trigger] rows@[i])@ == id;
            assert(texts[i] == id);
        }
    }
}

/// The statements that count and repair the threads are given the wanted provider exactly where the
/// table has a column for it, and nothing else.
pub proof fn statements_are_given_the_provider(
    path: Seq<char>,
    database: StateDatabase,
    provider: Seq<char>,
)
    ensures
        count_stage(path, database, provider) matches Ok(StageText::Run(count)) ==> (threads_scan(
            path,
            database,
        ) matches Ok(scan) && scan.columns matches Some(columns) && if columns.model_provider {
            count.parameters == seq![SqlTerm::Text(provider)]
        } else {
            count.parameters.len() == 0
        }),
        update_stage(path, database, provider) matches Ok(StageText::Run(update)) ==> (threads_scan(
            path,
            database,
        ) matches Ok(scan) && scan.columns matches Some(columns) && if columns.model_provider {
            update.parameters == seq![SqlTerm::Text(provider)]
        } else {
            update.parameters.len() == 0
        }),
        threads_scan(path, database) matches Ok(scan) ==> (count_stage(
            path,
            database,
            provider,
        ) matches Ok(StageText::Done(found)) ==> found.rows_to_update == 0
            && found.skipped_unusable_database == scan.skipped),
{
}

} // verus!
