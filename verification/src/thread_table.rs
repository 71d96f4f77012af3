//! The `threads` table before and after a repair: which rows the statements of a repair change, what
//! they make of them, and what is left to repair then.

use vstd::prelude::*;

use crate::paths::is_settled;
use crate::sql_expr::{any_of, is_true, sql_text, sql_value};
use crate::sql_table::{
    all_stored, is_about, is_stored, keep_apart, keyed_statement, lemma_all_stored, lemma_new_value,
    lemma_other_columns_stay, lemma_picked_count, lemma_stored_count, lemma_stored_len,
    numbered_assignments, parameter_mark, picked_count, stored_count, unique_ids, updated_table,
    with_values, KeyedUpdate,
};
use crate::sqlite::{
    assigned, assignment_texts, clauses_write_out_the_repair, is_looked_at, repair_conditions,
    repair_keeps_other_columns, repaired_row_is_not_picked, text_term, threads_scan, SqlTerm,
    StageText, StateDatabase, ThreadsTableColumns, TransactionOutcome,
};
use crate::text::{decimal, joined, opt_view};
use crate::threads::{
    count_result, count_stage, has_rollout_path, is_seconds_of, next_cwd, next_rollout_path,
    path_change_count, path_count_is_number_of_updates, path_update, path_updates, paths_change,
    repaired_paths_need_no_repair, repaired_time_needs_no_repair, time_changes, time_update,
    time_updates, update_result, update_stage, SqliteProviderScan, ThreadPathRow, ThreadTimeRow,
};
use crate::timestamps::{is_readable_time, whole_seconds};

verus! {

/// Carried out on a table, by the rules of `sql_value`: the count finds the rows that the update
/// changes, and both come back as that number. After the update nothing is left to count. Rows that
/// are not counted stay as they are, and so do the columns that the update does not assign.
pub proof fn update_changes_the_counted_rows(
    path: Seq<char>,
    database: StateDatabase,
    provider: Seq<char>,
    columns: ThreadsTableColumns,
    table: Seq<spec_fn(Seq<char>) -> SqlTerm>,
)
    requires
        threads_scan(path, database) matches Ok(scan) && scan.columns == Some(columns),
        repair_conditions(columns).len() > 0,
        table.len() <= i64::MAX,
        table.len() <= usize::MAX,
    ensures
        ({
            let condition = any_of(repair_conditions(columns));
            let parameter = SqlTerm::Text(provider);
            let changed = picked_count(table, condition, parameter);
            let next = updated_table(table, condition, assigned(columns), parameter);
            &&& count_stage(path, database, provider) matches Ok(StageText::Run(count))
                && count.sql == "SELECT COUNT(*) FROM threads WHERE "@ + sql_text(condition)
            &&& update_stage(path, database, provider) matches Ok(StageText::Run(update))
                && update.sql == "UPDATE threads SET "@ + joined(
                assignment_texts(assigned(columns)),
                ", "@,
            ) + " WHERE "@ + sql_text(condition)
            &&& count_result(path, Ok(changed as i64)) == Ok::<SqliteProviderScan, Seq<char>>(
                SqliteProviderScan {
                    rows_to_update: changed as usize,
                    skipped_unusable_database: false,
                },
            )
            &&& update_result(path, TransactionOutcome::Committed(changed as usize)) == Ok::<
                usize,
                Seq<char>,
            >(changed as usize)
            &&& picked_count(next, condition, parameter) == 0
            &&& next.len() == table.len()
            &&& forall|i: int|
                0 <= i < table.len() && !is_true(
                    sql_value(condition, #[trigger] table[i], parameter),
                ) ==> next[i] == table[i]
            &&& forall|i: int, name: Seq<char>|
                0 <= i < table.len() && is_looked_at(name) ==> #[trigger] next[i](name) == table[i](
                    name,
                )
        }),
{
    let condition = any_of(repair_conditions(columns));
    let parameter = SqlTerm::Text(provider);
    let next = updated_table(table, condition, assigned(columns), parameter);
    clauses_write_out_the_repair(columns);
    lemma_picked_count(table, condition, parameter);
    assert forall|i: int| 0 <= i < next.len() implies !is_true(
        sql_value(condition, #[trigger] next[i], parameter),
    ) by {
        repaired_row_is_not_picked(columns, table[i], provider);
    }
    lemma_picked_count(next, condition, parameter);
    assert forall|i: int, name: Seq<char>|
        0 <= i < table.len() && is_looked_at(name) implies #[trigger] next[i](name) == table[i](
        name,
    ) by {
        repair_keeps_other_columns(columns, table[i], provider, name);
    }
}

/// The columns with paths that the table has.
pub open spec fn path_columns(columns: ThreadsTableColumns) -> Seq<Seq<char>> {
    if columns.cwd && columns.rollout_path {
        seq!["cwd"@, "rollout_path"@]
    } else if columns.cwd {
        seq!["cwd"@]
    } else {
        seq!["rollout_path"@]
    }
}

/// What a repair does to a thread with a path that is to be stored in another form.
pub open spec fn path_change(columns: ThreadsTableColumns, row: ThreadPathRow) -> KeyedUpdate {
    let cwd = text_term(next_cwd(row));
    let rollout_path = text_term(next_rollout_path(row));
    KeyedUpdate {
        id: row.id@,
        columns: path_columns(columns),
        values: if columns.cwd && columns.rollout_path {
            seq![cwd, rollout_path]
        } else if columns.cwd {
            seq![cwd]
        } else {
            seq![rollout_path]
        },
    }
}

/// What a repair does to the threads, one after the other.
pub open spec fn path_changes(columns: ThreadsTableColumns, rows: Seq<ThreadPathRow>) -> Seq<
    KeyedUpdate,
>
    decreases rows.len(),
{
    if rows.len() == 0 {
        seq![]
    } else if paths_change(rows.last()) {
        path_changes(columns, rows.drop_last()).push(path_change(columns, rows.last()))
    } else {
        path_changes(columns, rows.drop_last())
    }
}

proof fn lemma_marks()
    ensures
        parameter_mark(1) == "?1"@,
        parameter_mark(2) == "?2"@,
        parameter_mark(3) == "?3"@,
{
    reveal_strlit("?");
    reveal_strlit("?1");
    reveal_strlit("?2");
    reveal_strlit("?3");
    assert(decimal(1) =~= seq!['1']);
    assert(decimal(2) =~= seq!['2']);
    assert(decimal(3) =~= seq!['3']);
    assert(parameter_mark(1) =~= "?1"@);
    assert(parameter_mark(2) =~= "?2"@);
    assert(parameter_mark(3) =~= "?3"@);
}

proof fn lemma_one_assignment(a: Seq<char>)
    ensures
        joined(numbered_assignments(seq![a]), ", "@) == a + " = "@ + "?1"@,
{
    lemma_marks();
    assert(numbered_assignments(seq![a])[0] == a + " = "@ + "?1"@);
}

proof fn lemma_two_assignments(a: Seq<char>, b: Seq<char>)
    ensures
        joined(numbered_assignments(seq![a, b]), ", "@) == (a + " = "@ + "?1"@) + ", "@ + (b
            + " = "@ + "?2"@),
{
    lemma_marks();
    let all = numbered_assignments(seq![a, b]);
    assert(all.drop_last()[0] == a + " = "@ + "?1"@);
    assert(all.last() == b + " = "@ + "?2"@);
    assert(joined(all.drop_last(), ", "@) == all.drop_last()[0]);
}

proof fn lemma_path_update_words()
    ensures
        "UPDATE threads SET cwd = ?1, rollout_path = ?2 WHERE id = ?3"@ == "UPDATE threads SET "@
            + (("cwd"@ + " = "@ + "?1"@) + ", "@ + ("rollout_path"@ + " = "@ + "?2"@))
            + " WHERE id = "@ + "?3"@,
        "UPDATE threads SET cwd = ?1 WHERE id = ?2"@ == "UPDATE threads SET "@ + ("cwd"@ + " = "@
            + "?1"@) + " WHERE id = "@ + "?2"@,
        "UPDATE threads SET rollout_path = ?1 WHERE id = ?2"@ == "UPDATE threads SET "@ + (
        "rollout_path"@ + " = "@ + "?1"@) + " WHERE id = "@ + "?2"@,
{
    reveal_strlit("UPDATE threads SET cwd = ?1, rollout_path = ?2 WHERE id = ?3");
    reveal_strlit("UPDATE threads SET cwd = ?1 WHERE id = ?2");
    reveal_strlit("UPDATE threads SET rollout_path = ?1 WHERE id = ?2");
    reveal_strlit("UPDATE threads SET ");
    reveal_strlit("cwd");
    reveal_strlit("rollout_path");
    reveal_strlit(" = ");
    reveal_strlit(", ");
    reveal_strlit(" WHERE id = ");
    reveal_strlit("?1");
    reveal_strlit("?2");
    reveal_strlit("?3");
    assert("UPDATE threads SET cwd = ?1, rollout_path = ?2 WHERE id = ?3"@ =~= "UPDATE threads SET "@
        + (("cwd"@ + " = "@ + "?1"@) + ", "@ + ("rollout_path"@ + " = "@ + "?2"@)) + " WHERE id = "@
        + "?3"@);
    assert("UPDATE threads SET cwd = ?1 WHERE id = ?2"@ =~= "UPDATE threads SET "@ + ("cwd"@
        + " = "@ + "?1"@) + " WHERE id = "@ + "?2"@);
    assert("UPDATE threads SET rollout_path = ?1 WHERE id = ?2"@ =~= "UPDATE threads SET "@ + (
    "rollout_path"@ + " = "@ + "?1"@) + " WHERE id = "@ + "?2"@);
}

proof fn lemma_path_update_is_keyed(columns: ThreadsTableColumns, row: ThreadPathRow)
    requires
        columns.cwd || columns.rollout_path,
    ensures
        path_update(columns, row) == keyed_statement(path_change(columns, row)),
{
    lemma_marks();
    lemma_path_update_words();
    lemma_two_assignments("cwd"@, "rollout_path"@);
    lemma_one_assignment("cwd"@);
    lemma_one_assignment("rollout_path"@);
    assert(path_update(columns, row).parameters =~= keyed_statement(
        path_change(columns, row),
    ).parameters);
}

/// The statements of a repair of the paths say what it does to the threads.
pub proof fn path_updates_write_out_the_changes(
    columns: ThreadsTableColumns,
    rows: Seq<ThreadPathRow>,
)
    requires
        columns.cwd || columns.rollout_path,
    ensures
        path_updates(columns, rows) == path_changes(columns, rows).map_values(
            |change: KeyedUpdate| keyed_statement(change),
        ),
    decreases rows.len(),
{
    if rows.len() > 0 {
        path_updates_write_out_the_changes(columns, rows.drop_last());
        lemma_path_update_is_keyed(columns, rows.last());
    }
    assert(path_updates(columns, rows) =~= path_changes(columns, rows).map_values(
        |change: KeyedUpdate| keyed_statement(change),
    ));
}

/// Whether the rows are what the query for the paths finds in the table.
pub open spec fn reads_paths(
    columns: ThreadsTableColumns,
    table: Seq<spec_fn(Seq<char>) -> SqlTerm>,
    rows: Seq<ThreadPathRow>,
) -> bool {
    &&& rows.len() == table.len()
    &&& forall|i: int| 0 <= i < rows.len() ==> reads_paths_of(columns, table[i], #[trigger] rows[i])
}

/// Whether a row is what the query for the paths finds of a thread.
pub open spec fn reads_paths_of(
    columns: ThreadsTableColumns,
    thread: spec_fn(Seq<char>) -> SqlTerm,
    row: ThreadPathRow,
) -> bool {
    &&& is_about(thread, row.id@)
    &&& if columns.cwd {
        thread("cwd"@) == text_term(opt_view(row.cwd))
    } else {
        row.cwd is None
    }
    &&& if columns.rollout_path {
        thread("rollout_path"@) == text_term(opt_view(row.rollout_path))
    } else {
        row.rollout_path is None
    }
}

proof fn lemma_path_change_of(columns: ThreadsTableColumns, rows: Seq<ThreadPathRow>, k: int) -> (i:
    int)
    requires
        0 <= k < path_changes(columns, rows).len(),
    ensures
        0 <= i < rows.len(),
        paths_change(rows[i]),
        path_changes(columns, rows)[k] == path_change(columns, rows[i]),
    decreases rows.len(),
{
    let rest = rows.drop_last();
    if k < path_changes(columns, rest).len() {
        let i = lemma_path_change_of(columns, rest, k);
        assert(rest[i] == rows[i]);
        i
    } else {
        rows.len() - 1
    }
}

proof fn lemma_path_change_at(columns: ThreadsTableColumns, rows: Seq<ThreadPathRow>, i: int) -> (k:
    int)
    requires
        0 <= i < rows.len(),
        paths_change(rows[i]),
    ensures
        0 <= k < path_changes(columns, rows).len(),
        path_changes(columns, rows)[k] == path_change(columns, rows[i]),
    decreases rows.len(),
{
    let rest = rows.drop_last();
    if i < rest.len() {
        assert(rest[i] == rows[i]);
        lemma_path_change_at(columns, rest, i)
    } else {
        path_changes(columns, rest).len() as int
    }
}

proof fn lemma_path_changes_keep_apart(columns: ThreadsTableColumns, rows: Seq<ThreadPathRow>)
    requires
        forall|i: int, j: int|
            #![trigger rows[i], rows[j]]
            0 <= i < j < rows.len() ==> rows[i].id@ != rows[j].id@,
    ensures
        keep_apart(path_changes(columns, rows)),
    decreases rows.len(),
{
    let changes = path_changes(columns, rows);
    if rows.len() > 0 {
        let rest = rows.drop_last();
        assert forall|i: int, j: int|
            #![trigger rest[i], rest[j]]
            0 <= i < j < rest.len() implies rest[i].id@ != rest[j].id@ by {
            assert(rest[i] == rows[i] && rest[j] == rows[j]);
        }
        lemma_path_changes_keep_apart(columns, rest);
        let before = path_changes(columns, rest);
        if paths_change(rows.last()) {
            let n = rows.len() - 1;
            assert forall|i: int, j: int|
                #![trigger changes[i], changes[j]]
                0 <= i < j < changes.len() implies changes[i].id != changes[j].id by {
                assert(changes[i] == before[i]);
                if j < before.len() {
                    assert(changes[j] == before[j]);
                } else {
                    let at = lemma_path_change_of(columns, rest, i);
                    assert(rest[at] == rows[at]);
                    assert(rows[at].id@ != rows[n].id@);
                }
            }
            assert forall|i: int| 0 <= i < changes.len() implies !(
            #[trigger] changes[i]).columns.contains("id"@) by {
                if i < before.len() {
                    assert(changes[i] == before[i]);
                } else {
                    reveal_strlit("id");
                    reveal_strlit("cwd");
                    reveal_strlit("rollout_path");
                    assert("id"@.len() == 2 && "cwd"@.len() == 3 && "rollout_path"@.len() == 12);
                }
            }
        }
    }
}

/// Carried out on a table in which no two threads have the same id, a repair of the paths changes as
/// many rows as were counted: each thread that was counted gets its paths in their form, and null
/// stays null. All other threads and all other columns stay as they are.
pub proof fn repair_stores_the_counted_paths(
    columns: ThreadsTableColumns,
    table: Seq<spec_fn(Seq<char>) -> SqlTerm>,
    rows: Seq<ThreadPathRow>,
)
    requires
        columns.cwd || columns.rollout_path,
        unique_ids(table),
        reads_paths(columns, table, rows),
    ensures
        ({
            let next = all_stored(table, path_changes(columns, rows));
            &&& stored_count(table, path_changes(columns, rows)) == path_change_count(rows)
            &&& next.len() == table.len()
            &&& forall|i: int|
                0 <= i < rows.len() && !paths_change(#[trigger] rows[i]) ==> next[i] == table[i]
            &&& forall|i: int|
                0 <= i < rows.len() && columns.cwd ==> next[i]("cwd"@) == text_term(
                    next_cwd(#[trigger] rows[i]),
                )
            &&& forall|i: int|
                0 <= i < rows.len() && columns.rollout_path ==> next[i]("rollout_path"@)
                    == text_term(next_rollout_path(#[trigger] rows[i]))
            &&& forall|i: int, name: Seq<char>|
                0 <= i < table.len() && !path_columns(columns).contains(name)
                    ==> #[trigger] next[i](name) == table[i](name)
        }),
{
    let changes = path_changes(columns, rows);
    let next = all_stored(table, changes);
    assert forall|i: int, j: int|
        #![trigger rows[i], rows[j]]
        0 <= i < j < rows.len() implies rows[i].id@ != rows[j].id@ by {
        assert(reads_paths_of(columns, table[i], rows[i]));
        assert(reads_paths_of(columns, table[j], rows[j]));
        assert(table[i]("id"@) != table[j]("id"@));
    }
    lemma_path_changes_keep_apart(columns, rows);
    path_count_is_number_of_updates(columns, rows);
    path_updates_write_out_the_changes(columns, rows);
    assert forall|k: int| 0 <= k < changes.len() implies is_stored(
        table,
        (#[trigger] changes[k]).id,
    ) by {
        let i = lemma_path_change_of(columns, rows, k);
        assert(is_about(table[i], changes[k].id));
    }
    lemma_stored_count(table, changes);
    lemma_stored_len(table, changes);
    assert forall|i: int| 0 <= i < rows.len() implies is_repaired_thread(
        columns,
        table[i],
        next[i],
        #[trigger] rows[i],
    ) by {
        lemma_path_repair_of(columns, table, rows, i);
    }
    assert forall|i: int, name: Seq<char>|
        0 <= i < table.len() && !path_columns(columns).contains(name) implies #[trigger] next[i](
        name,
    ) == table[i](name) by {
        assert(is_repaired_thread(columns, table[i], next[i], rows[i]));
    }
}

spec fn is_repaired_thread(
    columns: ThreadsTableColumns,
    thread: spec_fn(Seq<char>) -> SqlTerm,
    next: spec_fn(Seq<char>) -> SqlTerm,
    row: ThreadPathRow,
) -> bool {
    &&& !paths_change(row) ==> next == thread
    &&& columns.cwd ==> next("cwd"@) == text_term(next_cwd(row))
    &&& columns.rollout_path ==> next("rollout_path"@) == text_term(next_rollout_path(row))
    &&& forall|name: Seq<char>|
        !path_columns(columns).contains(name) ==> #[trigger] next(name) == thread(name)
}

proof fn lemma_path_repair_of(
    columns: ThreadsTableColumns,
    table: Seq<spec_fn(Seq<char>) -> SqlTerm>,
    rows: Seq<ThreadPathRow>,
    i: int,
)
    requires
        columns.cwd || columns.rollout_path,
        unique_ids(table),
        reads_paths(columns, table, rows),
        keep_apart(path_changes(columns, rows)),
        0 <= i < rows.len(),
    ensures
        is_repaired_thread(
            columns,
            table[i],
            all_stored(table, path_changes(columns, rows))[i],
            rows[i],
        ),
{
    let changes = path_changes(columns, rows);
    let next = all_stored(table, changes);
    assert(reads_paths_of(columns, table[i], rows[i]));
    lemma_all_stored(table, changes, i);
    if paths_change(rows[i]) {
        let k = lemma_path_change_at(columns, rows, i);
        let change = path_change(columns, rows[i]);
        assert(is_about(table[i], changes[k].id));
        assert(next[i] == with_values(table[i], change.columns, change.values));
        reveal_strlit("cwd");
        reveal_strlit("rollout_path");
        assert("cwd"@.len() == 3 && "rollout_path"@.len() == 12);
        lemma_new_value(table[i], change.columns, change.values, 0);
        if columns.cwd && columns.rollout_path {
            lemma_new_value(table[i], change.columns, change.values, 1);
        }
        assert forall|name: Seq<char>| !path_columns(columns).contains(name) implies
            #[trigger] next[i](name) == table[i](name) by {
            lemma_other_columns_stay(table[i], change.columns, change.values, name);
        }
    } else {
        assert forall|k: int| 0 <= k < changes.len() implies !is_about(
            table[i],
            (#[trigger] changes[k]).id,
        ) by {
            let at = lemma_path_change_of(columns, rows, k);
            assert(reads_paths_of(columns, table[at], rows[at]));
            if at < i {
                assert(table[at]("id"@) != table[i]("id"@));
            } else {
                assert(table[i]("id"@) != table[at]("id"@));
            }
        }
    }
}

/// A count after such a repair finds nothing, unless a path has surrounding white space or an
/// extended-length prefix.
pub proof fn no_paths_are_counted_after_a_repair(
    columns: ThreadsTableColumns,
    table: Seq<spec_fn(Seq<char>) -> SqlTerm>,
    rows: Seq<ThreadPathRow>,
    again: Seq<ThreadPathRow>,
)
    requires
        columns.cwd || columns.rollout_path,
        unique_ids(table),
        reads_paths(columns, table, rows),
        reads_paths(columns, all_stored(table, path_changes(columns, rows)), again),
        forall|i: int|
            0 <= i < rows.len() ==> (next_cwd(#[trigger] rows[i]) matches Some(cwd) ==> is_settled(
                cwd,
            )) && (next_rollout_path(rows[i]) matches Some(path) ==> is_settled(path)),
    ensures
        path_change_count(again) == 0,
{
    repair_stores_the_counted_paths(columns, table, rows);
    let next = all_stored(table, path_changes(columns, rows));
    assert forall|i: int| 0 <= i < again.len() implies !paths_change(#[trigger] again[i]) by {
        assert(reads_paths_of(columns, next[i], again[i]));
        assert(reads_paths_of(columns, table[i], rows[i]));
        assert(next_cwd(rows[i]) == opt_view(again[i].cwd));
        assert(next_rollout_path(rows[i]) == opt_view(again[i].rollout_path));
        repaired_paths_need_no_repair(rows[i], again[i]);
    }
    lemma_no_path_changes(again);
}

proof fn lemma_no_path_changes(rows: Seq<ThreadPathRow>)
    requires
        forall|i: int| 0 <= i < rows.len() ==> !paths_change(#[trigger] rows[i]),
    ensures
        path_change_count(rows) == 0,
    decreases rows.len(),
{
    if rows.len() > 0 {
        let rest = rows.drop_last();
        assert(rows.last() == rows[rows.len() - 1]);
        assert forall|i: int| 0 <= i < rest.len() implies !paths_change(#[trigger] rest[i]) by {
            assert(rest[i] == rows[i]);
        }
        lemma_no_path_changes(rest);
    }
}

/// The columns with times that a repair sets.
pub open spec fn time_columns(columns: ThreadsTableColumns) -> Seq<Seq<char>> {
    if columns.updated_at_ms {
        seq!["updated_at"@, "updated_at_ms"@]
    } else {
        seq!["updated_at"@]
    }
}

/// What a repair does to a thread whose time is off.
pub open spec fn time_repair(
    columns: ThreadsTableColumns,
    id: Seq<char>,
    activity_ms: i128,
) -> KeyedUpdate {
    let seconds = whole_seconds(activity_ms as int);
    KeyedUpdate {
        id,
        columns: time_columns(columns),
        values: if columns.updated_at_ms {
            seq![SqlTerm::Integer(seconds as i64), SqlTerm::Integer((seconds * 1_000) as i64)]
        } else {
            seq![SqlTerm::Integer(seconds as i64)]
        },
    }
}

/// What a repair does to the threads, one after the other.
pub open spec fn time_repairs(
    columns: ThreadsTableColumns,
    rows: Seq<ThreadTimeRow>,
    activities: Seq<Option<i128>>,
) -> Seq<KeyedUpdate>
    decreases rows.len(),
{
    if rows.len() == 0 {
        seq![]
    } else {
        let rest = time_repairs(columns, rows.drop_last(), activities.drop_last());
        if time_changes(rows.last().updated_at, activities.last()) {
            rest.push(time_repair(columns, rows.last().id@, activities.last()->0))
        } else {
            rest
        }
    }
}

proof fn lemma_time_update_words()
    ensures
        "UPDATE threads SET updated_at = ?1, updated_at_ms = ?2 WHERE id = ?3"@
            == "UPDATE threads SET "@ + (("updated_at"@ + " = "@ + "?1"@) + ", "@ + (
        "updated_at_ms"@ + " = "@ + "?2"@)) + " WHERE id = "@ + "?3"@,
        "UPDATE threads SET updated_at = ?1 WHERE id = ?2"@ == "UPDATE threads SET "@ + (
        "updated_at"@ + " = "@ + "?1"@) + " WHERE id = "@ + "?2"@,
{
    reveal_strlit("UPDATE threads SET updated_at = ?1, updated_at_ms = ?2 WHERE id = ?3");
    reveal_strlit("UPDATE threads SET updated_at = ?1 WHERE id = ?2");
    reveal_strlit("UPDATE threads SET ");
    reveal_strlit("updated_at");
    reveal_strlit("updated_at_ms");
    reveal_strlit(" = ");
    reveal_strlit(", ");
    reveal_strlit(" WHERE id = ");
    reveal_strlit("?1");
    reveal_strlit("?2");
    reveal_strlit("?3");
    assert("UPDATE threads SET updated_at = ?1, updated_at_ms = ?2 WHERE id = ?3"@
        =~= "UPDATE threads SET "@ + (("updated_at"@ + " = "@ + "?1"@) + ", "@ + ("updated_at_ms"@
        + " = "@ + "?2"@)) + " WHERE id = "@ + "?3"@);
    assert("UPDATE threads SET updated_at = ?1 WHERE id = ?2"@ =~= "UPDATE threads SET "@ + (
    "updated_at"@ + " = "@ + "?1"@) + " WHERE id = "@ + "?2"@);
}

/// The statements of a repair of the times say what it does to the threads.
pub proof fn time_updates_write_out_the_repairs(
    columns: ThreadsTableColumns,
    rows: Seq<ThreadTimeRow>,
    activities: Seq<Option<i128>>,
)
    ensures
        time_updates(columns, rows, activities) == time_repairs(
            columns,
            rows,
            activities,
        ).map_values(|update: KeyedUpdate| keyed_statement(update)),
    decreases rows.len(),
{
    if rows.len() > 0 {
        time_updates_write_out_the_repairs(columns, rows.drop_last(), activities.drop_last());
        if time_changes(rows.last().updated_at, activities.last()) {
            let update = time_repair(columns, rows.last().id@, activities.last()->0);
            lemma_marks();
            lemma_time_update_words();
            lemma_two_assignments("updated_at"@, "updated_at_ms"@);
            lemma_one_assignment("updated_at"@);
            assert(time_update(columns, rows.last().id@, activities.last()->0).parameters
                =~= keyed_statement(update).parameters);
        }
    }
    assert(time_updates(columns, rows, activities) =~= time_repairs(
        columns,
        rows,
        activities,
    ).map_values(|update: KeyedUpdate| keyed_statement(update)));
}

/// Whether a row is what the query for the times finds of a thread.
pub open spec fn reads_time_of(
    thread: spec_fn(Seq<char>) -> SqlTerm,
    row: ThreadTimeRow,
) -> bool {
    &&& is_about(thread, row.id@)
    &&& is_true(sql_value(has_rollout_path(), thread, SqlTerm::Null))
    &&& thread("rollout_path"@) == SqlTerm::Text(row.rollout_path@)
    &&& thread("updated_at"@) == match row.updated_at {
        Some(seconds) => SqlTerm::Integer(seconds),
        None => SqlTerm::Null,
    }
}

/// Whether the row is one of a thread in the table.
pub open spec fn is_time_in(
    table: Seq<spec_fn(Seq<char>) -> SqlTerm>,
    row: ThreadTimeRow,
) -> bool {
    exists|i: int| 0 <= i < table.len() && reads_time_of(#[trigger] table[i], row)
}

/// Whether one of the rows is that of the thread.
pub open spec fn is_time_among(
    rows: Seq<ThreadTimeRow>,
    thread: spec_fn(Seq<char>) -> SqlTerm,
) -> bool {
    exists|j: int| 0 <= j < rows.len() && reads_time_of(thread, #[trigger] rows[j])
}

/// Whether the rows are what the query for the times finds in the table: one row for each thread
/// with a rollout file.
pub open spec fn reads_times(
    table: Seq<spec_fn(Seq<char>) -> SqlTerm>,
    rows: Seq<ThreadTimeRow>,
) -> bool {
    &&& forall|j: int| 0 <= j < rows.len() ==> is_time_in(table, #[trigger] rows[j])
    &&& forall|i: int|
        0 <= i < table.len() && is_true(
            sql_value(has_rollout_path(), #[trigger] table[i], SqlTerm::Null),
        ) ==> is_time_among(rows, table[i])
    &&& forall|i: int, j: int|
        #![trigger rows[i], rows[j]]
        0 <= i < j < rows.len() ==> rows[i].id@ != rows[j].id@
}

proof fn lemma_time_repair_of(
    columns: ThreadsTableColumns,
    rows: Seq<ThreadTimeRow>,
    activities: Seq<Option<i128>>,
    k: int,
) -> (j: int)
    requires
        rows.len() == activities.len(),
        0 <= k < time_repairs(columns, rows, activities).len(),
    ensures
        0 <= j < rows.len(),
        time_changes(rows[j].updated_at, activities[j]),
        time_repairs(columns, rows, activities)[k] == time_repair(
            columns,
            rows[j].id@,
            activities[j]->0,
        ),
    decreases rows.len(),
{
    let rest = rows.drop_last();
    let known = activities.drop_last();
    if k < time_repairs(columns, rest, known).len() {
        let j = lemma_time_repair_of(columns, rest, known, k);
        assert(rest[j] == rows[j] && known[j] == activities[j]);
        j
    } else {
        rows.len() - 1
    }
}

proof fn lemma_time_repair_at(
    columns: ThreadsTableColumns,
    rows: Seq<ThreadTimeRow>,
    activities: Seq<Option<i128>>,
    j: int,
) -> (k: int)
    requires
        rows.len() == activities.len(),
        0 <= j < rows.len(),
        time_changes(rows[j].updated_at, activities[j]),
    ensures
        0 <= k < time_repairs(columns, rows, activities).len(),
        time_repairs(columns, rows, activities)[k] == time_repair(
            columns,
            rows[j].id@,
            activities[j]->0,
        ),
    decreases rows.len(),
{
    let rest = rows.drop_last();
    let known = activities.drop_last();
    if j < rest.len() {
        assert(rest[j] == rows[j] && known[j] == activities[j]);
        lemma_time_repair_at(columns, rest, known, j)
    } else {
        time_repairs(columns, rest, known).len() as int
    }
}

proof fn lemma_time_repairs_keep_apart(
    columns: ThreadsTableColumns,
    rows: Seq<ThreadTimeRow>,
    activities: Seq<Option<i128>>,
)
    requires
        rows.len() == activities.len(),
        forall|i: int, j: int|
            #![trigger rows[i], rows[j]]
            0 <= i < j < rows.len() ==> rows[i].id@ != rows[j].id@,
    ensures
        keep_apart(time_repairs(columns, rows, activities)),
    decreases rows.len(),
{
    let repairs = time_repairs(columns, rows, activities);
    if rows.len() > 0 {
        let rest = rows.drop_last();
        let known = activities.drop_last();
        assert forall|i: int, j: int|
            #![trigger rest[i], rest[j]]
            0 <= i < j < rest.len() implies rest[i].id@ != rest[j].id@ by {
            assert(rest[i] == rows[i] && rest[j] == rows[j]);
        }
        lemma_time_repairs_keep_apart(columns, rest, known);
        let before = time_repairs(columns, rest, known);
        if time_changes(rows.last().updated_at, activities.last()) {
            let n = rows.len() - 1;
            assert forall|i: int, j: int|
                #![trigger repairs[i], repairs[j]]
                0 <= i < j < repairs.len() implies repairs[i].id != repairs[j].id by {
                assert(repairs[i] == before[i]);
                if j < before.len() {
                    assert(repairs[j] == before[j]);
                } else {
                    let at = lemma_time_repair_of(columns, rest, known, i);
                    assert(rest[at] == rows[at]);
                    assert(rows[at].id@ != rows[n].id@);
                }
            }
            assert forall|i: int| 0 <= i < repairs.len() implies !(
            #[trigger] repairs[i]).columns.contains("id"@) by {
                if i < before.len() {
                    assert(repairs[i] == before[i]);
                } else {
                    lemma_time_columns();
                }
            }
        }
    }
}

proof fn lemma_time_columns()
    ensures
        "id"@ != "updated_at"@,
        "id"@ != "updated_at_ms"@,
        "rollout_path"@ != "updated_at"@,
        "rollout_path"@ != "updated_at_ms"@,
        "updated_at"@ != "updated_at_ms"@,
{
    reveal_strlit("id");
    reveal_strlit("updated_at");
    reveal_strlit("updated_at_ms");
    reveal_strlit("rollout_path");
    assert("id"@.len() == 2 && "updated_at"@.len() == 10);
    assert("updated_at_ms"@.len() == 13 && "rollout_path"@.len() == 12);
}

/// Whether a thread is as a repair leaves it, given its row and the activity in its rollout file.
pub open spec fn has_repaired_time(
    columns: ThreadsTableColumns,
    thread: spec_fn(Seq<char>) -> SqlTerm,
    next: spec_fn(Seq<char>) -> SqlTerm,
    row: ThreadTimeRow,
    activity_ms: Option<i128>,
) -> bool {
    if time_changes(row.updated_at, activity_ms) {
        let seconds = whole_seconds(activity_ms->0 as int);
        &&& next("updated_at"@) == SqlTerm::Integer(seconds as i64)
        &&& columns.updated_at_ms ==> next("updated_at_ms"@) == SqlTerm::Integer(
            (seconds * 1_000) as i64,
        )
        &&& forall|name: Seq<char>|
            !time_columns(columns).contains(name) ==> #[trigger] next(name) == thread(name)
    } else {
        next == thread
    }
}

/// Carried out on a table in which no two threads have the same id, a repair of the times changes
/// one row for each thread whose time is more than a second from the activity in its rollout file:
/// that thread gets the activity's time. All other threads and all other columns stay as they are.
pub proof fn repair_stores_the_times(
    columns: ThreadsTableColumns,
    table: Seq<spec_fn(Seq<char>) -> SqlTerm>,
    rows: Seq<ThreadTimeRow>,
    activities: Seq<Option<i128>>,
)
    requires
        unique_ids(table),
        reads_times(table, rows),
        rows.len() == activities.len(),
    ensures
        ({
            let repairs = time_repairs(columns, rows, activities);
            let next = all_stored(table, repairs);
            &&& stored_count(table, repairs) == time_updates(columns, rows, activities).len()
            &&& next.len() == table.len()
            &&& forall|i: int, j: int|
                0 <= i < table.len() && 0 <= j < rows.len() && #[trigger] reads_time_of(
                    table[i],
                    rows[j],
                ) ==> has_repaired_time(columns, table[i], next[i], rows[j], activities[j])
            &&& forall|i: int|
                0 <= i < table.len() && !is_true(
                    sql_value(has_rollout_path(), #[trigger] table[i], SqlTerm::Null),
                ) ==> next[i] == table[i]
        }),
{
    let repairs = time_repairs(columns, rows, activities);
    let next = all_stored(table, repairs);
    time_updates_write_out_the_repairs(columns, rows, activities);
    lemma_time_repairs_keep_apart(columns, rows, activities);
    lemma_stored_len(table, repairs);
    assert forall|k: int| 0 <= k < repairs.len() implies is_stored(
        table,
        (#[trigger] repairs[k]).id,
    ) by {
        let j = lemma_time_repair_of(columns, rows, activities, k);
        assert(is_time_in(table, rows[j]));
        let i = choose|i: int| 0 <= i < table.len() && reads_time_of(#[trigger] table[i], rows[j]);
        assert(is_about(table[i], repairs[k].id));
    }
    lemma_stored_count(table, repairs);
    assert forall|i: int, j: int|
        0 <= i < table.len() && 0 <= j < rows.len() && #[trigger] reads_time_of(
            table[i],
            rows[j],
        ) implies has_repaired_time(columns, table[i], next[i], rows[j], activities[j]) by {
        lemma_all_stored(table, repairs, i);
        if time_changes(rows[j].updated_at, activities[j]) {
            let k = lemma_time_repair_at(columns, rows, activities, j);
            let repair = repairs[k];
            assert(is_about(table[i], repairs[k].id));
            lemma_time_columns();
            lemma_new_value(table[i], repair.columns, repair.values, 0);
            if columns.updated_at_ms {
                lemma_new_value(table[i], repair.columns, repair.values, 1);
            }
            assert forall|name: Seq<char>| !time_columns(columns).contains(name) implies
                #[trigger] next[i](name) == table[i](name) by {
                lemma_other_columns_stay(table[i], repair.columns, repair.values, name);
            }
        } else {
            assert forall|k: int| 0 <= k < repairs.len() implies !is_about(
                table[i],
                (#[trigger] repairs[k]).id,
            ) by {
                let at = lemma_time_repair_of(columns, rows, activities, k);
                if at < j {
                    assert(rows[at].id@ != rows[j].id@);
                } else if j < at {
                    assert(rows[j].id@ != rows[at].id@);
                }
            }
        }
    }
    assert forall|i: int|
        0 <= i < table.len() && !is_true(
            sql_value(has_rollout_path(), #[trigger] table[i], SqlTerm::Null),
        ) implies next[i] == table[i] by {
        lemma_all_stored(table, repairs, i);
        assert forall|k: int| 0 <= k < repairs.len() implies !is_about(
            table[i],
            (#[trigger] repairs[k]).id,
        ) by {
            let j = lemma_time_repair_of(columns, rows, activities, k);
            assert(is_time_in(table, rows[j]));
            let at = choose|at: int|
                0 <= at < table.len() && reads_time_of(#[trigger] table[at], rows[j]);
            if at < i {
                assert(table[at]("id"@) != table[i]("id"@));
            } else if i < at {
                assert(table[i]("id"@) != table[at]("id"@));
            }
        }
    }
}

/// The activities in the rollout files of the rows, where `activity` says it for each file.
pub open spec fn activities_of(
    rows: Seq<ThreadTimeRow>,
    activity: spec_fn(Seq<char>) -> Option<i128>,
) -> Seq<Option<i128>> {
    rows.map_values(|row: ThreadTimeRow| activity(row.rollout_path@))
}

proof fn lemma_no_time_changes(
    columns: ThreadsTableColumns,
    rows: Seq<ThreadTimeRow>,
    activities: Seq<Option<i128>>,
)
    requires
        rows.len() == activities.len(),
        forall|j: int|
            0 <= j < rows.len() ==> !time_changes((#[trigger] rows[j]).updated_at, activities[j]),
    ensures
        time_updates(columns, rows, activities).len() == 0,
    decreases rows.len(),
{
    if rows.len() > 0 {
        let rest = rows.drop_last();
        let known = activities.drop_last();
        assert(rows.last() == rows[rows.len() - 1]);
        assert forall|j: int| 0 <= j < rest.len() implies !time_changes(
            (#[trigger] rest[j]).updated_at,
            known[j],
        ) by {
            assert(rest[j] == rows[j]);
        }
        lemma_no_time_changes(columns, rest, known);
    }
}

proof fn lemma_repaired_time_stays(
    columns: ThreadsTableColumns,
    thread: spec_fn(Seq<char>) -> SqlTerm,
    next: spec_fn(Seq<char>) -> SqlTerm,
    row: ThreadTimeRow,
    again: ThreadTimeRow,
    activity: spec_fn(Seq<char>) -> Option<i128>,
)
    requires
        forall|path: Seq<char>|
            #[trigger] activity(path) matches Some(time) ==> is_readable_time(time as int),
        reads_time_of(thread, row),
        reads_time_of(next, again),
        has_repaired_time(columns, thread, next, row, activity(row.rollout_path@)),
    ensures
        !time_changes(again.updated_at, activity(again.rollout_path@)),
{
    let found = activity(row.rollout_path@);
    if time_changes(row.updated_at, found) {
        lemma_time_columns();
        assert(!time_columns(columns).contains("rollout_path"@));
        assert(next("rollout_path"@) == thread("rollout_path"@));
        repaired_time_needs_no_repair(found->0);
    }
}

/// After such a repair, with the rollout files as they were, nothing is left to repair.
pub proof fn no_times_change_after_a_repair(
    columns: ThreadsTableColumns,
    table: Seq<spec_fn(Seq<char>) -> SqlTerm>,
    rows: Seq<ThreadTimeRow>,
    activity: spec_fn(Seq<char>) -> Option<i128>,
    again: Seq<ThreadTimeRow>,
)
    requires
        unique_ids(table),
        reads_times(table, rows),
        forall|path: Seq<char>|
            #[trigger] activity(path) matches Some(time) ==> is_readable_time(time as int),
        reads_times(
            all_stored(table, time_repairs(columns, rows, activities_of(rows, activity))),
            again,
        ),
    ensures
        time_updates(columns, again, activities_of(again, activity)).len() == 0,
{
    let activities = activities_of(rows, activity);
    let known = activities_of(again, activity);
    let next = all_stored(table, time_repairs(columns, rows, activities));
    repair_stores_the_times(columns, table, rows, activities);
    assert forall|k: int| 0 <= k < again.len() implies !time_changes(
        (#[trigger] again[k]).updated_at,
        known[k],
    ) by {
        assert(is_time_in(next, again[k]));
        let i = choose|i: int| 0 <= i < next.len() && reads_time_of(#[trigger] next[i], again[k]);
        assert(is_true(sql_value(has_rollout_path(), table[i], SqlTerm::Null)));
        assert(is_time_among(rows, table[i]));
        let j = choose|j: int| 0 <= j < rows.len() && reads_time_of(table[i], #[trigger] rows[j]);
        assert(activities[j] == activity(rows[j].rollout_path@));
        assert(known[k] == activity(again[k].rollout_path@));
        lemma_repaired_time_stays(columns, table[i], next[i], rows[j], again[k], activity);
    }
    lemma_no_time_changes(columns, again, known);
}

/// Whether a thread has a time within a second of these seconds; a time that is null counts as the
/// epoch.
pub open spec fn is_within_a_second(
    thread: spec_fn(Seq<char>) -> SqlTerm,
    seconds: int,
) -> bool {
    match thread("updated_at"@) {
        SqlTerm::Integer(n) => seconds - 1 <= n <= seconds + 1,
        SqlTerm::Null => -1 <= seconds <= 1,
        _ => false,
    }
}

/// After a repair, every thread whose rollout file has an activity has a time within a second of it,
/// neither earlier nor later; the time of a thread without an activity is as it was.
pub proof fn repaired_times_are_within_a_second(
    columns: ThreadsTableColumns,
    table: Seq<spec_fn(Seq<char>) -> SqlTerm>,
    rows: Seq<ThreadTimeRow>,
    activities: Seq<Option<i128>>,
    i: int,
    j: int,
    seconds: i64,
)
    requires
        unique_ids(table),
        reads_times(table, rows),
        rows.len() == activities.len(),
        0 <= i < table.len(),
        0 <= j < rows.len(),
        reads_time_of(table[i], rows[j]),
        activities[j] matches Some(millis) ==> is_seconds_of(seconds as int, millis as int),
    ensures
        ({
            let next = all_stored(table, time_repairs(columns, rows, activities));
            &&& activities[j] is Some ==> is_within_a_second(next[i], seconds as int)
            &&& activities[j] is None ==> next[i] == table[i]
            &&& activities[j] is Some && is_within_a_second(table[i], seconds as int) ==> next[i]
                == table[i]
        }),
{
    repair_stores_the_times(columns, table, rows, activities);
    let next = all_stored(table, time_repairs(columns, rows, activities));
    assert(has_repaired_time(columns, table[i], next[i], rows[j], activities[j]));
}

} // verus!
