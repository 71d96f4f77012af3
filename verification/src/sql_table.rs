//! Tables as the laws about statements see them: what a row holds, which rows a statement changes,
//! and what it makes of them.

use vstd::prelude::*;

use crate::sql_expr::{is_true, sql_text, sql_value, SqlExpr};
use crate::sqlite::{SqlTerm, StatementText};
use crate::text::{decimal, joined};

verus! {

/// What a row holds under a name once these values stand in these columns.
pub open spec fn value_in(
    row: spec_fn(Seq<char>) -> SqlTerm,
    columns: Seq<Seq<char>>,
    values: Seq<SqlTerm>,
    name: Seq<char>,
) -> SqlTerm
    decreases columns.len(),
{
    if columns.len() == 0 {
        row(name)
    } else if columns.last() == name {
        values[columns.len() - 1]
    } else {
        value_in(row, columns.drop_last(), values, name)
    }
}

/// The row once these values stand in these columns.
pub open spec fn with_values(
    row: spec_fn(Seq<char>) -> SqlTerm,
    columns: Seq<Seq<char>>,
    values: Seq<SqlTerm>,
) -> spec_fn(Seq<char>) -> SqlTerm {
    |name: Seq<char>| value_in(row, columns, values, name)
}

/// Columns without a new value hold what they held.
pub proof fn lemma_other_columns_stay(
    row: spec_fn(Seq<char>) -> SqlTerm,
    columns: Seq<Seq<char>>,
    values: Seq<SqlTerm>,
    name: Seq<char>,
)
    requires
        !columns.contains(name),
    ensures
        with_values(row, columns, values)(name) == row(name),
    decreases columns.len(),
{
    if columns.len() > 0 {
        assert(columns.last() == columns[columns.len() - 1]);
        assert forall|i: int| 0 <= i < columns.len() - 1 implies columns.drop_last()[i] != name by {
            assert(columns[i] != name);
        }
        lemma_other_columns_stay(row, columns.drop_last(), values, name);
    }
}

/// A column holds its new value.
pub proof fn lemma_new_value(
    row: spec_fn(Seq<char>) -> SqlTerm,
    columns: Seq<Seq<char>>,
    values: Seq<SqlTerm>,
    i: int,
)
    requires
        0 <= i < columns.len(),
        forall|j: int| i < j < columns.len() ==> #[trigger] columns[j] != columns[i],
    ensures
        with_values(row, columns, values)(columns[i]) == values[i],
    decreases columns.len(),
{
    if i < columns.len() - 1 {
        let rest = columns.drop_last();
        assert(columns.last() == columns[columns.len() - 1]);
        assert(rest[i] == columns[i]);
        assert forall|j: int| i < j < rest.len() implies #[trigger] rest[j] != rest[i] by {
            assert(rest[j] == columns[j]);
        }
        lemma_new_value(row, rest, values, i);
    }
}

/// A column that a statement assigns, and the expression that it is assigned.
pub struct Assignment {
    pub column: Seq<char>,
    pub value: SqlExpr,
}

/// The text of an assignment.
pub open spec fn assignment_text(assignment: Assignment) -> Seq<char> {
    assignment.column + " = "@ + sql_text(assignment.value)
}

/// The row once the assignments are made; all of them look at the row as it was.
pub open spec fn assigned_row(
    row: spec_fn(Seq<char>) -> SqlTerm,
    assignments: Seq<Assignment>,
    parameter: SqlTerm,
) -> spec_fn(Seq<char>) -> SqlTerm {
    with_values(
        row,
        assignments.map_values(|given: Assignment| given.column),
        assignments.map_values(|given: Assignment| sql_value(given.value, row, parameter)),
    )
}

/// How many rows meet a condition: what a count of them comes to, and how many rows a statement
/// with this condition changes.
pub open spec fn picked_count(
    table: Seq<spec_fn(Seq<char>) -> SqlTerm>,
    condition: SqlExpr,
    parameter: SqlTerm,
) -> nat
    decreases table.len(),
{
    if table.len() == 0 {
        0
    } else {
        picked_count(table.drop_last(), condition, parameter) + if is_true(
            sql_value(condition, table.last(), parameter),
        ) {
            1nat
        } else {
            0nat
        }
    }
}

/// The table once the assignments are made in the rows that meet the condition.
pub open spec fn updated_table(
    table: Seq<spec_fn(Seq<char>) -> SqlTerm>,
    condition: SqlExpr,
    assignments: Seq<Assignment>,
    parameter: SqlTerm,
) -> Seq<spec_fn(Seq<char>) -> SqlTerm> {
    table.map_values(
        |row: spec_fn(Seq<char>) -> SqlTerm|
            if is_true(sql_value(condition, row, parameter)) {
                assigned_row(row, assignments, parameter)
            } else {
                row
            },
    )
}

/// No more rows meet a condition than there are; none are counted where none meets it.
pub proof fn lemma_picked_count(
    table: Seq<spec_fn(Seq<char>) -> SqlTerm>,
    condition: SqlExpr,
    parameter: SqlTerm,
)
    ensures
        picked_count(table, condition, parameter) <= table.len(),
        (forall|i: int|
            0 <= i < table.len() ==> !is_true(sql_value(condition, #[trigger] table[i], parameter)))
            ==> picked_count(table, condition, parameter) == 0,
    decreases table.len(),
{
    if table.len() > 0 {
        lemma_picked_count(table.drop_last(), condition, parameter);
        if forall|i: int|
            0 <= i < table.len() ==> !is_true(sql_value(condition, #[trigger] table[i], parameter)) {
            let rest = table.drop_last();
            assert(table.last() == table[table.len() - 1]);
            assert forall|i: int| 0 <= i < rest.len() implies !is_true(
                sql_value(condition, #[trigger] rest[i], parameter),
            ) by {
                assert(rest[i] == table[i]);
            }
        }
    }
}

/// A statement that gives some columns of one thread new values.
pub struct KeyedUpdate {
    pub id: Seq<char>,
    pub columns: Seq<Seq<char>>,
    pub values: Seq<SqlTerm>,
}

/// The mark of a parameter.
pub open spec fn parameter_mark(number: nat) -> Seq<char> {
    "?"@ + decimal(number)
}

/// The texts that give each column its parameter.
pub open spec fn numbered_assignments(columns: Seq<Seq<char>>) -> Seq<Seq<char>> {
    Seq::new(columns.len(), |i: int| columns[i] + " = "@ + parameter_mark((i + 1) as nat))
}

/// The statement as it is written: the values are its first parameters, the id is its last.
pub open spec fn keyed_statement(update: KeyedUpdate) -> StatementText {
    StatementText {
        sql: "UPDATE threads SET "@ + joined(numbered_assignments(update.columns), ", "@)
            + " WHERE id = "@ + parameter_mark(update.columns.len() + 1),
        parameters: update.values.push(SqlTerm::Text(update.id)),
    }
}

/// Whether a row is the thread with this id.
pub open spec fn is_about(row: spec_fn(Seq<char>) -> SqlTerm, id: Seq<char>) -> bool {
    row("id"@) == SqlTerm::Text(id)
}

/// Whether no two threads have the same id.
pub open spec fn unique_ids(table: Seq<spec_fn(Seq<char>) -> SqlTerm>) -> bool {
    forall|i: int, j: int|
        #![trigger table[i], table[j]]
        0 <= i < j < table.len() ==> table[i]("id"@) != table[j]("id"@)
}

/// Whether the table has a thread with this id.
pub open spec fn is_stored(table: Seq<spec_fn(Seq<char>) -> SqlTerm>, id: Seq<char>) -> bool {
    exists|i: int| 0 <= i < table.len() && is_about(#[trigger] table[i], id)
}

/// How many rows a statement about this id changes.
pub open spec fn about_count(table: Seq<spec_fn(Seq<char>) -> SqlTerm>, id: Seq<char>) -> nat
    decreases table.len(),
{
    if table.len() == 0 {
        0
    } else {
        about_count(table.drop_last(), id) + if is_about(table.last(), id) {
            1nat
        } else {
            0nat
        }
    }
}

/// The table once a statement is carried out.
pub open spec fn stored(table: Seq<spec_fn(Seq<char>) -> SqlTerm>, update: KeyedUpdate) -> Seq<
    spec_fn(Seq<char>) -> SqlTerm,
> {
    table.map_values(
        |row: spec_fn(Seq<char>) -> SqlTerm|
            if is_about(row, update.id) {
                with_values(row, update.columns, update.values)
            } else {
                row
            },
    )
}

/// The table once all statements are carried out, one after the other.
pub open spec fn all_stored(
    table: Seq<spec_fn(Seq<char>) -> SqlTerm>,
    updates: Seq<KeyedUpdate>,
) -> Seq<spec_fn(Seq<char>) -> SqlTerm>
    decreases updates.len(),
{
    if updates.len() == 0 {
        table
    } else {
        stored(all_stored(table, updates.drop_last()), updates.last())
    }
}

/// How many rows the statements change, one after the other.
pub open spec fn stored_count(
    table: Seq<spec_fn(Seq<char>) -> SqlTerm>,
    updates: Seq<KeyedUpdate>,
) -> nat
    decreases updates.len(),
{
    if updates.len() == 0 {
        0
    } else {
        stored_count(table, updates.drop_last()) + about_count(
            all_stored(table, updates.drop_last()),
            updates.last().id,
        )
    }
}

/// Whether each statement is about another thread, and none gives a thread another id.
pub open spec fn keep_apart(updates: Seq<KeyedUpdate>) -> bool {
    &&& forall|i: int, j: int|
        #![trigger updates[i], updates[j]]
        0 <= i < j < updates.len() ==> updates[i].id != updates[j].id
    &&& forall|i: int|
        0 <= i < updates.len() ==> !(#[trigger] updates[i]).columns.contains("id"@)
}

/// No row is added and none is removed.
pub proof fn lemma_stored_len(
    table: Seq<spec_fn(Seq<char>) -> SqlTerm>,
    updates: Seq<KeyedUpdate>,
)
    ensures
        all_stored(table, updates).len() == table.len(),
    decreases updates.len(),
{
    if updates.len() > 0 {
        lemma_stored_len(table, updates.drop_last());
    }
}

proof fn lemma_keep_apart_before_last(updates: Seq<KeyedUpdate>)
    requires
        updates.len() > 0,
        keep_apart(updates),
    ensures
        keep_apart(updates.drop_last()),
{
    let rest = updates.drop_last();
    assert forall|i: int, j: int|
        #![trigger rest[i], rest[j]]
        0 <= i < j < rest.len() implies rest[i].id != rest[j].id by {
        assert(rest[i] == updates[i] && rest[j] == updates[j]);
    }
    assert forall|i: int| 0 <= i < rest.len() implies !(#[trigger] rest[i]).columns.contains(
        "id"@,
    ) by {
        assert(rest[i] == updates[i]);
    }
}

/// Statements about different threads change each thread that one of them is about as it says, and
/// no other thread.
pub proof fn lemma_all_stored(
    table: Seq<spec_fn(Seq<char>) -> SqlTerm>,
    updates: Seq<KeyedUpdate>,
    i: int,
)
    requires
        keep_apart(updates),
        0 <= i < table.len(),
    ensures
        all_stored(table, updates).len() == table.len(),
        all_stored(table, updates)[i]("id"@) == table[i]("id"@),
        forall|j: int|
            0 <= j < updates.len() && is_about(table[i], (#[trigger] updates[j]).id) ==> all_stored(
                table,
                updates,
            )[i] == with_values(table[i], updates[j].columns, updates[j].values),
        (forall|j: int| 0 <= j < updates.len() ==> !is_about(table[i], (#[trigger] updates[j]).id))
            ==> all_stored(table, updates)[i] == table[i],
    decreases updates.len(),
{
    if updates.len() > 0 {
        let rest = updates.drop_last();
        let last = updates.last();
        let n = updates.len() - 1;
        lemma_keep_apart_before_last(updates);
        lemma_all_stored(table, rest, i);
        assert(updates[n] == last);
        let before = all_stored(table, rest);
        assert(!last.columns.contains("id"@));
        lemma_other_columns_stay(before[i], last.columns, last.values, "id"@);
        if is_about(table[i], last.id) {
            assert forall|j: int| 0 <= j < rest.len() implies !is_about(
                table[i],
                (#[trigger] rest[j]).id,
            ) by {
                assert(rest[j] == updates[j]);
                assert(updates[j].id != updates[n].id);
            }
            assert(before[i] == table[i]);
        } else {
            if forall|j: int|
                0 <= j < updates.len() ==> !is_about(table[i], (#[trigger] updates[j]).id) {
                assert forall|j: int| 0 <= j < rest.len() implies !is_about(
                    table[i],
                    (#[trigger] rest[j]).id,
                ) by {
                    assert(rest[j] == updates[j]);
                }
            }
        }
        assert forall|j: int|
            0 <= j < updates.len() && is_about(table[i], (#[trigger] updates[j]).id) implies all_stored(
            table,
            updates,
        )[i] == with_values(table[i], updates[j].columns, updates[j].values) by {
            if j < n {
                assert(rest[j] == updates[j]);
                assert(updates[j].id != updates[n].id);
            }
        }
    }
}

proof fn lemma_about_none(table: Seq<spec_fn(Seq<char>) -> SqlTerm>, id: Seq<char>)
    requires
        forall|i: int| 0 <= i < table.len() ==> !is_about(#[trigger] table[i], id),
    ensures
        about_count(table, id) == 0,
    decreases table.len(),
{
    if table.len() > 0 {
        let rest = table.drop_last();
        assert(table.last() == table[table.len() - 1]);
        assert forall|i: int| 0 <= i < rest.len() implies !is_about(#[trigger] rest[i], id) by {
            assert(rest[i] == table[i]);
        }
        lemma_about_none(rest, id);
    }
}

proof fn lemma_about_one(table: Seq<spec_fn(Seq<char>) -> SqlTerm>, id: Seq<char>, at: int)
    requires
        unique_ids(table),
        0 <= at < table.len(),
        is_about(table[at], id),
    ensures
        about_count(table, id) == 1,
    decreases table.len(),
{
    let rest = table.drop_last();
    let n = table.len() - 1;
    assert(table.last() == table[n]);
    assert forall|i: int| 0 <= i < rest.len() implies #[trigger] rest[i] == table[i] by {}
    if at == n {
        assert forall|i: int| 0 <= i < rest.len() implies !is_about(#[trigger] rest[i], id) by {
            assert(table[i]("id"@) != table[n]("id"@));
        }
        lemma_about_none(rest, id);
    } else {
        assert(table[at]("id"@) != table[n]("id"@));
        assert(unique_ids(rest)) by {
            assert forall|i: int, j: int|
                #![trigger rest[i], rest[j]]
                0 <= i < j < rest.len() implies rest[i]("id"@) != rest[j]("id"@) by {
                assert(rest[i] == table[i] && rest[j] == table[j]);
            }
        }
        assert(rest[at] == table[at]);
        lemma_about_one(rest, id, at);
    }
}

/// Statements about different threads of the table change one row each.
pub proof fn lemma_stored_count(
    table: Seq<spec_fn(Seq<char>) -> SqlTerm>,
    updates: Seq<KeyedUpdate>,
)
    requires
        unique_ids(table),
        keep_apart(updates),
        forall|j: int| 0 <= j < updates.len() ==> is_stored(table, (#[trigger] updates[j]).id),
    ensures
        stored_count(table, updates) == updates.len(),
    decreases updates.len(),
{
    if updates.len() > 0 {
        let rest = updates.drop_last();
        let n = updates.len() - 1;
        lemma_keep_apart_before_last(updates);
        assert forall|j: int| 0 <= j < rest.len() implies is_stored(
            table,
            (#[trigger] rest[j]).id,
        ) by {
            assert(rest[j] == updates[j]);
        }
        lemma_stored_count(table, rest);
        let before = all_stored(table, rest);
        let id = updates[n].id;
        let at = choose|i: int| 0 <= i < table.len() && is_about(#[trigger] table[i], id);
        lemma_all_stored(table, rest, at);
        assert forall|i: int, j: int|
            #![trigger before[i], before[j]]
            0 <= i < j < before.len() implies before[i]("id"@) != before[j]("id"@) by {
            lemma_all_stored(table, rest, i);
            lemma_all_stored(table, rest, j);
            assert(table[i]("id"@) != table[j]("id"@));
        }
        lemma_about_one(before, id, at);
    }
}

} // verus!
