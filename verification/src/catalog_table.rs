//! The catalog's table before and after a repair: what the statements of a repair make of it, and
//! what a look at it finds then.

use vstd::prelude::*;

use crate::catalog::{
    catalog_sources, closing_statements, is_stale, lemma_sources_come_from_rows, listed, noted,
    offered, paths_are_settled, preview_result, row_columns, row_values,
    stale_row_is_brought_up_to_date, sum, upsert_changes_what_differs, upsert_conditions,
    upsert_statement, value_differs, CatalogLookup, CatalogQueryRow, SourceText,
};
use crate::sql_expr::{any_of, is_true, sql_value};
use crate::sql_table::{lemma_new_value, lemma_other_columns_stay, with_values};
use crate::sqlite::{text_term, SqlTerm, StatementText};
use crate::text::{begins_with, opt_view};

verus! {

/// The columns that a statement which lists a thread gives values for.
pub open spec fn inserted_columns() -> Seq<Seq<char>> {
    seq!["host_id"@, "thread_id"@] + row_columns() + seq![
        "observation_sequence"@,
        "missing_candidate"@,
    ]
}

/// The row that a statement inserts for a thread that is not listed: the parameters of the
/// statement, and that it is no candidate for removal.
pub open spec fn inserted_row(source: SourceText, sequence: i64) -> spec_fn(Seq<char>) -> SqlTerm {
    with_values(
        |name: Seq<char>| SqlTerm::Null,
        inserted_columns(),
        upsert_statement(source, sequence).parameters.push(SqlTerm::Integer(0)),
    )
}

/// What the condition of a statement looks at, for a row that is listed and one to be inserted.
pub open spec fn both_rows(
    there: spec_fn(Seq<char>) -> SqlTerm,
    new: spec_fn(Seq<char>) -> SqlTerm,
) -> spec_fn(Seq<char>) -> SqlTerm {
    |name: Seq<char>|
        if begins_with(name, "local_thread_catalog."@) {
            there(name.skip("local_thread_catalog."@.len() as int))
        } else {
            new(name.skip("excluded."@.len() as int))
        }
}

/// Whether a statement brings a row up to date with the one to be inserted.
pub open spec fn is_outdated(
    there: spec_fn(Seq<char>) -> SqlTerm,
    new: spec_fn(Seq<char>) -> SqlTerm,
) -> bool {
    is_true(sql_value(any_of(upsert_conditions()), both_rows(there, new), SqlTerm::Null))
}

/// The row once a statement has brought it up to date.
pub open spec fn brought_up(
    there: spec_fn(Seq<char>) -> SqlTerm,
    new: spec_fn(Seq<char>) -> SqlTerm,
) -> spec_fn(Seq<char>) -> SqlTerm {
    with_values(
        there,
        row_columns().push("missing_candidate"@),
        row_columns().map_values(|name: Seq<char>| new(name)).push(SqlTerm::Integer(0)),
    )
}

/// Whether a row lists this thread of the local host.
pub open spec fn lists_thread(row: spec_fn(Seq<char>) -> SqlTerm, id: Seq<char>) -> bool {
    row("host_id"@) == SqlTerm::Text("local"@) && row("thread_id"@) == SqlTerm::Text(id)
}

/// Whether the table lists this thread of the local host.
pub open spec fn is_listed(table: Seq<spec_fn(Seq<char>) -> SqlTerm>, id: Seq<char>) -> bool {
    exists|i: int| 0 <= i < table.len() && lists_thread(#[trigger] table[i], id)
}

/// Whether no two rows list the same thread of the local host.
pub open spec fn lists_each_once(table: Seq<spec_fn(Seq<char>) -> SqlTerm>) -> bool {
    forall|i: int, j: int, id: Seq<char>|
        #![trigger lists_thread(table[i], id), lists_thread(table[j], id)]
        0 <= i < table.len() && 0 <= j < table.len() && lists_thread(table[i], id) && lists_thread(
            table[j],
            id,
        ) ==> i == j
}

/// The table once the statement for a thread is carried out.
pub open spec fn upserted(
    table: Seq<spec_fn(Seq<char>) -> SqlTerm>,
    source: SourceText,
    sequence: i64,
) -> Seq<spec_fn(Seq<char>) -> SqlTerm> {
    let new = inserted_row(source, sequence);
    if is_listed(table, source.id) {
        table.map_values(
            |row: spec_fn(Seq<char>) -> SqlTerm|
                if lists_thread(row, source.id) && is_outdated(row, new) {
                    brought_up(row, new)
                } else {
                    row
                },
        )
    } else {
        table.push(new)
    }
}

/// Whether the table lists the thread in a row that its statement brings up to date.
pub open spec fn is_listed_otherwise(
    table: Seq<spec_fn(Seq<char>) -> SqlTerm>,
    source: SourceText,
    sequence: i64,
) -> bool {
    exists|i: int|
        0 <= i < table.len() && lists_thread(#[trigger] table[i], source.id) && is_outdated(
            table[i],
            inserted_row(source, sequence),
        )
}

/// How many rows the statement for a thread changes, in a table that lists each thread once.
pub open spec fn upsert_count(
    table: Seq<spec_fn(Seq<char>) -> SqlTerm>,
    source: SourceText,
    sequence: i64,
) -> usize {
    if !is_listed(table, source.id) || is_listed_otherwise(table, source, sequence) {
        1
    } else {
        0
    }
}

/// The table once the statements for all threads are carried out, one after the other.
pub open spec fn all_upserted(
    table: Seq<spec_fn(Seq<char>) -> SqlTerm>,
    sources: Seq<SourceText>,
    newest: i64,
) -> Seq<spec_fn(Seq<char>) -> SqlTerm>
    decreases sources.len(),
{
    if sources.len() == 0 {
        table
    } else {
        upserted(
            all_upserted(table, sources.drop_last(), newest),
            sources.last(),
            (newest + sources.len()) as i64,
        )
    }
}

/// How many rows each of the statements changes.
pub open spec fn upsert_counts(
    table: Seq<spec_fn(Seq<char>) -> SqlTerm>,
    sources: Seq<SourceText>,
    newest: i64,
) -> Seq<usize>
    decreases sources.len(),
{
    if sources.len() == 0 {
        seq![]
    } else {
        upsert_counts(table, sources.drop_last(), newest).push(
            upsert_count(
                all_upserted(table, sources.drop_last(), newest),
                sources.last(),
                (newest + sources.len()) as i64,
            ),
        )
    }
}

/// Whether no two of the threads have the same id.
pub open spec fn are_distinct(sources: Seq<SourceText>) -> bool {
    forall|i: int, j: int|
        #![trigger sources[i], sources[j]]
        0 <= i < j < sources.len() ==> sources[i].id != sources[j].id
}

/// Whether a row says something else of a thread than is known of it, or is a candidate for removal.
pub open spec fn row_differs(row: spec_fn(Seq<char>) -> SqlTerm, source: SourceText) -> bool {
    ||| exists|i: int|
        0 <= i < row_columns().len() && value_differs(
            #[trigger] row_columns()[i],
            row(row_columns()[i]),
            row_values(source)[i],
        )
    ||| !(row("missing_candidate"@) is Null) && row("missing_candidate"@) != SqlTerm::Integer(0)
}

proof fn lemma_catalog_columns()
    ensures
        forall|i: int, j: int|
            0 <= i < j < inserted_columns().len() ==> #[trigger] inserted_columns()[i]
                != #[trigger] inserted_columns()[j],
{
    reveal_strlit("host_id");
    reveal_strlit("thread_id");
    reveal_strlit("display_title");
    reveal_strlit("source_created_at");
    reveal_strlit("source_updated_at");
    reveal_strlit("cwd");
    reveal_strlit("source_kind");
    reveal_strlit("source_detail");
    reveal_strlit("model_provider");
    reveal_strlit("git_branch");
    reveal_strlit("observation_sequence");
    reveal_strlit("missing_candidate");
    assert("host_id"@.len() == 7 && "thread_id"@.len() == 9 && "cwd"@.len() == 3);
    assert("source_kind"@.len() == 11 && "model_provider"@.len() == 14);
    assert("git_branch"@.len() == 10 && "observation_sequence"@.len() == 20);
    assert("display_title"@.len() == 13 && "source_detail"@.len() == 13);
    assert("display_title"@[0] == 'd' && "source_detail"@[0] == 's');
    assert("source_created_at"@.len() == 17 && "source_updated_at"@.len() == 17);
    assert("missing_candidate"@.len() == 17 && "missing_candidate"@[0] == 'm');
    assert("source_created_at"@[0] == 's' && "source_updated_at"@[0] == 's');
    assert("source_created_at"@[7] == 'c' && "source_updated_at"@[7] == 'u');
}

proof fn lemma_inserted_row(source: SourceText, sequence: i64)
    ensures
        lists_thread(inserted_row(source, sequence), source.id),
        forall|i: int|
            0 <= i < row_columns().len() ==> inserted_row(source, sequence)(
                #[trigger] row_columns()[i],
            ) == row_values(source)[i],
        inserted_row(source, sequence)("missing_candidate"@) == SqlTerm::Integer(0),
{
    let none = |name: Seq<char>| SqlTerm::Null;
    let columns = inserted_columns();
    let values = upsert_statement(source, sequence).parameters.push(SqlTerm::Integer(0));
    lemma_catalog_columns();
    lemma_new_value(none, columns, values, 0);
    lemma_new_value(none, columns, values, 1);
    lemma_new_value(none, columns, values, 11);
    assert(columns[0] == "host_id"@ && columns[1] == "thread_id"@);
    assert(columns[11] == "missing_candidate"@);
    assert forall|i: int| 0 <= i < row_columns().len() implies inserted_row(source, sequence)(
        #[trigger] row_columns()[i],
    ) == row_values(source)[i] by {
        lemma_new_value(none, columns, values, i + 2);
        assert(columns[i + 2] == row_columns()[i]);
        assert(values[i + 2] == row_values(source)[i]);
    }
}

proof fn lemma_both_rows(
    there: spec_fn(Seq<char>) -> SqlTerm,
    new: spec_fn(Seq<char>) -> SqlTerm,
    name: Seq<char>,
)
    ensures
        both_rows(there, new)(listed(name)) == there(name),
        both_rows(there, new)(offered(name)) == new(name),
{
    reveal_strlit("local_thread_catalog.");
    reveal_strlit("excluded.");
    let table = "local_thread_catalog."@;
    let other = "excluded."@;
    assert(listed(name).take(table.len() as int) =~= table);
    assert(listed(name).skip(table.len() as int) =~= name);
    assert(offered(name)[0] == 'e' && table[0] == 'l');
    assert(!begins_with(offered(name), table)) by {
        if begins_with(offered(name), table) {
            assert(offered(name).take(table.len() as int)[0] == table[0]);
        }
    }
    assert(offered(name).skip(other.len() as int) =~= name);
}

proof fn lemma_outdated(
    row: spec_fn(Seq<char>) -> SqlTerm,
    source: SourceText,
    sequence: i64,
)
    ensures
        is_outdated(row, inserted_row(source, sequence)) <==> row_differs(row, source),
{
    let new = inserted_row(source, sequence);
    let both = both_rows(row, new);
    upsert_changes_what_differs(both, SqlTerm::Null);
    lemma_inserted_row(source, sequence);
    lemma_both_rows(row, new, "missing_candidate"@);
    assert forall|i: int| 0 <= i < row_columns().len() implies both(
        listed(#[trigger] row_columns()[i]),
    ) == row(row_columns()[i]) && both(offered(row_columns()[i])) == row_values(source)[i] by {
        lemma_both_rows(row, new, row_columns()[i]);
    }
}

proof fn lemma_brought_up(
    row: spec_fn(Seq<char>) -> SqlTerm,
    source: SourceText,
    sequence: i64,
)
    ensures
        !row_differs(brought_up(row, inserted_row(source, sequence)), source),
        !row_differs(inserted_row(source, sequence), source),
        forall|id: Seq<char>|
            #[trigger] lists_thread(brought_up(row, inserted_row(source, sequence)), id)
                <==> lists_thread(row, id),
{
    let new = inserted_row(source, sequence);
    let columns = row_columns().push("missing_candidate"@);
    let values = row_columns().map_values(|name: Seq<char>| new(name)).push(SqlTerm::Integer(0));
    let next = brought_up(row, new);
    lemma_catalog_columns();
    lemma_inserted_row(source, sequence);
    let all = inserted_columns();
    assert forall|i: int| 0 <= i < columns.len() implies #[trigger] columns[i] == all[
        if i < 8 { i + 2 } else { 11 }
    ] by {}
    assert forall|i: int| 0 <= i < row_columns().len() implies next(#[trigger] row_columns()[i])
        == row_values(source)[i] by {
        assert(columns[i] == row_columns()[i]);
        lemma_new_value(row, columns, values, i);
    }
    lemma_new_value(row, columns, values, 8);
    assert(columns[8] == "missing_candidate"@);
    assert(all[0] == "host_id"@ && all[1] == "thread_id"@);
    lemma_other_columns_stay(row, columns, values, "host_id"@);
    lemma_other_columns_stay(row, columns, values, "thread_id"@);
}

/// Whether a table lists each thread once and has `before` in it: every row of `before` stands in
/// its place, unless it lists one of the threads, and what is new lists one of them.
pub open spec fn extends(
    before: Seq<spec_fn(Seq<char>) -> SqlTerm>,
    after: Seq<spec_fn(Seq<char>) -> SqlTerm>,
    sources: Seq<SourceText>,
) -> bool {
    &&& lists_each_once(after)
    &&& before.len() <= after.len()
    &&& forall|i: int|
        0 <= i < before.len() ==> #[trigger] after[i] == before[i] || lists_one_of(
            before[i],
            sources,
        )
    &&& forall|i: int, id: Seq<char>|
        0 <= i < before.len() ==> (#[trigger] lists_thread(after[i], id) <==> lists_thread(
            before[i],
            id,
        ))
    &&& forall|i: int|
        before.len() <= i < after.len() ==> lists_one_of(#[trigger] after[i], sources)
}

/// Whether a row lists one of the threads.
pub open spec fn lists_one_of(
    row: spec_fn(Seq<char>) -> SqlTerm,
    sources: Seq<SourceText>,
) -> bool {
    exists|k: int| 0 <= k < sources.len() && lists_thread(row, (#[trigger] sources[k]).id)
}

/// Whether the table lists a thread as it should be listed.
pub open spec fn is_listed_rightly(
    table: Seq<spec_fn(Seq<char>) -> SqlTerm>,
    source: SourceText,
) -> bool {
    &&& is_listed(table, source.id)
    &&& forall|i: int|
        0 <= i < table.len() && lists_thread(#[trigger] table[i], source.id) ==> !row_differs(
            table[i],
            source,
        )
}

proof fn lemma_one_upsert(
    table: Seq<spec_fn(Seq<char>) -> SqlTerm>,
    source: SourceText,
    sequence: i64,
)
    requires
        lists_each_once(table),
    ensures
        extends(table, upserted(table, source, sequence), seq![source]),
        is_listed_rightly(upserted(table, source, sequence), source),
{
    let new = inserted_row(source, sequence);
    let next = upserted(table, source, sequence);
    let one = seq![source];
    lemma_inserted_row(source, sequence);
    assert forall|i: int, id: Seq<char>| 0 <= i < table.len() implies (#[trigger] lists_thread(
        next[i],
        id,
    ) <==> lists_thread(table[i], id)) by {
        lemma_brought_up(table[i], source, sequence);
    }
    assert(one[0] == source);
    assert forall|i: int| 0 <= i < table.len() implies #[trigger] next[i] == table[i]
        || lists_one_of(table[i], one) by {
        if next[i] != table[i] {
            assert(lists_thread(table[i], one[0].id));
        }
    }
    if !is_listed(table, source.id) {
        assert(next[table.len() as int] == new);
        assert(lists_thread(new, one[0].id));
        assert forall|i: int| 0 <= i < table.len() implies !lists_thread(
            #[trigger] table[i],
            source.id,
        ) by {}
    }
    assert forall|i: int, j: int, id: Seq<char>|
        #![trigger lists_thread(next[i], id), lists_thread(next[j], id)]
        0 <= i < next.len() && 0 <= j < next.len() && lists_thread(next[i], id) && lists_thread(
            next[j],
            id,
        ) implies i == j by {
        if i < table.len() && j < table.len() {
            assert(lists_thread(table[i], id) && lists_thread(table[j], id));
        } else if i < table.len() {
            assert(lists_thread(table[i], id));
            assert(id == source.id);
        } else if j < table.len() {
            assert(lists_thread(table[j], id));
            assert(id == source.id);
        }
    }
    if is_listed(table, source.id) {
        let i = choose|i: int| 0 <= i < table.len() && lists_thread(#[trigger] table[i], source.id);
        assert(lists_thread(next[i], source.id));
    } else {
        assert(lists_thread(next[table.len() as int], source.id));
    }
    assert forall|i: int| 0 <= i < next.len() && lists_thread(#[trigger] next[i], source.id) implies
        !row_differs(next[i], source) by {
        if i < table.len() {
            lemma_brought_up(table[i], source, sequence);
            lemma_outdated(table[i], source, sequence);
            assert(lists_thread(table[i], source.id));
        } else {
            lemma_brought_up(new, source, sequence);
        }
    }
}

proof fn lemma_same_count(
    table: Seq<spec_fn(Seq<char>) -> SqlTerm>,
    after: Seq<spec_fn(Seq<char>) -> SqlTerm>,
    sources: Seq<SourceText>,
    source: SourceText,
    sequence: i64,
)
    requires
        extends(table, after, sources),
        forall|k: int| 0 <= k < sources.len() ==> (#[trigger] sources[k]).id != source.id,
    ensures
        is_listed(after, source.id) <==> is_listed(table, source.id),
        forall|i: int|
            0 <= i < after.len() && lists_thread(#[trigger] after[i], source.id) ==> i < table.len()
                && after[i] == table[i],
        upsert_count(after, source, sequence) == upsert_count(table, source, sequence),
{
    assert forall|i: int| 0 <= i < after.len() && lists_thread(
        #[trigger] after[i],
        source.id,
    ) implies i < table.len() && after[i] == table[i] by {
        if i >= table.len() {
            assert(lists_one_of(after[i], sources));
        } else {
            assert(lists_thread(table[i], source.id));
            if after[i] != table[i] {
                assert(lists_one_of(table[i], sources));
            }
        }
    }
    if is_listed(table, source.id) {
        let i = choose|i: int| 0 <= i < table.len() && lists_thread(#[trigger] table[i], source.id);
        assert(lists_thread(after[i], source.id));
    }
    if is_listed_otherwise(table, source, sequence) {
        let i = choose|i: int|
            0 <= i < table.len() && lists_thread(#[trigger] table[i], source.id) && is_outdated(
                table[i],
                inserted_row(source, sequence),
            );
        assert(lists_thread(after[i], source.id));
        assert(after[i] == table[i]);
    }
}

proof fn lemma_all_upserts(
    table: Seq<spec_fn(Seq<char>) -> SqlTerm>,
    sources: Seq<SourceText>,
    newest: i64,
)
    requires
        lists_each_once(table),
        are_distinct(sources),
    ensures
        extends(table, all_upserted(table, sources, newest), sources),
        forall|k: int|
            0 <= k < sources.len() ==> is_listed_rightly(
                all_upserted(table, sources, newest),
                #[trigger] sources[k],
            ),
        upsert_counts(table, sources, newest).len() == sources.len(),
        forall|k: int|
            0 <= k < sources.len() ==> #[trigger] upsert_counts(table, sources, newest)[k]
                == upsert_count(table, sources[k], (newest + k + 1) as i64),
    decreases sources.len(),
{
    if sources.len() > 0 {
        let rest = sources.drop_last();
        let last = sources.last();
        let n = sources.len() - 1;
        let sequence = (newest + sources.len()) as i64;
        assert(sources[n] == last);
        assert forall|i: int, j: int|
            #![trigger rest[i], rest[j]]
            0 <= i < j < rest.len() implies rest[i].id != rest[j].id by {
            assert(rest[i] == sources[i] && rest[j] == sources[j]);
        }
        lemma_all_upserts(table, rest, newest);
        let before = all_upserted(table, rest, newest);
        let next = all_upserted(table, sources, newest);
        lemma_one_upsert(before, last, sequence);
        assert forall|k: int| 0 <= k < rest.len() implies (#[trigger] rest[k]).id != last.id by {
            assert(rest[k] == sources[k]);
            assert(sources[k].id != sources[n].id);
        }
        lemma_same_count(table, before, rest, last, sequence);
        lemma_extends_further(table, before, next, rest, last);
        assert(rest.push(last) =~= sources);
        let counts = upsert_counts(table, sources, newest);
        assert forall|k: int| 0 <= k < sources.len() implies #[trigger] counts[k] == upsert_count(
            table,
            sources[k],
            (newest + k + 1) as i64,
        ) by {
            if k < rest.len() {
                assert(counts[k] == upsert_counts(table, rest, newest)[k]);
                assert(rest[k] == sources[k]);
            }
        }
        assert forall|k: int| 0 <= k < sources.len() implies is_listed_rightly(
            next,
            #[trigger] sources[k],
        ) by {
            if k < rest.len() {
                assert(rest[k] == sources[k]);
                assert(is_listed_rightly(before, rest[k]));
                lemma_same_count(before, next, seq![last], sources[k], sequence);
                assert forall|i: int|
                    0 <= i < next.len() && lists_thread(#[trigger] next[i], sources[k].id) implies
                    !row_differs(next[i], sources[k]) by {
                    assert(lists_thread(before[i], sources[k].id));
                }
            }
        }
    }
}

proof fn lemma_extends_further(
    table: Seq<spec_fn(Seq<char>) -> SqlTerm>,
    before: Seq<spec_fn(Seq<char>) -> SqlTerm>,
    next: Seq<spec_fn(Seq<char>) -> SqlTerm>,
    rest: Seq<SourceText>,
    last: SourceText,
)
    requires
        extends(table, before, rest),
        extends(before, next, seq![last]),
    ensures
        extends(table, next, rest.push(last)),
{
    let sources = rest.push(last);
    let one = seq![last];
    assert forall|row: spec_fn(Seq<char>) -> SqlTerm| #[trigger]
        lists_one_of(row, rest) implies lists_one_of(row, sources) by {
        let k = choose|k: int| 0 <= k < rest.len() && lists_thread(row, (#[trigger] rest[k]).id);
        assert(sources[k] == rest[k]);
    }
    assert forall|row: spec_fn(Seq<char>) -> SqlTerm| #[trigger]
        lists_one_of(row, one) implies lists_one_of(row, sources) by {
        let k = choose|k: int| 0 <= k < one.len() && lists_thread(row, (#[trigger] one[k]).id);
        assert(sources[rest.len() as int] == one[k]);
    }
    assert forall|i: int| 0 <= i < table.len() implies #[trigger] next[i] == table[i]
        || lists_one_of(table[i], sources) by {
        if before[i] != table[i] {
            assert(lists_one_of(table[i], rest));
        } else if next[i] != before[i] {
            assert(lists_one_of(before[i], one));
        }
    }
    assert forall|i: int, id: Seq<char>| 0 <= i < table.len() implies (#[trigger] lists_thread(
        next[i],
        id,
    ) <==> lists_thread(table[i], id)) by {
        assert(lists_thread(next[i], id) <==> lists_thread(before[i], id));
        assert(lists_thread(before[i], id) <==> lists_thread(table[i], id));
    }
    assert forall|i: int| table.len() <= i < next.len() implies lists_one_of(
        #[trigger] next[i],
        sources,
    ) by {
        if i < before.len() {
            assert(lists_one_of(before[i], rest));
            let k = choose|k: int|
                0 <= k < rest.len() && lists_thread(before[i], (#[trigger] rest[k]).id);
            assert(lists_thread(next[i], rest[k].id));
            assert(lists_one_of(next[i], rest));
        } else {
            assert(lists_one_of(next[i], one));
        }
    }
}

/// A repair removes no row. It changes none but those that list one of the threads for the local
/// host, and adds none but such rows. Then each of the threads is listed once and as it should be.
pub proof fn repair_changes_its_threads_alone(
    table: Seq<spec_fn(Seq<char>) -> SqlTerm>,
    sources: Seq<SourceText>,
    newest: i64,
)
    requires
        lists_each_once(table),
        are_distinct(sources),
    ensures
        extends(table, all_upserted(table, sources, newest), sources),
        forall|k: int|
            0 <= k < sources.len() ==> is_listed_rightly(
                all_upserted(table, sources, newest),
                #[trigger] sources[k],
            ),
{
    lemma_all_upserts(table, sources, newest);
}

proof fn lemma_nothing_upserted(
    table: Seq<spec_fn(Seq<char>) -> SqlTerm>,
    sources: Seq<SourceText>,
    newest: i64,
)
    requires
        forall|k: int| 0 <= k < sources.len() ==> is_listed_rightly(table, #[trigger] sources[k]),
    ensures
        all_upserted(table, sources, newest) == table,
        sum(upsert_counts(table, sources, newest)) == 0,
    decreases sources.len(),
{
    if sources.len() > 0 {
        let rest = sources.drop_last();
        let last = sources.last();
        let sequence = (newest + sources.len()) as i64;
        assert(last == sources[sources.len() - 1]);
        assert forall|k: int| 0 <= k < rest.len() implies is_listed_rightly(
            table,
            #[trigger] rest[k],
        ) by {
            assert(rest[k] == sources[k]);
        }
        lemma_nothing_upserted(table, rest, newest);
        assert(is_listed_rightly(table, last));
        assert forall|i: int| 0 <= i < table.len() && lists_thread(
            #[trigger] table[i],
            last.id,
        ) implies !is_outdated(table[i], inserted_row(last, sequence)) by {
            lemma_outdated(table[i], last, sequence);
        }
        assert(upserted(table, last, sequence) =~= table);
        let counts = upsert_counts(table, sources, newest);
        assert(counts.drop_last() =~= upsert_counts(table, rest, newest));
        assert(counts.last() == 0);
    }
}

/// A second repair with the same threads changes nothing and notes nothing.
pub proof fn second_repair_changes_nothing(
    table: Seq<spec_fn(Seq<char>) -> SqlTerm>,
    sources: Seq<SourceText>,
    newest: i64,
    later: i64,
)
    requires
        lists_each_once(table),
        are_distinct(sources),
    ensures
        ({
            let next = all_upserted(table, sources, newest);
            &&& all_upserted(next, sources, later) == next
            &&& sum(upsert_counts(next, sources, later)) == 0
            &&& noted(upsert_counts(next, sources, later), later).len() == 0
        }),
{
    lemma_all_upserts(table, sources, newest);
    lemma_nothing_upserted(all_upserted(table, sources, newest), sources, later);
}

/// Whether a lookup is what the statement for it finds in the table.
pub open spec fn finds(
    table: Seq<spec_fn(Seq<char>) -> SqlTerm>,
    source: SourceText,
    lookup: CatalogLookup,
) -> bool {
    match lookup {
        CatalogLookup::Missing => !is_listed(table, source.id),
        CatalogLookup::Found(cwd, detail) => exists|i: int|
            0 <= i < table.len() && lists_thread(#[trigger] table[i], source.id) && table[i]("cwd"@)
                == SqlTerm::Text(cwd@) && table[i]("source_detail"@) == text_term(
                opt_view(detail),
            ),
        CatalogLookup::Failed(_) => false,
    }
}

proof fn lemma_found_stale(
    table: Seq<spec_fn(Seq<char>) -> SqlTerm>,
    rows: Seq<CatalogQueryRow>,
    k: int,
    lookup: CatalogLookup,
    sequence: i64,
)
    requires
        0 <= k < catalog_sources(rows).len(),
        paths_are_settled(catalog_sources(rows)[k]),
        finds(table, catalog_sources(rows)[k], lookup),
        lookup matches CatalogLookup::Found(cwd, detail) ==> is_stale(
            catalog_sources(rows)[k],
            cwd@,
            opt_view(detail),
        ),
    ensures
        upsert_count(table, catalog_sources(rows)[k], sequence) == 1,
{
    let source = catalog_sources(rows)[k];
    if let CatalogLookup::Found(cwd, detail) = lookup {
        let i = choose|i: int|
            0 <= i < table.len() && lists_thread(#[trigger] table[i], source.id) && table[i]("cwd"@)
                == SqlTerm::Text(cwd@) && table[i]("source_detail"@) == text_term(
                opt_view(detail),
            );
        let new = inserted_row(source, sequence);
        let at = lemma_sources_come_from_rows(rows, k);
        lemma_both_rows(table[i], new, "cwd"@);
        lemma_both_rows(table[i], new, "source_detail"@);
        lemma_inserted_row(source, sequence);
        assert(row_columns()[3] == "cwd"@ && row_columns()[5] == "source_detail"@);
        stale_row_is_brought_up_to_date(
            rows[at],
            cwd@,
            opt_view(detail),
            both_rows(table[i], new),
            SqlTerm::Null,
        );
        assert(is_outdated(table[i], new));
        assert(is_listed_otherwise(table, source, sequence));
    }
}

/// Whether the lookups are what the statements for them find in the table, one for each thread.
pub open spec fn finds_all(
    table: Seq<spec_fn(Seq<char>) -> SqlTerm>,
    sources: Seq<SourceText>,
    lookups: Seq<CatalogLookup>,
) -> bool {
    &&& lookups.len() == sources.len()
    &&& forall|k: int| 0 <= k < lookups.len() ==> finds(table, sources[k], #[trigger] lookups[k])
}

proof fn lemma_preview_within_repair(
    path: Seq<char>,
    table: Seq<spec_fn(Seq<char>) -> SqlTerm>,
    rows: Seq<CatalogQueryRow>,
    lookups: Seq<CatalogLookup>,
    newest: i64,
    n: int,
)
    requires
        lists_each_once(table),
        are_distinct(catalog_sources(rows)),
        forall|k: int|
            0 <= k < catalog_sources(rows).len() ==> paths_are_settled(
                #[trigger] catalog_sources(rows)[k],
            ),
        finds_all(table, catalog_sources(rows), lookups),
        0 <= n <= lookups.len(),
    ensures
        preview_result(path, catalog_sources(rows), lookups.take(n)) matches Ok((missing, stale))
            && missing + stale <= sum(upsert_counts(table, catalog_sources(rows), newest).take(n)),
    decreases n,
{
    let sources = catalog_sources(rows);
    let counts = upsert_counts(table, sources, newest);
    lemma_all_upserts(table, sources, newest);
    if n > 0 {
        lemma_preview_within_repair(path, table, rows, lookups, newest, n - 1);
        assert(lookups.take(n).drop_last() =~= lookups.take(n - 1));
        assert(counts.take(n).drop_last() =~= counts.take(n - 1));
        let lookup = lookups[n - 1];
        let sequence = (newest + (n - 1) + 1) as i64;
        assert(counts[n - 1] == upsert_count(table, sources[n - 1], sequence));
        assert(finds(table, sources[n - 1], lookup));
        if lookup matches CatalogLookup::Found(cwd, detail) ==> is_stale(
            sources[n - 1],
            cwd@,
            opt_view(detail),
        ) {
            lemma_found_stale(table, rows, n - 1, lookup, sequence);
        }
    }
}

/// A look at the catalog finds no more missing and stale rows than a repair changes, unless a path
/// has surrounding white space or an extended-length prefix.
pub proof fn preview_counts_what_the_repair_changes(
    path: Seq<char>,
    table: Seq<spec_fn(Seq<char>) -> SqlTerm>,
    rows: Seq<CatalogQueryRow>,
    lookups: Seq<CatalogLookup>,
    newest: i64,
)
    requires
        lists_each_once(table),
        are_distinct(catalog_sources(rows)),
        forall|k: int|
            0 <= k < catalog_sources(rows).len() ==> paths_are_settled(
                #[trigger] catalog_sources(rows)[k],
            ),
        finds_all(table, catalog_sources(rows), lookups),
    ensures
        preview_result(path, catalog_sources(rows), lookups) matches Ok((missing, stale)) && missing
            + stale <= sum(upsert_counts(table, catalog_sources(rows), newest)),
{
    let n = lookups.len() as int;
    lemma_preview_within_repair(path, table, rows, lookups, newest, n);
    lemma_all_upserts(table, catalog_sources(rows), newest);
    assert(lookups.take(n) =~= lookups);
    assert(upsert_counts(table, catalog_sources(rows), newest).take(n) =~= upsert_counts(
        table,
        catalog_sources(rows),
        newest,
    ));
}

/// A look at the catalog after a repair finds no missing and no stale row, unless a path has
/// surrounding white space or an extended-length prefix.
pub proof fn preview_after_a_repair_finds_nothing(
    path: Seq<char>,
    table: Seq<spec_fn(Seq<char>) -> SqlTerm>,
    rows: Seq<CatalogQueryRow>,
    lookups: Seq<CatalogLookup>,
    newest: i64,
)
    requires
        lists_each_once(table),
        are_distinct(catalog_sources(rows)),
        forall|k: int|
            0 <= k < catalog_sources(rows).len() ==> paths_are_settled(
                #[trigger] catalog_sources(rows)[k],
            ),
        finds_all(all_upserted(table, catalog_sources(rows), newest), catalog_sources(rows), lookups),
    ensures
        preview_result(path, catalog_sources(rows), lookups) == Ok::<(nat, nat), Seq<char>>(
            (0nat, 0nat),
        ),
{
    let sources = catalog_sources(rows);
    let next = all_upserted(table, sources, newest);
    second_repair_changes_nothing(table, sources, newest, newest);
    lemma_all_upserts(table, sources, newest);
    preview_counts_what_the_repair_changes(path, next, rows, lookups, newest);
}

/// The revision of the catalog once the statements are carried out: each that notes a new revision
/// raises it by one, or makes it the first.
pub open spec fn revision_after(revision: Option<int>, statements: Seq<StatementText>) -> Option<int>
    decreases statements.len(),
{
    if statements.len() == 0 {
        revision
    } else {
        let before = revision_after(revision, statements.drop_last());
        if statements.last() == closing_statements(0)[0] {
            match before {
                Some(revision) => Some(revision + 1),
                None => Some(1),
            }
        } else {
            before
        }
    }
}

/// A repair raises the revision of the catalog by one where it changed a row, and else leaves it.
pub proof fn changes_raise_the_revision_by_one(
    changed: Seq<usize>,
    newest: i64,
    revision: int,
)
    ensures
        revision_after(Some(revision), noted(changed, newest)) == if sum(changed) > 0 {
            Some(revision + 1)
        } else {
            Some(revision)
        },
{
    if sum(changed) > 0 {
        let statements = noted(changed, newest);
        let first = statements[0];
        let second = statements[1];
        assert(second.parameters.len() == 2);
        assert(first.parameters.len() == 0);
        assert(statements.drop_last() =~= seq![first]);
        assert(seq![first].drop_last() =~= seq![]);
        assert(revision_after(Some(revision), seq![]) == Some(revision));
        assert(revision_after(Some(revision), seq![first]) == Some(revision + 1));
    }
}

} // verus!
