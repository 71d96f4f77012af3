//! Where a thread came from: a plain name, or JSON that points to the thread which spawned it.

use vstd::hash_map::StringHashMap;
use vstd::hash_set::StringHashSet;
use vstd::prelude::*;

use crate::catalog::{is_shown, lemma_coalesce_text, lemma_column_or_empty_text};
use crate::json::{member_of, parse_json, parsed_json, text_member, Json, JsonTree};
use crate::order::{
    is_text_less, lemma_place, place, placed, text_less, text_less_is_total,
    text_less_is_transitive, Sortable,
};
use crate::sql_expr::{
    arguments, column, empty_text, lemma_literals, lemma_select_one, lemma_select_one_more,
    literals_are_true, select_text, sql_text, sql_value, SqlExpr,
};
use crate::sqlite::{
    column_or, plain_query, query, rows_of, rows_result, scan_threads_table, statement_texts,
    threads_scan, RowsOutcome, SqlTerm, SqlValue, StateDatabase, Statement, StatementText,
    ThreadsTableColumns,
};
use crate::text::{
    begins_with, is_white, lemma_trimmed, lemma_trimmed_blank, opt_view, same_text, starts_with,
    trim, trimmed, views, white_space_around_a_text_is_dropped,
};

verus! {

/// Whether a source is a plain name: not blank and not JSON.
pub open spec fn is_plain(source: Seq<char>) -> bool {
    trimmed(source).len() > 0 && trimmed(source)[0] != '{'
}

/// Whether a source is a plain name.
pub fn is_plain_thread_source(value: &str) -> (plain: bool)
    ensures
        plain == is_plain(value@),
{
    let value = trim(value);
    proof {
        reveal_strlit("{");
        assert("{"@ =~= seq!['{']);
        if value@.len() > 0 {
            assert(begins_with(value@, "{"@) == (value@[0] == '{')) by {
                if value@[0] == '{' {
                    assert(value@.subrange(0, 1) =~= seq!['{']);
                } else {
                    assert(value@.subrange(0, 1)[0] == value@[0]);
                }
            }
        }
    }
    !value.as_str().is_empty() && !starts_with(value.as_str(), "{")
}

/// The thread that a document names as the one which spawned a thread.
pub open spec fn named_parent(source: JsonTree) -> Option<Seq<char>> {
    match member_of(source, "subagent"@) {
        Some(subagent) => match member_of(subagent, "thread_spawn"@) {
            Some(spawn) => text_member(spawn, "parent_thread_id"@),
            None => None,
        },
        None => None,
    }
}

/// The thread that a source names as the one which spawned a thread.
pub open spec fn parent_of(source: Seq<char>) -> Option<Seq<char>> {
    match parsed_json(trimmed(source)) {
        Some(document) => named_parent(document),
        None => None,
    }
}

/// The thread that a document names as the one which spawned a thread.
pub fn subagent_parent_thread_id(source: &Json) -> (parent: Option<String>)
    ensures
        opt_view(parent) == named_parent(source@),
{
    match source.get("subagent") {
        Some(subagent) => match subagent.get("thread_spawn") {
            Some(spawn) => match spawn.get_str("parent_thread_id") {
                Some(id) => Some(id.to_owned()),
                None => None,
            },
            None => None,
        },
        None => None,
    }
}

/// The thread that a source names as the one which spawned a thread.
pub fn parse_subagent_parent_thread_id(source: &str) -> (parent: Option<String>)
    ensures
        opt_view(parent) == parent_of(source@),
        parent is Some ==> !is_plain(source@),
{
    proof {
        lemma_trimmed(source@);
    }
    match parse_json(trim(source).as_str()) {
        Some(document) => subagent_parent_thread_id(&document),
        None => None,
    }
}

/// The thread reached from `id` by going `n` times to the thread that spawned it, past threads
/// whose source is not plain.
pub open spec fn ancestor(
    id: Seq<char>,
    sources: Map<Seq<char>, Seq<char>>,
    n: nat,
) -> Option<Seq<char>>
    decreases n,
{
    if n == 0 {
        Some(id)
    } else {
        match ancestor(id, sources, (n - 1) as nat) {
            Some(child) => if sources.contains_key(child) && !is_plain(sources[child]) {
                parent_of(sources[child])
            } else {
                None
            },
            None => None,
        }
    }
}

/// Whether the thread reached from `id` in `n` steps has a plain source.
pub open spec fn settles_at(
    id: Seq<char>,
    sources: Map<Seq<char>, Seq<char>>,
    n: nat,
) -> bool {
    ancestor(id, sources, n) matches Some(thread) && sources.contains_key(thread) && is_plain(
        sources[thread],
    )
}

/// The plain source that a thread has, itself or from the nearest thread above it that has one.
pub open spec fn effective_source(
    id: Seq<char>,
    sources: Map<Seq<char>, Seq<char>>,
) -> Option<Seq<char>> {
    if exists|n: nat| settles_at(id, sources, n) {
        let n = choose|n: nat| settles_at(id, sources, n);
        Some(trimmed(sources[ancestor(id, sources, n)->0]))
    } else {
        None
    }
}

proof fn lemma_ends(id: Seq<char>, sources: Map<Seq<char>, Seq<char>>, n: nat, m: nat)
    requires
        n <= m,
        ancestor(id, sources, n) is None,
    ensures
        ancestor(id, sources, m) is None,
    decreases m,
{
    if n < m {
        lemma_ends(id, sources, n, (m - 1) as nat);
    }
}

proof fn lemma_settles_once(id: Seq<char>, sources: Map<Seq<char>, Seq<char>>, n: nat, m: nat)
    requires
        settles_at(id, sources, n),
        settles_at(id, sources, m),
    ensures
        n == m,
{
    if n < m {
        assert(ancestor(id, sources, n + 1) is None);
        lemma_ends(id, sources, n + 1, m);
    } else if m < n {
        assert(ancestor(id, sources, m + 1) is None);
        lemma_ends(id, sources, m + 1, n);
    }
}

proof fn lemma_repeats(
    id: Seq<char>,
    sources: Map<Seq<char>, Seq<char>>,
    i: nat,
    k: nat,
    d: nat,
)
    requires
        ancestor(id, sources, i) == ancestor(id, sources, k),
    ensures
        ancestor(id, sources, i + d) == ancestor(id, sources, k + d),
    decreases d,
{
    if d > 0 {
        lemma_repeats(id, sources, i, k, (d - 1) as nat);
    }
}

proof fn lemma_cycle_never_settles(
    id: Seq<char>,
    sources: Map<Seq<char>, Seq<char>>,
    i: nat,
    k: nat,
    n: nat,
)
    requires
        i < k,
        ancestor(id, sources, i) == ancestor(id, sources, k),
        forall|j: nat| j < k ==> !settles_at(id, sources, j),
    ensures
        !settles_at(id, sources, n),
    decreases n,
{
    if n >= k {
        let m = (n - (k - i)) as nat;
        lemma_repeats(id, sources, i, k, (n - k) as nat);
        lemma_cycle_never_settles(id, sources, i, k, m);
    }
}

/// The sources of threads, by thread.
pub struct ThreadSources {
    by_id: StringHashMap<String>,
    ids: Vec<String>,
}

impl View for ThreadSources {
    type V = Map<Seq<char>, Seq<char>>;

    closed spec fn view(&self) -> Map<Seq<char>, Seq<char>> {
        self.by_id@.map_values(|source: String| source@)
    }
}

impl ThreadSources {
    /// Whether each thread is listed once.
    pub closed spec fn wf(self) -> bool {
        &&& views(self.ids@).no_duplicates()
        &&& forall|id: Seq<char>|
            self@.contains_key(id) <==> #[trigger] views(self.ids@).contains(id)
    }

    pub fn new() -> (sources: ThreadSources)
        ensures
            sources.wf(),
            sources@ == Map::<Seq<char>, Seq<char>>::empty(),
    {
        let sources = ThreadSources { by_id: StringHashMap::new(), ids: Vec::new() };
        assert(sources@ =~= Map::<Seq<char>, Seq<char>>::empty());
        sources
    }

    /// Notes the source of a thread, in place of an earlier one.
    pub fn insert(&mut self, id: String, source: String)
        requires
            old(self).wf(),
        ensures
            final(self).wf(),
            final(self)@ == old(self)@.insert(id@, source@),
    {
        let ghost before = self.ids@;
        let known = self.by_id.contains_key(id.as_str());
        if !known {
            self.ids.push(id.clone());
        }
        self.by_id.insert(id, source);
        proof {
            assert(self@ =~= old(self)@.insert(id@, source@));
            if !known {
                assert(views(self.ids@) =~= views(before).push(id@));
                assert(!views(before).contains(id@));
                assert forall|other: Seq<char>|
                    self@.contains_key(other) <==> #[trigger] views(self.ids@).contains(other) by {
                    if views(before).contains(other) {
                        let i = choose|i: int|
                            0 <= i < views(before).len() && views(before)[i] == other;
                        assert(views(self.ids@)[i] == other);
                    }
                    if other == id@ {
                        assert(views(self.ids@)[before.len() as int] == other);
                    }
                    if views(self.ids@).contains(other) && other != id@ {
                        let i = choose|i: int|
                            0 <= i < views(self.ids@).len() && views(self.ids@)[i] == other;
                        assert(views(before)[i] == other);
                    }
                }
            }
        }
    }

    /// The source of a thread.
    pub fn get(&self, id: &str) -> (source: Option<&String>)
        ensures
            match source {
                Some(source) => self@.contains_key(id@) && source@ == self@[id@],
                None => !self@.contains_key(id@),
            },
    {
        self.by_id.get(id)
    }
}

/// The plain source that a thread has, itself or from the nearest thread above it that has one.
/// Threads that spawned each other in a circle have none.
pub fn resolve_effective_thread_source(thread_id: &str, sources: &ThreadSources) -> (source: Option<
    String,
>)
    requires
        sources.wf(),
    ensures
        opt_view(source) == effective_source(thread_id@, sources@),
{
    let ghost id = thread_id@;
    let ghost all = sources@;
    let mut current = thread_id.to_owned();
    let mut seen = StringHashSet::new();
    let ghost mut k: nat = 0;
    proof {
        views(sources.ids@).lemma_cardinality_of_set();
    }
    loop
        invariant
            sources.wf(),
            id == thread_id@,
            all == sources@,
            ancestor(id, all, k) == Some(current@),
            forall|j: nat| j < k ==> !settles_at(id, all, j),
            forall|t: Seq<char>| #[trigger]
                seen@.contains(t) ==> all.contains_key(t) && exists|j: nat|
                    j < k && ancestor(id, all, j) == Some(t),
            seen@.finite(),
            seen@.len() == k,
            k <= views(sources.ids@).to_set().len(),
        decreases views(sources.ids@).to_set().len() - k,
    {
        let ghost before = seen@;
        if !seen.insert(current.clone()) {
            proof {
                let i = choose|j: nat| j < k && ancestor(id, all, j) == Some(current@);
                assert forall|n: nat| !settles_at(id, all, n) by {
                    lemma_cycle_never_settles(id, all, i, k, n);
                }
            }
            return None;
        }
        let source = match sources.get(current.as_str()) {
            Some(source) => source,
            None => {
                proof {
                    assert(ancestor(id, all, k + 1) is None);
                    assert forall|n: nat| !settles_at(id, all, n) by {
                        if n > k {
                            lemma_ends(id, all, k + 1, n);
                        }
                    }
                }
                return None;
            },
        };
        if is_plain_thread_source(source.as_str()) {
            proof {
                assert(settles_at(id, all, k));
                let n = choose|n: nat| settles_at(id, all, n);
                lemma_settles_once(id, all, n, k);
            }
            return Some(trim(source.as_str()));
        }
        assert(!settles_at(id, all, k));
        current =
        match parse_subagent_parent_thread_id(source.as_str()) {
            Some(parent) => parent,
            None => {
                proof {
                    assert(ancestor(id, all, k + 1) is None);
                    assert forall|n: nat| !settles_at(id, all, n) by {
                        if n > k {
                            lemma_ends(id, all, k + 1, n);
                        }
                    }
                }
                return None;
            },
        };
        proof {
            let last = k;
            k = k + 1;
            assert forall|t: Seq<char>| #[trigger] seen@.contains(t) implies all.contains_key(t)
                && exists|j: nat| j < k && ancestor(id, all, j) == Some(t) by {
                if before.contains(t) {
                    let j = choose|j: nat| j < last && ancestor(id, all, j) == Some(t);
                    assert(j < k);
                } else {
                    assert(ancestor(id, all, last) == Some(t));
                }
            }
            let listed = views(sources.ids@).to_set();
            assert forall|t: Seq<char>| seen@.contains(t) implies listed.contains(t) by {
                assert(views(sources.ids@).contains(t));
            }
            assert(seen@.subset_of(listed));
            vstd::seq_lib::seq_to_set_is_finite(views(sources.ids@));
            vstd::set_lib::lemma_len_subset(seen@, listed);
        }
    }
}

/// What reading the sources of the threads takes: nothing where there are none to read, else a
/// query.
pub open spec fn source_stage(path: Seq<char>, database: StateDatabase) -> Result<
    Option<StatementText>,
    Seq<char>,
> {
    match threads_scan(path, database) {
        Err(text) => Err(text),
        Ok(scan) => Ok(
            match scan.columns {
                Some(columns) => if columns.id && columns.source {
                    Some(plain_query(source_query(columns)))
                } else {
                    None
                },
                None => None,
            },
        ),
    }
}

/// The query for the sources of the threads.
pub open spec fn source_query(columns: ThreadsTableColumns) -> Seq<char> {
    "SELECT id, "@ + (if columns.thread_source {
        "COALESCE(NULLIF(source, ''), NULLIF(thread_source, ''), '')"@
    } else {
        "COALESCE(source, '')"@
    }) + " FROM threads"@
}

/// Begins to read the sources of the threads.
pub fn load_thread_source_map(path: &str, database: &StateDatabase) -> (statement: Result<
    Option<Statement>,
    String,
>)
    ensures
        match source_stage(path@, *database) {
            Ok(Some(text)) => statement matches Ok(Some(statement)) && statement@ == text,
            Ok(None) => statement matches Ok(None),
            Err(text) => statement matches Err(error) && error@ == text,
        },
{
    let scan = match scan_threads_table(path, database) {
        Ok(scan) => scan,
        Err(text) => return Err(text),
    };
    let columns = match scan.columns {
        Some(columns) => columns,
        None => return Ok(None),
    };
    if !columns.id || !columns.source {
        return Ok(None);
    }
    let source_expr = if columns.thread_source {
        "COALESCE(NULLIF(source, ''), NULLIF(thread_source, ''), '')"
    } else {
        "COALESCE(source, '')"
    };
    Ok(Some(query("SELECT id, ".to_owned().concat(source_expr).concat(" FROM threads"))))
}

/// The sources on the rows, by thread; of two rows for one thread the later counts.
pub open spec fn sources_of(rows: Seq<(String, String)>) -> Map<Seq<char>, Seq<char>>
    decreases rows.len(),
{
    if rows.len() == 0 {
        Map::empty()
    } else {
        sources_of(rows.drop_last()).insert(rows.last().0@, rows.last().1@)
    }
}

/// Ends reading the sources of the threads.
pub fn finish_thread_source_map(path: &str, outcome: RowsOutcome<(String, String)>) -> (sources:
    Result<ThreadSources, String>)
    ensures
        match rows_result(
            path@,
            outcome,
            "prepare SQLite source metadata query"@,
            "query SQLite source metadata rows"@,
            "read SQLite source metadata row"@,
        ) {
            Ok(rows) => sources matches Ok(sources) && sources.wf() && sources@ == sources_of(rows),
            Err(text) => sources matches Err(error) && error@ == text,
        },
{
    let rows = match rows_of(
        path,
        outcome,
        "prepare SQLite source metadata query",
        "query SQLite source metadata rows",
        "read SQLite source metadata row",
    ) {
        Ok(rows) => rows,
        Err(text) => return Err(text),
    };
    let ghost all = rows@;
    let mut sources = ThreadSources::new();
    for row in it: rows
        invariant
            it.seq() == all,
            sources.wf(),
            sources@ == sources_of(all.take(it.index() as int)),
    {
        assert(all.take(it.index() + 1).drop_last() =~= all.take(it.index() as int));
        let (id, source) = row;
        sources.insert(id, source);
    }
    assert(all.take(all.len() as int) =~= all);
    Ok(sources)
}

/// A thread whose source is to be replaced.
#[derive(Debug)]
pub struct ThreadSourceMetadataRepair {
    pub id: String,
    pub current_source: String,
    pub next_source: String,
}

impl Sortable for ThreadSourceMetadataRepair {
    open spec fn after(self, other: Self) -> bool {
        text_less(other.id@, self.id@)
    }

    proof fn after_is_an_order(a: Self, b: Self, c: Self) {
        text_less_is_total(a.id@, b.id@);
        text_less_is_total(b.id@, c.id@);
        text_less_is_total(a.id@, c.id@);
        if c.id@ != a.id@ && !a.after(b) && !b.after(c) && a.after(c) {
            if a.id@ != b.id@ {
                text_less_is_transitive(c.id@, a.id@, b.id@);
            }
        }
    }

    fn is_after(&self, other: &Self) -> (after: bool) {
        is_text_less(other.id.as_str(), self.id.as_str())
    }
}

/// Whether a thread has no plain source of its own but one from the threads above it.
pub open spec fn needs_source_repair(id: Seq<char>, sources: Map<Seq<char>, Seq<char>>) -> bool {
    &&& sources.contains_key(id)
    &&& !is_plain(sources[id])
    &&& parent_of(sources[id]) is Some
    &&& effective_source(id, sources) is Some
}

/// Whether `repairs` are those that the threads need, in the order of the threads' ids.
pub open spec fn are_source_repairs(
    repairs: Seq<ThreadSourceMetadataRepair>,
    sources: Map<Seq<char>, Seq<char>>,
) -> bool {
    &&& forall|i: int, j: int|
        0 <= i < j < repairs.len() ==> text_less(
            (#[trigger] repairs[i]).id@,
            (#[trigger] repairs[j]).id@,
        )
    &&& forall|i: int|
        0 <= i < repairs.len() ==> {
            &&& needs_source_repair((#[trigger] repairs[i]).id@, sources)
            &&& repairs[i].current_source@ == sources[repairs[i].id@]
            &&& Some(repairs[i].next_source@) == effective_source(repairs[i].id@, sources)
        }
    &&& forall|id: Seq<char>|
        needs_source_repair(id, sources) ==> exists|i: int|
            0 <= i < repairs.len() && #[trigger] repairs[i].id@ == id
}

/// The source that a thread has from above is plain and has no surrounding white space.
pub proof fn effective_source_is_plain(id: Seq<char>, sources: Map<Seq<char>, Seq<char>>)
    ensures
        effective_source(id, sources) matches Some(source) ==> is_plain(source) && trimmed(source)
            == source,
{
    if effective_source(id, sources) is Some {
        let n = choose|n: nat| settles_at(id, sources, n);
        lemma_trimmed(sources[ancestor(id, sources, n)->0]);
    }
}

proof fn lemma_placed_repair(
    repairs: Seq<ThreadSourceMetadataRepair>,
    repair: ThreadSourceMetadataRepair,
    after: Seq<ThreadSourceMetadataRepair>,
)
    requires
        after == placed(repairs, repair),
        forall|i: int, j: int|
            0 <= i < j < repairs.len() ==> text_less(
                (#[trigger] repairs[i]).id@,
                (#[trigger] repairs[j]).id@,
            ),
        forall|i: int| 0 <= i < repairs.len() ==> (#[trigger] repairs[i]).id@ != repair.id@,
    ensures
        forall|i: int, j: int|
            0 <= i < j < after.len() ==> text_less(
                (#[trigger] after[i]).id@,
                (#[trigger] after[j]).id@,
            ),
        forall|i: int|
            0 <= i < after.len() ==> (#[trigger] after[i]) == repair || repairs.contains(after[i]),
        forall|i: int|
            0 <= i < repairs.len() ==> after.contains(#[trigger] repairs[i]),
        after.contains(repair),
{
    let at = lemma_place(repairs, repair);
    assert(after[at] == repair);
    assert forall|i: int| 0 <= i < repairs.len() implies after.contains(#[trigger] repairs[i]) by {
        if i < at {
            assert(after[i] == repairs[i]);
        } else {
            assert(after[i + 1] == repairs[i]);
        }
    }
    assert forall|i: int| 0 <= i < after.len() implies (#[trigger] after[i]) == repair
        || repairs.contains(after[i]) by {
        if i < at {
            assert(after[i] == repairs[i]);
        } else if i > at {
            assert(after[i] == repairs[i - 1]);
        }
    }
    assert forall|i: int, j: int| 0 <= i < j < after.len() implies text_less(
        (#[trigger] after[i]).id@,
        (#[trigger] after[j]).id@,
    ) by {
        if j == at {
            assert(after[i] == repairs[i]);
            text_less_is_total(repairs[at - 1].id@, repair.id@);
            if i < at - 1 {
                text_less_is_transitive(repairs[i].id@, repairs[at - 1].id@, repair.id@);
            }
        } else if i == at {
            assert(after[j] == repairs[j - 1]);
            assert(repairs[j - 1].after(repair));
        } else {
            let a = if i < at {
                i
            } else {
                i - 1
            };
            let b = if j < at {
                j
            } else {
                j - 1
            };
            assert(after[i] == repairs[a] && after[j] == repairs[b]);
        }
    }
}

/// The repairs that the threads need, in the order of the threads' ids.
pub fn load_thread_source_metadata_repairs(sources: &ThreadSources) -> (repairs: Vec<
    ThreadSourceMetadataRepair,
>)
    requires
        sources.wf(),
    ensures
        are_source_repairs(repairs@, sources@),
{
    let ghost all = sources@;
    let ghost ids = views(sources.ids@);
    let mut repairs: Vec<ThreadSourceMetadataRepair> = Vec::new();
    let mut i: usize = 0;
    while i < sources.ids.len()
        invariant
            sources.wf(),
            all == sources@,
            ids == views(sources.ids@),
            i <= sources.ids@.len(),
            forall|a: int, b: int|
                0 <= a < b < repairs@.len() ==> text_less(
                    (#[trigger] repairs@[a]).id@,
                    (#[trigger] repairs@[b]).id@,
                ),
            forall|a: int|
                0 <= a < repairs@.len() ==> {
                    &&& needs_source_repair((#[trigger] repairs@[a]).id@, all)
                    &&& repairs@[a].current_source@ == all[repairs@[a].id@]
                    &&& Some(repairs@[a].next_source@) == effective_source(repairs@[a].id@, all)
                    &&& exists|j: int| 0 <= j < i && ids[j] == repairs@[a].id@
                },
            forall|j: int|
                0 <= j < i && needs_source_repair(#[trigger] ids[j], all) ==> exists|a: int|
                    0 <= a < repairs@.len() && #[trigger] repairs@[a].id@ == ids[j],
        decreases sources.ids@.len() - i,
    {
        let id = &sources.ids[i];
        let ghost before = repairs@;
        assert(ids[i as int] == id@);
        assert(ids.contains(id@));
        let mut found: Option<ThreadSourceMetadataRepair> = None;
        if let Some(current) = sources.get(id.as_str()) {
            if parse_subagent_parent_thread_id(current.as_str()).is_some() {
                if let Some(next) = resolve_effective_thread_source(id.as_str(), sources) {
                    proof {
                        effective_source_is_plain(id@, all);
                    }
                    if !same_text(current.as_str(), next.as_str()) {
                        found =
                        Some(
                            ThreadSourceMetadataRepair {
                                id: id.clone(),
                                current_source: current.clone(),
                                next_source: next,
                            },
                        );
                    }
                }
            }
        }
        if let Some(repair) = found {
            place(&mut repairs, repair);
            proof {
                assert forall|a: int| 0 <= a < before.len() implies (#[trigger] before[a]).id@
                    != repair.id@ by {
                    let j = choose|j: int| 0 <= j < i && ids[j] == before[a].id@;
                    assert(ids[j] != ids[i as int]);
                }
                lemma_placed_repair(before, repair, repairs@);
                assert forall|a: int| 0 <= a < repairs@.len() implies {
                    &&& needs_source_repair((#[trigger] repairs@[a]).id@, all)
                    &&& repairs@[a].current_source@ == all[repairs@[a].id@]
                    &&& Some(repairs@[a].next_source@) == effective_source(repairs@[a].id@, all)
                    &&& exists|j: int| 0 <= j < i + 1 && ids[j] == repairs@[a].id@
                } by {
                    if repairs@[a] == repair {
                        assert(ids[i as int] == repairs@[a].id@);
                    } else {
                        let b = choose|b: int| 0 <= b < before.len() && before[b] == repairs@[a];
                        let j = choose|j: int| 0 <= j < i && ids[j] == before[b].id@;
                        assert(ids[j] == repairs@[a].id@);
                    }
                }
                assert forall|j: int|
                    0 <= j < i + 1 && needs_source_repair(#[trigger] ids[j], all) implies exists|
                    a: int,
                |
                    0 <= a < repairs@.len() && #[trigger] repairs@[a].id@ == ids[j] by {
                    let wanted = if j < i {
                        let b = choose|b: int|
                            0 <= b < before.len() && #[trigger] before[b].id@ == ids[j];
                        before[b]
                    } else {
                        repair
                    };
                    assert(repairs@.contains(wanted));
                    let a = choose|a: int| 0 <= a < repairs@.len() && repairs@[a] == wanted;
                    assert(repairs@[a].id@ == ids[j]);
                }
            }
        } else {
            assert(!needs_source_repair(id@, all));
        }
        i += 1;
    }
    proof {
        assert forall|id: Seq<char>| needs_source_repair(id, all) implies exists|a: int|
            0 <= a < repairs@.len() && #[trigger] repairs@[a].id@ == id by {
            assert(ids.contains(id));
            let j = choose|j: int| 0 <= j < ids.len() && ids[j] == id;
            assert(needs_source_repair(ids[j], all));
        }
    }
    repairs
}

/// The threads whose source is to be replaced.
pub open spec fn threads_to_repair(sources: Map<Seq<char>, Seq<char>>) -> Set<Seq<char>> {
    Set::new(|id: Seq<char>| needs_source_repair(id, sources))
}

/// There are as many repairs as threads whose source is to be replaced.
pub proof fn one_repair_for_each_thread(
    repairs: Seq<ThreadSourceMetadataRepair>,
    sources: Map<Seq<char>, Seq<char>>,
)
    requires
        are_source_repairs(repairs, sources),
    ensures
        repairs.len() == threads_to_repair(sources).len(),
{
    let ids = repairs.map_values(|repair: ThreadSourceMetadataRepair| repair.id@);
    assert forall|i: int, j: int| 0 <= i < ids.len() && 0 <= j < ids.len() && i != j implies ids[i]
        != ids[j] by {
        if i < j {
            text_less_is_total(repairs[i].id@, repairs[j].id@);
        } else {
            text_less_is_total(repairs[j].id@, repairs[i].id@);
        }
    }
    ids.unique_seq_to_set();
    assert forall|id: Seq<char>| ids.to_set().contains(id) == threads_to_repair(sources).contains(
        id,
    ) by {
        if needs_source_repair(id, sources) {
            let i = choose|i: int| 0 <= i < repairs.len() && #[trigger] repairs[i].id@ == id;
            assert(ids[i] == id);
        }
        if ids.contains(id) {
            let i = choose|i: int| 0 <= i < ids.len() && ids[i] == id;
            assert(repairs[i].id@ == id);
        }
    }
    assert(ids.to_set() =~= threads_to_repair(sources));
}

/// Counts the threads whose source is to be replaced.
pub fn count_sqlite_thread_source_metadata_rows_to_update(sources: &ThreadSources) -> (count: usize)
    requires
        sources.wf(),
    ensures
        count == threads_to_repair(sources@).len(),
{
    let repairs = load_thread_source_metadata_repairs(sources);
    proof {
        one_repair_for_each_thread(repairs@, sources@);
    }
    repairs.len()
}

/// The statement that replaces the source of a thread, where it still is what it was.
pub open spec fn source_update(repair: ThreadSourceMetadataRepair) -> StatementText {
    StatementText {
        sql: "UPDATE threads SET source = ?1 WHERE id = ?2 AND source = ?3"@,
        parameters: seq![
            SqlTerm::Text(repair.next_source@),
            SqlTerm::Text(repair.id@),
            SqlTerm::Text(repair.current_source@),
        ],
    }
}

/// The statements that replace the sources of the threads. They are run in one transaction, and
/// the rows that they change are the result.
pub fn repair_sqlite_thread_source_metadata(repairs: &Vec<ThreadSourceMetadataRepair>) -> (statements:
    Vec<Statement>)
    ensures
        statement_texts(statements@) == repairs@.map_values(
            |repair: ThreadSourceMetadataRepair| source_update(repair),
        ),
{
    let mut statements: Vec<Statement> = Vec::new();
    let mut i: usize = 0;
    while i < repairs.len()
        invariant
            i <= repairs@.len(),
            statements@.len() == i,
            forall|j: int| 0 <= j < i ==> (#[trigger] statements@[j])@ == source_update(repairs@[j]),
        decreases repairs@.len() - i,
    {
        let repair = &repairs[i];
        let mut parameters: Vec<SqlValue> = Vec::new();
        parameters.push(SqlValue::Text(repair.next_source.clone()));
        parameters.push(SqlValue::Text(repair.id.clone()));
        parameters.push(SqlValue::Text(repair.current_source.clone()));
        let statement = Statement {
            sql: "UPDATE threads SET source = ?1 WHERE id = ?2 AND source = ?3".to_owned(),
            parameters,
        };
        assert(statement@.parameters =~= source_update(*repair).parameters);
        statements.push(statement);
        i += 1;
    }
    assert(statement_texts(statements@) =~= repairs@.map_values(
        |repair: ThreadSourceMetadataRepair| source_update(repair),
    ));
    statements
}

/// The sources of the threads once all repairs are made.
pub open spec fn repaired_sources(sources: Map<Seq<char>, Seq<char>>) -> Map<
    Seq<char>,
    Seq<char>,
> {
    Map::new(
        |id: Seq<char>| sources.contains_key(id),
        |id: Seq<char>|
            if needs_source_repair(id, sources) {
                effective_source(id, sources)->0
            } else {
                sources[id]
            },
    )
}

proof fn lemma_ancestor_of_ancestor(
    id: Seq<char>,
    sources: Map<Seq<char>, Seq<char>>,
    n: nat,
    d: nat,
)
    requires
        ancestor(id, sources, n) is Some,
    ensures
        ancestor(ancestor(id, sources, n)->0, sources, d) == ancestor(id, sources, n + d),
    decreases d,
{
    if d > 0 {
        lemma_ancestor_of_ancestor(id, sources, n, (d - 1) as nat);
    }
}

proof fn lemma_unsettled_chain(id: Seq<char>, sources: Map<Seq<char>, Seq<char>>, n: nat)
    requires
        effective_source(id, sources) is None,
    ensures
        ancestor(id, repaired_sources(sources), n) == ancestor(id, sources, n),
        ancestor(id, sources, n) matches Some(thread) ==> effective_source(thread, sources) is None,
    decreases n,
{
    if n > 0 {
        lemma_unsettled_chain(id, sources, (n - 1) as nat);
    }
    if let Some(thread) = ancestor(id, sources, n) {
        if effective_source(thread, sources) is Some {
            let d = choose|d: nat| settles_at(thread, sources, d);
            lemma_ancestor_of_ancestor(id, sources, n, d);
            assert(settles_at(id, sources, n + d));
        }
    }
}

/// Once all repairs are made, every thread has the source from above that it had before, and none
/// needs a repair.
pub proof fn repaired_sources_need_no_repair(id: Seq<char>, sources: Map<Seq<char>, Seq<char>>)
    ensures
        effective_source(id, repaired_sources(sources)) == effective_source(id, sources),
        !needs_source_repair(id, repaired_sources(sources)),
{
    let next = repaired_sources(sources);
    effective_source_is_plain(id, sources);
    if effective_source(id, sources) is Some {
        let n = choose|n: nat| settles_at(id, sources, n);
        if n > 0 {
            assert(!settles_at(id, sources, 0)) by {
                if settles_at(id, sources, 0) {
                    lemma_settles_once(id, sources, 0, n);
                }
            }
            if ancestor(id, sources, 1) is None {
                lemma_ends(id, sources, 1, n);
            }
            assert(ancestor(id, sources, 0) == Some(id));
            assert(needs_source_repair(id, sources));
        }
        assert(settles_at(id, next, 0));
        let m = choose|m: nat| settles_at(id, next, m);
        lemma_settles_once(id, next, 0, m);
    } else {
        assert forall|n: nat| !settles_at(id, next, n) by {
            lemma_unsettled_chain(id, sources, n);
            if settles_at(id, next, n) {
                assert(settles_at(id, sources, n));
            }
        }
    }
}

/// White space around a source makes no difference to whether it is plain; text is plain unless it
/// begins as a JSON object does, and blank text is not.
pub proof fn source_is_plain_unless_it_is_json(
    before: Seq<char>,
    text: Seq<char>,
    after: Seq<char>,
)
    requires
        forall|i: int| 0 <= i < before.len() ==> is_white(#[trigger] before[i]),
        forall|i: int| 0 <= i < after.len() ==> is_white(#[trigger] after[i]),
        text.len() > 0,
        !is_white(text[0]),
        !is_white(text.last()),
    ensures
        is_plain(before + text + after) <==> text[0] != '{',
        !is_plain(before),
{
    white_space_around_a_text_is_dropped(before, text, after);
    lemma_trimmed_blank(before);
}

/// A document names the thread that spawned another exactly by a text under `parent_thread_id`, in
/// what stands under `thread_spawn`, in what stands under `subagent`.
pub proof fn parent_is_named_under_its_keys(source: JsonTree, parent: Seq<char>)
    ensures
        named_parent(source) == Some(parent) <==> (member_of(source, "subagent"@) matches Some(
            subagent,
        ) && member_of(subagent, "thread_spawn"@) matches Some(spawn) && member_of(
            spawn,
            "parent_thread_id"@,
        ) == Some(JsonTree::Text(parent))),
{
}

/// The source of a thread is its own where that is plain, without surrounding white space. Else it
/// is the source of the thread that its own names as the one which spawned it; a thread that names
/// none, or is not known, has none.
pub proof fn thread_has_its_own_source_or_that_of_its_parent(
    id: Seq<char>,
    sources: Map<Seq<char>, Seq<char>>,
)
    ensures
        if sources.contains_key(id) {
            if is_plain(sources[id]) {
                effective_source(id, sources) == Some(trimmed(sources[id]))
            } else {
                match parsed_json(trimmed(sources[id])) {
                    Some(document) => match named_parent(document) {
                        Some(parent) => effective_source(id, sources) == effective_source(
                            parent,
                            sources,
                        ),
                        None => effective_source(id, sources) is None,
                    },
                    None => effective_source(id, sources) is None,
                }
            }
        } else {
            effective_source(id, sources) is None
        },
{
    assert(ancestor(id, sources, 0) == Some(id));
    if sources.contains_key(id) && is_plain(sources[id]) {
        assert(settles_at(id, sources, 0));
        let n = choose|n: nat| settles_at(id, sources, n);
        lemma_settles_once(id, sources, 0, n);
    } else {
        assert(!settles_at(id, sources, 0));
        let next = ancestor(id, sources, 1);
        assert(next == if sources.contains_key(id) {
            parent_of(sources[id])
        } else {
            None
        });
        match next {
            None => {
                assert forall|n: nat| !settles_at(id, sources, n) by {
                    if n > 0 {
                        lemma_ends(id, sources, 1, n);
                    }
                }
            },
            Some(parent) => {
                assert forall|n: nat| #[trigger] settles_at(parent, sources, n) == settles_at(
                    id,
                    sources,
                    n + 1,
                ) by {
                    lemma_ancestor_of_ancestor(id, sources, 1, n);
                }
                if exists|n: nat| settles_at(parent, sources, n) {
                    let n = choose|n: nat| settles_at(parent, sources, n);
                    assert(settles_at(id, sources, n + 1));
                    let m = choose|m: nat| settles_at(id, sources, m);
                    lemma_settles_once(id, sources, n + 1, m);
                    lemma_ancestor_of_ancestor(id, sources, 1, n);
                } else {
                    assert forall|n: nat| !settles_at(id, sources, n) by {
                        if n > 0 {
                            assert(settles_at(parent, sources, (n - 1) as nat) == settles_at(
                                id,
                                sources,
                                (n - 1) as nat + 1,
                            ));
                        }
                    }
                }
            },
        }
    }
}

/// The source of a thread is that on its last row; threads without a row have none.
pub proof fn last_row_of_a_thread_counts(rows: Seq<(String, String)>, id: Seq<char>, i: int)
    ensures
        sources_of(rows).contains_key(id) <==> exists|j: int|
            0 <= j < rows.len() && (#[trigger] rows[j]).0@ == id,
        0 <= i < rows.len() && rows[i].0@ == id && (forall|j: int|
            i < j < rows.len() ==> (#[trigger] rows[j]).0@ != id) ==> sources_of(rows)[id]
            == rows[i].1@,
    decreases rows.len(),
{
    if rows.len() > 0 {
        let rest = rows.drop_last();
        last_row_of_a_thread_counts(rest, id, i);
        assert(rows.last() == rows[rows.len() - 1]);
        assert(forall|j: int| 0 <= j < rest.len() ==> rest[j] == #[trigger] rows[j]);
        if sources_of(rest).contains_key(id) {
            let j = choose|j: int| 0 <= j < rest.len() && (#[trigger] rest[j]).0@ == id;
            assert(rows[j].0@ == id);
        }
        if exists|j: int| 0 <= j < rows.len() && (#[trigger] rows[j]).0@ == id {
            let j = choose|j: int| 0 <= j < rows.len() && (#[trigger] rows[j]).0@ == id;
            if j < rest.len() {
                assert(rest[j].0@ == id);
            }
        }
        if 0 <= i < rest.len() && (forall|j: int|
            i < j < rows.len() ==> (#[trigger] rows[j]).0@ != id) {
            assert forall|j: int| i < j < rest.len() implies (#[trigger] rest[j]).0@ != id by {
                assert(rows[j].0@ != id);
            }
        }
    }
}

/// A thread whose source is no plain one but names another thread gets the plain source of that
/// thread, where it has one: its repair replaces just what was read.
pub proof fn spawned_thread_gets_the_source_of_its_parent(
    repairs: Seq<ThreadSourceMetadataRepair>,
    sources: Map<Seq<char>, Seq<char>>,
    id: Seq<char>,
    parent: Seq<char>,
)
    requires
        are_source_repairs(repairs, sources),
        sources.contains_key(id),
        !is_plain(sources[id]),
        parsed_json(trimmed(sources[id])) matches Some(document) && named_parent(document) == Some(
            parent,
        ),
        sources.contains_key(parent),
        is_plain(sources[parent]),
    ensures
        exists|i: int|
            0 <= i < repairs.len() && (#[trigger] repairs[i]).id@ == id
                && repairs[i].current_source@ == sources[id] && repairs[i].next_source@ == trimmed(
                sources[parent],
            ) && source_update(repairs[i]).parameters == seq![
                SqlTerm::Text(trimmed(sources[parent])),
                SqlTerm::Text(id),
                SqlTerm::Text(sources[id]),
            ],
{
    thread_has_its_own_source_or_that_of_its_parent(id, sources);
    thread_has_its_own_source_or_that_of_its_parent(parent, sources);
    assert(needs_source_repair(id, sources));
    let i = choose|i: int| 0 <= i < repairs.len() && #[trigger] repairs[i].id@ == id;
    assert(repairs[i].id@ == id);
}

/// Threads with a plain source of their own are left alone, and so are those for which no plain
/// source is found.
pub proof fn plain_sources_are_left_alone(
    repairs: Seq<ThreadSourceMetadataRepair>,
    sources: Map<Seq<char>, Seq<char>>,
    i: int,
)
    requires
        are_source_repairs(repairs, sources),
        0 <= i < repairs.len(),
    ensures
        sources.contains_key(repairs[i].id@),
        !is_plain(repairs[i].current_source@),
        is_plain(repairs[i].next_source@),
        repairs[i].current_source@ == sources[repairs[i].id@],
        effective_source(repairs[i].id@, sources) == Some(repairs[i].next_source@),
{
    assert(needs_source_repair(repairs[i].id@, sources));
    effective_source_is_plain(repairs[i].id@, sources);
}

/// What the query for the sources selects, as expressions.
pub open spec fn selected_sources(columns: ThreadsTableColumns) -> Seq<SqlExpr> {
    let source = SqlExpr::NullIfEmpty(column("source"@));
    let thread_source = SqlExpr::NullIfEmpty(column("thread_source"@));
    seq![
        *column("id"@),
        if columns.thread_source {
            SqlExpr::Coalesce(Box::new(arguments(seq![source, thread_source, *empty_text()])))
        } else {
            *column_or("source"@, empty_text())
        },
    ]
}

proof fn lemma_source_query_words()
    ensures
        "COALESCE(NULLIF(source, ''), NULLIF(thread_source, ''), '')"@ == "COALESCE("@ + ((
        "NULLIF("@ + "source"@ + ", '')"@) + ", "@ + ("NULLIF("@ + "thread_source"@ + ", '')"@)
            + ", "@ + "''"@) + ")"@,
        "COALESCE(source, '')"@ == "COALESCE("@ + ("source"@ + ", "@ + "''"@) + ")"@,
        "SELECT "@ + "id"@ + ", "@ == "SELECT id, "@,
{
    reveal_strlit("COALESCE(");
    reveal_strlit("NULLIF(");
    reveal_strlit("source");
    reveal_strlit("thread_source");
    reveal_strlit(", '')");
    reveal_strlit(", ");
    reveal_strlit("''");
    reveal_strlit(")");
    reveal_strlit("SELECT ");
    reveal_strlit("id");
    reveal_strlit("SELECT id, ");
    reveal_strlit("COALESCE(NULLIF(source, ''), NULLIF(thread_source, ''), '')");
    reveal_strlit("COALESCE(source, '')");
    assert("COALESCE(NULLIF(source, ''), NULLIF(thread_source, ''), '')"@ =~= "COALESCE("@ + ((
    "NULLIF("@ + "source"@ + ", '')"@) + ", "@ + ("NULLIF("@ + "thread_source"@ + ", '')"@) + ", "@
        + "''"@) + ")"@);
    assert("COALESCE(source, '')"@ =~= "COALESCE("@ + ("source"@ + ", "@ + "''"@) + ")"@);
    assert("SELECT "@ + "id"@ + ", "@ =~= "SELECT id, "@);
}

/// The query for the sources reads of every thread its id and its source: the first of its two
/// sources that is something to show, where the table has both, and the empty text where there is
/// none.
pub proof fn source_query_reads_the_sources(
    columns: ThreadsTableColumns,
    row: spec_fn(Seq<char>) -> SqlTerm,
)
    ensures
        source_query(columns) == select_text(selected_sources(columns)) + " FROM threads"@,
        forall|i: int|
            0 <= i < 2 ==> literals_are_true(#[trigger] selected_sources(columns)[i]),
        selected_sources(columns).len() == 2,
        sql_value(selected_sources(columns)[0], row, SqlTerm::Null) == row("id"@),
        sql_value(selected_sources(columns)[1], row, SqlTerm::Null) == if is_shown(
            row("source"@),
        ) {
            row("source"@)
        } else if columns.thread_source && is_shown(row("thread_source"@)) {
            row("thread_source"@)
        } else {
            SqlTerm::Text(seq![])
        },
{
    let all = selected_sources(columns);
    let source = SqlExpr::NullIfEmpty(column("source"@));
    let thread_source = SqlExpr::NullIfEmpty(column("thread_source"@));
    lemma_literals();
    lemma_source_query_words();
    lemma_coalesce_text(source, thread_source, *empty_text());
    lemma_column_or_empty_text(true, "source"@);
    assert(sql_text(*empty_text()) == "''"@);
    assert(sql_text(*column("source"@)) == "source"@);
    assert(sql_text(*column("thread_source"@)) == "thread_source"@);
    assert(sql_text(source) == "NULLIF("@ + "source"@ + ", '')"@);
    assert(sql_text(thread_source) == "NULLIF("@ + "thread_source"@ + ", '')"@);
    assert(sql_text(*column("id"@)) == "id"@);
    lemma_select_one(all[0]);
    lemma_select_one_more(seq![all[0]], all[1]);
    assert(seq![all[0]].push(all[1]) =~= all);
    reveal_with_fuel(sql_value, 5);
    reveal_with_fuel(literals_are_true, 5);
}

/// Sources are read where the table has ids and sources; else there are none.
pub proof fn sources_are_read_where_the_table_has_them(path: Seq<char>, database: StateDatabase)
    ensures
        threads_scan(path, database) is Err <==> source_stage(path, database) is Err,
        threads_scan(path, database) matches Ok(scan) ==> match scan.columns {
            Some(columns) => (source_stage(path, database) matches Ok(Some(_))) <==> columns.id
                && columns.source,
            None => source_stage(path, database) matches Ok(None),
        },
{
}

} // verus!
