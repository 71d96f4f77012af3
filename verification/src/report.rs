//! What a repair of all instances reports: one item for each instance, the sums over them, and a
//! message.

use vstd::prelude::*;

use crate::text::{decimal, decimal_text, opt_view, views};

verus! {

/// What was done about one instance.
#[derive(Debug, Clone)]
pub struct CodexSessionVisibilityRepairItem {
    pub instance_id: String,
    pub instance_name: String,
    pub target_provider: String,
    pub changed_rollout_file_count: usize,
    pub updated_sqlite_row_count: usize,
    pub missing_sqlite_thread_count: usize,
    pub added_session_index_entry_count: usize,
    pub repaired_local_thread_catalog_count: usize,
    pub repaired_project_index_workspace_count: usize,
    pub reset_sidebar_host_selection: bool,
    pub metadata_rebuild_failed: bool,
    pub skipped_sqlite_file: bool,
    /// Where the backup is that was made; an instance without one was left as it was.
    pub backup_dir: Option<String>,
    pub running: bool,
}

/// What a `CodexSessionVisibilityRepairItem` says.
pub struct ItemText {
    pub instance_id: Seq<char>,
    pub instance_name: Seq<char>,
    pub target_provider: Seq<char>,
    pub changed_rollout_file_count: usize,
    pub updated_sqlite_row_count: usize,
    pub missing_sqlite_thread_count: usize,
    pub added_session_index_entry_count: usize,
    pub repaired_local_thread_catalog_count: usize,
    pub repaired_project_index_workspace_count: usize,
    pub reset_sidebar_host_selection: bool,
    pub metadata_rebuild_failed: bool,
    pub skipped_sqlite_file: bool,
    pub backup_dir: Option<Seq<char>>,
    pub running: bool,
}

impl View for CodexSessionVisibilityRepairItem {
    type V = ItemText;

    open spec fn view(&self) -> ItemText {
        ItemText {
            instance_id: self.instance_id@,
            instance_name: self.instance_name@,
            target_provider: self.target_provider@,
            changed_rollout_file_count: self.changed_rollout_file_count,
            updated_sqlite_row_count: self.updated_sqlite_row_count,
            missing_sqlite_thread_count: self.missing_sqlite_thread_count,
            added_session_index_entry_count: self.added_session_index_entry_count,
            repaired_local_thread_catalog_count: self.repaired_local_thread_catalog_count,
            repaired_project_index_workspace_count: self.repaired_project_index_workspace_count,
            reset_sidebar_host_selection: self.reset_sidebar_host_selection,
            metadata_rebuild_failed: self.metadata_rebuild_failed,
            skipped_sqlite_file: self.skipped_sqlite_file,
            backup_dir: opt_view(self.backup_dir),
            running: self.running,
        }
    }
}

/// What each of the items says.
pub open spec fn item_texts(items: Seq<CodexSessionVisibilityRepairItem>) -> Seq<ItemText> {
    items.map_values(|item: CodexSessionVisibilityRepairItem| item@)
}

/// What is added up over the items.
#[derive(Debug, Clone, Copy, PartialEq, Eq, Structural)]
pub enum Tally {
    MutatedInstances,
    ChangedRolloutFiles,
    UpdatedSqliteRows,
    MissingSqliteThreads,
    AddedSessionIndexEntries,
    RepairedCatalogRows,
    RepairedProjectRoots,
    ResetHostSelections,
    FailedMetadataRebuilds,
    SkippedSqliteFiles,
    MutatedRunningInstances,
}

/// One where the condition holds.
pub open spec fn one_if(condition: bool) -> nat {
    if condition {
        1
    } else {
        0
    }
}

/// What an item adds to a sum.
pub open spec fn share(item: ItemText, tally: Tally) -> nat {
    match tally {
        Tally::MutatedInstances => one_if(item.backup_dir is Some),
        Tally::ChangedRolloutFiles => item.changed_rollout_file_count as nat,
        Tally::UpdatedSqliteRows => item.updated_sqlite_row_count as nat,
        Tally::MissingSqliteThreads => item.missing_sqlite_thread_count as nat,
        Tally::AddedSessionIndexEntries => item.added_session_index_entry_count as nat,
        Tally::RepairedCatalogRows => item.repaired_local_thread_catalog_count as nat,
        Tally::RepairedProjectRoots => item.repaired_project_index_workspace_count as nat,
        Tally::ResetHostSelections => one_if(item.reset_sidebar_host_selection),
        Tally::FailedMetadataRebuilds => one_if(item.metadata_rebuild_failed),
        Tally::SkippedSqliteFiles => one_if(item.skipped_sqlite_file),
        Tally::MutatedRunningInstances => one_if(item.backup_dir is Some && item.running),
    }
}

/// A sum over the items.
pub open spec fn total(items: Seq<ItemText>, tally: Tally) -> nat
    decreases items.len(),
{
    if items.len() == 0 {
        0
    } else {
        total(items.drop_last(), tally) + share(items.last(), tally)
    }
}

fn count_if(condition: bool) -> (count: usize)
    ensures
        count == one_if(condition),
{
    if condition {
        1
    } else {
        0
    }
}

fn share_of(item: &CodexSessionVisibilityRepairItem, tally: Tally) -> (count: usize)
    ensures
        count == share(item@, tally),
{
    match tally {
        Tally::MutatedInstances => count_if(item.backup_dir.is_some()),
        Tally::ChangedRolloutFiles => item.changed_rollout_file_count,
        Tally::UpdatedSqliteRows => item.updated_sqlite_row_count,
        Tally::MissingSqliteThreads => item.missing_sqlite_thread_count,
        Tally::AddedSessionIndexEntries => item.added_session_index_entry_count,
        Tally::RepairedCatalogRows => item.repaired_local_thread_catalog_count,
        Tally::RepairedProjectRoots => item.repaired_project_index_workspace_count,
        Tally::ResetHostSelections => count_if(item.reset_sidebar_host_selection),
        Tally::FailedMetadataRebuilds => count_if(item.metadata_rebuild_failed),
        Tally::SkippedSqliteFiles => count_if(item.skipped_sqlite_file),
        Tally::MutatedRunningInstances => count_if(item.backup_dir.is_some() && item.running),
    }
}

proof fn lemma_total_take(items: Seq<ItemText>, tally: Tally, n: int)
    requires
        0 <= n <= items.len(),
    ensures
        total(items.take(n), tally) <= total(items, tally),
    decreases items.len(),
{
    if n < items.len() {
        assert(items.drop_last().take(n) =~= items.take(n));
        lemma_total_take(items.drop_last(), tally, n);
    } else {
        assert(items.take(n) =~= items);
    }
}

/// A sum over the items; none where it is too large to be held.
pub fn total_of(items: &Vec<CodexSessionVisibilityRepairItem>, tally: Tally) -> (sum: Option<usize>)
    ensures
        match sum {
            Some(sum) => sum == total(item_texts(items@), tally),
            None => total(item_texts(items@), tally) > usize::MAX,
        },
{
    let ghost texts = item_texts(items@);
    let mut sum: usize = 0;
    let mut i: usize = 0;
    while i < items.len()
        invariant
            i <= items@.len(),
            texts == item_texts(items@),
            sum == total(texts.take(i as int), tally),
        decreases items@.len() - i,
    {
        proof {
            assert(texts.take(i + 1).drop_last() =~= texts.take(i as int));
            assert(texts.take(i + 1).last() == items@[i as int]@);
            lemma_total_take(texts, tally, i + 1);
        }
        sum =
        match sum.checked_add(share_of(&items[i], tally)) {
            Some(sum) => sum,
            None => return None,
        };
        i += 1;
    }
    assert(texts.take(i as int) =~= texts);
    Some(sum)
}

/// Whether every sum over the items can be held.
pub open spec fn totals_fit(items: Seq<ItemText>) -> bool {
    forall|tally: Tally| total(items, tally) <= usize::MAX
}

/// The sums over the items.
#[derive(Debug, Clone, Copy, PartialEq, Eq, Structural)]
pub struct Totals {
    pub mutated_instance_count: usize,
    pub changed_rollout_file_count: usize,
    pub updated_sqlite_row_count: usize,
    pub missing_sqlite_thread_count: usize,
    pub added_session_index_entry_count: usize,
    pub repaired_local_thread_catalog_count: usize,
    pub repaired_project_index_workspace_count: usize,
    pub reset_sidebar_host_selection_count: usize,
    pub metadata_rebuild_failed_instance_count: usize,
    pub skipped_sqlite_file_count: usize,
    pub mutated_running_instance_count: usize,
}

/// The sums over the items.
pub open spec fn totals(items: Seq<ItemText>) -> Totals {
    Totals {
        mutated_instance_count: total(items, Tally::MutatedInstances) as usize,
        changed_rollout_file_count: total(items, Tally::ChangedRolloutFiles) as usize,
        updated_sqlite_row_count: total(items, Tally::UpdatedSqliteRows) as usize,
        missing_sqlite_thread_count: total(items, Tally::MissingSqliteThreads) as usize,
        added_session_index_entry_count: total(items, Tally::AddedSessionIndexEntries) as usize,
        repaired_local_thread_catalog_count: total(items, Tally::RepairedCatalogRows) as usize,
        repaired_project_index_workspace_count: total(items, Tally::RepairedProjectRoots) as usize,
        reset_sidebar_host_selection_count: total(items, Tally::ResetHostSelections) as usize,
        metadata_rebuild_failed_instance_count: total(
            items,
            Tally::FailedMetadataRebuilds,
        ) as usize,
        skipped_sqlite_file_count: total(items, Tally::SkippedSqliteFiles) as usize,
        mutated_running_instance_count: total(items, Tally::MutatedRunningInstances) as usize,
    }
}

/// The sums over the items; none where one of them is too large to be held.
pub fn totals_of(items: &Vec<CodexSessionVisibilityRepairItem>) -> (sums: Option<Totals>)
    ensures
        match sums {
            Some(sums) => totals_fit(item_texts(items@)) && sums == totals(item_texts(items@)),
            None => !totals_fit(item_texts(items@)),
        },
{
    let ghost texts = item_texts(items@);
    let mutated_instance_count = match total_of(items, Tally::MutatedInstances) {
        Some(sum) => sum,
        None => return None,
    };
    let changed_rollout_file_count = match total_of(items, Tally::ChangedRolloutFiles) {
        Some(sum) => sum,
        None => return None,
    };
    let updated_sqlite_row_count = match total_of(items, Tally::UpdatedSqliteRows) {
        Some(sum) => sum,
        None => return None,
    };
    let missing_sqlite_thread_count = match total_of(items, Tally::MissingSqliteThreads) {
        Some(sum) => sum,
        None => return None,
    };
    let added_session_index_entry_count = match total_of(items, Tally::AddedSessionIndexEntries) {
        Some(sum) => sum,
        None => return None,
    };
    let repaired_local_thread_catalog_count = match total_of(items, Tally::RepairedCatalogRows) {
        Some(sum) => sum,
        None => return None,
    };
    let repaired_project_index_workspace_count = match total_of(
        items,
        Tally::RepairedProjectRoots,
    ) {
        Some(sum) => sum,
        None => return None,
    };
    let reset_sidebar_host_selection_count = match total_of(items, Tally::ResetHostSelections) {
        Some(sum) => sum,
        None => return None,
    };
    let metadata_rebuild_failed_instance_count = match total_of(
        items,
        Tally::FailedMetadataRebuilds,
    ) {
        Some(sum) => sum,
        None => return None,
    };
    let skipped_sqlite_file_count = match total_of(items, Tally::SkippedSqliteFiles) {
        Some(sum) => sum,
        None => return None,
    };
    let mutated_running_instance_count = match total_of(items, Tally::MutatedRunningInstances) {
        Some(sum) => sum,
        None => return None,
    };
    proof {
        assert forall|tally: Tally| total(texts, tally) <= usize::MAX by {
            match tally {
                Tally::MutatedInstances => {},
                Tally::ChangedRolloutFiles => {},
                Tally::UpdatedSqliteRows => {},
                Tally::MissingSqliteThreads => {},
                Tally::AddedSessionIndexEntries => {},
                Tally::RepairedCatalogRows => {},
                Tally::RepairedProjectRoots => {},
                Tally::ResetHostSelections => {},
                Tally::FailedMetadataRebuilds => {},
                Tally::SkippedSqliteFiles => {},
                Tally::MutatedRunningInstances => {},
            }
        }
    }
    Some(
        Totals {
            mutated_instance_count,
            changed_rollout_file_count,
            updated_sqlite_row_count,
            missing_sqlite_thread_count,
            added_session_index_entry_count,
            repaired_local_thread_catalog_count,
            repaired_project_index_workspace_count,
            reset_sidebar_host_selection_count,
            metadata_rebuild_failed_instance_count,
            skipped_sqlite_file_count,
            mutated_running_instance_count,
        },
    )
}

/// A part of the message that gives a count, where there is something to count.
pub open spec fn counted(before: Seq<char>, count: usize, after: Seq<char>) -> Seq<char> {
    if count > 0 {
        before + decimal(count as nat) + after
    } else {
        seq![]
    }
}

/// The message for these sums.
pub open spec fn summary_message(sums: Totals) -> Seq<char> {
    if sums.mutated_instance_count == 0 {
        "所有 Codex 实例的历史会话 provider 元数据与 session_index 已与当前 provider 一致，无需修复"@
    } else {
        "已为 "@ + decimal(sums.mutated_instance_count as nat) + " 个实例修复历史会话可见性：改写 "@
            + decimal(sums.changed_rollout_file_count as nat) + " 个 rollout 文件，更新 "@ + decimal(
            sums.updated_sqlite_row_count as nat,
        ) + " 条 SQLite 记录"@ + counted(
            "，补写 "@,
            sums.added_session_index_entry_count,
            " 条 session_index 记录"@,
        ) + counted(
            "，修复 "@,
            sums.repaired_local_thread_catalog_count,
            " 条本地线程目录索引"@,
        ) + "。请彻底退出 Codex 进程后再启动，以确保左侧项目和会话列表重新加载"@
    }
}

fn counted_text(before: &str, count: usize, after: &str) -> (text: String)
    ensures
        text@ == counted(before@, count, after@),
{
    if count > 0 {
        before.to_owned().concat(decimal_text(count as u64).as_str()).concat(after)
    } else {
        String::new()
    }
}

/// The message for these sums. It gives the same advice whether or not an instance was running.
pub fn build_summary_message(sums: Totals) -> (message: String)
    ensures
        message@ == summary_message(sums),
{
    if sums.mutated_instance_count == 0 {
        return "所有 Codex 实例的历史会话 provider 元数据与 session_index 已与当前 provider 一致，无需修复".to_owned();
    }
    let index_suffix = counted_text(
        "，补写 ",
        sums.added_session_index_entry_count,
        " 条 session_index 记录",
    );
    let catalog_suffix = counted_text(
        "，修复 ",
        sums.repaired_local_thread_catalog_count,
        " 条本地线程目录索引",
    );
    "已为 ".to_owned().concat(decimal_text(sums.mutated_instance_count as u64).as_str()).concat(
        " 个实例修复历史会话可见性：改写 ",
    ).concat(decimal_text(sums.changed_rollout_file_count as u64).as_str()).concat(
        " 个 rollout 文件，更新 ",
    ).concat(decimal_text(sums.updated_sqlite_row_count as u64).as_str()).concat(
        " 条 SQLite 记录",
    ).concat(index_suffix.as_str()).concat(catalog_suffix.as_str()).concat(
        "。请彻底退出 Codex 进程后再启动，以确保左侧项目和会话列表重新加载",
    )
}

/// What was done about all instances.
#[derive(Debug, Clone)]
pub struct CodexSessionVisibilityRepairSummary {
    pub instance_count: usize,
    pub mutated_instance_count: usize,
    pub changed_rollout_file_count: usize,
    pub updated_sqlite_row_count: usize,
    pub missing_sqlite_thread_count: usize,
    pub added_session_index_entry_count: usize,
    pub repaired_local_thread_catalog_count: usize,
    pub repaired_project_index_workspace_count: usize,
    pub reset_sidebar_host_selection_count: usize,
    pub metadata_rebuild_failed_instance_count: usize,
    pub skipped_sqlite_file_count: usize,
    pub items: Vec<CodexSessionVisibilityRepairItem>,
    pub backup_dirs: Vec<String>,
    pub message: String,
}

/// The backups that were made, in the order of the items.
pub open spec fn backups_of(items: Seq<ItemText>) -> Seq<Seq<char>>
    decreases items.len(),
{
    if items.len() == 0 {
        seq![]
    } else {
        match items.last().backup_dir {
            Some(dir) => backups_of(items.drop_last()).push(dir),
            None => backups_of(items.drop_last()),
        }
    }
}

/// Whether a summary is that of these items.
pub open spec fn summarizes(
    summary: CodexSessionVisibilityRepairSummary,
    instance_count: nat,
    items: Seq<ItemText>,
) -> bool {
    let sums = totals(items);
    &&& summary.instance_count == instance_count
    &&& summary.mutated_instance_count == sums.mutated_instance_count
    &&& summary.changed_rollout_file_count == sums.changed_rollout_file_count
    &&& summary.updated_sqlite_row_count == sums.updated_sqlite_row_count
    &&& summary.missing_sqlite_thread_count == sums.missing_sqlite_thread_count
    &&& summary.added_session_index_entry_count == sums.added_session_index_entry_count
    &&& summary.repaired_local_thread_catalog_count == sums.repaired_local_thread_catalog_count
    &&& summary.repaired_project_index_workspace_count
        == sums.repaired_project_index_workspace_count
    &&& summary.reset_sidebar_host_selection_count == sums.reset_sidebar_host_selection_count
    &&& summary.metadata_rebuild_failed_instance_count
        == sums.metadata_rebuild_failed_instance_count
    &&& summary.skipped_sqlite_file_count == sums.skipped_sqlite_file_count
    &&& item_texts(summary.items@) == items
    &&& views(summary.backup_dirs@) == backups_of(items)
    &&& summary.message@ == summary_message(sums)
}

fn list_backup_dirs(items: &Vec<CodexSessionVisibilityRepairItem>) -> (dirs: Vec<String>)
    ensures
        views(dirs@) == backups_of(item_texts(items@)),
{
    let ghost texts = item_texts(items@);
    let mut dirs: Vec<String> = Vec::new();
    let mut i: usize = 0;
    assert(views(dirs@) =~= backups_of(texts.take(0)));
    while i < items.len()
        invariant
            i <= items@.len(),
            texts == item_texts(items@),
            views(dirs@) == backups_of(texts.take(i as int)),
        decreases items@.len() - i,
    {
        let ghost before = dirs@;
        proof {
            assert(texts.take(i + 1).drop_last() =~= texts.take(i as int));
            assert(texts.take(i + 1).last() == items@[i as int]@);
        }
        if let Some(dir) = &items[i].backup_dir {
            dirs.push(dir.clone());
            assert(views(dirs@) =~= views(before).push(dir@));
        }
        i += 1;
    }
    assert(texts.take(i as int) =~= texts);
    dirs
}

/// The summary of these items; none where a sum over them is too large to be held.
pub fn summarize(
    instance_count: usize,
    items: Vec<CodexSessionVisibilityRepairItem>,
) -> (summary: Option<CodexSessionVisibilityRepairSummary>)
    ensures
        match summary {
            Some(summary) => totals_fit(item_texts(items@)) && summarizes(
                summary,
                instance_count as nat,
                item_texts(items@),
            ),
            None => !totals_fit(item_texts(items@)),
        },
{
    let sums = match totals_of(&items) {
        Some(sums) => sums,
        None => return None,
    };
    let backup_dirs = list_backup_dirs(&items);
    let message = build_summary_message(sums);
    Some(
        CodexSessionVisibilityRepairSummary {
            instance_count,
            mutated_instance_count: sums.mutated_instance_count,
            changed_rollout_file_count: sums.changed_rollout_file_count,
            updated_sqlite_row_count: sums.updated_sqlite_row_count,
            missing_sqlite_thread_count: sums.missing_sqlite_thread_count,
            added_session_index_entry_count: sums.added_session_index_entry_count,
            repaired_local_thread_catalog_count: sums.repaired_local_thread_catalog_count,
            repaired_project_index_workspace_count: sums.repaired_project_index_workspace_count,
            reset_sidebar_host_selection_count: sums.reset_sidebar_host_selection_count,
            metadata_rebuild_failed_instance_count: sums.metadata_rebuild_failed_instance_count,
            skipped_sqlite_file_count: sums.skipped_sqlite_file_count,
            items,
            backup_dirs,
            message,
        },
    )
}

/// There are as many backups as changed instances.
pub proof fn one_backup_for_each_changed_instance(items: Seq<ItemText>)
    ensures
        backups_of(items).len() == total(items, Tally::MutatedInstances),
        total(items, Tally::MutatedInstances) <= items.len(),
        total(items, Tally::MutatedRunningInstances) <= total(items, Tally::MutatedInstances),
    decreases items.len(),
{
    if items.len() > 0 {
        one_backup_for_each_changed_instance(items.drop_last());
    }
}

/// A summary of one more instance counts more by just what its item says: each sum grows by the
/// count of that name; an instance counts as changed exactly where it has a backup, which is listed
/// then.
pub proof fn summary_grows_by_each_item(
    items: Seq<ItemText>,
    item: ItemText,
    before: CodexSessionVisibilityRepairSummary,
    after: CodexSessionVisibilityRepairSummary,
)
    requires
        totals_fit(items.push(item)),
        summarizes(before, items.len(), items),
        summarizes(after, items.len() + 1, items.push(item)),
    ensures
        after.instance_count == before.instance_count + 1,
        after.mutated_instance_count == before.mutated_instance_count + (if item.backup_dir is Some {
            1int
        } else {
            0
        }),
        after.changed_rollout_file_count == before.changed_rollout_file_count
            + item.changed_rollout_file_count,
        after.updated_sqlite_row_count == before.updated_sqlite_row_count
            + item.updated_sqlite_row_count,
        after.missing_sqlite_thread_count == before.missing_sqlite_thread_count
            + item.missing_sqlite_thread_count,
        after.added_session_index_entry_count == before.added_session_index_entry_count
            + item.added_session_index_entry_count,
        after.repaired_local_thread_catalog_count == before.repaired_local_thread_catalog_count
            + item.repaired_local_thread_catalog_count,
        after.repaired_project_index_workspace_count
            == before.repaired_project_index_workspace_count
            + item.repaired_project_index_workspace_count,
        after.reset_sidebar_host_selection_count == before.reset_sidebar_host_selection_count + (
        if item.reset_sidebar_host_selection {
            1int
        } else {
            0
        }),
        after.metadata_rebuild_failed_instance_count
            == before.metadata_rebuild_failed_instance_count + (if item.metadata_rebuild_failed {
            1int
        } else {
            0
        }),
        after.skipped_sqlite_file_count == before.skipped_sqlite_file_count + (
        if item.skipped_sqlite_file {
            1int
        } else {
            0
        }),
        views(after.backup_dirs@) == match item.backup_dir {
            Some(dir) => views(before.backup_dirs@).push(dir),
            None => views(before.backup_dirs@),
        },
        after.items@.len() == before.items@.len() + 1,
{
    let all = items.push(item);
    assert(all.drop_last() =~= items);
    assert(all.last() == item);
    assert(total(all, Tally::MutatedInstances) <= usize::MAX);
    assert(total(all, Tally::ChangedRolloutFiles) <= usize::MAX);
    assert(total(all, Tally::UpdatedSqliteRows) <= usize::MAX);
    assert(total(all, Tally::MissingSqliteThreads) <= usize::MAX);
    assert(total(all, Tally::AddedSessionIndexEntries) <= usize::MAX);
    assert(total(all, Tally::RepairedCatalogRows) <= usize::MAX);
    assert(total(all, Tally::RepairedProjectRoots) <= usize::MAX);
    assert(total(all, Tally::ResetHostSelections) <= usize::MAX);
    assert(total(all, Tally::FailedMetadataRebuilds) <= usize::MAX);
    assert(total(all, Tally::SkippedSqliteFiles) <= usize::MAX);
    assert(item_texts(before.items@).len() == before.items@.len());
    assert(item_texts(after.items@).len() == after.items@.len());
}

/// A summary without instances counts nothing and lists no backup.
pub proof fn summary_of_nothing_counts_nothing(summary: CodexSessionVisibilityRepairSummary)
    requires
        summarizes(summary, 0, Seq::empty()),
    ensures
        summary.instance_count == 0,
        summary.mutated_instance_count == 0,
        summary.changed_rollout_file_count == 0,
        summary.updated_sqlite_row_count == 0,
        summary.missing_sqlite_thread_count == 0,
        summary.added_session_index_entry_count == 0,
        summary.repaired_local_thread_catalog_count == 0,
        summary.repaired_project_index_workspace_count == 0,
        summary.reset_sidebar_host_selection_count == 0,
        summary.metadata_rebuild_failed_instance_count == 0,
        summary.skipped_sqlite_file_count == 0,
        summary.backup_dirs@.len() == 0,
{
    assert(views(summary.backup_dirs@).len() == summary.backup_dirs@.len());
}

/// The message says how many instances were repaired, how many rollout files and rows were written,
/// and, where there are any, how many entries of the index and rows of the catalog; where no
/// instance was changed it says that nothing was to be repaired.
pub proof fn message_gives_the_counts(sums: Totals)
    ensures
        sums.mutated_instance_count == 0 ==> summary_message(sums)
            == "所有 Codex 实例的历史会话 provider 元数据与 session_index 已与当前 provider 一致，无需修复"@,
        sums.mutated_instance_count > 0 ==> {
            let message = summary_message(sums);
            let rows = decimal(sums.updated_sqlite_row_count as nat);
            let entries = decimal(sums.added_session_index_entry_count as nat);
            let listed = decimal(sums.repaired_local_thread_catalog_count as nat);
            let first = "已为 "@ + decimal(sums.mutated_instance_count as nat)
                + " 个实例修复历史会话可见性：改写 "@ + decimal(
                sums.changed_rollout_file_count as nat,
            ) + " 个 rollout 文件，更新 "@ + rows + " 条 SQLite 记录"@;
            let last = "。请彻底退出 Codex 进程后再启动，以确保左侧项目和会话列表重新加载"@;
            let index = "，补写 "@ + entries + " 条 session_index 记录"@;
            let catalog = "，修复 "@ + listed + " 条本地线程目录索引"@;
            let added = sums.added_session_index_entry_count > 0;
            let repaired = sums.repaired_local_thread_catalog_count > 0;
            &&& added && repaired ==> message == first + index + catalog + last
            &&& added && !repaired ==> message == first + index + last
            &&& !added && repaired ==> message == first + catalog + last
            &&& !added && !repaired ==> message == first + last
        },
{
    if sums.mutated_instance_count > 0 {
        let message = summary_message(sums);
        let rows = decimal(sums.updated_sqlite_row_count as nat);
        let entries = decimal(sums.added_session_index_entry_count as nat);
        let listed = decimal(sums.repaired_local_thread_catalog_count as nat);
        let first = "已为 "@ + decimal(sums.mutated_instance_count as nat)
            + " 个实例修复历史会话可见性：改写 "@ + decimal(sums.changed_rollout_file_count as nat)
            + " 个 rollout 文件，更新 "@ + rows + " 条 SQLite 记录"@;
        let last = "。请彻底退出 Codex 进程后再启动，以确保左侧项目和会话列表重新加载"@;
        let index = "，补写 "@ + entries + " 条 session_index 记录"@;
        let catalog = "，修复 "@ + listed + " 条本地线程目录索引"@;
        let none = Seq::<char>::empty();
        assert(first + none =~= first);
        assert(first + none + none =~= first);
        assert(first + index + none =~= first + index);
        assert(first + none + catalog =~= first + catalog);
    }
}

} // verus!
