//! The repair of all instances: which are looked at, what is repaired in each, what happens when
//! that fails, and what is reported in the end.

use vstd::prelude::*;

use crate::backups::BackupScope;
use crate::catalog::LocalThreadCatalogRepairPlan;
use crate::global_state::GlobalStateRepairResult;
use crate::report::{
    item_texts, summarize, summarizes, totals_fit, CodexSessionVisibilityRepairItem,
    CodexSessionVisibilityRepairSummary, ItemText,
};
use crate::text::{is_white, lemma_trimmed_blank, trim, trimmed};

verus! {

/// An instance of the application: its id and name, its data directory, and the process that it was
/// last seen to run as.
#[derive(Debug)]
pub struct CodexSyncInstance {
    pub id: String,
    pub name: String,
    pub data_dir: String,
    pub last_pid: Option<u32>,
}

/// An instance as it is stored.
#[derive(Debug)]
pub struct StoredInstance {
    pub id: String,
    pub name: String,
    pub user_data_dir: String,
    pub last_pid: Option<u32>,
}

/// What a `CodexSyncInstance` says.
pub struct InstanceText {
    pub id: Seq<char>,
    pub name: Seq<char>,
    pub data_dir: Seq<char>,
    pub last_pid: Option<u32>,
}

impl View for CodexSyncInstance {
    type V = InstanceText;

    open spec fn view(&self) -> InstanceText {
        InstanceText {
            id: self.id@,
            name: self.name@,
            data_dir: self.data_dir@,
            last_pid: self.last_pid,
        }
    }
}

/// What each of the instances says.
pub open spec fn instance_texts(instances: Seq<CodexSyncInstance>) -> Seq<InstanceText> {
    instances.map_values(|instance: CodexSyncInstance| instance@)
}

/// The stored instances that have a data directory.
pub open spec fn stored_texts(stored: Seq<StoredInstance>) -> Seq<InstanceText>
    decreases stored.len(),
{
    if stored.len() == 0 {
        seq![]
    } else {
        let rest = stored_texts(stored.drop_last());
        let last = stored.last();
        if trimmed(last.user_data_dir@).len() == 0 {
            rest
        } else {
            rest.push(
                InstanceText {
                    id: last.id@,
                    name: last.name@,
                    data_dir: trimmed(last.user_data_dir@),
                    last_pid: last.last_pid,
                },
            )
        }
    }
}

/// The instances to repair: the default one, and the stored ones that have a data directory.
pub fn collect_instances(
    default_dir: String,
    default_pid: Option<u32>,
    stored: Vec<StoredInstance>,
) -> (instances: Vec<CodexSyncInstance>)
    ensures
        instance_texts(instances@) == seq![
            InstanceText {
                id: "__default__"@,
                name: "默认实例"@,
                data_dir: default_dir@,
                last_pid: default_pid,
            },
        ] + stored_texts(stored@),
{
    let ghost first = seq![
        InstanceText {
            id: "__default__"@,
            name: "默认实例"@,
            data_dir: default_dir@,
            last_pid: default_pid,
        },
    ];
    let ghost all = stored@;
    let mut instances: Vec<CodexSyncInstance> = Vec::new();
    instances.push(
        CodexSyncInstance {
            id: "__default__".to_owned(),
            name: "默认实例".to_owned(),
            data_dir: default_dir,
            last_pid: default_pid,
        },
    );
    assert(instance_texts(instances@) =~= first + stored_texts(all.take(0)));
    for instance in it: stored
        invariant
            it.seq() == all,
            instance_texts(instances@) == first + stored_texts(all.take(it.index() as int)),
    {
        let ghost before = instances@;
        assert(all.take(it.index() + 1).drop_last() =~= all.take(it.index() as int));
        let data_dir = trim(instance.user_data_dir.as_str());
        if !data_dir.as_str().is_empty() {
            let next = CodexSyncInstance {
                id: instance.id,
                name: instance.name,
                data_dir,
                last_pid: instance.last_pid,
            };
            instances.push(next);
            assert(instance_texts(instances@) =~= instance_texts(before).push(next@));
            assert(instance_texts(instances@) =~= first + stored_texts(all.take(it.index() + 1)));
        }
    }
    assert(all.take(all.len() as int) =~= all);
    instances
}

/// Whether an instance is running, given the process that was found for it.
pub fn is_instance_running(found_pid: Option<u32>) -> (running: bool)
    ensures
        running == (found_pid is Some),
{
    found_pid.is_some()
}

/// What a look at an instance found.
#[derive(Debug)]
pub struct InstanceScan {
    pub running: bool,
    pub target_provider: String,
    pub rollout_changes: usize,
    pub sqlite_rows: usize,
    pub skipped_sqlite_file: bool,
    pub source_rows: usize,
    pub path_rows: usize,
    pub missing_threads: usize,
    pub missing_index_entries: usize,
    pub catalog_plan: LocalThreadCatalogRepairPlan,
    pub global_state_plan: GlobalStateRepairResult,
}

/// Whether the state database has to change.
pub open spec fn database_changes(scan: InstanceScan) -> bool {
    scan.sqlite_rows > 0 || scan.source_rows > 0 || scan.path_rows > 0 || scan.missing_threads > 0
}

/// Whether the catalog lacks something.
pub open spec fn catalog_has_work(plan: LocalThreadCatalogRepairPlan) -> bool {
    plan.missing_row_count > 0 || plan.stale_path_count > 0
}

/// Whether the global state has to change.
pub open spec fn global_state_changes(plan: GlobalStateRepairResult) -> bool {
    plan.repaired_project_root_count > 0 || plan.reset_remote_host_selection
}

/// Whether the instance needs a repair.
pub open spec fn needs_repair(scan: InstanceScan) -> bool {
    ||| scan.rollout_changes > 0
    ||| database_changes(scan)
    ||| scan.missing_index_entries > 0
    ||| catalog_has_work(scan.catalog_plan)
    ||| global_state_changes(scan.global_state_plan)
}

/// What a repair of the instance includes, besides what it always does.
#[derive(Debug, Clone, Copy, PartialEq, Eq, Structural)]
pub struct RepairPlan {
    pub update_sqlite: bool,
    pub repair_sqlite_thread_sources: bool,
    pub normalize_sqlite_paths: bool,
    pub rebuild_missing_sqlite_threads: bool,
    pub reconcile_session_index: bool,
    pub repair_local_thread_catalog: bool,
}

/// What a repair of the instance includes. The catalog follows the state database: it is repaired
/// too where the database changes.
pub open spec fn plan_of(scan: InstanceScan) -> RepairPlan {
    RepairPlan {
        update_sqlite: scan.sqlite_rows > 0,
        repair_sqlite_thread_sources: scan.source_rows > 0,
        normalize_sqlite_paths: scan.path_rows > 0,
        rebuild_missing_sqlite_threads: scan.missing_threads > 0,
        reconcile_session_index: scan.missing_index_entries > 0,
        repair_local_thread_catalog: catalog_has_work(scan.catalog_plan) || database_changes(scan),
    }
}

/// What the backup before a repair holds besides the rollout files: all that the repair may change.
pub open spec fn scope_of(scan: InstanceScan) -> BackupScope {
    BackupScope {
        sqlite: database_changes(scan),
        session_index: scan.missing_index_entries > 0,
        global_state: global_state_changes(scan.global_state_plan),
        local_thread_catalog: catalog_has_work(scan.catalog_plan) || database_changes(scan),
    }
}

/// What is to be done about an instance: whether it needs a repair, what the repair includes, and
/// what the backup before it holds.
pub struct InstancePlan {
    pub needed: bool,
    pub repair: RepairPlan,
    pub backup: BackupScope,
}

/// What is to be done about an instance.
pub fn plan_instance_repair(scan: &InstanceScan) -> (plan: InstancePlan)
    ensures
        plan.needed == needs_repair(*scan),
        plan.repair == plan_of(*scan),
        plan.backup == scope_of(*scan),
{
    let database = scan.sqlite_rows > 0 || scan.source_rows > 0 || scan.path_rows > 0
        || scan.missing_threads > 0;
    let catalog = scan.catalog_plan.has_work();
    let global_state = scan.global_state_plan.repaired_project_root_count > 0
        || scan.global_state_plan.reset_remote_host_selection;
    InstancePlan {
        needed: scan.rollout_changes > 0 || database || scan.missing_index_entries > 0 || catalog
            || global_state,
        repair: RepairPlan {
            update_sqlite: scan.sqlite_rows > 0,
            repair_sqlite_thread_sources: scan.source_rows > 0,
            normalize_sqlite_paths: scan.path_rows > 0,
            rebuild_missing_sqlite_threads: scan.missing_threads > 0,
            reconcile_session_index: scan.missing_index_entries > 0,
            repair_local_thread_catalog: catalog || database,
        },
        backup: BackupScope {
            sqlite: database,
            session_index: scan.missing_index_entries > 0,
            global_state,
            local_thread_catalog: catalog || database,
        },
    }
}

/// Whatever a planned repair may write besides rollout files, the backup before it holds: the
/// database where one of its repairs is planned, the index where it is to be reconciled, and the
/// catalog where it is to be repaired.
pub proof fn backup_covers_the_plan(scan: InstanceScan)
    ensures
        ({
            let plan = plan_of(scan);
            let scope = scope_of(scan);
            &&& plan.update_sqlite || plan.repair_sqlite_thread_sources
                || plan.normalize_sqlite_paths || plan.rebuild_missing_sqlite_threads ==> scope.sqlite
            &&& plan.reconcile_session_index ==> scope.session_index
            &&& plan.repair_local_thread_catalog ==> scope.local_thread_catalog
            &&& plan.repair_local_thread_catalog || plan.reconcile_session_index || scope.sqlite
                || scope.global_state ==> needs_repair(scan)
        }),
{
}

/// A step of repairing an instance.
#[derive(Debug, Clone, Copy, PartialEq, Eq, Structural)]
pub enum RepairStep {
    UpdateProvider,
    RewriteRollouts,
    RepairSources,
    NormalizePaths,
    RepairTimestamps,
    RebuildMetadata,
    ReconcileIndex,
    RepairCatalog,
    RepairGlobalState,
}

/// The step alone where `taken`, else nothing.
pub open spec fn repair_if(taken: bool, step: RepairStep) -> Seq<RepairStep> {
    if taken {
        seq![step]
    } else {
        seq![]
    }
}

/// The steps of repairing an instance, in their order.
pub open spec fn repair_steps(plan: RepairPlan) -> Seq<RepairStep> {
    repair_if(plan.update_sqlite, RepairStep::UpdateProvider) + repair_if(
        true,
        RepairStep::RewriteRollouts,
    ) + repair_if(plan.repair_sqlite_thread_sources, RepairStep::RepairSources) + repair_if(
        plan.normalize_sqlite_paths,
        RepairStep::NormalizePaths,
    ) + repair_if(true, RepairStep::RepairTimestamps) + repair_if(
        plan.rebuild_missing_sqlite_threads,
        RepairStep::RebuildMetadata,
    ) + repair_if(plan.reconcile_session_index, RepairStep::ReconcileIndex) + repair_if(
        plan.repair_local_thread_catalog,
        RepairStep::RepairCatalog,
    ) + repair_if(true, RepairStep::RepairGlobalState)
}

fn push_step(steps: &mut Vec<RepairStep>, taken: bool, step: RepairStep)
    ensures
        final(steps)@ == old(steps)@ + repair_if(taken, step),
{
    if taken {
        steps.push(step);
    }
    assert(steps@ =~= old(steps)@ + repair_if(taken, step));
}

/// The steps of repairing an instance, in their order.
pub fn single_instance_steps(plan: RepairPlan) -> (steps: Vec<RepairStep>)
    ensures
        steps@ == repair_steps(plan),
{
    let mut steps: Vec<RepairStep> = Vec::new();
    push_step(&mut steps, plan.update_sqlite, RepairStep::UpdateProvider);
    assert(steps@ =~= repair_if(plan.update_sqlite, RepairStep::UpdateProvider));
    push_step(&mut steps, true, RepairStep::RewriteRollouts);
    push_step(&mut steps, plan.repair_sqlite_thread_sources, RepairStep::RepairSources);
    push_step(&mut steps, plan.normalize_sqlite_paths, RepairStep::NormalizePaths);
    push_step(&mut steps, true, RepairStep::RepairTimestamps);
    push_step(&mut steps, plan.rebuild_missing_sqlite_threads, RepairStep::RebuildMetadata);
    push_step(&mut steps, plan.reconcile_session_index, RepairStep::ReconcileIndex);
    push_step(&mut steps, plan.repair_local_thread_catalog, RepairStep::RepairCatalog);
    push_step(&mut steps, true, RepairStep::RepairGlobalState);
    steps
}

/// What a repair of an instance did.
#[derive(Debug, Clone, Copy, PartialEq, Eq, Structural)]
pub struct SingleInstanceRepairResult {
    pub sqlite_rows_updated: usize,
    pub session_index_entries_added: usize,
    pub local_thread_catalog_rows_repaired: usize,
    pub repaired_project_root_count: usize,
    pub reset_sidebar_host_selection: bool,
    pub metadata_rebuild_failed: bool,
}

/// A repair that has done nothing yet.
pub open spec fn nothing_repaired() -> SingleInstanceRepairResult {
    SingleInstanceRepairResult {
        sqlite_rows_updated: 0,
        session_index_entries_added: 0,
        local_thread_catalog_rows_repaired: 0,
        repaired_project_root_count: 0,
        reset_sidebar_host_selection: false,
        metadata_rebuild_failed: false,
    }
}

/// What came of a step.
#[derive(Debug)]
pub enum StepOutcome {
    /// It was taken: what it changed, and whether it selected the local host again.
    Done(usize, bool),
    /// It failed, for the reason given.
    Failed(String),
}

/// What a repair did once a step was taken; or the step's error. That the metadata could not be
/// rebuilt is noted, and is no error.
pub open spec fn after_step(
    done: SingleInstanceRepairResult,
    step: RepairStep,
    outcome: StepOutcome,
) -> Result<SingleInstanceRepairResult, Seq<char>> {
    match outcome {
        StepOutcome::Failed(text) => if step == RepairStep::RebuildMetadata {
            Ok(SingleInstanceRepairResult { metadata_rebuild_failed: true, ..done })
        } else {
            Err(text@)
        },
        StepOutcome::Done(count, reset) => Ok(
            match step {
                RepairStep::UpdateProvider
                | RepairStep::RepairSources
                | RepairStep::NormalizePaths => SingleInstanceRepairResult {
                    sqlite_rows_updated: (done.sqlite_rows_updated + count) as usize,
                    ..done
                },
                RepairStep::ReconcileIndex => SingleInstanceRepairResult {
                    session_index_entries_added: count,
                    ..done
                },
                RepairStep::RepairCatalog => SingleInstanceRepairResult {
                    local_thread_catalog_rows_repaired: count,
                    ..done
                },
                RepairStep::RepairGlobalState => SingleInstanceRepairResult {
                    repaired_project_root_count: count,
                    reset_sidebar_host_selection: reset,
                    ..done
                },
                _ => done,
            },
        ),
    }
}

/// Whether a step counts rows of the state database.
pub open spec fn counts_rows(step: RepairStep) -> bool {
    step == RepairStep::UpdateProvider || step == RepairStep::RepairSources || step
        == RepairStep::NormalizePaths
}

/// Whether a repair ends with this step: it failed, and what it did not do cannot be left undone.
pub fn step_ends_repair(step: RepairStep, outcome: &StepOutcome) -> (ends: bool)
    ensures
        forall|done: SingleInstanceRepairResult|
            ends <==> #[trigger] after_step(done, step, *outcome) is Err,
{
    match (step, outcome) {
        (RepairStep::RebuildMetadata, _) => false,
        (_, StepOutcome::Failed(_)) => true,
        _ => false,
    }
}

/// How many rows of the state database a step changed.
pub open spec fn rows_of_step(step: RepairStep, outcome: StepOutcome) -> nat {
    match outcome {
        StepOutcome::Done(count, _) if counts_rows(step) => count as nat,
        _ => 0,
    }
}

/// How many rows of the state database a step changed.
pub fn step_rows(step: RepairStep, outcome: &StepOutcome) -> (rows: usize)
    ensures
        rows == rows_of_step(step, *outcome),
{
    match (step, outcome) {
        (
            RepairStep::UpdateProvider | RepairStep::RepairSources | RepairStep::NormalizePaths,
            StepOutcome::Done(count, _),
        ) => *count,
        _ => 0,
    }
}

/// Takes note of a step of a repair.
pub fn record_step(
    done: SingleInstanceRepairResult,
    step: RepairStep,
    outcome: StepOutcome,
) -> (next: Result<SingleInstanceRepairResult, String>)
    requires
        counts_rows(step) ==> (outcome matches StepOutcome::Done(count, _)
            ==> done.sqlite_rows_updated + count <= usize::MAX),
    ensures
        match after_step(done, step, outcome) {
            Ok(result) => next matches Ok(next) && next == result,
            Err(text) => next matches Err(error) && error@ == text,
        },
{
    match outcome {
        StepOutcome::Failed(text) => match step {
            RepairStep::RebuildMetadata => Ok(
                SingleInstanceRepairResult { metadata_rebuild_failed: true, ..done },
            ),
            _ => Err(text),
        },
        StepOutcome::Done(count, reset) => Ok(
            match step {
                RepairStep::UpdateProvider
                | RepairStep::RepairSources
                | RepairStep::NormalizePaths => SingleInstanceRepairResult {
                    sqlite_rows_updated: done.sqlite_rows_updated + count,
                    ..done
                },
                RepairStep::ReconcileIndex => SingleInstanceRepairResult {
                    session_index_entries_added: count,
                    ..done
                },
                RepairStep::RepairCatalog => SingleInstanceRepairResult {
                    local_thread_catalog_rows_repaired: count,
                    ..done
                },
                RepairStep::RepairGlobalState => SingleInstanceRepairResult {
                    repaired_project_root_count: count,
                    reset_sidebar_host_selection: reset,
                    ..done
                },
                _ => done,
            },
        ),
    }
}

/// The rows of the state database that the steps changed.
pub open spec fn rows_changed(steps: Seq<RepairStep>, outcomes: Seq<StepOutcome>) -> nat
    decreases outcomes.len(),
{
    if outcomes.len() == 0 {
        0
    } else {
        rows_changed(steps, outcomes.drop_last()) + rows_of_step(
            steps[outcomes.len() - 1],
            outcomes.last(),
        )
    }
}

/// What a repair comes to whose steps had these outcomes; or the error of the first that failed.
pub open spec fn repair_result(steps: Seq<RepairStep>, outcomes: Seq<StepOutcome>) -> Result<
    SingleInstanceRepairResult,
    Seq<char>,
>
    decreases outcomes.len(),
{
    if outcomes.len() == 0 {
        Ok(nothing_repaired())
    } else {
        match repair_result(steps, outcomes.drop_last()) {
            Err(text) => Err(text),
            Ok(done) => after_step(done, steps[outcomes.len() - 1], outcomes.last()),
        }
    }
}

proof fn lemma_repair_result(steps: Seq<RepairStep>, outcomes: Seq<StepOutcome>, n: int)
    requires
        0 <= n <= outcomes.len(),
    ensures
        rows_changed(steps, outcomes.take(n)) <= rows_changed(steps, outcomes),
        repair_result(steps, outcomes.take(n)) is Err ==> repair_result(steps, outcomes)
            == repair_result(steps, outcomes.take(n)),
    decreases outcomes.len(),
{
    if n < outcomes.len() {
        assert(outcomes.drop_last().take(n) =~= outcomes.take(n));
        lemma_repair_result(steps, outcomes.drop_last(), n);
    } else {
        assert(outcomes.take(n) =~= outcomes);
    }
}

/// What a repair of an instance comes to: `outcomes` has those of its steps, up to the first whose
/// failure ends it.
pub fn repair_single_instance(plan: RepairPlan, outcomes: Vec<StepOutcome>) -> (result: Result<
    SingleInstanceRepairResult,
    String,
>)
    requires
        outcomes@.len() <= repair_steps(plan).len(),
        rows_changed(repair_steps(plan), outcomes@) <= usize::MAX,
    ensures
        match repair_result(repair_steps(plan), outcomes@) {
            Ok(done) => result matches Ok(result) && result == done,
            Err(text) => result matches Err(error) && error@ == text,
        },
{
    let steps = single_instance_steps(plan);
    let ghost all = outcomes@;
    let mut done = SingleInstanceRepairResult {
        sqlite_rows_updated: 0,
        session_index_entries_added: 0,
        local_thread_catalog_rows_repaired: 0,
        repaired_project_root_count: 0,
        reset_sidebar_host_selection: false,
        metadata_rebuild_failed: false,
    };
    let mut i: usize = 0;
    for outcome in it: outcomes
        invariant
            it.seq() == all,
            i == it.index(),
            steps@ == repair_steps(plan),
            all.len() <= steps@.len(),
            rows_changed(steps@, all) <= usize::MAX,
            done.sqlite_rows_updated == rows_changed(steps@, all.take(i as int)),
            repair_result(steps@, all.take(i as int)) == Ok::<
                SingleInstanceRepairResult,
                Seq<char>,
            >(done),
    {
        proof {
            assert(all.take(i + 1).drop_last() =~= all.take(i as int));
            lemma_repair_result(steps@, all, i + 1);
        }
        match record_step(done, steps[i], outcome) {
            Ok(next) => {
                done = next;
            },
            Err(text) => return Err(text),
        }
        i += 1;
    }
    assert(all.take(all.len() as int) =~= all);
    Ok(done)
}

/// A repair whose metadata could not be rebuilt goes on as any other: that failure is noted, and is
/// never the reason for which a repair fails.
pub proof fn metadata_failure_is_no_error(
    done: SingleInstanceRepairResult,
    text: String,
)
    ensures
        after_step(done, RepairStep::RebuildMetadata, StepOutcome::Failed(text)) == Ok::<
            SingleInstanceRepairResult,
            Seq<char>,
        >(SingleInstanceRepairResult { metadata_rebuild_failed: true, ..done }),
{
}

/// What the repair of all instances is waiting for.
#[derive(Debug)]
pub enum RunStage {
    Starting,
    /// A look at the next instance.
    Scanning,
    /// A backup of the instance in which this was found.
    BackingUp(InstanceScan),
    /// The repair of that instance, whose backup is in this directory.
    Repairing(InstanceScan, String),
    /// The restoration of that instance, whose repair failed for the reason given.
    Restoring(InstanceScan, String, String),
    /// The removal of old backups.
    Pruning,
    Finished,
}

/// The repair of all instances: those that there are, what was done about the first of them, and
/// what it is waiting for.
#[derive(Debug)]
pub struct RepairRun {
    pub instances: Vec<CodexSyncInstance>,
    pub items: Vec<CodexSessionVisibilityRepairItem>,
    pub stage: RunStage,
}

/// Something that happened in the repair of all instances.
#[derive(Debug)]
pub enum RunEvent {
    Begun,
    Scanned(Result<InstanceScan, String>),
    /// The directory of the backup.
    BackedUp(Result<String, String>),
    Repaired(Result<SingleInstanceRepairResult, String>),
    Restored(Result<(), String>),
    Pruned,
}

/// What is to be done next in the repair of all instances; instances are given by position.
#[derive(Debug)]
pub enum RunAction {
    Scan(usize),
    BackUp(usize, BackupScope),
    Repair(usize, RepairPlan),
    /// Put the backup back, with the state database where it says so.
    Restore(usize, bool),
    Prune,
    Finish(Result<CodexSessionVisibilityRepairSummary, String>),
}

/// Whether an item says that nothing changed.
pub open spec fn changes_nothing(item: ItemText) -> bool {
    &&& item.changed_rollout_file_count == 0
    &&& item.updated_sqlite_row_count == 0
    &&& item.missing_sqlite_thread_count == 0
    &&& item.added_session_index_entry_count == 0
    &&& item.repaired_local_thread_catalog_count == 0
    &&& item.repaired_project_index_workspace_count == 0
    &&& !item.reset_sidebar_host_selection
    &&& !item.metadata_rebuild_failed
}

/// Whether an item is about this instance: it has its id and its name.
pub open spec fn is_item_of(item: ItemText, instance: InstanceText) -> bool {
    item.instance_id == instance.id && item.instance_name == instance.name
}

impl RepairRun {
    /// Whether the run is one that began with these instances: there is one item for each instance
    /// that is done with, in their order, and another instance while one is being worked on; only
    /// an instance that needs a repair is backed up and repaired; and an item without a backup is
    /// that of an instance in which nothing changed.
    pub open spec fn wf(self) -> bool {
        &&& self.items@.len() <= self.instances@.len()
        &&& forall|i: int|
            0 <= i < self.items@.len() ==> is_item_of(
                (#[trigger] self.items@[i])@,
                self.instances@[i]@,
            )
        &&& forall|i: int|
            0 <= i < self.items@.len() && (#[trigger] self.items@[i])@.backup_dir is None
                ==> changes_nothing(self.items@[i]@)
        &&& match self.stage {
            RunStage::Starting => self.items@.len() == 0,
            RunStage::Scanning => self.items@.len() < self.instances@.len(),
            RunStage::BackingUp(scan) => self.items@.len() < self.instances@.len() && needs_repair(
                scan,
            ),
            RunStage::Repairing(scan, _) => self.items@.len() < self.instances@.len()
                && needs_repair(scan),
            RunStage::Restoring(scan, _, _) => self.items@.len() < self.instances@.len()
                && needs_repair(scan),
            RunStage::Pruning => self.items@.len() == self.instances@.len(),
            RunStage::Finished => true,
        }
    }

    /// A run that has not begun.
    pub fn new(instances: Vec<CodexSyncInstance>) -> (run: RepairRun)
        ensures
            run.wf(),
            run.instances == instances,
            run.items@.len() == 0,
            run.stage is Starting,
    {
        RepairRun { instances, items: Vec::new(), stage: RunStage::Starting }
    }
}

/// Whether an event is one that the stage waits for.
pub open spec fn is_awaited(stage: RunStage, event: RunEvent) -> bool {
    match stage {
        RunStage::Starting => event is Begun,
        RunStage::Scanning => event is Scanned,
        RunStage::BackingUp(_) => event is BackedUp,
        RunStage::Repairing(_, _) => event is Repaired,
        RunStage::Restoring(_, _, _) => event is Restored,
        RunStage::Pruning => event is Pruned,
        RunStage::Finished => false,
    }
}

/// The item of an instance that needed no repair.
pub open spec fn idle_item(instance: InstanceText, scan: InstanceScan) -> ItemText {
    ItemText {
        instance_id: instance.id,
        instance_name: instance.name,
        target_provider: scan.target_provider@,
        changed_rollout_file_count: 0,
        updated_sqlite_row_count: 0,
        missing_sqlite_thread_count: 0,
        added_session_index_entry_count: 0,
        repaired_local_thread_catalog_count: 0,
        repaired_project_index_workspace_count: 0,
        reset_sidebar_host_selection: false,
        metadata_rebuild_failed: false,
        skipped_sqlite_file: scan.skipped_sqlite_file,
        backup_dir: None,
        running: scan.running,
    }
}

/// The item of an instance that was repaired.
pub open spec fn repaired_item(
    instance: InstanceText,
    scan: InstanceScan,
    repaired: SingleInstanceRepairResult,
    backup_dir: Seq<char>,
) -> ItemText {
    ItemText {
        instance_id: instance.id,
        instance_name: instance.name,
        target_provider: scan.target_provider@,
        changed_rollout_file_count: scan.rollout_changes,
        updated_sqlite_row_count: repaired.sqlite_rows_updated,
        missing_sqlite_thread_count: scan.missing_threads,
        added_session_index_entry_count: repaired.session_index_entries_added,
        repaired_local_thread_catalog_count: repaired.local_thread_catalog_rows_repaired,
        repaired_project_index_workspace_count: repaired.repaired_project_root_count,
        reset_sidebar_host_selection: repaired.reset_sidebar_host_selection,
        metadata_rebuild_failed: repaired.metadata_rebuild_failed,
        skipped_sqlite_file: scan.skipped_sqlite_file,
        backup_dir: Some(backup_dir),
        running: scan.running,
    }
}

/// What is said of a repair that failed and was undone.
pub open spec fn undone_text(name: Seq<char>, error: Seq<char>, backup: Seq<char>) -> Seq<char> {
    "修复实例历史会话可见性失败 ("@ + name + "): "@ + error + "；已自动回滚，备份目录: "@ + backup
}

/// What is said of a repair that failed and could not be undone.
pub open spec fn stuck_text(
    name: Seq<char>,
    error: Seq<char>,
    restore_error: Seq<char>,
    backup: Seq<char>,
) -> Seq<char> {
    "修复实例历史会话可见性失败 ("@ + name + "): "@ + error + "；自动回滚也失败: "@ + restore_error
        + "；备份目录: "@ + backup
}

/// Whether a run goes on to its next instance, or to the removal of old backups after the last,
/// with these items.
pub open spec fn goes_on(
    run: RepairRun,
    items: Seq<ItemText>,
    next: RepairRun,
    action: RunAction,
) -> bool {
    &&& item_texts(next.items@) == items
    &&& if items.len() < run.instances@.len() {
        next.stage is Scanning && action == RunAction::Scan(items.len() as usize)
    } else {
        next.stage is Pruning && action is Prune
    }
}

/// Whether a run ends with an error.
pub open spec fn ends_with_error(
    run: RepairRun,
    next: RepairRun,
    action: RunAction,
    text: Seq<char>,
) -> bool {
    &&& next.items == run.items
    &&& next.stage is Finished
    &&& action matches RunAction::Finish(Err(error)) && error@ == text
}

/// Whether a run waits for something else, with the items that it has.
pub open spec fn waits_for(run: RepairRun, next: RepairRun, stage: RunStage) -> bool {
    next.items == run.items && next.stage == stage
}

/// Whether `next` and `action` are what an event leads to in a run.
///
/// An instance that needs no repair gets its item at once. Any other is backed up first, then
/// repaired; where the repair fails, the backup is put back and the run ends with an error. Once all
/// instances are done with, old backups are removed and the run ends with a summary. A failed look
/// or backup ends the run, too.
pub open spec fn leads_to(
    run: RepairRun,
    event: RunEvent,
    next: RepairRun,
    action: RunAction,
) -> bool {
    let items = item_texts(run.items@);
    let at = run.items@.len() as usize;
    let instance = run.instances@[at as int]@;
    &&& next.instances == run.instances
    &&& match (run.stage, event) {
        (RunStage::Starting, RunEvent::Begun) => goes_on(run, items, next, action),
        (RunStage::Scanning, RunEvent::Scanned(Err(text))) => ends_with_error(
            run,
            next,
            action,
            text@,
        ),
        (RunStage::Scanning, RunEvent::Scanned(Ok(scan))) => if needs_repair(scan) {
            waits_for(run, next, RunStage::BackingUp(scan)) && action == RunAction::BackUp(
                at,
                scope_of(scan),
            )
        } else {
            goes_on(run, items.push(idle_item(instance, scan)), next, action)
        },
        (RunStage::BackingUp(_), RunEvent::BackedUp(Err(text))) => ends_with_error(
            run,
            next,
            action,
            text@,
        ),
        (RunStage::BackingUp(scan), RunEvent::BackedUp(Ok(dir))) => waits_for(
            run,
            next,
            RunStage::Repairing(scan, dir),
        ) && action == RunAction::Repair(at, plan_of(scan)),
        (RunStage::Repairing(scan, dir), RunEvent::Repaired(Ok(repaired))) => goes_on(
            run,
            items.push(repaired_item(instance, scan, repaired, dir@)),
            next,
            action,
        ),
        (RunStage::Repairing(scan, dir), RunEvent::Repaired(Err(error))) => waits_for(
            run,
            next,
            RunStage::Restoring(scan, dir, error),
        ) && action == RunAction::Restore(at, scope_of(scan).sqlite),
        (RunStage::Restoring(_, dir, error), RunEvent::Restored(Ok(_))) => ends_with_error(
            run,
            next,
            action,
            undone_text(instance.name, error@, dir@),
        ),
        (RunStage::Restoring(_, dir, error), RunEvent::Restored(Err(restore_error))) =>
            ends_with_error(
            run,
            next,
            action,
            stuck_text(instance.name, error@, restore_error@, dir@),
        ),
        (RunStage::Pruning, RunEvent::Pruned) => {
            &&& next.stage is Finished
            &&& action matches RunAction::Finish(Ok(summary)) && summarizes(
                summary,
                run.instances@.len(),
                items,
            )
        },
        _ => true,
    }
}

fn go_on(
    instances: Vec<CodexSyncInstance>,
    items: Vec<CodexSessionVisibilityRepairItem>,
) -> (step: (RepairRun, RunAction))
    requires
        items@.len() <= instances@.len(),
        forall|i: int|
            0 <= i < items@.len() ==> is_item_of((#[trigger] items@[i])@, instances@[i]@),
        forall|i: int|
            0 <= i < items@.len() && (#[trigger] items@[i])@.backup_dir is None
                ==> changes_nothing(items@[i]@),
    ensures
        step.0.wf(),
        step.0.instances == instances,
        step.0.items == items,
        if items@.len() < instances@.len() {
            step.0.stage is Scanning && step.1 == RunAction::Scan(items@.len() as usize)
        } else {
            step.0.stage is Pruning && step.1 is Prune
        },
{
    let at = items.len();
    if at < instances.len() {
        (RepairRun { instances, items, stage: RunStage::Scanning }, RunAction::Scan(at))
    } else {
        (RepairRun { instances, items, stage: RunStage::Pruning }, RunAction::Prune)
    }
}

fn fail(
    instances: Vec<CodexSyncInstance>,
    items: Vec<CodexSessionVisibilityRepairItem>,
    error: String,
) -> (step: (RepairRun, RunAction))
    ensures
        step.0.instances == instances,
        step.0.items == items,
        step.0.stage is Finished,
        step.1 matches RunAction::Finish(Err(text)) && text == error,
{
    (
        RepairRun { instances, items, stage: RunStage::Finished },
        RunAction::Finish(Err(error)),
    )
}

fn failure_text(name: &str, error: &str) -> (text: String)
    ensures
        text@ == "修复实例历史会话可见性失败 ("@ + name@ + "): "@ + error@,
{
    "修复实例历史会话可见性失败 (".to_owned().concat(name).concat("): ").concat(error)
}

/// The repair of all instances: what an event leads to in it.
pub fn repair_session_visibility_across_instances(run: RepairRun, event: RunEvent) -> (step: (
    RepairRun,
    RunAction,
))
    requires
        run.wf(),
        is_awaited(run.stage, event),
        event is Pruned ==> totals_fit(item_texts(run.items@)),
    ensures
        step.0.wf(),
        leads_to(run, event, step.0, step.1),
{
    let RepairRun { instances, items, stage } = run;
    let ghost before = items@;
    let at = items.len();
    match (stage, event) {
        (RunStage::Starting, RunEvent::Begun) => go_on(instances, items),
        (RunStage::Scanning, RunEvent::Scanned(Ok(scan))) => {
            let plan = plan_instance_repair(&scan);
            if plan.needed {
                return (
                    RepairRun { instances, items, stage: RunStage::BackingUp(scan) },
                    RunAction::BackUp(at, plan.backup),
                );
            }
            let item = CodexSessionVisibilityRepairItem {
                instance_id: instances[at].id.clone(),
                instance_name: instances[at].name.clone(),
                target_provider: scan.target_provider,
                changed_rollout_file_count: 0,
                updated_sqlite_row_count: 0,
                missing_sqlite_thread_count: 0,
                added_session_index_entry_count: 0,
                repaired_local_thread_catalog_count: 0,
                repaired_project_index_workspace_count: 0,
                reset_sidebar_host_selection: false,
                metadata_rebuild_failed: false,
                skipped_sqlite_file: scan.skipped_sqlite_file,
                backup_dir: None,
                running: scan.running,
            };
            let mut items = items;
            items.push(item);
            assert(item_texts(items@) =~= item_texts(before).push(item@));
            go_on(instances, items)
        },
        (RunStage::Scanning, RunEvent::Scanned(Err(error))) => fail(instances, items, error),
        (RunStage::BackingUp(scan), RunEvent::BackedUp(Ok(dir))) => {
            let plan = plan_instance_repair(&scan);
            (
                RepairRun { instances, items, stage: RunStage::Repairing(scan, dir) },
                RunAction::Repair(at, plan.repair),
            )
        },
        (RunStage::BackingUp(_), RunEvent::BackedUp(Err(error))) => fail(instances, items, error),
        (RunStage::Repairing(scan, dir), RunEvent::Repaired(Ok(repaired))) => {
            let item = CodexSessionVisibilityRepairItem {
                instance_id: instances[at].id.clone(),
                instance_name: instances[at].name.clone(),
                target_provider: scan.target_provider,
                changed_rollout_file_count: scan.rollout_changes,
                updated_sqlite_row_count: repaired.sqlite_rows_updated,
                missing_sqlite_thread_count: scan.missing_threads,
                added_session_index_entry_count: repaired.session_index_entries_added,
                repaired_local_thread_catalog_count: repaired.local_thread_catalog_rows_repaired,
                repaired_project_index_workspace_count: repaired.repaired_project_root_count,
                reset_sidebar_host_selection: repaired.reset_sidebar_host_selection,
                metadata_rebuild_failed: repaired.metadata_rebuild_failed,
                skipped_sqlite_file: scan.skipped_sqlite_file,
                backup_dir: Some(dir),
                running: scan.running,
            };
            let mut items = items;
            items.push(item);
            assert(item_texts(items@) =~= item_texts(before).push(item@));
            go_on(instances, items)
        },
        (RunStage::Repairing(scan, dir), RunEvent::Repaired(Err(error))) => {
            let plan = plan_instance_repair(&scan);
            (
                RepairRun { instances, items, stage: RunStage::Restoring(scan, dir, error) },
                RunAction::Restore(at, plan.backup.sqlite),
            )
        },
        (RunStage::Restoring(_, dir, error), RunEvent::Restored(Ok(_))) => {
            let text = failure_text(instances[at].name.as_str(), error.as_str()).concat(
                "；已自动回滚，备份目录: ",
            ).concat(dir.as_str());
            fail(instances, items, text)
        },
        (RunStage::Restoring(_, dir, error), RunEvent::Restored(Err(restore_error))) => {
            let text = failure_text(instances[at].name.as_str(), error.as_str()).concat(
                "；自动回滚也失败: ",
            ).concat(restore_error.as_str()).concat("；备份目录: ").concat(dir.as_str());
            fail(instances, items, text)
        },
        (RunStage::Pruning, RunEvent::Pruned) => {
            let count = instances.len();
            match summarize(count, items) {
                Some(summary) => (
                    RepairRun { instances, items: Vec::new(), stage: RunStage::Finished },
                    RunAction::Finish(Ok(summary)),
                ),
                None => (
                    RepairRun { instances, items: Vec::new(), stage: RunStage::Finished },
                    RunAction::Prune,
                ),
            }
        },
        (stage, _) => (RepairRun { instances, items, stage }, RunAction::Prune),
    }
}

/// How much is left of a run, at most: how many events it still waits for.
pub open spec fn events_left(run: RepairRun) -> int {
    let left = run.instances@.len() - run.items@.len();
    match run.stage {
        RunStage::Starting => 4 * left + 3,
        RunStage::Scanning => 4 * left + 2,
        RunStage::BackingUp(_) => 4 * left + 1,
        RunStage::Repairing(_, _) => 4 * left,
        RunStage::Restoring(_, _, _) => 4 * left - 1,
        RunStage::Pruning => 1,
        RunStage::Finished => 0,
    }
}

/// Every run comes to an end: with each event that it waits for, fewer are left; and it is at its
/// end exactly when it gives its result.
pub proof fn run_comes_to_an_end(run: RepairRun, event: RunEvent, next: RepairRun, action: RunAction)
    requires
        run.wf(),
        is_awaited(run.stage, event),
        leads_to(run, event, next, action),
    ensures
        0 <= events_left(next) < events_left(run),
        next.stage is Finished <==> action is Finish,
{
    assert(next.items@.len() == item_texts(next.items@).len());
}

/// An instance is repaired only where it needs it and once its backup is made; a backup is put back
/// exactly where a repair failed; and a run succeeds only when every instance has its item, under
/// its id and its name.
pub proof fn repairs_are_backed_up(run: RepairRun, event: RunEvent, next: RepairRun, action: RunAction)
    requires
        run.wf(),
        is_awaited(run.stage, event),
        leads_to(run, event, next, action),
    ensures
        action is Repair <==> event matches RunEvent::BackedUp(Ok(_)),
        action is Repair ==> (run.stage matches RunStage::BackingUp(scan) && needs_repair(scan)
            && action == RunAction::Repair(run.items@.len() as usize, plan_of(scan))),
        action is Restore <==> event matches RunEvent::Repaired(Err(_)),
        action is Restore ==> run.stage is Repairing,
        action matches RunAction::Finish(Ok(summary)) ==> {
            &&& summary.items@.len() == run.instances@.len()
            &&& summary.instance_count == run.instances@.len()
            &&& forall|i: int|
                0 <= i < run.instances@.len() ==> is_item_of(
                    (#[trigger] summary.items@[i])@,
                    run.instances@[i]@,
                )
        },
{
    if let RunAction::Finish(Ok(summary)) = action {
        assert(summary.items@.len() == item_texts(summary.items@).len());
        assert(run.items@.len() == item_texts(run.items@).len());
        assert forall|i: int| 0 <= i < run.instances@.len() implies is_item_of(
            (#[trigger] summary.items@[i])@,
            run.instances@[i]@,
        ) by {
            assert(item_texts(summary.items@)[i] == summary.items@[i]@);
            assert(item_texts(run.items@)[i] == run.items@[i]@);
            assert(is_item_of(run.items@[i]@, run.instances@[i]@));
        }
    }
}

proof fn lemma_contains_step(steps: Seq<RepairStep>, taken: bool, added: RepairStep, step: RepairStep)
    ensures
        (steps + repair_if(taken, added)).contains(step) <==> steps.contains(step) || taken && step
            == added,
{
    let all = steps + repair_if(taken, added);
    if steps.contains(step) {
        let i = choose|i: int| 0 <= i < steps.len() && steps[i] == step;
        assert(all[i] == step);
    }
    if taken && step == added {
        assert(all[steps.len() as int] == step);
    }
    if all.contains(step) {
        let i = choose|i: int| 0 <= i < all.len() && all[i] == step;
        if i < steps.len() {
            assert(steps[i] == step);
        }
    }
}

/// Each step is among the steps of a repair exactly where its plan asks for it; the rollout files,
/// the timestamps and the global state are seen to in every repair.
pub proof fn plan_decides_the_steps(plan: RepairPlan)
    ensures
        repair_steps(plan).contains(RepairStep::UpdateProvider) <==> plan.update_sqlite,
        repair_steps(plan).contains(RepairStep::RewriteRollouts),
        repair_steps(plan).contains(RepairStep::RepairSources)
            <==> plan.repair_sqlite_thread_sources,
        repair_steps(plan).contains(RepairStep::NormalizePaths) <==> plan.normalize_sqlite_paths,
        repair_steps(plan).contains(RepairStep::RepairTimestamps),
        repair_steps(plan).contains(RepairStep::RebuildMetadata)
            <==> plan.rebuild_missing_sqlite_threads,
        repair_steps(plan).contains(RepairStep::ReconcileIndex) <==> plan.reconcile_session_index,
        repair_steps(plan).contains(RepairStep::RepairCatalog) <==> plan.repair_local_thread_catalog,
        repair_steps(plan).contains(RepairStep::RepairGlobalState),
{
    assert forall|step: RepairStep| #[trigger] repair_steps(plan).contains(step) <==> {
        ||| plan.update_sqlite && step == RepairStep::UpdateProvider
        ||| step == RepairStep::RewriteRollouts
        ||| plan.repair_sqlite_thread_sources && step == RepairStep::RepairSources
        ||| plan.normalize_sqlite_paths && step == RepairStep::NormalizePaths
        ||| step == RepairStep::RepairTimestamps
        ||| plan.rebuild_missing_sqlite_threads && step == RepairStep::RebuildMetadata
        ||| plan.reconcile_session_index && step == RepairStep::ReconcileIndex
        ||| plan.repair_local_thread_catalog && step == RepairStep::RepairCatalog
        ||| step == RepairStep::RepairGlobalState
    } by {
        let s0 = Seq::<RepairStep>::empty();
        let s1 = repair_if(plan.update_sqlite, RepairStep::UpdateProvider);
        let s2 = s1 + repair_if(true, RepairStep::RewriteRollouts);
        let s3 = s2 + repair_if(plan.repair_sqlite_thread_sources, RepairStep::RepairSources);
        let s4 = s3 + repair_if(plan.normalize_sqlite_paths, RepairStep::NormalizePaths);
        let s5 = s4 + repair_if(true, RepairStep::RepairTimestamps);
        let s6 = s5 + repair_if(plan.rebuild_missing_sqlite_threads, RepairStep::RebuildMetadata);
        let s7 = s6 + repair_if(plan.reconcile_session_index, RepairStep::ReconcileIndex);
        let s8 = s7 + repair_if(plan.repair_local_thread_catalog, RepairStep::RepairCatalog);
        assert(s0 + s1 =~= s1);
        lemma_contains_step(s0, plan.update_sqlite, RepairStep::UpdateProvider, step);
        lemma_contains_step(s1, true, RepairStep::RewriteRollouts, step);
        lemma_contains_step(
            s2,
            plan.repair_sqlite_thread_sources,
            RepairStep::RepairSources,
            step,
        );
        lemma_contains_step(s3, plan.normalize_sqlite_paths, RepairStep::NormalizePaths, step);
        lemma_contains_step(s4, true, RepairStep::RepairTimestamps, step);
        lemma_contains_step(
            s5,
            plan.rebuild_missing_sqlite_threads,
            RepairStep::RebuildMetadata,
            step,
        );
        lemma_contains_step(s6, plan.reconcile_session_index, RepairStep::ReconcileIndex, step);
        lemma_contains_step(s7, plan.repair_local_thread_catalog, RepairStep::RepairCatalog, step);
        lemma_contains_step(s8, true, RepairStep::RepairGlobalState, step);
    }
}

/// Whatever a look at an instance counts is repaired, and nothing of the database, the index or the
/// catalog is touched that it does not count; the catalog is repaired after any change of the
/// database, too. A repair is needed exactly where something is counted, or another host is
/// selected.
pub proof fn what_is_found_is_repaired(scan: InstanceScan)
    ensures
        ({
            let steps = repair_steps(plan_of(scan));
            &&& steps.contains(RepairStep::UpdateProvider) <==> scan.sqlite_rows > 0
            &&& steps.contains(RepairStep::RepairSources) <==> scan.source_rows > 0
            &&& steps.contains(RepairStep::NormalizePaths) <==> scan.path_rows > 0
            &&& steps.contains(RepairStep::RebuildMetadata) <==> scan.missing_threads > 0
            &&& steps.contains(RepairStep::ReconcileIndex) <==> scan.missing_index_entries > 0
            &&& steps.contains(RepairStep::RepairCatalog) <==> scan.catalog_plan.missing_row_count
                > 0 || scan.catalog_plan.stale_path_count > 0 || scan.sqlite_rows > 0
                || scan.source_rows > 0 || scan.path_rows > 0 || scan.missing_threads > 0
            &&& steps.contains(RepairStep::RewriteRollouts)
            &&& steps.contains(RepairStep::RepairTimestamps)
            &&& steps.contains(RepairStep::RepairGlobalState)
            &&& needs_repair(scan) <==> !(scan.rollout_changes == 0 && scan.sqlite_rows == 0
                && scan.source_rows == 0 && scan.path_rows == 0 && scan.missing_threads == 0
                && scan.missing_index_entries == 0 && scan.catalog_plan.missing_row_count == 0
                && scan.catalog_plan.stale_path_count == 0
                && scan.global_state_plan.repaired_project_root_count == 0
                && !scan.global_state_plan.reset_remote_host_selection)
        }),
{
    plan_decides_the_steps(plan_of(scan));
}

/// The backup before a repair holds the state database exactly where one of the steps that write it
/// is taken, the index and the catalog exactly where they are repaired, and the global state where
/// there is something to repair in it.
pub proof fn backup_holds_what_the_steps_write(scan: InstanceScan)
    ensures
        ({
            let steps = repair_steps(plan_of(scan));
            let scope = scope_of(scan);
            &&& scope.sqlite <==> steps.contains(RepairStep::UpdateProvider) || steps.contains(
                RepairStep::RepairSources,
            ) || steps.contains(RepairStep::NormalizePaths) || steps.contains(
                RepairStep::RebuildMetadata,
            )
            &&& scope.session_index <==> steps.contains(RepairStep::ReconcileIndex)
            &&& scope.local_thread_catalog <==> steps.contains(RepairStep::RepairCatalog)
            &&& scope.global_state <==> scan.global_state_plan.repaired_project_root_count > 0
                || scan.global_state_plan.reset_remote_host_selection
        }),
{
    plan_decides_the_steps(plan_of(scan));
}

/// The place of a step among all steps.
pub open spec fn place_of(step: RepairStep) -> int {
    match step {
        RepairStep::UpdateProvider => 0,
        RepairStep::RewriteRollouts => 1,
        RepairStep::RepairSources => 2,
        RepairStep::NormalizePaths => 3,
        RepairStep::RepairTimestamps => 4,
        RepairStep::RebuildMetadata => 5,
        RepairStep::ReconcileIndex => 6,
        RepairStep::RepairCatalog => 7,
        RepairStep::RepairGlobalState => 8,
    }
}

/// Whether the steps are in their order, each at most once, and all before `place`.
pub open spec fn are_in_place(steps: Seq<RepairStep>, place: int) -> bool {
    &&& forall|i: int| 0 <= i < steps.len() ==> place_of(#[trigger] steps[i]) < place
    &&& forall|i: int, j: int|
        0 <= i < j < steps.len() ==> place_of(#[trigger] steps[i]) < place_of(#[trigger] steps[j])
}

/// The steps of a repair are taken in one order, each at most once: the provider is written before
/// anything else, sources, paths and timestamps are repaired before threads are read again, and the
/// catalog is repaired after all that it is filled from.
pub proof fn steps_are_in_their_order(plan: RepairPlan)
    ensures
        are_in_place(repair_steps(plan), 9),
{
}

/// What a step adds to the result of a repair: its rows where it writes the database, its entries
/// where it writes the index, its rows where it writes the catalog, and its roots and its selection
/// where it writes the global state. It changes nothing else of the result.
pub proof fn step_adds_what_it_changed(
    done: SingleInstanceRepairResult,
    step: RepairStep,
    count: usize,
    reset: bool,
)
    requires
        done.sqlite_rows_updated + count <= usize::MAX,
    ensures
        after_step(done, step, StepOutcome::Done(count, reset)) matches Ok(next) && {
            &&& next.sqlite_rows_updated == done.sqlite_rows_updated + (if step
                == RepairStep::UpdateProvider || step == RepairStep::RepairSources || step
                == RepairStep::NormalizePaths {
                count as int
            } else {
                0
            })
            &&& next.session_index_entries_added == if step == RepairStep::ReconcileIndex {
                count
            } else {
                done.session_index_entries_added
            }
            &&& next.local_thread_catalog_rows_repaired == if step == RepairStep::RepairCatalog {
                count
            } else {
                done.local_thread_catalog_rows_repaired
            }
            &&& next.repaired_project_root_count == if step == RepairStep::RepairGlobalState {
                count
            } else {
                done.repaired_project_root_count
            }
            &&& next.reset_sidebar_host_selection == if step == RepairStep::RepairGlobalState {
                reset
            } else {
                done.reset_sidebar_host_selection
            }
            &&& next.metadata_rebuild_failed == done.metadata_rebuild_failed
        },
{
}

/// A step that failed ends the repair with its reason, unless it was to rebuild the metadata.
pub proof fn failed_step_ends_the_repair(
    done: SingleInstanceRepairResult,
    step: RepairStep,
    text: String,
)
    ensures
        step != RepairStep::RebuildMetadata ==> after_step(done, step, StepOutcome::Failed(text))
            == Err::<SingleInstanceRepairResult, Seq<char>>(text@),
        after_step(done, step, StepOutcome::Failed(text)) is Ok ==> step
            == RepairStep::RebuildMetadata,
{
}

/// A repair that succeeds counts the rows that all its steps together changed, from none on.
pub proof fn repair_counts_the_rows_of_its_steps(
    steps: Seq<RepairStep>,
    outcomes: Seq<StepOutcome>,
    count: usize,
    reset: bool,
)
    requires
        outcomes.len() < steps.len(),
        rows_changed(steps, outcomes) + count <= usize::MAX,
    ensures
        repair_result(steps, outcomes) matches Ok(done) ==> {
            &&& done.sqlite_rows_updated == rows_changed(steps, outcomes)
            &&& repair_result(steps, outcomes.push(StepOutcome::Done(count, reset))) matches Ok(next)
                && next.sqlite_rows_updated - done.sqlite_rows_updated == (match steps[outcomes.len() as int] {
                RepairStep::UpdateProvider => count as int,
                RepairStep::RepairSources => count as int,
                RepairStep::NormalizePaths => count as int,
                _ => 0,
            })
        },
        repair_result(steps, Seq::empty()) matches Ok(done) && done.sqlite_rows_updated == 0
            && done.session_index_entries_added == 0 && done.local_thread_catalog_rows_repaired == 0
            && done.repaired_project_root_count == 0 && !done.reset_sidebar_host_selection
            && !done.metadata_rebuild_failed,
    decreases outcomes.len(),
{
    let outcome = StepOutcome::Done(count, reset);
    assert(outcomes.push(outcome).drop_last() =~= outcomes);
    if outcomes.len() > 0 {
        repair_counts_the_rows_of_its_steps(steps, outcomes.drop_last(), 0, false);
    }
}

/// The instances to repair are the stored ones with a data directory that is not blank, in their
/// order, each with its own id, name and process, and its directory without surrounding white
/// space.
pub proof fn instances_with_a_directory_are_repaired(stored: Seq<StoredInstance>, next: StoredInstance)
    ensures
        ({
            let before = stored_texts(stored);
            let after = stored_texts(stored.push(next));
            if forall|i: int|
                0 <= i < next.user_data_dir@.len() ==> is_white(#[trigger] next.user_data_dir@[i]) {
                after == before
            } else {
                &&& after.len() == before.len() + 1
                &&& after.drop_last() == before
                &&& after.last().id == next.id@
                &&& after.last().name == next.name@
                &&& after.last().last_pid == next.last_pid
                &&& after.last().data_dir == trimmed(next.user_data_dir@)
                &&& after.last().data_dir.len() > 0
            }
        }),
        stored_texts(Seq::empty()).len() == 0,
{
    let dir = next.user_data_dir@;
    assert(stored.push(next).drop_last() =~= stored);
    assert(stored.push(next).last() == next);
    lemma_trimmed_blank(dir);
    assert(stored_texts(stored).push(stored_texts(stored.push(next)).last()).drop_last()
        =~= stored_texts(stored));
}

/// A run gives an instance an item with what was found in it and what its repair changed; one that
/// needed no repair gets an item that counts nothing and has no backup.
pub proof fn item_says_what_was_done(
    run: RepairRun,
    event: RunEvent,
    next: RepairRun,
    action: RunAction,
)
    requires
        run.wf(),
        is_awaited(run.stage, event),
        leads_to(run, event, next, action),
    ensures
        (run.stage, event) matches (
            RunStage::Repairing(scan, dir),
            RunEvent::Repaired(Ok(repaired)),
        ) ==> {
            let item = next.items@.last()@;
            &&& next.items@.len() == run.items@.len() + 1
            &&& item.instance_id == run.instances@[run.items@.len() as int]@.id
            &&& item.instance_name == run.instances@[run.items@.len() as int]@.name
            &&& item.target_provider == scan.target_provider@
            &&& item.changed_rollout_file_count == scan.rollout_changes
            &&& item.updated_sqlite_row_count == repaired.sqlite_rows_updated
            &&& item.missing_sqlite_thread_count == scan.missing_threads
            &&& item.added_session_index_entry_count == repaired.session_index_entries_added
            &&& item.repaired_local_thread_catalog_count
                == repaired.local_thread_catalog_rows_repaired
            &&& item.repaired_project_index_workspace_count == repaired.repaired_project_root_count
            &&& item.reset_sidebar_host_selection == repaired.reset_sidebar_host_selection
            &&& item.metadata_rebuild_failed == repaired.metadata_rebuild_failed
            &&& item.skipped_sqlite_file == scan.skipped_sqlite_file
            &&& item.backup_dir == Some(dir@)
            &&& item.running == scan.running
        },
        (run.stage, event) matches (RunStage::Scanning, RunEvent::Scanned(Ok(scan))) ==> (
        scan.rollout_changes == 0 && scan.sqlite_rows == 0 && scan.source_rows == 0
            && scan.path_rows == 0 && scan.missing_threads == 0 && scan.missing_index_entries == 0
            && scan.catalog_plan.missing_row_count == 0 && scan.catalog_plan.stale_path_count == 0
            && scan.global_state_plan.repaired_project_root_count == 0
            && !scan.global_state_plan.reset_remote_host_selection ==> {
            let item = next.items@.last()@;
            &&& next.items@.len() == run.items@.len() + 1
            &&& item.instance_id == run.instances@[run.items@.len() as int]@.id
            &&& item.instance_name == run.instances@[run.items@.len() as int]@.name
            &&& item.target_provider == scan.target_provider@
            &&& item.changed_rollout_file_count == 0
            &&& item.updated_sqlite_row_count == 0
            &&& item.missing_sqlite_thread_count == 0
            &&& item.added_session_index_entry_count == 0
            &&& item.repaired_local_thread_catalog_count == 0
            &&& item.repaired_project_index_workspace_count == 0
            &&& !item.reset_sidebar_host_selection
            &&& !item.metadata_rebuild_failed
            &&& item.skipped_sqlite_file == scan.skipped_sqlite_file
            &&& item.backup_dir is None
            &&& item.running == scan.running
        }),
{
    assert(run.items.len() == run.items@.len());
    assert(item_texts(run.items@).len() == run.items@.len());
    assert(next.items@.len() == item_texts(next.items@).len());
    if next.items@.len() > 0 {
        assert(item_texts(next.items@).last() == next.items@.last()@);
    }
}

/// An instance in which anything is counted is backed up before it is repaired; the state database
/// is put back with the backup exactly where something in it was to change; and the error of a
/// failed repair names the instance, the reason and the backup.
pub proof fn counted_work_is_backed_up(
    run: RepairRun,
    event: RunEvent,
    next: RepairRun,
    action: RunAction,
)
    requires
        run.wf(),
        is_awaited(run.stage, event),
        leads_to(run, event, next, action),
    ensures
        (run.stage, event) matches (RunStage::Scanning, RunEvent::Scanned(Ok(scan))) ==> (
        scan.rollout_changes > 0 || scan.sqlite_rows > 0 || scan.source_rows > 0 || scan.path_rows
            > 0 || scan.missing_threads > 0 || scan.missing_index_entries > 0
            || scan.catalog_plan.missing_row_count > 0 || scan.catalog_plan.stale_path_count > 0
            || scan.global_state_plan.repaired_project_root_count > 0
            || scan.global_state_plan.reset_remote_host_selection ==> action is BackUp && next.items
            == run.items),
        (run.stage, event) matches (RunStage::Repairing(scan, _), RunEvent::Repaired(Err(_))) ==> (
        action matches RunAction::Restore(at, database) && at == run.items@.len() && (database <==> (
        scan.sqlite_rows > 0 || scan.source_rows > 0 || scan.path_rows > 0 || scan.missing_threads
            > 0))),
        (run.stage, event) matches (
            RunStage::Restoring(_, dir, error),
            RunEvent::Restored(restored),
        ) ==> (action matches RunAction::Finish(Err(text)) && {
            let name = run.instances@[run.items@.len() as int]@.name;
            let start = "修复实例历史会话可见性失败 ("@ + name + "): "@ + error@;
            match restored {
                Ok(_) => text@ == start + "；已自动回滚，备份目录: "@ + dir@,
                Err(reason) => text@ == start + "；自动回滚也失败: "@ + reason@ + "；备份目录: "@ + dir@,
            }
        }),
{
    assert(run.items.len() == run.items@.len());
}

/// A run goes from one instance to the next: it looks at the instances in their order, at each once
/// the one before it has its item, and removes old backups only when all have theirs. What it does
/// about an instance it does about the one that it looked at.
pub proof fn run_goes_from_instance_to_instance(
    run: RepairRun,
    event: RunEvent,
    next: RepairRun,
    action: RunAction,
)
    requires
        run.wf(),
        is_awaited(run.stage, event),
        leads_to(run, event, next, action),
    ensures
        next.instances == run.instances,
        action matches RunAction::Scan(at) ==> at == next.items@.len() && at
            < run.instances@.len() && next.stage is Scanning,
        action is Prune ==> next.items@.len() == run.instances@.len() && next.stage is Pruning,
        action matches RunAction::BackUp(at, scope) ==> at == run.items@.len()
            && next.items@.len() == at && (next.stage matches RunStage::BackingUp(scan)
            && event == RunEvent::Scanned(Ok(scan)) && scope == scope_of(scan)),
        action matches RunAction::Repair(at, _) ==> at == run.items@.len() && next.items@.len()
            == at,
        action matches RunAction::Restore(at, _) ==> at == run.items@.len() && next.items@.len()
            == at,
        event matches RunEvent::Scanned(Err(reason)) ==> (action matches RunAction::Finish(Err(text))
            && text@ == reason@),
        event matches RunEvent::BackedUp(Err(reason)) ==> (action matches RunAction::Finish(Err(text))
            && text@ == reason@),
{
    assert(run.items.len() == run.items@.len());
    assert(run.instances.len() == run.instances@.len());
    assert(item_texts(run.items@).len() == run.items@.len());
    assert(item_texts(next.items@).len() == next.items@.len());
}

} // verus!
