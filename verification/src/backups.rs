//! Backups that a repair makes first: their names, what goes into them, how they are put back, and
//! which old ones go.

use vstd::prelude::*;

use crate::json::{
    lemma_text_list_reads_back, list_of_texts, member_of, numbers_canonical, parsed_json,
    pretty_json, reads_back, render_json_pretty, set_entry, text_list, within_levels, Json,
    JsonTree,
};
use crate::order::{
    in_order, in_order_is_sorted, is_text_less, place, text_less, text_less_is_total,
    text_less_is_transitive, Sortable,
};
use crate::rollouts::copy_texts;
use crate::sqlite::{format_sqlite_read_error, located};
use crate::text::{
    after_prefix, before_suffix, begins_with, chars_of, finishes_with, is_digit, opt_view,
    strip_prefix, strip_suffix, views,
};

verus! {

/// Whether `s` is a date and a time such as `20260627-010203`.
pub open spec fn is_stamp(s: Seq<char>) -> bool {
    &&& s.len() == 15
    &&& forall|i: int|
        0 <= i < 15 ==> if i == 8 {
            (#[trigger] s[i]) == '-'
        } else {
            is_digit(s[i])
        }
}

/// The date and time in the name of a backup directory.
pub open spec fn stamp_in(name: Seq<char>) -> Option<Seq<char>> {
    match after_prefix(name, "backup-"@) {
        Some(rest) => match before_suffix(rest, "-session-visibility-repair"@) {
            Some(stamp) => if is_stamp(stamp) {
                Some(stamp)
            } else {
                None
            },
            None => None,
        },
        None => None,
    }
}

/// The date and time in the name of a backup directory; none for other directories.
pub fn parse_session_visibility_repair_backup_timestamp(name: &str) -> (stamp: Option<String>)
    ensures
        opt_view(stamp) == stamp_in(name@),
{
    let rest = match strip_prefix(name, "backup-") {
        Some(rest) => rest,
        None => return None,
    };
    let stamp = match strip_suffix(rest.as_str(), "-session-visibility-repair") {
        Some(stamp) => stamp,
        None => return None,
    };
    let chars = chars_of(stamp.as_str());
    if chars.len() != 15 {
        return None;
    }
    let mut i: usize = 0;
    while i < 15
        invariant
            i <= 15,
            chars@.len() == 15,
            forall|j: int|
                0 <= j < i ==> if j == 8 {
                    (#[trigger] chars@[j]) == '-'
                } else {
                    is_digit(chars@[j])
                },
            chars@ == stamp@,
            Some(rest@) == after_prefix(name@, "backup-"@),
            Some(stamp@) == before_suffix(rest@, "-session-visibility-repair"@),
        decreases 15 - i,
    {
        let c = chars[i];
        let fits = if i == 8 {
            c == '-'
        } else {
            '0' <= c && c <= '9'
        };
        if !fits {
            return None;
        }
        i += 1;
    }
    Some(stamp)
}

/// The date and time of a second in UTC, such as `20260627-010203`, as `chrono` writes it; none
/// where the time is outside its range.
pub uninterp spec fn utc_stamp(seconds: i64) -> Option<Seq<char>>;

/// `DateTime::<Utc>::from_timestamp(seconds, 0)`, written by `format` with `%Y%m%d-%H%M%S`. It
/// depends on the number alone. From the beginning of 1970 to the end of 9999 there is such a time
/// and its year has four digits, so that eight digits, a hyphen and six digits are written.
#[verifier::external_body]
fn write_utc_stamp(seconds: i64) -> (stamp: Option<String>)
    ensures
        opt_view(stamp) == utc_stamp(seconds),
        0 <= seconds < 253_402_300_800 ==> (stamp matches Some(stamp) && is_stamp(stamp@)),
{
    chrono::DateTime::<chrono::Utc>::from_timestamp(seconds, 0)
        .map(|time| time.format("%Y%m%d-%H%M%S").to_string())
}

/// The name of the backup directory of a second.
pub open spec fn backup_name(stamp: Seq<char>) -> Seq<char> {
    "backup-"@ + stamp + "-session-visibility-repair"@
}

/// The date and time in a backup's name is the one that it was named by.
pub proof fn backup_name_gives_its_stamp(stamp: Seq<char>)
    requires
        is_stamp(stamp),
    ensures
        stamp_in(backup_name(stamp)) == Some(stamp),
{
    let name = backup_name(stamp);
    let prefix = "backup-"@;
    let suffix = "-session-visibility-repair"@;
    assert(name.subrange(0, prefix.len() as int) =~= prefix);
    assert(begins_with(name, prefix));
    let rest = name.skip(prefix.len() as int);
    assert(rest =~= stamp + suffix);
    assert(rest.subrange(stamp.len() as int, rest.len() as int) =~= suffix);
    assert(finishes_with(rest, suffix));
    assert(rest.take(rest.len() - suffix.len()) =~= stamp);
}

/// The name of the directory for a backup that is made at `seconds` since the Unix epoch. There is
/// none only where `chrono` has no such time. The name tells the time again.
pub fn backup_dir_name(seconds: i64) -> (name: Option<String>)
    ensures
        opt_view(name) == match utc_stamp(seconds) {
            Some(stamp) => Some(backup_name(stamp)),
            None => None,
        },
        0 <= seconds < 253_402_300_800 ==> (name matches Some(name) && stamp_in(name@) == utc_stamp(
            seconds,
        )),
{
    match write_utc_stamp(seconds) {
        Some(stamp) => {
            proof {
                if is_stamp(stamp@) {
                    backup_name_gives_its_stamp(stamp@);
                }
            }
            Some(name_for_stamp(stamp.as_str()))
        },
        None => None,
    }
}

/// The name of the backup directory for a date and time.
pub fn name_for_stamp(stamp: &str) -> (name: String)
    ensures
        name@ == backup_name(stamp@),
{
    "backup-".to_owned().concat(stamp).concat("-session-visibility-repair")
}

/// A backup directory: its date and time, and which of the directories it is.
#[derive(Debug)]
pub struct BackupDirectory {
    pub stamp: String,
    pub at: usize,
}

impl Sortable for BackupDirectory {
    open spec fn after(self, other: Self) -> bool {
        text_less(self.stamp@, other.stamp@)
    }

    proof fn after_is_an_order(a: Self, b: Self, c: Self) {
        text_less_is_total(a.stamp@, b.stamp@);
        text_less_is_total(b.stamp@, c.stamp@);
        text_less_is_total(a.stamp@, c.stamp@);
        if a.stamp@ != c.stamp@ && !a.after(b) && !b.after(c) && a.after(c) && b.stamp@ != c.stamp@ {
            text_less_is_transitive(a.stamp@, c.stamp@, b.stamp@);
        }
    }

    fn is_after(&self, other: &Self) -> (after: bool) {
        is_text_less(self.stamp.as_str(), other.stamp.as_str())
    }
}

/// What a `BackupDirectory` says.
pub open spec fn backup_texts(backups: Seq<BackupDirectory>) -> Seq<(Seq<char>, int)> {
    backups.map_values(|backup: BackupDirectory| (backup.stamp@, backup.at as int))
}

/// The backup directories among directories with these names.
pub open spec fn backups_among(names: Seq<Seq<char>>) -> Seq<(Seq<char>, int)>
    decreases names.len(),
{
    if names.len() == 0 {
        seq![]
    } else {
        let rest = backups_among(names.drop_last());
        match stamp_in(names.last()) {
            Some(stamp) => rest.push((stamp, names.len() - 1)),
            None => rest,
        }
    }
}

/// The backup directories, the newest first.
pub fn list_backups(names: &Vec<String>) -> (backups: Vec<BackupDirectory>)
    ensures
        exists|found: Seq<BackupDirectory>| #[trigger]
            backup_texts(found) == backups_among(views(names@)) && backups@ == in_order(found),
{
    let ghost texts = views(names@);
    let mut backups: Vec<BackupDirectory> = Vec::new();
    let ghost mut found: Seq<BackupDirectory> = seq![];
    let mut i: usize = 0;
    assert(backup_texts(found) =~= backups_among(texts.take(0)));
    while i < names.len()
        invariant
            i <= names@.len(),
            texts == views(names@),
            backups@ == in_order(found),
            backup_texts(found) == backups_among(texts.take(i as int)),
        decreases names@.len() - i,
    {
        proof {
            assert(texts.take(i + 1).drop_last() =~= texts.take(i as int));
            assert(texts.take(i + 1).last() == names@[i as int]@);
        }
        if let Some(stamp) = parse_session_visibility_repair_backup_timestamp(names[i].as_str()) {
            let backup = BackupDirectory { stamp, at: i };
            place(&mut backups, backup);
            proof {
                let before = found;
                found = found.push(backup);
                assert(found.drop_last() =~= before);
                assert(backup_texts(found) =~= backup_texts(before).push(
                    (backup.stamp@, backup.at as int),
                ));
            }
        }
        i += 1;
    }
    assert(texts.take(i as int) =~= texts);
    backups
}

/// Which of the directories with these names are to be removed: all backups but the newest, the
/// newer first.
pub fn prune_instance_session_visibility_repair_backups(names: &Vec<String>) -> (removed: Vec<usize>)
    ensures
        exists|found: Seq<BackupDirectory>|
            {
                &&& #[trigger] backup_texts(found) == backups_among(views(names@))
                &&& if found.len() <= 1 {
                    removed@.len() == 0
                } else {
                    removed@ == in_order(found).skip(1).map_values(
                        |backup: BackupDirectory| backup.at,
                    )
                }
            },
{
    let backups = list_backups(names);
    let ghost found = choose|found: Seq<BackupDirectory>| #[trigger]
        backup_texts(found) == backups_among(views(names@)) && backups@ == in_order(found);
    proof {
        in_order_is_sorted(found);
    }
    let mut removed: Vec<usize> = Vec::new();
    if backups.len() <= 1 {
        return removed;
    }
    let mut i: usize = 1;
    while i < backups.len()
        invariant
            1 <= i <= backups@.len(),
            removed@.len() == i - 1,
            forall|j: int| 0 <= j < i - 1 ==> #[trigger] removed@[j] == backups@[j + 1].at,
        decreases backups@.len() - i,
    {
        removed.push(backups[i].at);
        i += 1;
    }
    assert(removed@ =~= in_order(found).skip(1).map_values(|backup: BackupDirectory| backup.at));
    removed
}

/// No backup that is removed is newer than the one that is kept.
pub proof fn pruning_keeps_the_newest(found: Seq<BackupDirectory>, i: int)
    requires
        1 <= i < found.len(),
    ensures
        !text_less(in_order(found)[0].stamp@, in_order(found)[i].stamp@),
{
    in_order_is_sorted(found);
}

/// What a backup is asked to hold besides rollout files.
#[derive(Debug, Clone, Copy, PartialEq, Eq, Structural)]
pub struct BackupScope {
    pub sqlite: bool,
    pub session_index: bool,
    pub global_state: bool,
    pub local_thread_catalog: bool,
}

/// A step of making a backup.
#[derive(Debug, Clone, Copy, PartialEq, Eq, Structural)]
pub enum BackupStep {
    /// Copies the rollout file of a change.
    Rollout(usize),
    /// Copies the state database, through SQLite.
    Database,
    SessionIndex,
    GlobalState,
    Catalog,
}

/// The step alone where `taken`, else nothing.
pub open spec fn step_if(taken: bool, step: BackupStep) -> Seq<BackupStep> {
    if taken {
        seq![step]
    } else {
        seq![]
    }
}

/// The steps of making a backup: first the rollout files of all changes, then what else is asked
/// for and there.
pub open spec fn backup_steps(changes: nat, asked: BackupScope, there: BackupScope) -> Seq<
    BackupStep,
> {
    Seq::new(changes, |i: int| BackupStep::Rollout(i as usize)) + step_if(
        asked.sqlite && there.sqlite,
        BackupStep::Database,
    ) + step_if(asked.session_index && there.session_index, BackupStep::SessionIndex) + step_if(
        asked.global_state && there.global_state,
        BackupStep::GlobalState,
    ) + step_if(
        asked.local_thread_catalog && there.local_thread_catalog,
        BackupStep::Catalog,
    )
}

/// The steps of making a backup before `changes` rollout files are changed: `asked` says what else
/// it is to hold, `there` what else there is.
pub fn backup_instance_files(changes: usize, asked: BackupScope, there: BackupScope) -> (steps: Vec<
    BackupStep,
>)
    ensures
        steps@ == backup_steps(changes as nat, asked, there),
{
    let mut steps: Vec<BackupStep> = Vec::new();
    let mut i: usize = 0;
    while i < changes
        invariant
            i <= changes,
            steps@ == Seq::new(i as nat, |j: int| BackupStep::Rollout(j as usize)),
        decreases changes - i,
    {
        steps.push(BackupStep::Rollout(i));
        i += 1;
        assert(steps@ =~= Seq::new(i as nat, |j: int| BackupStep::Rollout(j as usize)));
    }
    if asked.sqlite && there.sqlite {
        steps.push(BackupStep::Database);
    }
    if asked.session_index && there.session_index {
        steps.push(BackupStep::SessionIndex);
    }
    if asked.global_state && there.global_state {
        steps.push(BackupStep::GlobalState);
    }
    if asked.local_thread_catalog && there.local_thread_catalog {
        steps.push(BackupStep::Catalog);
    }
    assert(steps@ =~= backup_steps(changes as nat, asked, there));
    steps
}

/// What a backup holds besides rollout files once all its steps are taken.
pub open spec fn held(asked: BackupScope, there: BackupScope) -> BackupScope {
    BackupScope {
        sqlite: asked.sqlite && there.sqlite,
        session_index: asked.session_index && there.session_index,
        global_state: asked.global_state && there.global_state,
        local_thread_catalog: asked.local_thread_catalog && there.local_thread_catalog,
    }
}

/// What a backup holds besides rollout files once all its steps are taken.
pub fn backup_holds(asked: BackupScope, there: BackupScope) -> (scope: BackupScope)
    ensures
        scope == held(asked, there),
{
    BackupScope {
        sqlite: asked.sqlite && there.sqlite,
        session_index: asked.session_index && there.session_index,
        global_state: asked.global_state && there.global_state,
        local_thread_catalog: asked.local_thread_catalog && there.local_thread_catalog,
    }
}

/// Where the file of a step is below the data directory. For a rollout file `relative_path` says.
pub open spec fn step_source(step: BackupStep, relative_path: Seq<Seq<char>>) -> Seq<Seq<char>> {
    match step {
        BackupStep::Rollout(_) => relative_path,
        BackupStep::Database => seq!["state_5.sqlite"@],
        BackupStep::SessionIndex => seq!["session_index.jsonl"@],
        BackupStep::GlobalState => seq![".codex-global-state.json"@],
        BackupStep::Catalog => seq!["sqlite"@, "codex-dev.db"@],
    }
}

/// Where the copy of a step is below the backup directory: files at their own places below
/// `files`, the database beside it.
pub open spec fn step_target(step: BackupStep, relative_path: Seq<Seq<char>>) -> Seq<Seq<char>> {
    match step {
        BackupStep::Database => step_source(step, relative_path),
        _ => seq!["files"@] + step_source(step, relative_path),
    }
}

/// Where the file of a step is below the data directory, and where its copy is below the backup
/// directory, each as path parts.
pub fn backup_step_paths(step: BackupStep, relative_path: &Vec<String>) -> (paths: (
    Vec<String>,
    Vec<String>,
))
    ensures
        views(paths.0@) == step_source(step, views(relative_path@)),
        views(paths.1@) == step_target(step, views(relative_path@)),
{
    let mut source: Vec<String> = Vec::new();
    match step {
        BackupStep::Rollout(_) => {
            source = copy_texts(relative_path);
        },
        BackupStep::Database => {
            source.push("state_5.sqlite".to_owned());
        },
        BackupStep::SessionIndex => {
            source.push("session_index.jsonl".to_owned());
        },
        BackupStep::GlobalState => {
            source.push(".codex-global-state.json".to_owned());
        },
        BackupStep::Catalog => {
            source.push("sqlite".to_owned());
            source.push("codex-dev.db".to_owned());
        },
    }
    assert(views(source@) =~= step_source(step, views(relative_path@)));
    let below_files = match step {
        BackupStep::Database => false,
        _ => true,
    };
    let mut target = copy_texts(&source);
    if below_files {
        let ghost before = target@;
        target.insert(0, "files".to_owned());
        assert(views(target@) =~= seq!["files"@] + views(before));
    }
    (source, target)
}

/// Whether the directory of a step's copy is made first. That of the global state is not: it needs
/// one that an earlier step made.
pub fn makes_directory(step: BackupStep) -> (yes: bool)
    ensures
        yes == !(step is Database || step is GlobalState),
{
    match step {
        BackupStep::Database => false,
        BackupStep::GlobalState => false,
        _ => true,
    }
}

/// What is said of a directory that a step could not make.
pub open spec fn directory_action(step: BackupStep) -> Seq<char> {
    match step {
        BackupStep::SessionIndex => "创建 session_index 备份目录失败"@,
        BackupStep::Catalog => "创建 local_thread_catalog 备份目录失败"@,
        _ => "创建 rollout 备份目录失败"@,
    }
}

/// Says that the directory of a step's copy could not be made.
pub fn backup_directory_error(step: BackupStep, path: &str, message: &str) -> (text: String)
    ensures
        text@ == located(directory_action(step), path@, message@),
{
    let action = match step {
        BackupStep::SessionIndex => "创建 session_index 备份目录失败",
        BackupStep::Catalog => "创建 local_thread_catalog 备份目录失败",
        _ => "创建 rollout 备份目录失败",
    };
    format_sqlite_read_error(path, action, message)
}

/// What is said of a copy that a step could not make, up to the two paths.
pub open spec fn copy_action(step: BackupStep) -> Seq<char> {
    match step {
        BackupStep::Rollout(_) => "备份 rollout 文件失败 ("@,
        BackupStep::Database => "备份 state_5.sqlite 失败 ("@,
        BackupStep::SessionIndex => "备份 session_index.jsonl 失败 ("@,
        BackupStep::GlobalState => "澶囦唤 Codex 鍏ㄥ眬鐘舵€佸け璐?("@,
        BackupStep::Catalog => "备份 local_thread_catalog 失败 ("@,
    }
}

/// Says that a step could not make its copy.
pub fn backup_copy_error(step: BackupStep, source: &str, target: &str, message: &str) -> (text:
    String)
    ensures
        text@ == copy_action(step) + source@ + " -> "@ + target@ + "): "@ + message@,
{
    let action = match step {
        BackupStep::Rollout(_) => "备份 rollout 文件失败 (",
        BackupStep::Database => "备份 state_5.sqlite 失败 (",
        BackupStep::SessionIndex => "备份 session_index.jsonl 失败 (",
        BackupStep::GlobalState => "澶囦唤 Codex 鍏ㄥ眬鐘舵€佸け璐?(",
        BackupStep::Catalog => "备份 local_thread_catalog 失败 (",
    };
    action.to_owned().concat(source).concat(" -> ").concat(target).concat("): ").concat(message)
}

/// The manifest of a backup.
pub open spec fn manifest(
    instance_id: Seq<char>,
    instance_root: Seq<char>,
    target_provider: Seq<char>,
    created_at: Seq<char>,
    holds: BackupScope,
    rollout_files: Seq<Seq<char>>,
) -> JsonTree {
    JsonTree::Object(
        Map::empty().insert("instanceId"@, JsonTree::Text(instance_id)).insert(
            "instanceRoot"@,
            JsonTree::Text(instance_root),
        ).insert("targetProvider"@, JsonTree::Text(target_provider)).insert(
            "createdAt"@,
            JsonTree::Text(created_at),
        ).insert("hasSqliteBackup"@, JsonTree::Bool(holds.sqlite)).insert(
            "hasSessionIndexBackup"@,
            JsonTree::Bool(holds.session_index),
        ).insert("hasGlobalStateBackup"@, JsonTree::Bool(holds.global_state)).insert(
            "hasLocalThreadCatalogBackup"@,
            JsonTree::Bool(holds.local_thread_catalog),
        ).insert("rolloutFiles"@, text_list(rollout_files)),
    )
}

proof fn lemma_manifest_reads_back(
    instance_id: Seq<char>,
    instance_root: Seq<char>,
    target_provider: Seq<char>,
    created_at: Seq<char>,
    holds: BackupScope,
    rollout_files: Seq<Seq<char>>,
)
    ensures
        reads_back(
            manifest(
                instance_id,
                instance_root,
                target_provider,
                created_at,
                holds,
                rollout_files,
            ),
        ),
{
    lemma_text_list_reads_back(rollout_files);
    let members = manifest(
        instance_id,
        instance_root,
        target_provider,
        created_at,
        holds,
        rollout_files,
    )->Object_0;
    assert forall|key: Seq<char>| #[trigger] members.contains_key(key) implies numbers_canonical(
        members[key],
    ) && within_levels(members[key], 126) by {
        let value = members[key];
        assert(value is Text || value is Bool || value == text_list(rollout_files));
    }
}

/// The content of a backup's manifest. Read again, it gives the manifest.
pub fn backup_manifest(
    instance_id: &str,
    instance_root: &str,
    target_provider: &str,
    created_at: &str,
    holds: BackupScope,
    rollout_files: Vec<String>,
) -> (content: Result<String, String>)
    ensures
        ({
            let tree = manifest(
                instance_id@,
                instance_root@,
                target_provider@,
                created_at@,
                holds,
                views(rollout_files@),
            );
            content matches Ok(content) && content@ == pretty_json(tree) + "\n"@ && parsed_json(
                content@,
            ) == Some(tree)
        }),
{
    proof {
        lemma_manifest_reads_back(
            instance_id@,
            instance_root@,
            target_provider@,
            created_at@,
            holds,
            views(rollout_files@),
        );
        reveal_strlit("\n");
        assert("\n"@ =~= seq!['\n']);
    }
    let mut entries: Vec<(String, Json)> = Vec::new();
    set_entry(&mut entries, "instanceId".to_owned(), Json::Text(instance_id.to_owned()));
    set_entry(&mut entries, "instanceRoot".to_owned(), Json::Text(instance_root.to_owned()));
    set_entry(&mut entries, "targetProvider".to_owned(), Json::Text(target_provider.to_owned()));
    set_entry(&mut entries, "createdAt".to_owned(), Json::Text(created_at.to_owned()));
    set_entry(&mut entries, "hasSqliteBackup".to_owned(), Json::Bool(holds.sqlite));
    set_entry(&mut entries, "hasSessionIndexBackup".to_owned(), Json::Bool(holds.session_index));
    set_entry(&mut entries, "hasGlobalStateBackup".to_owned(), Json::Bool(holds.global_state));
    set_entry(
        &mut entries,
        "hasLocalThreadCatalogBackup".to_owned(),
        Json::Bool(holds.local_thread_catalog),
    );
    set_entry(&mut entries, "rolloutFiles".to_owned(), list_of_texts(rollout_files));
    match render_json_pretty(&Json::Object(entries)) {
        Ok(text) => Ok(text.concat("\n")),
        Err(error) => Err("序列化可见性修复备份清单失败: ".to_owned().concat(error.as_str())),
    }
}

/// A step of putting a backup back.
#[derive(Debug, Clone, Copy, PartialEq, Eq, Structural)]
pub enum RestoreStep {
    /// Copies all that is below the backup's `files` to the same places below the data directory.
    Files,
    /// Makes sure that the data directory exists.
    DataDirectory,
    /// Removes the files that SQLite keeps beside the state database.
    Sidecars,
    /// Copies the state database from the backup.
    Database,
}

/// The steps of putting a backup back: the files where there are any, and the state database where
/// it is asked for and in the backup. Nothing that SQLite kept beside the replaced database stays
/// beside the restored one.
pub open spec fn restore_steps(files: bool, include_sqlite: bool, database: bool) -> Seq<
    RestoreStep,
> {
    (if files {
        seq![RestoreStep::Files]
    } else {
        seq![]
    }) + (if include_sqlite && database {
        seq![
            RestoreStep::DataDirectory,
            RestoreStep::Sidecars,
            RestoreStep::Database,
            RestoreStep::Sidecars,
        ]
    } else {
        seq![]
    })
}

/// The steps of putting a backup back: `files` and `database` say whether the backup has them.
pub fn restore_instance_files_from_backup(files: bool, include_sqlite: bool, database: bool) -> (steps:
    Vec<RestoreStep>)
    ensures
        steps@ == restore_steps(files, include_sqlite, database),
{
    let mut steps: Vec<RestoreStep> = Vec::new();
    if files {
        steps.push(RestoreStep::Files);
    }
    if include_sqlite && database {
        steps.push(RestoreStep::DataDirectory);
        steps.push(RestoreStep::Sidecars);
        steps.push(RestoreStep::Database);
        steps.push(RestoreStep::Sidecars);
    }
    assert(steps@ =~= restore_steps(files, include_sqlite, database));
    steps
}

/// The copy of every file but the database is below `files` where the file is below the data
/// directory, so that putting back what is below `files` puts every such file back in its place.
pub proof fn copies_stand_in_their_places(step: BackupStep, relative_path: Seq<Seq<char>>)
    requires
        !(step is Database),
    ensures
        step_target(step, relative_path).len() == step_source(step, relative_path).len() + 1,
        step_target(step, relative_path)[0] == "files"@,
        step_target(step, relative_path).skip(1) == step_source(step, relative_path),
{
    assert(step_target(step, relative_path).skip(1) =~= step_source(step, relative_path));
}

/// The name of a directory gives a date and a time exactly where it is that of a backup: eight
/// digits, a hyphen and six digits between the two parts that all such names have.
pub proof fn backups_are_told_by_their_names(name: Seq<char>, stamp: Seq<char>)
    ensures
        stamp_in(name) == Some(stamp) <==> {
            &&& name == "backup-"@ + stamp + "-session-visibility-repair"@
            &&& stamp.len() == 15
            &&& stamp[8] == '-'
            &&& forall|i: int|
                0 <= i < 15 && i != 8 ==> '0' <= #[trigger] stamp[i] <= '9'
        },
{
    let prefix = "backup-"@;
    let suffix = "-session-visibility-repair"@;
    if stamp_in(name) == Some(stamp) {
        let rest = name.skip(prefix.len() as int);
        assert(name =~= prefix + rest) by {
            assert(name.subrange(0, prefix.len() as int) == prefix);
        }
        assert(rest =~= stamp + suffix) by {
            assert(rest.subrange(rest.len() - suffix.len(), rest.len() as int) == suffix);
        }
        assert(name =~= prefix + stamp + suffix);
        assert(stamp[8] == '-');
        assert forall|i: int| 0 <= i < 15 && i != 8 implies '0' <= #[trigger] stamp[i] <= '9' by {}
    }
    if name == prefix + stamp + suffix && stamp.len() == 15 && stamp[8] == '-' && (forall|i: int|
        0 <= i < 15 && i != 8 ==> '0' <= #[trigger] stamp[i] <= '9') {
        assert(is_stamp(stamp));
        backup_name_gives_its_stamp(stamp);
    }
}

/// The backups among directories are those whose name is that of one, each with its place.
pub proof fn directory_is_a_backup_by_its_name(names: Seq<Seq<char>>, name: Seq<char>)
    ensures
        backups_among(Seq::empty()).len() == 0,
        match stamp_in(name) {
            Some(stamp) => backups_among(names.push(name)) == backups_among(names).push(
                (stamp, names.len() as int),
            ),
            None => backups_among(names.push(name)) == backups_among(names),
        },
{
    assert(names.push(name).drop_last() =~= names);
    assert(names.push(name).last() == name);
}

/// Of several backups all but one are removed, and the one that stays is none of those that go.
pub proof fn pruning_removes_all_but_one(found: Seq<BackupDirectory>)
    requires
        found.len() > 1,
    ensures
        in_order(found).skip(1).len() == found.len() - 1,
        in_order(found).skip(1).to_multiset().insert(in_order(found)[0]) == found.to_multiset(),
{
    broadcast use vstd::seq_lib::group_to_multiset_ensures;

    in_order_is_sorted(found);
    let all = in_order(found);
    let rest = all.skip(1);
    assert(all =~= seq![all[0]] + rest);
    vstd::seq_lib::lemma_multiset_commutative(seq![all[0]], rest);
    assert(seq![all[0]] =~= Seq::<BackupDirectory>::empty().push(all[0]));
    assert(all.to_multiset() =~= rest.to_multiset().insert(all[0]));
}

proof fn lemma_contains_backup_step(
    steps: Seq<BackupStep>,
    taken: bool,
    added: BackupStep,
    step: BackupStep,
)
    ensures
        (steps + step_if(taken, added)).contains(step) <==> steps.contains(step) || taken && step
            == added,
{
    let all = steps + step_if(taken, added);
    if steps.contains(step) {
        let i = choose|i: int| 0 <= i < steps.len() && steps[i] == step;
        assert(all[i] == step);
    }
    if taken && step == added {
        assert(all[steps.len() as int] == step);
    }
    if all.contains(step) {
        let i = choose|i: int| 0 <= i < all.len() && all[i] == step;
        if i < steps.len() {
            assert(steps[i] == step);
        }
    }
}

/// A backup copies the rollout file of every change, and each of the other files exactly where it is
/// asked for and there; that is also what it is said to hold.
pub proof fn backup_copies_what_is_asked_for_and_there(
    changes: usize,
    asked: BackupScope,
    there: BackupScope,
    i: usize,
)
    ensures
        ({
            let steps = backup_steps(changes as nat, asked, there);
            let holds = held(asked, there);
            &&& steps.contains(BackupStep::Rollout(i)) <==> i < changes
            &&& steps.contains(BackupStep::Database) <==> asked.sqlite && there.sqlite
            &&& steps.contains(BackupStep::SessionIndex) <==> asked.session_index
                && there.session_index
            &&& steps.contains(BackupStep::GlobalState) <==> asked.global_state
                && there.global_state
            &&& steps.contains(BackupStep::Catalog) <==> asked.local_thread_catalog
                && there.local_thread_catalog
            &&& holds.sqlite <==> steps.contains(BackupStep::Database)
            &&& holds.session_index <==> steps.contains(BackupStep::SessionIndex)
            &&& holds.global_state <==> steps.contains(BackupStep::GlobalState)
            &&& holds.local_thread_catalog <==> steps.contains(BackupStep::Catalog)
        }),
{
    let s1 = Seq::new(changes as nat, |j: int| BackupStep::Rollout(j as usize));
    let s2 = s1 + step_if(asked.sqlite && there.sqlite, BackupStep::Database);
    let s3 = s2 + step_if(asked.session_index && there.session_index, BackupStep::SessionIndex);
    let s4 = s3 + step_if(asked.global_state && there.global_state, BackupStep::GlobalState);
    assert forall|step: BackupStep| #[trigger]
        backup_steps(changes as nat, asked, there).contains(step) <==> {
            ||| s1.contains(step)
            ||| asked.sqlite && there.sqlite && step == BackupStep::Database
            ||| asked.session_index && there.session_index && step == BackupStep::SessionIndex
            ||| asked.global_state && there.global_state && step == BackupStep::GlobalState
            ||| asked.local_thread_catalog && there.local_thread_catalog && step
                == BackupStep::Catalog
        } by {
        lemma_contains_backup_step(s1, asked.sqlite && there.sqlite, BackupStep::Database, step);
        lemma_contains_backup_step(
            s2,
            asked.session_index && there.session_index,
            BackupStep::SessionIndex,
            step,
        );
        lemma_contains_backup_step(
            s3,
            asked.global_state && there.global_state,
            BackupStep::GlobalState,
            step,
        );
        lemma_contains_backup_step(
            s4,
            asked.local_thread_catalog && there.local_thread_catalog,
            BackupStep::Catalog,
            step,
        );
    }
    assert forall|step: BackupStep| s1.contains(step) implies step is Rollout by {
        let j = choose|j: int| 0 <= j < s1.len() && s1[j] == step;
    }
    if i < changes {
        assert(s1[i as int] == BackupStep::Rollout(i));
    }
    if s1.contains(BackupStep::Rollout(i)) {
        let j = choose|j: int| 0 <= j < s1.len() && s1[j] == BackupStep::Rollout(i);
        assert(s1[j] == BackupStep::Rollout(j as usize));
    }
}

/// Each file that is backed up is copied from where the application keeps it below the data
/// directory.
pub proof fn files_are_copied_from_where_they_are(step: BackupStep, relative_path: Seq<Seq<char>>)
    ensures
        step is Rollout ==> step_source(step, relative_path) == relative_path,
        step is Database ==> step_source(step, relative_path) == seq!["state_5.sqlite"@]
            && step_target(step, relative_path) == seq!["state_5.sqlite"@],
        step is SessionIndex ==> step_source(step, relative_path) == seq!["session_index.jsonl"@],
        step is GlobalState ==> step_source(step, relative_path)
            == seq![".codex-global-state.json"@],
        step is Catalog ==> step_source(step, relative_path) == seq!["sqlite"@, "codex-dev.db"@],
{
}

/// The manifest of a backup says whose it is, for which provider and when it was made, what it
/// holds, and which rollout files; and nothing else.
pub proof fn manifest_says_what_the_backup_holds(
    instance_id: Seq<char>,
    instance_root: Seq<char>,
    target_provider: Seq<char>,
    created_at: Seq<char>,
    holds: BackupScope,
    rollout_files: Seq<Seq<char>>,
    key: Seq<char>,
)
    ensures
        ({
            let tree = manifest(
                instance_id,
                instance_root,
                target_provider,
                created_at,
                holds,
                rollout_files,
            );
            &&& member_of(tree, "instanceId"@) == Some(JsonTree::Text(instance_id))
            &&& member_of(tree, "instanceRoot"@) == Some(JsonTree::Text(instance_root))
            &&& member_of(tree, "targetProvider"@) == Some(JsonTree::Text(target_provider))
            &&& member_of(tree, "createdAt"@) == Some(JsonTree::Text(created_at))
            &&& member_of(tree, "hasSqliteBackup"@) == Some(JsonTree::Bool(holds.sqlite))
            &&& member_of(tree, "hasSessionIndexBackup"@) == Some(
                JsonTree::Bool(holds.session_index),
            )
            &&& member_of(tree, "hasGlobalStateBackup"@) == Some(JsonTree::Bool(holds.global_state))
            &&& member_of(tree, "hasLocalThreadCatalogBackup"@) == Some(
                JsonTree::Bool(holds.local_thread_catalog),
            )
            &&& member_of(tree, "rolloutFiles"@) == Some(
                JsonTree::List(
                    rollout_files.map_values(|text: Seq<char>| JsonTree::Text(text)),
                ),
            )
            &&& member_of(tree, key) is Some ==> key == "instanceId"@ || key == "instanceRoot"@
                || key == "targetProvider"@ || key == "createdAt"@ || key == "hasSqliteBackup"@
                || key == "hasSessionIndexBackup"@ || key == "hasGlobalStateBackup"@ || key
                == "hasLocalThreadCatalogBackup"@ || key == "rolloutFiles"@
        }),
{
    reveal_strlit("instanceId");
    reveal_strlit("instanceRoot");
    reveal_strlit("targetProvider");
    reveal_strlit("createdAt");
    reveal_strlit("hasSqliteBackup");
    reveal_strlit("hasSessionIndexBackup");
    reveal_strlit("hasGlobalStateBackup");
    reveal_strlit("hasLocalThreadCatalogBackup");
    reveal_strlit("rolloutFiles");
    assert("instanceId"@.len() == 10 && "instanceRoot"@.len() == 12);
    assert("targetProvider"@.len() == 14 && "createdAt"@.len() == 9);
    assert("hasSqliteBackup"@.len() == 15 && "hasSessionIndexBackup"@.len() == 21);
    assert("hasGlobalStateBackup"@.len() == 20 && "hasLocalThreadCatalogBackup"@.len() == 27);
    assert("rolloutFiles"@.len() == 12);
    assert("rolloutFiles"@[0] == 'r' && "instanceRoot"@[0] == 'i');
}

/// Putting a backup back copies its files exactly where it has any, and the database exactly where
/// that is asked for and in the backup: then the directory is there first, and what SQLite keeps
/// beside the database is removed both before and after the copy.
pub proof fn backup_is_put_back_cleanly(files: bool, include_sqlite: bool, database: bool)
    ensures
        ({
            let steps = restore_steps(files, include_sqlite, database);
            let first: int = if files {
                1
            } else {
                0
            };
            &&& files ==> steps[0] == RestoreStep::Files
            &&& !(include_sqlite && database) ==> steps.len() == first
            &&& include_sqlite && database ==> {
                &&& steps.len() == first + 4
                &&& steps[first] == RestoreStep::DataDirectory
                &&& steps[first + 1] == RestoreStep::Sidecars
                &&& steps[first + 2] == RestoreStep::Database
                &&& steps[first + 3] == RestoreStep::Sidecars
            }
        }),
{
}

} // verus!
