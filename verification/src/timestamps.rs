//! Points in time: how they are read from JSON, and which of several sources counts.

use vstd::prelude::*;

use crate::json::{member_of, parse_json, parsed_json, Json, JsonTree};
use crate::text::{integer_of, lines, lines_of, opt_view, parse_i64, trim, trimmed, views};

verus! {

/// The milliseconds since the Unix epoch that `chrono` reads from an RFC 3339 date and time.
pub uninterp spec fn rfc3339_millis(text: Seq<char>) -> Option<i64>;

/// `chrono::DateTime::parse_from_rfc3339`, with the time it reads taken in milliseconds by
/// `timestamp_millis`. The same text always gives the same time or the same refusal.
#[verifier::external_body]
fn read_rfc3339(text: &str) -> (millis: Option<i64>)
    ensures
        millis == rfc3339_millis(text@),
{
    chrono::DateTime::parse_from_rfc3339(text).ok().map(|time| time.timestamp_millis())
}

/// A timestamp in milliseconds, whether it was given in seconds, milliseconds or microseconds.
pub open spec fn timestamp_millis(timestamp: int) -> int {
    if timestamp > 10_000_000_000_000 {
        timestamp / 1_000
    } else if timestamp > 10_000_000_000 {
        timestamp
    } else {
        timestamp * 1_000
    }
}

/// Brings a timestamp in seconds, milliseconds or microseconds to milliseconds.
pub fn normalize_codex_timestamp_ms(timestamp: i64) -> (millis: i128)
    ensures
        millis == timestamp_millis(timestamp as int),
{
    let timestamp = timestamp as i128;
    if timestamp > 10_000_000_000_000 {
        timestamp / 1_000
    } else if timestamp > 10_000_000_000 {
        timestamp
    } else {
        timestamp * 1_000
    }
}

/// The time that a JSON value stands for, in milliseconds.
pub open spec fn time_of(tree: JsonTree) -> Option<int> {
    match tree {
        JsonTree::Number(Some(integer), _) => Some(timestamp_millis(integer as int)),
        JsonTree::Text(text) => match rfc3339_millis(text) {
            Some(millis) => Some(millis as int),
            None => match integer_of(text) {
                Some(integer) => Some(timestamp_millis(integer as int)),
                None => None,
            },
        },
        _ => None,
    }
}

/// An optional time as a mathematical integer.
pub open spec fn opt_int(time: Option<i128>) -> Option<int> {
    match time {
        Some(time) => Some(time as int),
        None => None,
    }
}

/// Reads the time of a JSON value: a number, an RFC 3339 date and time, or a number as text.
pub fn parse_timestamp_ms(value: &Json) -> (millis: Option<i128>)
    ensures
        opt_int(millis) == time_of(value@),
{
    match value {
        Json::Number(number) => match number.integer {
            Some(integer) => Some(normalize_codex_timestamp_ms(integer)),
            None => None,
        },
        Json::Text(text) => timestamp_from_text(text.as_str(), read_rfc3339(text.as_str())),
        _ => None,
    }
}

/// The time of a text of which `chrono` has read `rfc3339`.
pub fn timestamp_from_text(text: &str, rfc3339: Option<i64>) -> (millis: Option<i128>)
    ensures
        opt_int(millis) == match rfc3339 {
            Some(millis) => Some(millis as int),
            None => match integer_of(text@) {
                Some(integer) => Some(timestamp_millis(integer as int)),
                None => None,
            },
        },
{
    match rfc3339 {
        Some(millis) => Some(millis as i128),
        None => match parse_i64(text) {
            Some(integer) => Some(normalize_codex_timestamp_ms(integer)),
            None => None,
        },
    }
}

/// The time under `key`.
pub open spec fn time_member(tree: JsonTree, key: Seq<char>) -> Option<int> {
    match member_of(tree, key) {
        Some(value) => time_of(value),
        None => None,
    }
}

fn get_time(value: &Json, key: &str) -> (millis: Option<i128>)
    ensures
        opt_int(millis) == time_member(value@, key@),
{
    match value.get(key) {
        Some(value) => parse_timestamp_ms(value),
        None => None,
    }
}

/// The first of the alternatives that is there.
pub open spec fn or_else<T>(first: Option<T>, second: Option<T>) -> Option<T> {
    match first {
        Some(value) => Some(value),
        None => second,
    }
}

/// The modification time that a file gets once it is rewritten, whatever stands for a time: the one
/// that it should have, or else the one that it had.
pub fn time_to_restore<T>(target: Option<T>, original: Option<T>) -> (time: Option<T>)
    ensures
        time == or_else(target, original),
{
    match target {
        Some(time) => Some(time),
        None => original,
    }
}

/// When an entry of the session index says that its session was last active.
pub open spec fn indexed_time(entry: JsonTree) -> Option<int> {
    or_else(
        time_member(entry, "updated_at"@),
        or_else(
            time_member(entry, "updatedAt"@),
            or_else(
                time_member(entry, "last_updated_at"@),
                time_member(entry, "lastUpdatedAt"@),
            ),
        ),
    )
}

/// Reads when an entry of the session index says that its session was last active.
pub fn parse_session_index_updated_at_ms(entry: &Json) -> (millis: Option<i128>)
    ensures
        opt_int(millis) == indexed_time(entry@),
        millis matches Some(millis) ==> is_readable_time(millis as int),
{
    if let Some(millis) = get_time(entry, "updated_at") {
        return Some(millis);
    }
    if let Some(millis) = get_time(entry, "updatedAt") {
        return Some(millis);
    }
    if let Some(millis) = get_time(entry, "last_updated_at") {
        return Some(millis);
    }
    get_time(entry, "lastUpdatedAt")
}

/// The value that says when a record was written, whatever it holds.
pub open spec fn time_field(tree: JsonTree) -> Option<JsonTree> {
    or_else(
        member_of(tree, "timestamp"@),
        or_else(
            member_of(tree, "time"@),
            or_else(member_of(tree, "created_at"@), member_of(tree, "createdAt"@)),
        ),
    )
}

/// The time that `time_field` gives.
pub open spec fn own_time(tree: JsonTree) -> Option<int> {
    match time_field(tree) {
        Some(value) => time_of(value),
        None => None,
    }
}

/// When a record of a rollout file was written: its own time, else that of its payload.
pub open spec fn record_time(tree: JsonTree) -> Option<int> {
    or_else(
        own_time(tree),
        match member_of(tree, "payload"@) {
            Some(payload) => own_time(payload),
            None => None,
        },
    )
}

fn get_own_time(value: &Json) -> (millis: Option<i128>)
    ensures
        opt_int(millis) == own_time(value@),
{
    if let Some(field) = value.get("timestamp") {
        return parse_timestamp_ms(field);
    }
    if let Some(field) = value.get("time") {
        return parse_timestamp_ms(field);
    }
    if let Some(field) = value.get("created_at") {
        return parse_timestamp_ms(field);
    }
    get_time(value, "createdAt")
}

/// Reads when a record of a rollout file was written.
pub fn parse_rollout_line_timestamp_ms(value: &Json) -> (millis: Option<i128>)
    ensures
        opt_int(millis) == record_time(value@),
{
    if let Some(millis) = get_own_time(value) {
        return Some(millis);
    }
    match value.get("payload") {
        Some(payload) => get_own_time(payload),
        None => None,
    }
}

/// When the record on a line of a rollout file was written.
pub open spec fn line_time(line: Seq<char>) -> Option<int> {
    match parsed_json(trimmed(line)) {
        Some(record) => record_time(record),
        None => None,
    }
}

/// The later of two times.
pub open spec fn later(a: Option<int>, b: Option<int>) -> Option<int> {
    match (a, b) {
        (Some(a), Some(b)) => Some(
            if a < b {
                b
            } else {
                a
            },
        ),
        (None, b) => b,
        (a, None) => a,
    }
}

/// The latest time on any of the lines.
pub open spec fn latest_time(lines: Seq<Seq<char>>) -> Option<int>
    decreases lines.len(),
{
    if lines.len() == 0 {
        None
    } else {
        later(latest_time(lines.drop_last()), line_time(lines.last()))
    }
}

/// The latest time in the content of a rollout file, in milliseconds.
pub fn rollout_file_activity_ms(content: &str) -> (millis: Option<i128>)
    ensures
        opt_int(millis) == latest_time(lines_of(content@)),
        millis matches Some(millis) ==> is_readable_time(millis as int),
{
    let lines = lines(content);
    let mut latest: Option<i128> = None;
    let mut i: usize = 0;
    assert(views(lines@).len() == lines@.len());
    while i < lines.len()
        invariant
            i <= lines@.len(),
            views(lines@).len() == lines@.len(),
            opt_int(latest) == latest_time(views(lines@).take(i as int)),
        decreases lines@.len() - i,
    {
        let time = match parse_json(trim(lines[i].as_str()).as_str()) {
            Some(record) => parse_rollout_line_timestamp_ms(&record),
            None => None,
        };
        proof {
            let done = views(lines@).take(i + 1);
            assert(done.drop_last() =~= views(lines@).take(i as int));
            assert(done.last() == lines@[i as int]@);
        }
        latest = match (latest, time) {
            (Some(a), Some(b)) => if a < b {
                Some(b)
            } else {
                Some(a)
            },
            (None, b) => b,
            (a, None) => a,
        };
        i += 1;
    }
    assert(views(lines@).take(i as int) =~= views(lines@));
    proof {
        latest_time_is_readable(views(lines@));
    }
    latest
}

/// The latest time on any of the lines is the time of one of them, and no line has a later one;
/// it is missing only where no line has a time.
pub proof fn latest_time_is_the_maximum(lines: Seq<Seq<char>>)
    ensures
        match latest_time(lines) {
            Some(latest) => {
                &&& exists|i: int|
                    0 <= i < lines.len() && #[trigger] line_time(lines[i]) == Some(latest)
                &&& forall|i: int|
                    0 <= i < lines.len() && (#[trigger] line_time(lines[i])) is Some ==> line_time(
                        lines[i],
                    )->0 <= latest
            },
            None => forall|i: int| 0 <= i < lines.len() ==> (#[trigger] line_time(lines[i])) is None,
        },
    decreases lines.len(),
{
    if lines.len() > 0 {
        let rest = lines.drop_last();
        latest_time_is_the_maximum(rest);
        let last = lines.len() - 1;
        assert(lines.last() == lines[last]);
        assert forall|i: int| 0 <= i < last implies line_time(lines[i]) == line_time(rest[i]) by {
            assert(lines[i] == rest[i]);
        }
        match latest_time(lines) {
            Some(latest) => {
                if latest_time(rest) == Some(latest) {
                    let i = choose|i: int|
                        0 <= i < rest.len() && #[trigger] line_time(rest[i]) == Some(latest);
                    assert(line_time(lines[i]) == Some(latest));
                } else {
                    assert(line_time(lines[last]) == Some(latest));
                }
            },
            None => {},
        }
    }
}

/// Whether a time in milliseconds is one that a number or a text can stand for.
pub open spec fn is_readable_time(time: int) -> bool {
    i64::MIN * 1_000 <= time <= i64::MAX
}

proof fn lemma_record_time_readable(tree: JsonTree)
    ensures
        record_time(tree) matches Some(time) ==> is_readable_time(time),
{
}

/// Every time that a rollout file gives can be held in seconds by a 64-bit signed integer.
pub proof fn latest_time_is_readable(lines: Seq<Seq<char>>)
    ensures
        latest_time(lines) matches Some(time) ==> is_readable_time(time),
    decreases lines.len(),
{
    if lines.len() > 0 {
        latest_time_is_readable(lines.drop_last());
        match parsed_json(trimmed(lines.last())) {
            Some(record) => lemma_record_time_readable(record),
            None => {},
        }
    }
}

/// How far the time in the session index may be from the last activity, in milliseconds.
pub const SESSION_INDEX_ACTIVITY_DRIFT_MS: i128 = 3_600_000;

/// How far `a` and `b` are apart.
pub open spec fn distance(a: int, b: int) -> int {
    if a < b {
        b - a
    } else {
        a - b
    }
}

/// The first time, unless it is further than `drift` from the second; a missing time counts for
/// nothing.
pub open spec fn settled_time(first: Option<int>, second: Option<int>, drift: int) -> Option<int> {
    match (first, second) {
        (Some(a), Some(b)) => if distance(a, b) > drift {
            Some(b)
        } else {
            Some(a)
        },
        (Some(a), None) => Some(a),
        (None, b) => b,
    }
}

/// The modification time that a rollout file should have: that of the session index, unless the
/// file's own last activity is too far from it; without both, the time it has.
pub fn resolve_target_modified_at_ms(
    indexed: Option<i128>,
    activity: Option<i128>,
    fallback_ms: Option<i128>,
) -> (target: Option<i128>)
    requires
        indexed matches Some(time) ==> is_readable_time(time as int),
        activity matches Some(time) ==> is_readable_time(time as int),
    ensures
        opt_int(target) == or_else(
            settled_time(
                opt_int(indexed),
                opt_int(activity),
                SESSION_INDEX_ACTIVITY_DRIFT_MS as int,
            ),
            opt_int(fallback_ms),
        ),
{
    match (indexed, activity) {
        (Some(indexed), Some(activity)) => {
            let apart: i128 = if indexed < activity {
                activity - indexed
            } else {
                indexed - activity
            };
            if apart > SESSION_INDEX_ACTIVITY_DRIFT_MS {
                Some(activity)
            } else {
                Some(indexed)
            }
        },
        (Some(indexed), None) => Some(indexed),
        (None, Some(activity)) => Some(activity),
        (None, None) => fallback_ms,
    }
}

/// Milliseconds in whole seconds, with what is left over dropped.
pub open spec fn whole_seconds(millis: int) -> int {
    if millis >= 0 {
        millis / 1_000
    } else {
        -((-millis) / 1_000)
    }
}

/// Milliseconds in whole seconds, with what is left over dropped.
pub fn activity_seconds(millis: i128) -> (seconds: i64)
    requires
        is_readable_time(millis as int),
    ensures
        seconds == whole_seconds(millis as int),
{
    if millis >= 0 {
        (millis / 1_000) as i64
    } else {
        (-((-millis) / 1_000)) as i64
    }
}

/// When a thread was last updated, in seconds: as the database has it, unless the rollout file's
/// last activity is more than an hour from it.
pub open spec fn settled_seconds(updated_at: Option<i64>, activity: Option<i64>) -> Option<i64> {
    match (updated_at, activity) {
        (Some(a), Some(b)) => if distance(a as int, b as int) > 3_600 {
            Some(b)
        } else {
            Some(a)
        },
        (Some(a), None) => Some(a),
        (None, b) => b,
    }
}

/// When a thread was last updated, in seconds.
pub fn resolve_thread_updated_at_seconds(
    updated_at: Option<i64>,
    rollout_activity_seconds: Option<i64>,
) -> (seconds: Option<i64>)
    ensures
        seconds == settled_seconds(updated_at, rollout_activity_seconds),
{
    match (updated_at, rollout_activity_seconds) {
        (Some(sqlite_seconds), Some(activity_seconds)) => if is_apart(
            sqlite_seconds,
            activity_seconds,
            3_600,
        ) {
            Some(activity_seconds)
        } else {
            Some(sqlite_seconds)
        },
        (Some(sqlite_seconds), None) => Some(sqlite_seconds),
        (None, activity) => activity,
    }
}

/// Whether `a` and `b` are more than `limit` apart.
pub fn is_apart(a: i64, b: i64, limit: i64) -> (apart: bool)
    ensures
        apart == (distance(a as int, b as int) > limit),
{
    let apart: i128 = if a < b {
        b as i128 - a as i128
    } else {
        a as i128 - b as i128
    };
    apart > limit as i128
}

/// The RFC 3339 text, in UTC and with microseconds, that `chrono` writes for the beginning of a
/// second; none where the time is outside its range.
pub uninterp spec fn rfc3339_micros(seconds: i64) -> Option<Seq<char>>;

/// `Utc.timestamp_opt(seconds, 0).single()`, written by `to_rfc3339_opts` with microseconds and
/// `Z`. It depends on the number alone; it has no result where `chrono` has no such time.
#[verifier::external_body]
fn write_rfc3339_micros(seconds: i64) -> (text: Option<String>)
    ensures
        opt_view(text) == rfc3339_micros(seconds),
{
    chrono::TimeZone::timestamp_opt(&chrono::Utc, seconds, 0)
        .single()
        .map(|time| time.to_rfc3339_opts(chrono::SecondsFormat::Micros, true))
}

/// The present: in seconds since the Unix epoch, and as RFC 3339 text with microseconds.
#[derive(Debug)]
pub struct Present {
    pub seconds: i64,
    pub text: String,
}

/// The second that is written as the time of a thread: its own, else the present one.
pub open spec fn thread_second(updated_at: Option<i64>, now: Present) -> i64 {
    match updated_at {
        Some(seconds) => seconds,
        None => now.seconds,
    }
}

/// What is written as the time of a thread: its own time where it has one that can be written,
/// else the present.
pub open spec fn thread_time_text(updated_at: Option<i64>, now: Present) -> Seq<char> {
    match rfc3339_micros(thread_second(updated_at, now)) {
        Some(text) => text,
        None => now.text@,
    }
}

/// Writes the time of a thread.
pub fn format_thread_updated_at_iso(updated_at: Option<i64>, now: &Present) -> (text: String)
    ensures
        text@ == thread_time_text(updated_at, *now),
{
    let seconds: i64 = match updated_at {
        Some(seconds) => seconds,
        None => now.seconds,
    };
    thread_time_or_present(write_rfc3339_micros(seconds), now)
}

/// The written time where there is one, else the present.
pub fn thread_time_or_present(written: Option<String>, now: &Present) -> (text: String)
    ensures
        text@ == match written {
            Some(text) => text@,
            None => now.text@,
        },
{
    match written {
        Some(text) => text,
        None => now.text.clone(),
    }
}

/// A timestamp of up to ten digits is in seconds, one of up to thirteen in milliseconds, and a
/// longer one in microseconds: a time gives the same milliseconds in each of the three units.
pub proof fn time_is_the_same_in_each_unit(seconds: int, part: int)
    requires
        10_000_000 < seconds <= 10_000_000_000,
        0 <= part < 1_000,
    ensures
        timestamp_millis(seconds) == seconds * 1_000,
        timestamp_millis(seconds * 1_000) == seconds * 1_000,
        timestamp_millis(seconds * 1_000_000 + part) == seconds * 1_000,
{
}

/// Before the first of the ten-digit times a timestamp can only be in seconds, and the
/// milliseconds grow with the timestamp within each unit.
pub proof fn timestamps_keep_their_order(early: int, late: int)
    requires
        early <= late,
    ensures
        early <= 10_000_000_000 ==> timestamp_millis(early) == early * 1_000,
        late <= 10_000_000_000 || 10_000_000_000 < early && late <= 10_000_000_000_000
            || 10_000_000_000_000 < early ==> timestamp_millis(early) <= timestamp_millis(late),
{
}

/// A time is a number without a fraction, or a text; a text that is a date counts as that date,
/// and one in digits as the number. Nothing else is a time.
pub proof fn times_are_numbers_and_texts(value: JsonTree, written: Seq<char>)
    ensures
        match value {
            JsonTree::Number(Some(n), _) => {
                &&& n <= 10_000_000_000 ==> time_of(value) == Some(n * 1_000)
                &&& 10_000_000_000 < n <= 10_000_000_000_000 ==> time_of(value) == Some(n as int)
                &&& n > 10_000_000_000_000 ==> (time_of(value) matches Some(millis) && 1_000 * millis
                    <= n < 1_000 * millis + 1_000)
            },
            JsonTree::Text(text) => {
                &&& rfc3339_millis(text) matches Some(millis) ==> time_of(value) == Some(
                    millis as int,
                )
                &&& rfc3339_millis(text) is None ==> time_of(value) == match integer_of(text) {
                    Some(n) => time_of(JsonTree::Number(Some(n), written)),
                    None => None,
                }
            },
            _ => time_of(value) is None,
        },
{
}

/// Whether a document has `time` under a key, and no time under the keys before it.
pub open spec fn has_time_first_at(tree: JsonTree, keys: Seq<Seq<char>>, k: int, time: int) -> bool {
    &&& 0 <= k < keys.len()
    &&& member_of(tree, keys[k]) matches Some(value) && time_of(value) == Some(time)
    &&& forall|j: int|
        0 <= j < k ==> !(member_of(tree, #[trigger] keys[j]) matches Some(value) && time_of(
            value,
        ) is Some)
}

/// An entry of the index was updated at the first time that it gives under `updated_at`,
/// `updatedAt`, `last_updated_at` and `lastUpdatedAt`, in this order; where it gives none, the
/// time is not known.
pub proof fn entry_was_updated_at_its_first_time(entry: JsonTree, k: int, time: int)
    ensures
        ({
            let keys = seq!["updated_at"@, "updatedAt"@, "last_updated_at"@, "lastUpdatedAt"@];
            &&& has_time_first_at(entry, keys, k, time) ==> indexed_time(entry) == Some(time)
            &&& (forall|j: int|
                0 <= j < 4 ==> !(member_of(entry, #[trigger] keys[j]) matches Some(value)
                    && time_of(value) is Some)) ==> indexed_time(entry) is None
        }),
{
    let keys = seq!["updated_at"@, "updatedAt"@, "last_updated_at"@, "lastUpdatedAt"@];
    assert(keys[0] == "updated_at"@);
    assert(keys[1] == "updatedAt"@);
    assert(keys[2] == "last_updated_at"@);
    assert(keys[3] == "lastUpdatedAt"@);
}

/// Whether `value` stands under the first of the keys that a document has.
pub open spec fn has_first_at(tree: JsonTree, keys: Seq<Seq<char>>, k: int, value: JsonTree) -> bool {
    &&& 0 <= k < keys.len()
    &&& member_of(tree, keys[k]) == Some(value)
    &&& forall|j: int| 0 <= j < k ==> member_of(tree, #[trigger] keys[j]) is None
}

/// A record was written at the time under the first of `timestamp`, `time`, `created_at` and
/// `createdAt` that it has. Where that is no time, or there is none of the four, the payload is
/// asked in the same way, and nothing else.
pub proof fn record_was_written_at_its_first_time(
    record: JsonTree,
    own: JsonTree,
    k: int,
    inner: JsonTree,
    j: int,
)
    ensures
        ({
            let keys = seq!["timestamp"@, "time"@, "created_at"@, "createdAt"@];
            let none = forall|i: int| 0 <= i < 4 ==> member_of(record, #[trigger] keys[i]) is None;
            &&& has_first_at(record, keys, k, own) && time_of(own) is Some ==> record_time(record)
                == time_of(own)
            &&& none || has_first_at(record, keys, k, own) && time_of(own) is None ==> match member_of(
                record,
                "payload"@,
            ) {
                Some(payload) => {
                    &&& has_first_at(payload, keys, j, inner) ==> record_time(record) == time_of(
                        inner,
                    )
                    &&& (forall|i: int|
                        0 <= i < 4 ==> member_of(payload, #[trigger] keys[i]) is None)
                        ==> record_time(record) is None
                },
                None => record_time(record) is None,
            }
        }),
{
    let keys = seq!["timestamp"@, "time"@, "created_at"@, "createdAt"@];
    assert(keys[0] == "timestamp"@);
    assert(keys[1] == "time"@);
    assert(keys[2] == "created_at"@);
    assert(keys[3] == "createdAt"@);
}

/// Whether a line is a record that was written at `time`.
pub open spec fn is_written_at(line: Seq<char>, time: int) -> bool {
    parsed_json(trimmed(line)) matches Some(record) && record_time(record) == Some(time)
}

/// A rollout file was last active no earlier than any record in it was written, and at the time of
/// one of its records; where no line is a record with a time, it was never active.
pub proof fn activity_is_the_time_of_a_record(lines: Seq<Seq<char>>)
    ensures
        forall|i: int, time: int|
            0 <= i < lines.len() && #[trigger] is_written_at(lines[i], time) ==> (latest_time(
                lines,
            ) matches Some(latest) && latest >= time),
        latest_time(lines) matches Some(latest) ==> exists|i: int|
            0 <= i < lines.len() && #[trigger] is_written_at(lines[i], latest),
    decreases lines.len(),
{
    if lines.len() > 0 {
        let before = lines.drop_last();
        activity_is_the_time_of_a_record(before);
        assert forall|i: int, time: int|
            0 <= i < lines.len() && #[trigger] is_written_at(lines[i], time) implies (latest_time(
            lines,
        ) matches Some(latest) && latest >= time) by {
            if i < before.len() {
                assert(is_written_at(before[i], time));
            }
        }
        if let Some(latest) = latest_time(lines) {
            if latest_time(before) == latest_time(lines) {
                let i = choose|i: int|
                    0 <= i < before.len() && #[trigger] is_written_at(before[i], latest);
                assert(is_written_at(lines[i], latest));
            } else {
                assert(is_written_at(lines[lines.len() - 1], latest));
            }
        }
    }
}

/// The whole seconds of a time are what is left when its milliseconds are dropped, towards the
/// epoch.
pub proof fn whole_seconds_drop_the_milliseconds(millis: int)
    ensures
        millis >= 0 ==> 1_000 * whole_seconds(millis) <= millis < 1_000 * whole_seconds(millis)
            + 1_000,
        millis <= 0 ==> 1_000 * whole_seconds(millis) - 1_000 < millis <= 1_000 * whole_seconds(
            millis,
        ),
{
}

/// A thread was last updated when the database says so, unless that is more than an hour before or
/// after the last activity of its rollout file, which counts then. So the time is never more than
/// an hour away from the activity, and it is known where either of the two is.
pub proof fn update_time_is_within_an_hour_of_the_activity(
    updated_at: Option<i64>,
    activity: Option<i64>,
)
    ensures
        match (updated_at, activity) {
            (Some(a), Some(b)) => {
                &&& -3_600 <= a - b <= 3_600 ==> settled_seconds(updated_at, activity) == Some(a)
                &&& a - b > 3_600 || b - a > 3_600 ==> settled_seconds(updated_at, activity)
                    == Some(b)
            },
            (Some(a), None) => settled_seconds(updated_at, activity) == Some(a),
            (None, Some(b)) => settled_seconds(updated_at, activity) == Some(b),
            (None, None) => settled_seconds(updated_at, activity) is None,
        },
        activity matches Some(b) ==> (settled_seconds(updated_at, activity) matches Some(s) && b
            - 3_600 <= s <= b + 3_600),
{
}

/// A rollout file is to have the time that the index gives, unless that is more than an hour before
/// or after the file's last activity, which counts then. The time that the file has counts only
/// where both are unknown.
pub proof fn target_time_is_within_an_hour_of_the_activity(
    indexed: Option<int>,
    activity: Option<int>,
    fallback: Option<int>,
)
    ensures
        ({
            let target = or_else(
                settled_time(indexed, activity, SESSION_INDEX_ACTIVITY_DRIFT_MS as int),
                fallback,
            );
            match (indexed, activity) {
                (Some(a), Some(b)) => {
                    &&& -3_600_000 <= a - b <= 3_600_000 ==> target == Some(a)
                    &&& a - b > 3_600_000 || b - a > 3_600_000 ==> target == Some(b)
                },
                (Some(a), None) => target == Some(a),
                (None, Some(b)) => target == Some(b),
                (None, None) => target == fallback,
            }
        }),
{
}

/// Two times are apart by as much whichever of them is the later.
pub proof fn distance_goes_both_ways(a: int, b: int, limit: int)
    ensures
        distance(a, b) > limit <==> (a - b > limit || b - a > limit),
{
}

/// The time of a thread is written as the database has it; one that it does not have, or that
/// cannot be written, gives way to the present.
pub proof fn thread_time_is_that_of_the_database(
    updated_at: Option<i64>,
    now: Present,
)
    ensures
        updated_at matches Some(second) ==> match rfc3339_micros(second) {
            Some(text) => thread_time_text(updated_at, now) == text,
            None => thread_time_text(updated_at, now) == now.text@,
        },
        updated_at is None ==> thread_time_text(updated_at, now) == match rfc3339_micros(
            now.seconds,
        ) {
            Some(text) => text,
            None => now.text@,
        },
{
}

} // verus!
