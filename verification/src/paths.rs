//! Workspace roots and file paths as text.

use vstd::prelude::*;

use crate::text::{
    after_prefix, begins_with, byte_len, byte_len_up_to, char_bytes, chars_of, is_digit, is_slash,
    is_white, lemma_byte_len_bounds, lemma_trimmed, lemma_trimmed_whole, opt_view, path_parts,
    replaced, slashes_divide_a_path, split_path, string_of, strip_prefix, trim, trimmed, views,
    white_space_around_a_text_is_dropped,
};

verus! {

/// The prefix of an extended-length Windows path.
pub open spec fn extended_prefix() -> Seq<char> {
    seq!['\\', '\\', '?', '\\']
}

/// The prefix of an extended-length Windows network path.
pub open spec fn extended_network_prefix() -> Seq<char> {
    seq!['\\', '\\', '?', '\\', 'U', 'N', 'C', '\\']
}

/// Whether `s` begins with a drive, such as `C:`, or with two backslashes.
pub open spec fn is_windows_path(s: Seq<char>) -> bool {
    &&& s.len() >= 2
    &&& (s[0] == '\\' && s[1] == '\\') || (char_bytes(s[0]) == 1 && s[1] == ':')
}

/// `s` without trailing separators, as long as more than three bytes are left.
pub open spec fn without_trailing(s: Seq<char>, separator: char) -> Seq<char>
    decreases s.len(),
{
    if byte_len(s) > 3 && s.len() > 0 && s.last() == separator {
        without_trailing(s.drop_last(), separator)
    } else {
        s
    }
}

/// Whether `s` is a date such as `2026-06-27`.
pub open spec fn is_date(s: Seq<char>) -> bool {
    &&& s.len() == 10
    &&& forall|i: int|
        0 <= i < 10 ==> if i == 4 || i == 7 {
            (#[trigger] s[i]) == '-'
        } else {
            is_digit(s[i])
        }
}

/// Whether the last two parts of the path `s` are a date and a name of at most 32 bytes: the shape
/// of a directory that was made for a session without a project.
pub open spec fn is_projectless(s: Seq<char>) -> bool {
    let parts = path_parts(s);
    &&& parts.len() >= 2
    &&& is_date(parts[parts.len() - 2])
    &&& byte_len(parts.last()) <= 32
}

/// The form in which a workspace root is compared and stored; none for a blank root and for one
/// that belongs to no project.
pub open spec fn normalized_root(s: Seq<char>) -> Option<Seq<char>>
    decreases s.len(),
{
    proof {
        lemma_trimmed(s);
    }
    let t = trimmed(s);
    if t.len() == 0 {
        None
    } else if begins_with(t, extended_network_prefix()) {
        normalized_root(seq!['\\', '\\'] + t.skip(8))
    } else {
        let path = if begins_with(t, extended_prefix()) {
            t.skip(4)
        } else {
            t
        };
        let root = root_form(path);
        if trimmed(root).len() == 0 || is_projectless(root) {
            None
        } else {
            Some(root)
        }
    }
}

/// `path` with one kind of separator and without trailing separators.
pub open spec fn root_form(path: Seq<char>) -> Seq<char> {
    if is_windows_path(path) {
        without_trailing(replaced(path, '/', '\\'), '\\')
    } else {
        without_trailing(replaced(path, '\\', '/'), '/')
    }
}

/// Whether the path `value` looks like the directory of a session without a project.
pub fn looks_like_projectless_workspace_root(value: &str) -> (projectless: bool)
    ensures
        projectless == is_projectless(value@),
{
    let parts = split_path(value);
    let ghost all = path_parts(value@);
    assert(parts@.len() == views(parts@).len());
    if parts.len() < 2 {
        return false;
    }
    let date = chars_of(parts[parts.len() - 2].as_str());
    let name = chars_of(parts[parts.len() - 1].as_str());
    assert(date@ == all[all.len() - 2]);
    assert(name@ == all.last());
    if date.len() != 10 {
        return false;
    }
    let mut i: usize = 0;
    while i < 10
        invariant
            i <= 10,
            date@.len() == 10,
            forall|j: int|
                0 <= j < i ==> if j == 4 || j == 7 {
                    (#[trigger] date@[j]) == '-'
                } else {
                    is_digit(date@[j])
                },
            date@ == all[all.len() - 2],
            all == path_parts(value@),
        decreases 10 - i,
    {
        let c = date[i];
        let fits = if i == 4 || i == 7 {
            c == '-'
        } else {
            '0' <= c && c <= '9'
        };
        if !fits {
            return false;
        }
        i += 1;
    }
    byte_len_up_to(&name, 33) <= 32
}

/// `path` with one kind of separator and without trailing separators.
fn to_root_form(path: &str) -> (root: String)
    ensures
        root@ == root_form(path@),
{
    let chars = chars_of(path);
    let windows = chars.len() >= 2 && ((chars[0] == '\\' && chars[1] == '\\') || ((chars[0] as u32)
        < 0x80 && chars[1] == ':'));
    let from = if windows {
        '/'
    } else {
        '\\'
    };
    let separator = if windows {
        '\\'
    } else {
        '/'
    };
    let ghost whole = replaced(path@, from, separator);
    let mut form: Vec<char> = Vec::new();
    let mut i: usize = 0;
    while i < chars.len()
        invariant
            i <= chars@.len(),
            chars@ == path@,
            whole == replaced(path@, from, separator),
            form@ == whole.take(i as int),
        decreases chars@.len() - i,
    {
        let c = chars[i];
        form.push(
            if c == from {
                separator
            } else {
                c
            },
        );
        i += 1;
        assert(form@ =~= whole.take(i as int));
    }
    assert(form@ =~= whole);
    while byte_len_up_to(&form, 4) > 3 && form.len() > 0 && form[form.len() - 1] == separator
        invariant
            without_trailing(form@, separator) == without_trailing(whole, separator),
        decreases form@.len(),
    {
        let ghost before = form@;
        let _ = form.pop();
        assert(form@ =~= before.drop_last());
    }
    let root = string_of(&form, 0, form.len());
    assert(root@ =~= form@);
    root
}

/// The form in which a workspace root is compared and stored. A blank root has none, nor has one
/// that belongs to no project.
pub fn normalize_workspace_root(value: &str) -> (root: Option<String>)
    ensures
        opt_view(root) == normalized_root(value@),
    decreases value@.len(),
{
    proof {
        reveal_strlit("\\\\?\\UNC\\");
        reveal_strlit("\\\\?\\");
        reveal_strlit("\\\\");
        assert("\\\\?\\UNC\\"@ =~= extended_network_prefix());
        assert("\\\\?\\"@ =~= extended_prefix());
        assert("\\\\"@ =~= seq!['\\', '\\']);
        lemma_trimmed(value@);
    }
    let text = trim(value);
    if text.as_str().is_empty() {
        return None;
    }
    if let Some(rest) = strip_prefix(text.as_str(), "\\\\?\\UNC\\") {
        let mut path = "\\\\".to_owned();
        path.append(rest.as_str());
        return normalize_workspace_root(path.as_str());
    }
    let path = match strip_prefix(text.as_str(), "\\\\?\\") {
        Some(rest) => rest,
        None => text,
    };
    let root = to_root_form(path.as_str());
    if trim(root.as_str()).as_str().is_empty() || looks_like_projectless_workspace_root(root.as_str()) {
        None
    } else {
        Some(root)
    }
}

/// A path without the prefix that marks it as extended-length, and without surrounding white
/// space. A network path keeps its two leading backslashes.
pub open spec fn plain_path(s: Seq<char>) -> Seq<char> {
    let t = trimmed(s);
    if begins_with(t, extended_network_prefix()) {
        seq!['\\', '\\'] + t.skip(8)
    } else if begins_with(t, extended_prefix()) {
        t.skip(4)
    } else {
        t
    }
}

/// The form in which the path of a thread's working directory is stored: that of a workspace root
/// where it has one, else the path without an extended-length prefix.
pub open spec fn stored_path(s: Seq<char>) -> Seq<char> {
    match normalized_root(trimmed(s)) {
        Some(root) => root,
        None => plain_path(trimmed(s)),
    }
}

/// Removes surrounding white space and the prefix of an extended-length path.
pub fn normalize_optional_path_text(value: &str) -> (path: String)
    ensures
        path@ == plain_path(value@),
{
    proof {
        reveal_strlit("\\\\?\\UNC\\");
        reveal_strlit("\\\\?\\");
        reveal_strlit("\\\\");
        assert("\\\\?\\UNC\\"@ =~= extended_network_prefix());
        assert("\\\\?\\"@ =~= extended_prefix());
        assert("\\\\"@ =~= seq!['\\', '\\']);
    }
    let text = trim(value);
    if let Some(rest) = strip_prefix(text.as_str(), "\\\\?\\UNC\\") {
        let mut path = "\\\\".to_owned();
        path.append(rest.as_str());
        return path;
    }
    match strip_prefix(text.as_str(), "\\\\?\\") {
        Some(rest) => rest,
        None => text,
    }
}

/// Brings the path of a thread's working directory into the form in which it is stored.
pub fn normalize_sqlite_path_text(value: &str) -> (path: String)
    ensures
        path@ == stored_path(value@),
{
    let text = trim(value);
    match normalize_workspace_root(text.as_str()) {
        Some(root) => root,
        None => normalize_optional_path_text(text.as_str()),
    }
}

/// The path of a rollout file without surrounding white space and without an extended-length
/// prefix.
pub open spec fn rollout_location(path: Seq<char>) -> Seq<char> {
    match after_prefix(trimmed(path), extended_prefix()) {
        Some(rest) => rest,
        None => trimmed(path),
    }
}

/// The path of a rollout file as it is to be taken relative to the data directory: without
/// surrounding white space and without an extended-length prefix. An absolute path stands for
/// itself.
pub fn resolve_rollout_path(rollout_path: &str) -> (path: String)
    ensures
        path@ == rollout_location(rollout_path@),
        path@ == match after_prefix(trimmed(rollout_path@), extended_prefix()) {
            Some(rest) => rest,
            None => trimmed(rollout_path@),
        },
{
    proof {
        reveal_strlit("\\\\?\\");
        assert("\\\\?\\"@ =~= extended_prefix());
    }
    let text = trim(rollout_path);
    match strip_prefix(text.as_str(), "\\\\?\\") {
        Some(rest) => rest,
        None => text,
    }
}

/// The files that SQLite keeps beside the database at `db_path`.
pub fn sqlite_sidecar_paths(db_path: &str) -> (paths: Vec<String>)
    ensures
        views(paths@) == seq![db_path@ + "-wal"@, db_path@ + "-shm"@],
{
    let mut paths: Vec<String> = Vec::new();
    paths.push(db_path.to_owned().concat("-wal"));
    paths.push(db_path.to_owned().concat("-shm"));
    assert(views(paths@) =~= seq![db_path@ + "-wal"@, db_path@ + "-shm"@]);
    paths
}

/// The database of the local thread catalog, as path parts below the data directory.
pub fn local_thread_catalog_db_path() -> (parts: Vec<String>)
    ensures
        views(parts@) == seq!["sqlite"@, "codex-dev.db"@],
{
    let mut parts: Vec<String> = Vec::new();
    parts.push("sqlite".to_owned());
    parts.push("codex-dev.db".to_owned());
    assert(views(parts@) =~= seq!["sqlite"@, "codex-dev.db"@]);
    parts
}

proof fn lemma_without_trailing(s: Seq<char>, separator: char)
    requires
        char_bytes(separator) == 1,
    ensures
        ({
            let t = without_trailing(s, separator);
            &&& t.len() <= s.len()
            &&& t == s.take(t.len() as int)
            &&& without_trailing(t, separator) == t
            &&& t != s ==> byte_len(t) >= 3
        }),
    decreases s.len(),
{
    if byte_len(s) > 3 && s.len() > 0 && s.last() == separator {
        lemma_without_trailing(s.drop_last(), separator);
        let t = without_trailing(s, separator);
        assert(s.drop_last().take(t.len() as int) =~= s.take(t.len() as int));
    } else {
        assert(s.take(s.len() as int) =~= s);
    }
}

proof fn lemma_root_form_stable(path: Seq<char>)
    ensures
        root_form(root_form(path)) == root_form(path),
{
    let windows = is_windows_path(path);
    let from = if windows {
        '/'
    } else {
        '\\'
    };
    let to = if windows {
        '\\'
    } else {
        '/'
    };
    let whole = replaced(path, from, to);
    let root = root_form(path);
    lemma_without_trailing(whole, to);
    assert(root == whole.take(root.len() as int));
    assert forall|i: int| 0 <= i < root.len() implies #[trigger] root[i] != from by {
        assert(root[i] == whole[i]);
    }
    assert(replaced(root, from, to) =~= root);
    if windows {
        assert(root.len() >= 2) by {
            if root.len() < 2 {
                lemma_byte_len_bounds(root);
                assert(byte_len(root) <= 1) by {
                    if root.len() == 1 {
                        assert(root[0] == whole[0]);
                        assert(root.drop_last() =~= Seq::<char>::empty());
                        assert(byte_len(root.drop_last()) == 0);
                    }
                }
            }
        }
        assert(root[0] == whole[0] && root[1] == whole[1]);
        assert(is_windows_path(root));
    } else if root.len() >= 2 {
        assert(root[0] == whole[0] && root[1] == whole[1]);
        assert(!is_windows_path(root));
    }
}

/// Whether the text of a path has no surrounding white space and no extended-length prefix.
pub open spec fn is_settled(path: Seq<char>) -> bool {
    trimmed(path) == path && !begins_with(path, extended_prefix())
}

proof fn lemma_network_prefix_is_extended(path: Seq<char>)
    requires
        begins_with(path, extended_network_prefix()),
    ensures
        begins_with(path, extended_prefix()),
{
    let n = path.subrange(0, 8);
    assert(path.subrange(0, 4) =~= extended_prefix()) by {
        assert forall|i: int| 0 <= i < 4 implies path[i] == extended_prefix()[i] by {
            assert(n[i] == path[i]);
        }
    }
}

proof fn lemma_root_form_len(path: Seq<char>)
    ensures
        root_form(path).len() <= path.len(),
{
    lemma_without_trailing(replaced(path, '/', '\\'), '\\');
    lemma_without_trailing(replaced(path, '\\', '/'), '/');
}

proof fn lemma_normalized_root_len(value: Seq<char>)
    ensures
        normalized_root(value) matches Some(root) ==> {
            &&& root.len() <= trimmed(value).len()
            &&& begins_with(trimmed(value), extended_prefix()) ==> root.len() < trimmed(value).len()
        },
    decreases value.len(),
{
    lemma_trimmed(value);
    let t = trimmed(value);
    if begins_with(t, extended_network_prefix()) {
        let rest = seq!['\\', '\\'] + t.skip(8);
        lemma_normalized_root_len(rest);
        lemma_trimmed(rest);
    } else {
        lemma_root_form_len(t);
        lemma_root_form_len(t.skip(4));
    }
}

/// A root in normalized form is left as it is by another normalization, unless the form begins
/// with an extended-length prefix, or begins or ends with white space; then it is not.
pub proof fn normalized_root_is_stable(value: Seq<char>)
    ensures
        normalized_root(value) matches Some(root) ==> (normalized_root(root) == Some(root)
            <==> is_settled(root)),
    decreases value.len(),
{
    lemma_trimmed(value);
    let t = trimmed(value);
    if normalized_root(value) is Some {
        if begins_with(t, extended_network_prefix()) {
            normalized_root_is_stable(seq!['\\', '\\'] + t.skip(8));
        } else {
            let path = if begins_with(t, extended_prefix()) {
                t.skip(4)
            } else {
                t
            };
            let root = root_form(path);
            if is_settled(root) {
                lemma_root_form_stable(path);
                if begins_with(root, extended_network_prefix()) {
                    lemma_network_prefix_is_extended(root);
                }
            } else {
                lemma_normalized_root_len(root);
                lemma_trimmed(root);
            }
        }
    }
}

/// A path without surrounding white space and extended-length prefix is left as it is by another
/// such removal, unless what is left has one of the two again; then it is not.
pub proof fn plain_path_is_stable(value: Seq<char>)
    ensures
        plain_path(plain_path(value)) == plain_path(value) <==> is_settled(plain_path(value)),
{
    let path = plain_path(value);
    lemma_trimmed(path);
    if begins_with(path, extended_network_prefix()) {
        lemma_network_prefix_is_extended(path);
    }
}

/// A stored path is left as it is by another repair, unless it has surrounding white space or an
/// extended-length prefix; then it is not.
pub proof fn stored_path_is_stable(value: Seq<char>)
    ensures
        stored_path(stored_path(value)) == stored_path(value) <==> is_settled(stored_path(value)),
{
    let t = trimmed(value);
    let path = stored_path(value);
    lemma_trimmed(value);
    lemma_trimmed(path);
    if begins_with(path, extended_network_prefix()) {
        lemma_network_prefix_is_extended(path);
    }
    normalized_root_is_stable(t);
    plain_path_is_stable(t);
    lemma_normalized_root_len(trimmed(path));
}

/// The prefix of an extended-length path is dropped, and so is the white space around a path; of a
/// network path the two leading backslashes stay. Any other path is as it was.
pub proof fn extended_prefix_is_dropped(before: Seq<char>, path: Seq<char>, after: Seq<char>)
    requires
        forall|i: int| 0 <= i < before.len() ==> is_white(#[trigger] before[i]),
        forall|i: int| 0 <= i < after.len() ==> is_white(#[trigger] after[i]),
        path.len() > 0,
        !is_white(path[0]),
        !is_white(path.last()),
    ensures
        plain_path(before + (seq!['\\', '\\', '?', '\\', 'U', 'N', 'C', '\\'] + path) + after)
            == seq!['\\', '\\'] + path,
        !begins_with(path, seq!['U', 'N', 'C', '\\']) ==> plain_path(
            before + (seq!['\\', '\\', '?', '\\'] + path) + after,
        ) == path,
        !begins_with(path, seq!['\\', '\\', '?', '\\']) ==> plain_path(before + path + after)
            == path,
{
    let network = seq!['\\', '\\', '?', '\\', 'U', 'N', 'C', '\\'] + path;
    let extended = seq!['\\', '\\', '?', '\\'] + path;
    assert(network[0] == '\\' && network.last() == path.last());
    assert(extended[0] == '\\' && extended.last() == path.last());
    white_space_around_a_text_is_dropped(before, network, after);
    white_space_around_a_text_is_dropped(before, extended, after);
    white_space_around_a_text_is_dropped(before, path, after);
    assert(network.subrange(0, 8) =~= extended_network_prefix());
    assert(network.skip(8) =~= path);
    assert(extended.subrange(0, 4) =~= extended_prefix());
    assert(extended.skip(4) =~= path);
    if begins_with(extended, extended_network_prefix()) {
        let start = extended.subrange(0, 8);
        assert(path.subrange(0, 4) =~= seq!['U', 'N', 'C', '\\']) by {
            assert forall|i: int| 0 <= i < 4 implies path[i] == seq!['U', 'N', 'C', '\\'][i] by {
                assert(start[i + 4] == extended[i + 4]);
                assert(start[i + 4] == extended_network_prefix()[i + 4]);
            }
        }
    }
    if begins_with(path, extended_network_prefix()) {
        lemma_network_prefix_is_extended(path);
    }
    assert(extended_prefix() == seq!['\\', '\\', '?', '\\']);
}

/// The workspace of an extended-length path is that of the plain path, and that of an
/// extended-length network path is that of the network path.
pub proof fn workspace_has_no_extended_prefix(path: Seq<char>)
    requires
        path.len() > 0,
        !is_white(path[0]),
        !is_white(path.last()),
    ensures
        normalized_root(seq!['\\', '\\', '?', '\\', 'U', 'N', 'C', '\\'] + path) == normalized_root(
            seq!['\\', '\\'] + path,
        ),
        !begins_with(path, seq!['U', 'N', 'C', '\\']) && !begins_with(
            path,
            seq!['\\', '\\', '?', '\\'],
        ) ==> normalized_root(seq!['\\', '\\', '?', '\\'] + path) == normalized_root(path),
{
    let network = seq!['\\', '\\', '?', '\\', 'U', 'N', 'C', '\\'] + path;
    let extended = seq!['\\', '\\', '?', '\\'] + path;
    assert(network[0] == '\\' && network.last() == path.last());
    assert(extended[0] == '\\' && extended.last() == path.last());
    lemma_trimmed_whole(network);
    lemma_trimmed_whole(extended);
    lemma_trimmed_whole(path);
    assert(network.subrange(0, 8) =~= extended_network_prefix());
    assert(network.skip(8) =~= path);
    assert(extended.subrange(0, 4) =~= extended_prefix());
    assert(extended.skip(4) =~= path);
    if begins_with(extended, extended_network_prefix()) {
        let start = extended.subrange(0, 8);
        assert(path.subrange(0, 4) =~= seq!['U', 'N', 'C', '\\']) by {
            assert forall|i: int| 0 <= i < 4 implies path[i] == seq!['U', 'N', 'C', '\\'][i] by {
                assert(start[i + 4] == extended[i + 4]);
                assert(start[i + 4] == extended_network_prefix()[i + 4]);
            }
        }
    }
    if begins_with(path, extended_network_prefix()) {
        lemma_network_prefix_is_extended(path);
    }
    assert(extended_prefix() == seq!['\\', '\\', '?', '\\']);
}

proof fn lemma_without_trailing_last(s: Seq<char>, separator: char)
    ensures
        ({
            let t = without_trailing(s, separator);
            byte_len(t) <= 3 || t.len() == 0 || t.last() != separator
        }),
    decreases s.len(),
{
    if byte_len(s) > 3 && s.len() > 0 && s.last() == separator {
        lemma_without_trailing_last(s.drop_last(), separator);
    }
}

/// A workspace is written with one kind of separator: backslashes where it begins with a drive or
/// with two backslashes, else slashes; and it does not end with one, unless that is all but three
/// bytes of it at most. It is never blank.
pub proof fn workspace_has_one_kind_of_separator(value: Seq<char>, i: int)
    ensures
        normalized_root(value) matches Some(root) ==> {
            &&& trimmed(root).len() > 0
            &&& if root.len() >= 2 && (root[1] == ':' && (root[0] as u32) < 0x80 || root[0] == '\\'
                && root[1] == '\\') {
                (0 <= i < root.len() ==> root[i] != '/') && (byte_len(root) > 3 ==> root.last()
                    != '\\')
            } else {
                (0 <= i < root.len() ==> root[i] != '\\') && (byte_len(root) > 3 ==> root.last()
                    != '/')
            }
        },
    decreases value.len(),
{
    lemma_trimmed(value);
    let t = trimmed(value);
    if normalized_root(value) is Some {
        if begins_with(t, extended_network_prefix()) {
            workspace_has_one_kind_of_separator(seq!['\\', '\\'] + t.skip(8), i);
        } else {
            let path = if begins_with(t, extended_prefix()) {
                t.skip(4)
            } else {
                t
            };
            let root = root_form(path);
            let back = replaced(path, '/', '\\');
            let forward = replaced(path, '\\', '/');
            lemma_without_trailing(back, '\\');
            lemma_without_trailing_last(back, '\\');
            lemma_without_trailing(forward, '/');
            lemma_without_trailing_last(forward, '/');
            lemma_root_form_stable(path);
            lemma_byte_len_bounds(root);
            if is_windows_path(path) {
                assert(root == back.take(root.len() as int));
                assert(byte_len(root) >= 2) by {
                    if root != back {
                        assert(byte_len(root) >= 3);
                    }
                }
                assert(root.len() >= 2) by {
                    if root.len() < 2 && root != back {
                        assert(root.len() <= 1);
                        if root.len() == 1 {
                            assert(root[0] == back[0]);
                            assert(root.drop_last() =~= Seq::<char>::empty());
                            assert(byte_len(root.drop_last()) == 0);
                        }
                    }
                }
                assert(root[0] == back[0] && root[1] == back[1]);
                if 0 <= i < root.len() {
                    assert(root[i] == back[i]);
                }
            } else {
                assert(root == forward.take(root.len() as int));
                if root.len() >= 2 {
                    assert(root[0] == forward[0] && root[1] == forward[1]);
                }
                if 0 <= i < root.len() {
                    assert(root[i] == forward[i]);
                }
            }
        }
    }
}

/// A path on a drive is the same workspace with slashes as with backslashes, and with a separator at
/// its end as without.
pub proof fn separators_make_no_difference_to_a_workspace(path: Seq<char>)
    requires
        path.len() >= 3,
        path[1] == ':',
        (path[0] as u32) < 0x80,
        !is_white(path[0]),
        !is_white(path.last()),
    ensures
        normalized_root(replaced(path, '/', '\\')) == normalized_root(path),
        normalized_root(path.push('\\')) == normalized_root(path),
        normalized_root(path.push('/')) == normalized_root(path),
{
    let back = replaced(path, '/', '\\');
    assert(back[0] == path[0] || back[0] == '\\');
    assert(back[1] == ':');
    assert(back.last() == path.last() || back.last() == '\\');
    lemma_trimmed_whole(path);
    lemma_trimmed_whole(back);
    lemma_trimmed_whole(path.push('\\'));
    lemma_trimmed_whole(path.push('/'));
    lemma_drive_is_not_extended(path);
    lemma_drive_is_not_extended(back);
    lemma_drive_is_not_extended(path.push('\\'));
    lemma_drive_is_not_extended(path.push('/'));
    assert(replaced(back, '/', '\\') =~= back);
    assert(is_windows_path(path));
    assert(is_windows_path(back));
    assert(root_form(back) == root_form(path));
    lemma_byte_len_bounds(back);
    assert(replaced(path.push('\\'), '/', '\\') =~= back.push('\\'));
    assert(replaced(path.push('/'), '/', '\\') =~= back.push('\\'));
    assert(back.push('\\').drop_last() =~= back);
    assert(without_trailing(back.push('\\'), '\\') == without_trailing(back, '\\'));
}

proof fn lemma_drive_is_not_extended(path: Seq<char>)
    requires
        path.len() >= 2,
        path[1] == ':',
    ensures
        !begins_with(path, extended_prefix()),
        !begins_with(path, extended_network_prefix()),
{
    if begins_with(path, extended_network_prefix()) {
        lemma_network_prefix_is_extended(path);
    }
    if begins_with(path, extended_prefix()) {
        assert(path.subrange(0, 4)[1] == path[1]);
    }
}

/// A path whose last two pieces are a date and a name of at most 32 bytes belongs to no project,
/// whatever stands before them; with a longer name, or with no date before it, it may belong to one.
pub proof fn dated_directories_belong_to_no_project(
    before: Seq<char>,
    date: Seq<char>,
    name: Seq<char>,
    slash: char,
)
    requires
        slash == '/' || slash == '\\',
        date.len() > 0,
        name.len() > 0,
        forall|i: int| 0 <= i < date.len() ==> #[trigger] date[i] != '/' && date[i] != '\\',
        forall|i: int| 0 <= i < name.len() ==> #[trigger] name[i] != '/' && name[i] != '\\',
    ensures
        is_projectless(before + seq![slash] + (date + seq![slash] + name)) <==> byte_len(name) <= 32
            && date.len() == 10 && date[4] == '-' && date[7] == '-' && forall|i: int|
            0 <= i < 10 && i != 4 && i != 7 ==> '0' <= #[trigger] date[i] <= '9',
{
    let end = date + seq![slash] + name;
    slashes_divide_a_path(before, slash, end);
    slashes_divide_a_path(date, slash, name);
    slashes_divide_a_path(name, slash, name);
    let parts = path_parts(before + seq![slash] + end);
    assert(path_parts(end) =~= seq![date, name]);
    assert(parts =~= path_parts(before) + seq![date, name]);
    assert(parts[parts.len() - 2] == date);
    assert(parts.last() == name);
    if date.len() == 10 && date[4] == '-' && date[7] == '-' && (forall|i: int|
        0 <= i < 10 && i != 4 && i != 7 ==> '0' <= #[trigger] date[i] <= '9') {
        assert(is_date(date));
    }
    if is_date(date) {
        assert(date[4] == '-' && date[7] == '-');
        assert forall|i: int| 0 <= i < 10 && i != 4 && i != 7 implies '0' <= #[trigger] date[i]
            <= '9' by {}
    }
}

/// A plain path has a workspace exactly where it is not blank and belongs to a project.
pub proof fn path_of_a_project_has_a_workspace(path: Seq<char>)
    requires
        path.len() > 0,
        !is_white(path[0]),
        !is_white(path.last()),
        !begins_with(path, seq!['\\', '\\', '?', '\\']),
    ensures
        normalized_root(path) is Some <==> !is_projectless(root_form(path)) && trimmed(
            root_form(path),
        ).len() > 0,
        normalized_root(path) matches Some(root) ==> root.len() <= path.len() && forall|i: int|
            0 <= i < root.len() ==> #[trigger] root[i] == path[i] || is_slash(root[i]) && is_slash(
                path[i],
            ),
{
    lemma_trimmed_whole(path);
    assert(extended_prefix() == seq!['\\', '\\', '?', '\\']);
    if begins_with(path, extended_network_prefix()) {
        lemma_network_prefix_is_extended(path);
    }
    let back = replaced(path, '/', '\\');
    let forward = replaced(path, '\\', '/');
    lemma_without_trailing(back, '\\');
    lemma_without_trailing(forward, '/');
    if let Some(root) = normalized_root(path) {
        assert forall|i: int| 0 <= i < root.len() implies #[trigger] root[i] == path[i] || is_slash(
            root[i],
        ) && is_slash(path[i]) by {
            if is_windows_path(path) {
                assert(root[i] == back[i]);
            } else {
                assert(root[i] == forward[i]);
            }
        }
    }
}

/// A working directory is stored as its workspace where it has one, and else as its plain path.
pub proof fn directory_is_stored_as_its_workspace(value: Seq<char>)
    ensures
        normalized_root(value) matches Some(root) ==> stored_path(value) == root,
        normalized_root(value) is None ==> stored_path(value) == plain_path(value),
{
    lemma_trimmed(value);
}

/// A rollout file is found without the white space around its path and without the prefix of an
/// extended-length path; any other path is taken as it is.
pub proof fn rollout_file_is_found_without_a_prefix(
    before: Seq<char>,
    path: Seq<char>,
    after: Seq<char>,
)
    requires
        forall|i: int| 0 <= i < before.len() ==> is_white(#[trigger] before[i]),
        forall|i: int| 0 <= i < after.len() ==> is_white(#[trigger] after[i]),
        path.len() > 0,
        !is_white(path[0]),
        !is_white(path.last()),
    ensures
        rollout_location(before + (seq!['\\', '\\', '?', '\\'] + path) + after) == path,
        !begins_with(path, seq!['\\', '\\', '?', '\\']) ==> rollout_location(
            before + path + after,
        ) == path,
{
    let extended = seq!['\\', '\\', '?', '\\'] + path;
    assert(extended[0] == '\\' && extended.last() == path.last());
    white_space_around_a_text_is_dropped(before, extended, after);
    white_space_around_a_text_is_dropped(before, path, after);
    assert(extended.subrange(0, 4) =~= extended_prefix());
    assert(extended.skip(4) =~= path);
    assert(extended_prefix() == seq!['\\', '\\', '?', '\\']);
}

} // verus!
