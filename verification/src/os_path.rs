//! Paths as text, in the style of Windows or of Unix, whatever system the library runs on: the
//! last part of a path, what is above it, and parts below it.

use vstd::prelude::*;

use crate::text::{chars_of, opt_view, same_text, string_of};

verus! {

/// Whether `c` separates the parts of a path. Backslashes do so on Windows only; after a verbatim
/// prefix nothing else does.
pub open spec fn separates(windows: bool, verbatim: bool, c: char) -> bool {
    (c == '/' && !verbatim) || (c == '\\' && windows)
}

fn is_separator(windows: bool, verbatim: bool, c: char) -> (yes: bool)
    ensures
        yes == separates(windows, verbatim, c),
{
    (c == '/' && !verbatim) || (c == '\\' && windows)
}

/// Where the part ends that begins at `from`: at the next separator, or at the end of the path.
pub open spec fn part_end(s: Seq<char>, from: nat, windows: bool, verbatim: bool) -> nat
    decreases s.len() - from,
{
    if from < s.len() && !separates(windows, verbatim, s[from as int]) {
        part_end(s, from + 1, windows, verbatim)
    } else {
        from
    }
}

fn find_part_end(s: &Vec<char>, from: usize, windows: bool, verbatim: bool) -> (end: usize)
    requires
        from <= s@.len(),
    ensures
        end == part_end(s@, from as nat, windows, verbatim),
        from <= end <= s@.len(),
{
    let mut i: usize = from;
    while i < s.len() && !is_separator(windows, verbatim, s[i])
        invariant
            from <= i <= s@.len(),
            part_end(s@, from as nat, windows, verbatim) == part_end(
                s@,
                i as nat,
                windows,
                verbatim,
            ),
        decreases s@.len() - i,
    {
        i += 1;
    }
    i
}

/// Whether the path has a verbatim prefix, `\\?\`.
pub open spec fn is_verbatim(s: Seq<char>) -> bool {
    s.len() >= 4 && s[0] == '\\' && s[1] == '\\' && s[2] == '?' && s[3] == '\\'
}

pub open spec fn is_letter(c: char) -> bool {
    'a' <= c <= 'z' || 'A' <= c <= 'Z'
}

/// Whether a drive such as `C:` stands at `at`.
pub open spec fn drive_at(s: Seq<char>, at: int) -> bool {
    at + 2 <= s.len() && is_letter(s[at]) && s[at + 1] == ':'
}

/// Whether `UNC\` stands behind a verbatim prefix.
pub open spec fn is_verbatim_network(s: Seq<char>) -> bool {
    s.len() >= 8 && s[4] == 'U' && s[5] == 'N' && s[6] == 'C' && separates(true, false, s[7])
}

/// The end of a server's name that begins at `from` and of the share's name behind it, where there
/// is one.
pub open spec fn network_end(s: Seq<char>, from: nat, verbatim: bool) -> nat {
    let server = part_end(s, from, true, verbatim);
    if server < s.len() {
        let share = part_end(s, server + 1, true, verbatim);
        if share > server + 1 {
            share
        } else {
            server
        }
    } else {
        server
    }
}

/// The length of the prefix that a Windows path has before its root: a drive, a server and a share,
/// a device, or the verbatim form of one of these.
pub open spec fn prefix_len(s: Seq<char>) -> nat {
    if s.len() >= 2 && separates(true, false, s[0]) && separates(true, false, s[1]) {
        if is_verbatim(s) {
            if is_verbatim_network(s) {
                network_end(s, 8, true)
            } else if drive_at(s, 4) && (s.len() == 6 || separates(true, false, s[6])) {
                6
            } else {
                part_end(s, 4, true, true)
            }
        } else if s.len() >= 4 && s[2] == '.' && separates(true, false, s[3]) {
            part_end(s, 4, true, false)
        } else {
            let server = part_end(s, 2, true, false);
            let end = network_end(s, 2, false);
            if server > 2 && end > server {
                end
            } else {
                0
            }
        }
    } else if drive_at(s, 0) {
        2
    } else {
        0
    }
}

fn has_drive_at(s: &Vec<char>, at: usize) -> (yes: bool)
    requires
        at <= s@.len(),
    ensures
        yes == drive_at(s@, at as int),
{
    if s.len() - at < 2 {
        return false;
    }
    let c = s[at];
    (('a' <= c && c <= 'z') || ('A' <= c && c <= 'Z')) && s[at + 1] == ':'
}

fn find_network_end(s: &Vec<char>, from: usize, verbatim: bool) -> (end: usize)
    requires
        from <= s@.len(),
    ensures
        end == network_end(s@, from as nat, verbatim),
        from <= end <= s@.len(),
{
    let server = find_part_end(s, from, true, verbatim);
    if server < s.len() {
        let share = find_part_end(s, server + 1, true, verbatim);
        if share > server + 1 {
            return share;
        }
    }
    server
}

fn find_prefix_len(s: &Vec<char>) -> (len: usize)
    ensures
        len == prefix_len(s@),
        len <= s@.len(),
{
    if s.len() >= 2 && is_separator(true, false, s[0]) && is_separator(true, false, s[1]) {
        let verbatim = s.len() >= 4 && s[0] == '\\' && s[1] == '\\' && s[2] == '?' && s[3] == '\\';
        if verbatim {
            if s.len() >= 8 && s[4] == 'U' && s[5] == 'N' && s[6] == 'C' && is_separator(
                true,
                false,
                s[7],
            ) {
                find_network_end(s, 8, true)
            } else if has_drive_at(s, 4) && (s.len() == 6 || is_separator(true, false, s[6])) {
                6
            } else {
                find_part_end(s, 4, true, true)
            }
        } else if s.len() >= 4 && s[2] == '.' && is_separator(true, false, s[3]) {
            find_part_end(s, 4, true, false)
        } else {
            let server = find_part_end(s, 2, true, false);
            let end = find_network_end(s, 2, false);
            if server > 2 && end > server {
                end
            } else {
                0
            }
        }
    } else if has_drive_at(s, 0) {
        2
    } else {
        0
    }
}

/// What a path begins with, before its parts.
pub struct PathStart {
    /// The length of the prefix.
    pub prefix: nat,
    /// Where the parts begin: behind the prefix, and behind a root or a leading `.`.
    pub body: nat,
    /// Whether there is a separator between the prefix and the parts.
    pub root: bool,
    /// Whether the path begins with the part `.`.
    pub here: bool,
    pub verbatim: bool,
}

/// What a path begins with.
pub open spec fn path_start(s: Seq<char>, windows: bool) -> PathStart {
    let prefix = if windows {
        prefix_len(s)
    } else {
        0
    };
    let root = prefix < s.len() && separates(windows, false, s[prefix as int]);
    let relative = prefix == 0 || (prefix == 2 && drive_at(s, 0));
    let here = !root && relative && prefix < s.len() && s[prefix as int] == '.' && (prefix + 1
        == s.len() || separates(windows, false, s[prefix as int + 1]));
    PathStart {
        prefix,
        body: if root || here {
            prefix + 1
        } else {
            prefix
        },
        root,
        here,
        verbatim: windows && is_verbatim(s),
    }
}

/// Where the last part before `end` begins: behind the last separator after `body`, or at `body`.
pub open spec fn part_start(
    s: Seq<char>,
    body: nat,
    end: nat,
    windows: bool,
    verbatim: bool,
) -> nat
    decreases end,
{
    if end <= body || separates(windows, verbatim, s[end - 1]) {
        end
    } else {
        part_start(s, body, (end - 1) as nat, windows, verbatim)
    }
}

/// Where the path without its last part ends, if that part begins at `start`.
pub open spec fn before_part(body: nat, start: nat) -> nat {
    if start > body {
        (start - 1) as nat
    } else {
        body
    }
}

/// Whether a part says nothing: an empty one, and `.` but after a verbatim prefix.
pub open spec fn says_nothing(part: Seq<char>, verbatim: bool) -> bool {
    part.len() == 0 || (part == seq!['.'] && !verbatim)
}

pub proof fn lemma_part_start(s: Seq<char>, body: nat, end: nat, windows: bool, verbatim: bool)
    ensures
        part_start(s, body, end, windows, verbatim) <= end,
        body <= end ==> body <= part_start(s, body, end, windows, verbatim),
    decreases end,
{
    if end > body && !separates(windows, verbatim, s[end - 1]) {
        lemma_part_start(s, body, (end - 1) as nat, windows, verbatim);
    }
}

/// Where the path ends before `end` without parts at its end that say nothing.
pub open spec fn settled_end(
    s: Seq<char>,
    body: nat,
    end: nat,
    windows: bool,
    verbatim: bool,
) -> nat
    decreases end,
{
    if end <= body {
        end
    } else {
        let start = part_start(s, body, end, windows, verbatim);
        proof {
            lemma_part_start(s, body, end, windows, verbatim);
        }
        if says_nothing(s.subrange(start as int, end as int), verbatim) {
            settled_end(s, body, before_part(body, start), windows, verbatim)
        } else {
            end
        }
    }
}

/// What a path is made of: what is above its last part, and its last part where it is a name.
pub struct PathSplit {
    pub parent: Option<Seq<char>>,
    pub name: Option<Seq<char>>,
}

/// Takes a path apart. There is nothing above a root, a prefix or an empty path; `.` and `..` are no
/// names.
pub open spec fn split_of(s: Seq<char>, windows: bool) -> PathSplit {
    let begin = path_start(s, windows);
    let end = settled_end(s, begin.body, s.len(), windows, begin.verbatim);
    if end > begin.body {
        let start = part_start(s, begin.body, end, windows, begin.verbatim);
        let part = s.subrange(start as int, end as int);
        PathSplit {
            parent: Some(
                s.take(
                    settled_end(
                        s,
                        begin.body,
                        before_part(begin.body, start),
                        windows,
                        begin.verbatim,
                    ) as int,
                ),
            ),
            name: if is_name(part) {
                Some(part)
            } else {
                None
            },
        }
    } else if begin.here {
        PathSplit { parent: Some(s.take(begin.prefix as int)), name: None }
    } else {
        PathSplit { parent: None, name: None }
    }
}

/// What is above the last part of a path, and the part where it is a name.
#[derive(Debug)]
pub struct SplitPath {
    pub parent: Option<String>,
    pub name: Option<String>,
}

fn find_part_start(
    s: &Vec<char>,
    body: usize,
    end: usize,
    windows: bool,
    verbatim: bool,
) -> (start: usize)
    requires
        body <= end <= s@.len(),
    ensures
        start == part_start(s@, body as nat, end as nat, windows, verbatim),
        body <= start <= end,
{
    let mut i: usize = end;
    while i > body && !is_separator(windows, verbatim, s[i - 1])
        invariant
            body <= i <= end <= s@.len(),
            part_start(s@, body as nat, end as nat, windows, verbatim) == part_start(
                s@,
                body as nat,
                i as nat,
                windows,
                verbatim,
            ),
        decreases i,
    {
        i -= 1;
    }
    i
}

fn find_settled_end(
    s: &Vec<char>,
    body: usize,
    end: usize,
    windows: bool,
    verbatim: bool,
) -> (settled: usize)
    requires
        body <= end <= s@.len(),
    ensures
        settled == settled_end(s@, body as nat, end as nat, windows, verbatim),
        body <= settled <= end,
{
    let mut i: usize = end;
    while i > body
        invariant
            body <= i <= end <= s@.len(),
            settled_end(s@, body as nat, end as nat, windows, verbatim) == settled_end(
                s@,
                body as nat,
                i as nat,
                windows,
                verbatim,
            ),
        decreases i,
    {
        let start = find_part_start(s, body, i, windows, verbatim);
        let nothing = start == i || (i - start == 1 && s[start] == '.' && !verbatim);
        assert(nothing == says_nothing(s@.subrange(start as int, i as int), verbatim)) by {
            let part = s@.subrange(start as int, i as int);
            if part.len() == 1 {
                assert(part[0] == s@[start as int]);
                if part[0] == '.' {
                    assert(part =~= seq!['.']);
                }
            }
        }
        if !nothing {
            return i;
        }
        i = if start > body {
            start - 1
        } else {
            body
        };
    }
    i
}

struct Beginning {
    prefix: usize,
    body: usize,
    here: bool,
    verbatim: bool,
}

fn find_path_start(s: &Vec<char>, windows: bool) -> (begin: Beginning)
    ensures
        begin.prefix == path_start(s@, windows).prefix,
        begin.body == path_start(s@, windows).body,
        begin.here == path_start(s@, windows).here,
        begin.verbatim == path_start(s@, windows).verbatim,
        begin.prefix <= begin.body <= s@.len(),
{
    let prefix = if windows {
        find_prefix_len(s)
    } else {
        0
    };
    let root = prefix < s.len() && is_separator(windows, false, s[prefix]);
    let relative = prefix == 0 || (prefix == 2 && has_drive_at(s, 0));
    let here = !root && relative && prefix < s.len() && s[prefix] == '.' && (prefix + 1 == s.len()
        || is_separator(windows, false, s[prefix + 1]));
    let body = if root || here {
        prefix + 1
    } else {
        prefix
    };
    let verbatim = windows && s.len() >= 4 && s[0] == '\\' && s[1] == '\\' && s[2] == '?' && s[3]
        == '\\';
    Beginning { prefix, body, here, verbatim }
}

/// Whether a part is a name: neither `.` nor `..`.
pub open spec fn is_name(part: Seq<char>) -> bool {
    part != seq!['.'] && part != seq!['.', '.']
}

fn part_is_name(part: &str) -> (yes: bool)
    ensures
        yes == is_name(part@),
{
    proof {
        reveal_strlit(".");
        reveal_strlit("..");
        assert("."@ =~= seq!['.']);
        assert(".."@ =~= seq!['.', '.']);
    }
    !same_text(part, ".") && !same_text(part, "..")
}

/// What is above the last part of a path, and the part where it is a name.
pub fn split_os_path(path: &str, windows: bool) -> (split: SplitPath)
    ensures
        opt_view(split.parent) == split_of(path@, windows).parent,
        opt_view(split.name) == split_of(path@, windows).name,
{
    let s = chars_of(path);
    let begin = find_path_start(&s, windows);
    let body = begin.body;
    let end = find_settled_end(&s, body, s.len(), windows, begin.verbatim);
    if end > body {
        let start = find_part_start(&s, body, end, windows, begin.verbatim);
        let before = if start > body {
            start - 1
        } else {
            body
        };
        let above = find_settled_end(&s, body, before, windows, begin.verbatim);
        let part = string_of(&s, start, end);
        assert(s@.subrange(0, above as int) =~= s@.take(above as int));
        let parent = string_of(&s, 0, above);
        let name = if part_is_name(part.as_str()) {
            Some(part)
        } else {
            None
        };
        SplitPath { parent: Some(parent), name }
    } else if begin.here {
        assert(s@.subrange(0, begin.prefix as int) =~= s@.take(begin.prefix as int));
        SplitPath { parent: Some(string_of(&s, 0, begin.prefix)), name: None }
    } else {
        SplitPath { parent: None, name: None }
    }
}

pub proof fn lemma_part_end(s: Seq<char>, from: nat, windows: bool, verbatim: bool)
    ensures
        from <= part_end(s, from, windows, verbatim),
        from <= s.len() ==> part_end(s, from, windows, verbatim) <= s.len(),
    decreases s.len() - from,
{
    if from < s.len() && !separates(windows, verbatim, s[from as int]) {
        lemma_part_end(s, from + 1, windows, verbatim);
    }
}

/// The parts of a verbatim path that are not empty, from `from` on, with a backslash before each.
pub open spec fn verbatim_parts(s: Seq<char>, from: nat) -> Seq<char>
    decreases s.len() + 1 - from,
{
    if from >= s.len() {
        seq![]
    } else {
        let end = part_end(s, from, true, true);
        proof {
            lemma_part_end(s, from, true, true);
        }
        let rest = verbatim_parts(s, end + 1);
        if end > from {
            seq!['\\'] + s.subrange(from as int, end as int) + rest
        } else {
            rest
        }
    }
}

/// The path of the name `part` below `base`. A base with a verbatim prefix is put together anew from
/// its parts. Otherwise a separator stands between base and name, unless the base is empty, ends
/// with one, or is a drive alone.
pub open spec fn below(base: Seq<char>, part: Seq<char>, windows: bool) -> Seq<char> {
    let begin = path_start(base, windows);
    if begin.verbatim {
        base.take(begin.prefix as int) + verbatim_parts(base, begin.body) + seq!['\\'] + part
    } else if base.len() == 0 || separates(windows, false, base.last()) || (windows && base.len()
        == 2 && drive_at(base, 0)) {
        base + part
    } else if windows {
        base + seq!['\\'] + part
    } else {
        base + seq!['/'] + part
    }
}

fn push_verbatim_parts(text: String, s: &Vec<char>, from: usize) -> (all: String)
    requires
        from <= s@.len(),
    ensures
        all@ == text@ + verbatim_parts(s@, from as nat),
{
    proof {
        reveal_strlit("\\");
        assert("\\"@ =~= seq!['\\']);
    }
    let mut all: String = text;
    let mut at: usize = from;
    while at < s.len()
        invariant
            from <= at <= s@.len(),
            "\\"@ == seq!['\\'],
            all@ + verbatim_parts(s@, at as nat) == text@ + verbatim_parts(s@, from as nat),
        decreases s@.len() - at,
    {
        let end = find_part_end(s, at, true, true);
        let ghost before = all@;
        if end > at {
            let part = string_of(s, at, end);
            all = all.concat("\\").concat(part.as_str());
        }
        let next = if end < s.len() {
            end + 1
        } else {
            end
        };
        proof {
            let rest = verbatim_parts(s@, (end + 1) as nat);
            assert(verbatim_parts(s@, next as nat) == rest);
            let part = s@.subrange(at as int, end as int);
            assert(before + (seq!['\\'] + part + rest) =~= before + seq!['\\'] + part + rest);
        }
        at = next;
    }
    assert(all@ + verbatim_parts(s@, at as nat) =~= all@);
    all
}

/// The path of the name `part` below `base`.
pub fn path_below(base: &str, part: &str, windows: bool) -> (path: String)
    ensures
        path@ == below(base@, part@, windows),
{
    proof {
        reveal_strlit("\\");
        reveal_strlit("/");
        assert("\\"@ =~= seq!['\\']);
        assert("/"@ =~= seq!['/']);
    }
    let chars = chars_of(base);
    let begin = find_path_start(&chars, windows);
    if begin.verbatim {
        assert(chars@.subrange(0, begin.prefix as int) =~= chars@.take(begin.prefix as int));
        let prefix = string_of(&chars, 0, begin.prefix);
        let parts = push_verbatim_parts(prefix, &chars, begin.body);
        return parts.concat("\\").concat(part);
    }
    let bare = chars.len() == 0 || is_separator(windows, false, chars[chars.len() - 1]) || (windows
        && chars.len() == 2 && has_drive_at(&chars, 0));
    if bare {
        base.to_owned().concat(part)
    } else if windows {
        base.to_owned().concat("\\").concat(part)
    } else {
        base.to_owned().concat("/").concat(part)
    }
}

proof fn lemma_part_start_is(
    s: Seq<char>,
    body: nat,
    end: nat,
    windows: bool,
    verbatim: bool,
    start: nat,
)
    requires
        body <= start <= end <= s.len(),
        start == body || separates(windows, verbatim, s[start - 1]),
        forall|i: int| start <= i < end ==> !separates(windows, verbatim, #[trigger] s[i]),
    ensures
        part_start(s, body, end, windows, verbatim) == start,
    decreases end,
{
    if end > start {
        assert(!separates(windows, verbatim, s[end - 1]));
        lemma_part_start_is(s, body, (end - 1) as nat, windows, verbatim, start);
    }
}

proof fn lemma_split_below(
    s: Seq<char>,
    base: Seq<char>,
    name: Seq<char>,
    body: nat,
    windows: bool,
)
    requires
        base.len() > body,
        name.len() > 0,
        s.len() == base.len() + 1 + name.len(),
        s.take(base.len() as int) == base,
        separates(windows, false, s[base.len() as int]),
        s.skip(base.len() as int + 1) == name,
        !separates(windows, false, base.last()),
        base.last() != '.',
        forall|i: int| 0 <= i < name.len() ==> !separates(windows, false, #[trigger] name[i]),
        name != seq!['.'],
    ensures
        settled_end(s, body, s.len(), windows, false) == s.len(),
        part_start(s, body, s.len(), windows, false) == base.len() + 1,
        settled_end(s, body, base.len(), windows, false) == base.len(),
        s.subrange(base.len() as int + 1, s.len() as int) == name,
{
    let n = base.len();
    assert forall|i: int| n + 1 <= i < s.len() implies !separates(windows, false, #[trigger] s[i]) by {
        assert(s[i] == s.skip(n as int + 1)[i - n - 1]);
    }
    lemma_part_start_is(s, body, s.len(), windows, false, n + 1);
    assert(s.subrange(n as int + 1, s.len() as int) =~= name);
    let start = part_start(s, body, n, windows, false);
    lemma_part_start(s, body, n, windows, false);
    assert(s[n - 1] == s.take(n as int)[n - 1]);
    assert(s[n - 1] == base.last());
    lemma_part_start(s, body, (n - 1) as nat, windows, false);
    assert(start < n);
    let part = s.subrange(start as int, n as int);
    assert(part.last() == base.last());
    assert(part != seq!['.']);
}

/// The path of a name below a directory splits into that directory and that name again, on Unix
/// wherever the directory is, and on Windows below a drive; a directory that ends with a separator
/// or a dot aside.
pub proof fn name_below_a_directory_splits_off(base: Seq<char>, name: Seq<char>, windows: bool)
    requires
        base.len() > 0,
        windows ==> base.len() > 3 && is_letter(base[0]) && base[1] == ':' && (base[2] == '\\'
            || base[2] == '/'),
        base.last() != '/',
        windows ==> base.last() != '\\',
        base.last() != '.',
        name.len() > 0,
        forall|i: int|
            0 <= i < name.len() ==> #[trigger] name[i] != '/' && (windows ==> name[i] != '\\'),
        name != seq!['.'],
        name != seq!['.', '.'],
    ensures
        below(base, name, windows) == base + (if windows {
            seq!['\\']
        } else {
            seq!['/']
        }) + name,
        split_of(below(base, name, windows), windows).parent == Some(base),
        split_of(below(base, name, windows), windows).name == Some(name),
{
    let s = base + (if windows {
        seq!['\\']
    } else {
        seq!['/']
    }) + name;
    assert(below(base, name, windows) == s);
    assert(s[0] == base[0]);
    assert(s.take(base.len() as int) =~= base);
    assert(s.skip(base.len() as int + 1) =~= name);
    let begin = path_start(s, windows);
    if windows {
        assert(s[1] == base[1] && s[2] == base[2]);
        assert(begin.prefix == 2 && begin.body == 3);
    } else {
        if base.len() > 1 {
            assert(s[1] == base[1]);
        }
    }
    assert(!begin.verbatim);
    lemma_split_below(s, base, name, begin.body, windows);
}

/// A name alone is a path with nothing above it but the empty path, and one behind a drive alone has
/// that drive above it. `.` and `..` are no names, and a root has neither a name nor anything above
/// it.
pub proof fn name_alone_has_the_empty_path_above_it(name: Seq<char>, windows: bool, drive: char)
    requires
        name.len() > 0,
        forall|i: int|
            0 <= i < name.len() ==> #[trigger] name[i] != '/' && name[i] != '\\' && name[i] != ':',
        name != seq!['.'],
        is_letter(drive),
    ensures
        split_of(name, windows).parent == Some(Seq::<char>::empty()),
        name != seq!['.', '.'] ==> split_of(name, windows).name == Some(name),
        name == seq!['.', '.'] ==> split_of(name, windows).name is None,
        split_of(seq![drive, ':'] + name, true).parent == Some(seq![drive, ':']),
        name != seq!['.', '.'] ==> split_of(seq![drive, ':'] + name, true).name == Some(name),
        split_of(seq!['/'], windows).parent is None,
        split_of(seq!['/'], windows).name is None,
        split_of(seq![drive, ':', '\\'], true).parent is None,
        split_of(seq![drive, ':', '\\'], true).name is None,
        split_of(Seq::empty(), windows).parent is None,
        split_of(Seq::empty(), windows).name is None,
        split_of(seq!['.'], windows).parent == Some(Seq::<char>::empty()),
        split_of(seq!['.'], windows).name is None,
{
    assert(name.take(0) =~= Seq::<char>::empty());
    assert(name.skip(0) =~= name);
    assert forall|i: int| 0 <= i < name.len() implies !separates(
        windows,
        false,
        #[trigger] name[i],
    ) by {}
    lemma_single_part(name, 0, windows);
    assert(seq!['.'].take(0) =~= Seq::<char>::empty());
    let begin = path_start(name, windows);
    if name.len() > 1 {
        assert(name[1] != ':');
    }
    assert(name[0] != '/' && name[0] != '\\');
    assert(begin.prefix == 0 && !begin.root);
    assert(!begin.here) by {
        if begin.here {
            if name.len() == 1 {
                assert(name =~= seq!['.']);
            } else {
                assert(name[1] != '/' && name[1] != '\\');
            }
        }
    }
    let s = seq![drive, ':'] + name;
    assert(s.skip(2) =~= name);
    assert(s.take(2) =~= seq![drive, ':']);
    assert(s[2] == name[0]);
    let start = path_start(s, true);
    assert(start.prefix == 2 && !start.root);
    assert(!start.here) by {
        if start.here {
            if name.len() == 1 {
                assert(name =~= seq!['.']);
            } else {
                assert(s[3] == name[1]);
                assert(name[1] != '/' && name[1] != '\\');
            }
        }
    }
    assert forall|i: int| 2 <= i < s.len() implies !separates(true, false, #[trigger] s[i]) by {
        assert(s[i] == name[i - 2]);
    }
    lemma_single_part(s, 2, true);
}

proof fn lemma_single_part(s: Seq<char>, body: nat, windows: bool)
    requires
        body < s.len(),
        forall|i: int| body <= i < s.len() ==> !separates(windows, false, #[trigger] s[i]),
        s.skip(body as int) != seq!['.'],
    ensures
        settled_end(s, body, s.len(), windows, false) == s.len(),
        part_start(s, body, s.len(), windows, false) == body,
        settled_end(s, body, body, windows, false) == body,
        s.subrange(body as int, s.len() as int) == s.skip(body as int),
{
    lemma_part_start_is(s, body, s.len(), windows, false, body);
    assert(s.subrange(body as int, s.len() as int) =~= s.skip(body as int));
}

proof fn lemma_part_end_is(s: Seq<char>, from: nat, windows: bool, verbatim: bool, end: nat)
    requires
        from <= end <= s.len(),
        end < s.len() ==> separates(windows, verbatim, s[end as int]),
        forall|i: int| from <= i < end ==> !separates(windows, verbatim, #[trigger] s[i]),
    ensures
        part_end(s, from, windows, verbatim) == end,
    decreases end - from,
{
    if from < end {
        assert(!separates(windows, verbatim, s[from as int]));
        lemma_part_end_is(s, from + 1, windows, verbatim, end);
    }
}

/// A name on a share of a Windows network has the share above it; the share itself has nothing
/// above it.
pub proof fn name_on_a_share_has_the_share_above_it(
    server: Seq<char>,
    share: Seq<char>,
    name: Seq<char>,
)
    requires
        server.len() > 0,
        share.len() > 0,
        name.len() > 0,
        server[0] != '?' && server[0] != '.',
        forall|i: int| 0 <= i < server.len() ==> #[trigger] server[i] != '/' && server[i] != '\\',
        forall|i: int| 0 <= i < share.len() ==> #[trigger] share[i] != '/' && share[i] != '\\',
        forall|i: int| 0 <= i < name.len() ==> #[trigger] name[i] != '/' && name[i] != '\\',
        name != seq!['.'],
        name != seq!['.', '.'],
    ensures
        ({
            let above = seq!['\\', '\\'] + server + seq!['\\'] + share + seq!['\\'];
            let split = split_of(above + name, true);
            split.parent == Some(above) && split.name == Some(name)
        }),
{
    let above = seq!['\\', '\\'] + server + seq!['\\'] + share + seq!['\\'];
    let s = above + name;
    let first = 2 + server.len();
    let second = first + 1 + share.len();
    assert(s[0] == '\\' && s[1] == '\\' && s[2] == server[0]);
    assert(s[first as int] == '\\' && s[second as int] == '\\');
    assert forall|i: int| 2 <= i < first implies !separates(true, false, #[trigger] s[i]) by {
        assert(s[i] == server[i - 2]);
    }
    assert forall|i: int| first + 1 <= i < second implies !separates(true, false, #[trigger] s[i]) by {
        assert(s[i] == share[i - first - 1]);
    }
    assert forall|i: int| second + 1 <= i < s.len() implies !separates(
        true,
        false,
        #[trigger] s[i],
    ) by {
        assert(s[i] == name[i - second - 1]);
    }
    lemma_part_end_is(s, 2, true, false, first);
    lemma_part_end_is(s, first + 1, true, false, second);
    assert(prefix_len(s) == second);
    assert(s.skip(second as int + 1) =~= name);
    assert(s.take(second as int + 1) =~= above);
    lemma_single_part(s, second + 1, true);
}

/// No second separator is put below a directory that ends with one, nor one below the empty path or
/// a drive alone.
pub proof fn separator_is_put_where_there_is_none(base: Seq<char>, name: Seq<char>, drive: char)
    requires
        is_letter(drive),
    ensures
        below(Seq::empty(), name, false) == name,
        below(Seq::empty(), name, true) == name,
        below(base.push('/'), name, false) == base.push('/') + name,
        below(seq![drive, ':'], name, true) == seq![drive, ':'] + name,
        below(seq![drive, ':', '\\'], name, true) == seq![drive, ':', '\\'] + name,
{
    assert(Seq::<char>::empty() + name =~= name);
}

proof fn lemma_settled_agrees(
    s: Seq<char>,
    t: Seq<char>,
    body: nat,
    end: nat,
    windows: bool,
    verbatim: bool,
)
    requires
        end <= s.len(),
        end <= t.len(),
        forall|i: int| 0 <= i < end ==> #[trigger] s[i] == t[i],
    ensures
        settled_end(s, body, end, windows, verbatim) == settled_end(
            t,
            body,
            end,
            windows,
            verbatim,
        ),
        settled_end(s, body, end, windows, verbatim) <= end,
    decreases end,
{
    if end > body {
        lemma_part_start_agrees(s, t, body, end, windows, verbatim);
        let start = part_start(s, body, end, windows, verbatim);
        lemma_part_start(s, body, end, windows, verbatim);
        assert(s.subrange(start as int, end as int) =~= t.subrange(start as int, end as int));
        if says_nothing(s.subrange(start as int, end as int), verbatim) {
            lemma_settled_agrees(s, t, body, before_part(body, start), windows, verbatim);
        }
    }
}

proof fn lemma_part_start_agrees(
    s: Seq<char>,
    t: Seq<char>,
    body: nat,
    end: nat,
    windows: bool,
    verbatim: bool,
)
    requires
        end <= s.len(),
        end <= t.len(),
        forall|i: int| 0 <= i < end ==> #[trigger] s[i] == t[i],
    ensures
        part_start(s, body, end, windows, verbatim) == part_start(t, body, end, windows, verbatim),
    decreases end,
{
    if end > body {
        assert(s[end - 1] == t[end - 1]);
        if !separates(windows, verbatim, s[end - 1]) {
            lemma_part_start_agrees(s, t, body, (end - 1) as nat, windows, verbatim);
        }
    }
}

proof fn lemma_split_agrees(s: Seq<char>, t: Seq<char>, end: nat)
    requires
        end <= s.len(),
        end <= t.len(),
        forall|i: int| 0 <= i < end ==> #[trigger] s[i] == t[i],
        path_start(s, false) == path_start(t, false),
        ({
            let body = path_start(s, false).body;
            settled_end(s, body, s.len(), false, false) == settled_end(s, body, end, false, false)
        }),
        ({
            let body = path_start(t, false).body;
            settled_end(t, body, t.len(), false, false) == settled_end(t, body, end, false, false)
        }),
    ensures
        split_of(s, false) == split_of(t, false),
{
    let begin = path_start(s, false);
    let body = begin.body;
    lemma_settled_agrees(s, t, body, end, false, false);
    let last = settled_end(s, body, end, false, false);
    if last > body {
        lemma_part_start_agrees(s, t, body, last, false, false);
        lemma_part_start(s, body, last, false, false);
        let start = part_start(s, body, last, false, false);
        let before = before_part(body, start);
        lemma_settled_agrees(s, t, body, before, false, false);
        let above = settled_end(s, body, before, false, false);
        assert(s.take(above as int) =~= t.take(above as int));
        assert(s.subrange(start as int, last as int) =~= t.subrange(start as int, last as int));
    } else {
        assert(s.take(begin.prefix as int) =~= t.take(begin.prefix as int));
    }
}

/// A separator at the end of a path, or one and a `.`, makes no difference to what the path is made
/// of.
pub proof fn separators_at_the_end_make_no_difference(path: Seq<char>)
    requires
        path.len() > 0,
    ensures
        split_of(path + seq!['/'], false) == split_of(path, false),
        split_of(path + seq!['/', '.'], false) == split_of(path, false),
{
    let n = path.len();
    let s = path + seq!['/'];
    let t = path + seq!['/', '.'];
    assert(s[0] == path[0] && t[0] == path[0]);
    assert(s[n as int] == '/' && t[n as int] == '/' && t[n as int + 1] == '.');
    if n > 1 {
        assert(s[1] == path[1] && t[1] == path[1]);
    }
    let body = path_start(path, false).body;
    assert(path_start(s, false) == path_start(path, false));
    assert(path_start(t, false) == path_start(path, false));
    assert(body <= n);
    assert(s.subrange(n as int + 1, n as int + 1).len() == 0);
    assert(settled_end(s, body, s.len(), false, false) == settled_end(s, body, n, false, false));
    lemma_split_agrees(s, path, n);
    assert(t.subrange(n as int + 1, n as int + 2) =~= seq!['.']);
    lemma_part_start_is(t, body, n + 2, false, false, n + 1);
    assert(settled_end(t, body, t.len(), false, false) == settled_end(t, body, n, false, false));
    lemma_split_agrees(t, path, n);
}

/// Behind a verbatim drive only backslashes separate names, and names are put below a directory with
/// one backslash.
pub proof fn verbatim_paths_are_separated_by_backslashes(
    drive: char,
    directory: Seq<char>,
    name: Seq<char>,
)
    requires
        is_letter(drive),
        directory.len() > 0,
        name.len() > 0,
        forall|i: int| 0 <= i < directory.len() ==> #[trigger] directory[i] != '\\',
        forall|i: int| 0 <= i < name.len() ==> #[trigger] name[i] != '\\',
    ensures
        ({
            let root = seq!['\\', '\\', '?', '\\', drive, ':', '\\'];
            &&& split_of(root + name, true).parent == Some(root)
            &&& split_of(root + name, true).name == if name == seq!['.'] || name == seq!['.', '.'] {
                None
            } else {
                Some(name)
            }
            &&& below(root, name, true) == root + name
            &&& below(root + directory, name, true) == root + directory + seq!['\\'] + name
            &&& below(root + directory + seq!['\\'], name, true) == root + directory + seq!['\\']
                + name
            &&& below(root + seq!['\\'] + directory, name, true) == root + directory + seq!['\\']
                + name
        }),
{
    let root = seq!['\\', '\\', '?', '\\', drive, ':', '\\'];
    let s = root + name;
    assert(s[0] == '\\' && s[1] == '\\' && s[2] == '?' && s[3] == '\\' && s[4] == drive && s[5]
        == ':' && s[6] == '\\');
    assert(prefix_len(s) == 6);
    assert(path_start(s, true).body == 7);
    assert forall|i: int| 7 <= i < s.len() implies !separates(true, true, #[trigger] s[i]) by {
        assert(s[i] == name[i - 7]);
    }
    lemma_part_start_is(s, 7, s.len(), true, true, 7);
    assert(s.subrange(7, s.len() as int) =~= name);
    assert(s.take(7) =~= root);
    assert(prefix_len(root) == 6);
    assert(below(root, name, true) =~= s);
    let base = root + directory;
    lemma_verbatim_base(base, root, directory);
    assert(below(base, name, true) =~= base + seq!['\\'] + name);
    let ended = base + seq!['\\'];
    lemma_verbatim_base(ended, root, directory);
    assert(below(ended, name, true) =~= base + seq!['\\'] + name);
    let doubled = root + seq!['\\'] + directory;
    assert(doubled[0] == '\\' && doubled[1] == '\\' && doubled[2] == '?' && doubled[3] == '\\'
        && doubled[4] == drive && doubled[5] == ':' && doubled[6] == '\\' && doubled[7] == '\\');
    assert(prefix_len(doubled) == 6);
    assert forall|i: int| 8 <= i < doubled.len() implies !separates(
        true,
        true,
        #[trigger] doubled[i],
    ) by {
        assert(doubled[i] == directory[i - 8]);
    }
    lemma_part_end_is(doubled, 7, true, true, 7);
    lemma_part_end_is(doubled, 8, true, true, doubled.len());
    assert(doubled.subrange(8, doubled.len() as int) =~= directory);
    assert(verbatim_parts(doubled, doubled.len() + 1) == Seq::<char>::empty());
    assert(verbatim_parts(doubled, 8) =~= seq!['\\'] + directory);
    assert(verbatim_parts(doubled, 7) == verbatim_parts(doubled, 8));
    assert(below(doubled, name, true) =~= base + seq!['\\'] + name);
}

proof fn lemma_verbatim_base(base: Seq<char>, root: Seq<char>, directory: Seq<char>)
    requires
        root.len() == 7,
        is_letter(root[4]),
        root == seq!['\\', '\\', '?', '\\', root[4], ':', '\\'],
        directory.len() > 0,
        forall|i: int| 0 <= i < directory.len() ==> #[trigger] directory[i] != '\\',
        base == root + directory || base == root + directory + seq!['\\'],
    ensures
        path_start(base, true).verbatim,
        path_start(base, true).prefix == 6,
        path_start(base, true).body == 7,
        verbatim_parts(base, 7) == seq!['\\'] + directory,
        base.take(6) + seq!['\\'] == root,
{
    assert(base[0] == '\\' && base[1] == '\\' && base[2] == '?' && base[3] == '\\' && base[4]
        == root[4] && base[5] == ':' && base[6] == '\\');
    assert(prefix_len(base) == 6);
    let end = 7 + directory.len();
    assert forall|i: int| 7 <= i < end implies !separates(true, true, #[trigger] base[i]) by {
        assert(base[i] == directory[i - 7]);
    }
    if end < base.len() {
        assert(base[end as int] == '\\');
    }
    lemma_part_end_is(base, 7, true, true, end);
    assert(base.subrange(7, end as int) =~= directory);
    assert(verbatim_parts(base, end + 1) == Seq::<char>::empty());
    assert(verbatim_parts(base, 7) =~= seq!['\\'] + directory);
    assert(base.take(6) + seq!['\\'] =~= root);
}

/// A name on a verbatim share has the share above it, and one on a device has the device above it.
pub proof fn name_on_a_verbatim_share_or_a_device_has_it_above(
    server: Seq<char>,
    share: Seq<char>,
    name: Seq<char>,
)
    requires
        server.len() > 0,
        share.len() > 0,
        name.len() > 0,
        forall|i: int| 0 <= i < server.len() ==> #[trigger] server[i] != '/' && server[i] != '\\',
        forall|i: int| 0 <= i < share.len() ==> #[trigger] share[i] != '\\',
        forall|i: int| 0 <= i < name.len() ==> #[trigger] name[i] != '/' && name[i] != '\\',
        name != seq!['.'],
        name != seq!['.', '.'],
    ensures
        ({
            let above = seq!['\\', '\\', '?', '\\', 'U', 'N', 'C', '\\'] + server + seq!['\\']
                + share + seq!['\\'];
            let device = seq!['\\', '\\', '.', '\\'] + server + seq!['\\'];
            &&& split_of(above + name, true).parent == Some(above)
            &&& split_of(above + name, true).name == Some(name)
            &&& split_of(device + name, true).parent == Some(device)
            &&& split_of(device + name, true).name == Some(name)
        }),
{
    let above = seq!['\\', '\\', '?', '\\', 'U', 'N', 'C', '\\'] + server + seq!['\\'] + share
        + seq!['\\'];
    let s = above + name;
    let first = 8 + server.len();
    let second = first + 1 + share.len();
    assert(s[0] == '\\' && s[1] == '\\' && s[2] == '?' && s[3] == '\\' && s[4] == 'U' && s[5] == 'N'
        && s[6] == 'C' && s[7] == '\\');
    assert(s[first as int] == '\\' && s[second as int] == '\\');
    assert forall|i: int| 8 <= i < first implies !separates(true, true, #[trigger] s[i]) by {
        assert(s[i] == server[i - 8]);
    }
    assert forall|i: int| first + 1 <= i < second implies !separates(true, true, #[trigger] s[i]) by {
        assert(s[i] == share[i - first - 1]);
    }
    assert forall|i: int| second + 1 <= i < s.len() implies !separates(true, true, #[trigger] s[i]) by {
        assert(s[i] == name[i - second - 1]);
    }
    lemma_part_end_is(s, 8, true, true, first);
    lemma_part_end_is(s, first + 1, true, true, second);
    assert(prefix_len(s) == second);
    let body = second + 1;
    assert(path_start(s, true).body == body);
    lemma_part_start_is(s, body, s.len(), true, true, body);
    assert(s.subrange(body as int, s.len() as int) =~= name);
    assert(s.take(body as int) =~= above);
    let device = seq!['\\', '\\', '.', '\\'] + server + seq!['\\'];
    let t = device + name;
    let end = 4 + server.len();
    assert(t[0] == '\\' && t[1] == '\\' && t[2] == '.' && t[3] == '\\' && t[end as int] == '\\');
    assert forall|i: int| 4 <= i < end implies !separates(true, false, #[trigger] t[i]) by {
        assert(t[i] == server[i - 4]);
    }
    assert forall|i: int| end + 1 <= i < t.len() implies !separates(true, false, #[trigger] t[i]) by {
        assert(t[i] == name[i - end - 1]);
    }
    lemma_part_end_is(t, 4, true, false, end);
    assert(prefix_len(t) == end);
    assert(path_start(t, true).body == end + 1);
    assert(t.skip(end as int + 1) =~= name);
    assert(t.take(end as int + 1) =~= device);
    lemma_single_part(t, end + 1, true);
}

} // verus!
