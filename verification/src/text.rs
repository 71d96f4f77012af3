//! Text as sequences of characters: the string operations that the repair rules are written in.

use vstd::prelude::*;
use vstd::utf8::{char_is_scalar, encode_scalar, encode_utf8};

verus! {

/// `String::push` appends the given character to the end of the string.
pub assume_specification[ String::push ](text: &mut String, c: char)
    ensures
        final(text)@ == old(text)@.push(c),
;

/// The characters of each string, in order.
pub open spec fn views(texts: Seq<String>) -> Seq<Seq<char>> {
    texts.map_values(|text: String| text@)
}

/// The contents of an optional string.
pub open spec fn opt_view(text: Option<String>) -> Option<Seq<char>> {
    match text {
        Some(text) => Some(text@),
        None => None,
    }
}

/// The characters of Unicode's White_Space property.
pub open spec fn is_white(c: char) -> bool {
    ||| '\u{9}' <= c <= '\u{d}'
    ||| c == '\u{20}'
    ||| c == '\u{85}'
    ||| c == '\u{a0}'
    ||| c == '\u{1680}'
    ||| '\u{2000}' <= c <= '\u{200a}'
    ||| c == '\u{2028}'
    ||| c == '\u{2029}'
    ||| c == '\u{202f}'
    ||| c == '\u{205f}'
    ||| c == '\u{3000}'
}

pub open spec fn trimmed_start(s: Seq<char>) -> Seq<char>
    decreases s.len(),
{
    if s.len() > 0 && is_white(s[0]) {
        trimmed_start(s.drop_first())
    } else {
        s
    }
}

pub open spec fn trimmed_end(s: Seq<char>) -> Seq<char>
    decreases s.len(),
{
    if s.len() > 0 && is_white(s.last()) {
        trimmed_end(s.drop_last())
    } else {
        s
    }
}

/// `s` without its leading and trailing white space.
pub open spec fn trimmed(s: Seq<char>) -> Seq<char> {
    trimmed_end(trimmed_start(s))
}

pub fn is_white_space(c: char) -> (white: bool)
    ensures
        white == is_white(c),
{
    ('\u{9}' <= c && c <= '\u{d}') || c == '\u{20}' || c == '\u{85}' || c == '\u{a0}' || c
        == '\u{1680}' || ('\u{2000}' <= c && c <= '\u{200a}') || c == '\u{2028}' || c == '\u{2029}'
        || c == '\u{202f}' || c == '\u{205f}' || c == '\u{3000}'
}

/// The characters of `text`.
pub fn chars_of(text: &str) -> (chars: Vec<char>)
    ensures
        chars@ == text@,
{
    let mut chars: Vec<char> = Vec::new();
    for c in it: text.chars()
        invariant
            it.seq() == text@,
            chars@ == text@.take(it.index() as int),
    {
        chars.push(c);
    }
    chars
}

/// The string made of `chars[from..to]`.
pub fn string_of(chars: &Vec<char>, from: usize, to: usize) -> (text: String)
    requires
        from <= to <= chars@.len(),
    ensures
        text@ == chars@.subrange(from as int, to as int),
{
    let mut text = String::new();
    let mut i: usize = from;
    while i < to
        invariant
            from <= i <= to <= chars@.len(),
            text@ == chars@.subrange(from as int, i as int),
        decreases to - i,
    {
        text.push(chars[i]);
        i += 1;
        assert(chars@.subrange(from as int, i as int) =~= chars@.subrange(
            from as int,
            i - 1,
        ).push(chars@[i - 1]));
    }
    text
}

proof fn lemma_trimmed_start(s: Seq<char>, a: int)
    requires
        0 <= a <= s.len(),
        forall|i: int| 0 <= i < a ==> is_white(#[trigger] s[i]),
        a < s.len() ==> !is_white(s[a]),
    ensures
        trimmed_start(s) == s.subrange(a, s.len() as int),
    decreases a,
{
    if a > 0 {
        let rest = s.drop_first();
        assert forall|i: int| 0 <= i < a - 1 implies is_white(#[trigger] rest[i]) by {
            assert(rest[i] == s[i + 1]);
        }
        lemma_trimmed_start(rest, a - 1);
        assert(rest.subrange(a - 1, rest.len() as int) =~= s.subrange(a, s.len() as int));
    } else {
        assert(s.subrange(0, s.len() as int) =~= s);
    }
}

proof fn lemma_trimmed_end(s: Seq<char>, b: int)
    requires
        0 <= b <= s.len(),
        forall|i: int| b <= i < s.len() ==> is_white(#[trigger] s[i]),
        b > 0 ==> !is_white(s[b - 1]),
    ensures
        trimmed_end(s) == s.subrange(0, b),
    decreases s.len() - b,
{
    if b < s.len() {
        let rest = s.drop_last();
        lemma_trimmed_end(rest, b);
        assert(rest.subrange(0, b) =~= s.subrange(0, b));
    } else {
        assert(s.subrange(0, b) =~= s);
    }
}

proof fn lemma_trimmed_start_shape(s: Seq<char>)
    ensures
        trimmed_start(s).len() <= s.len(),
        trimmed_start(s) == s.skip(s.len() - trimmed_start(s).len()),
        trimmed_start(s).len() > 0 ==> !is_white(trimmed_start(s)[0]),
    decreases s.len(),
{
    if s.len() > 0 && is_white(s[0]) {
        lemma_trimmed_start_shape(s.drop_first());
        let n = s.len() - trimmed_start(s).len();
        assert(s.drop_first().skip(n - 1) =~= s.skip(n));
    } else {
        assert(s.skip(0) =~= s);
    }
}

proof fn lemma_trimmed_end_shape(s: Seq<char>)
    ensures
        trimmed_end(s).len() <= s.len(),
        trimmed_end(s) == s.take(trimmed_end(s).len() as int),
        trimmed_end(s).len() > 0 ==> !is_white(trimmed_end(s).last()),
    decreases s.len(),
{
    if s.len() > 0 && is_white(s.last()) {
        lemma_trimmed_end_shape(s.drop_last());
        let n = trimmed_end(s).len() as int;
        assert(s.drop_last().take(n) =~= s.take(n));
    } else {
        assert(s.take(s.len() as int) =~= s);
    }
}

/// What is left after trimming begins and ends with characters other than white space, and is all
/// there was where it is as long.
pub proof fn lemma_trimmed(s: Seq<char>)
    ensures
        trimmed(s).len() <= s.len(),
        trimmed(s).len() == s.len() ==> trimmed(s) == s,
        trimmed(s).len() > 0 ==> !is_white(trimmed(s)[0]) && !is_white(trimmed(s).last()),
        trimmed(trimmed(s)) == trimmed(s),
{
    let t = trimmed_start(s);
    lemma_trimmed_start_shape(s);
    lemma_trimmed_end_shape(t);
    if trimmed(s).len() == s.len() {
        assert(s.skip(0) =~= s);
        assert(t.take(t.len() as int) =~= t);
    }
    if trimmed(s).len() > 0 {
        lemma_trimmed_whole(trimmed(s));
    }
}

/// Text that begins and ends with characters other than white space is left as it is by trimming.
pub proof fn lemma_trimmed_whole(s: Seq<char>)
    requires
        s.len() > 0,
        !is_white(s[0]),
        !is_white(s.last()),
    ensures
        trimmed(s) == s,
{
}

/// Leaves out the leading and trailing white space.
pub fn trim(text: &str) -> (trim: String)
    ensures
        trim@ == trimmed(text@),
{
    let chars = chars_of(text);
    let mut a: usize = 0;
    while a < chars.len() && is_white_space(chars[a])
        invariant
            a <= chars@.len(),
            forall|i: int| 0 <= i < a ==> is_white(#[trigger] chars@[i]),
        decreases chars@.len() - a,
    {
        a += 1;
    }
    let mut b: usize = chars.len();
    while b > a && is_white_space(chars[b - 1])
        invariant
            a <= b <= chars@.len(),
            forall|i: int| b <= i < chars@.len() ==> is_white(#[trigger] chars@[i]),
        decreases b,
    {
        b -= 1;
    }
    proof {
        lemma_trimmed_start(text@, a as int);
        let rest = text@.subrange(a as int, text@.len() as int);
        assert forall|i: int| b - a <= i < rest.len() implies is_white(#[trigger] rest[i]) by {
            assert(rest[i] == text@[a + i]);
        }
        lemma_trimmed_end(rest, b - a);
        assert(rest.subrange(0, b - a) =~= text@.subrange(a as int, b as int));
    }
    string_of(&chars, a, b)
}

/// The position of the first `c` in `s`, or the length of `s` where there is none.
pub open spec fn first_index(s: Seq<char>, c: char) -> nat
    decreases s.len(),
{
    if s.len() == 0 || s[0] == c {
        0
    } else {
        1 + first_index(s.drop_first(), c)
    }
}

pub proof fn lemma_first_index(s: Seq<char>, c: char)
    ensures
        first_index(s, c) <= s.len(),
        first_index(s, c) < s.len() ==> s[first_index(s, c) as int] == c,
        forall|i: int| 0 <= i < first_index(s, c) ==> s[i] != c,
    decreases s.len(),
{
    if s.len() > 0 && s[0] != c {
        let rest = s.drop_first();
        lemma_first_index(rest, c);
        assert forall|i: int| 0 <= i < first_index(s, c) implies s[i] != c by {
            if i > 0 {
                assert(s[i] == rest[i - 1]);
            }
        }
    }
}

pub proof fn lemma_first_index_is(s: Seq<char>, c: char, n: int)
    requires
        0 <= n <= s.len(),
        n < s.len() ==> s[n] == c,
        forall|i: int| 0 <= i < n ==> s[i] != c,
    ensures
        first_index(s, c) == n,
{
    lemma_first_index(s, c);
}

/// `s` without one trailing carriage return.
pub open spec fn without_carriage_return(s: Seq<char>) -> Seq<char> {
    if s.len() > 0 && s.last() == '\r' {
        s.drop_last()
    } else {
        s
    }
}

/// The lines of `s`: each ends at a line feed, which may have one carriage return before it; the
/// last line needs no line feed.
pub open spec fn lines_of(s: Seq<char>) -> Seq<Seq<char>>
    decreases s.len(),
{
    let n = first_index(s, '\n');
    if s.len() == 0 {
        seq![]
    } else if n >= s.len() {
        seq![s]
    } else {
        seq![without_carriage_return(s.take(n as int))] + lines_of(s.skip(n as int + 1))
    }
}

/// Splits `text` into its lines, without their line endings.
pub fn lines(text: &str) -> (lines: Vec<String>)
    ensures
        views(lines@) == lines_of(text@),
{
    let chars = chars_of(text);
    let mut lines: Vec<String> = Vec::new();
    let mut start: usize = 0;
    assert(text@.skip(0) =~= text@);
    assert(views(lines@) =~= Seq::<Seq<char>>::empty());
    while start < chars.len()
        invariant
            start <= chars@.len(),
            chars@ == text@,
            views(lines@) + lines_of(text@.skip(start as int)) == lines_of(text@),
        decreases chars@.len() - start,
    {
        let mut n: usize = start;
        while n < chars.len() && chars[n] != '\n'
            invariant
                start <= n <= chars@.len(),
                forall|i: int| start <= i < n ==> chars@[i] != '\n',
            decreases chars@.len() - n,
        {
            n += 1;
        }
        let ghost rest = text@.skip(start as int);
        proof {
            assert forall|i: int| 0 <= i < n - start implies rest[i] != '\n' by {
                assert(rest[i] == chars@[start + i]);
            }
            lemma_first_index_is(rest, '\n', n - start);
        }
        let ghost before = views(lines@);
        let end: usize = if n < chars.len() && n > start && chars[n - 1] == '\r' {
            n - 1
        } else {
            n
        };
        let line = string_of(&chars, start, end);
        let ghost found = line@;
        lines.push(line);
        proof {
            assert(views(lines@) =~= before.push(found));
            if n < chars@.len() {
                assert(rest.take(n - start) =~= chars@.subrange(start as int, n as int));
                assert(found =~= without_carriage_return(rest.take(n - start)));
                assert(rest.skip(n - start + 1) =~= text@.skip(n + 1));
                assert(before + lines_of(rest) =~= views(lines@) + lines_of(text@.skip(n + 1)));
            } else {
                assert(found =~= rest);
                assert(text@.skip(n as int) =~= Seq::<char>::empty());
                assert(before + lines_of(rest) =~= views(lines@) + lines_of(text@.skip(n as int)));
            }
        }
        start = if n < chars.len() {
            n + 1
        } else {
            n
        };
    }
    assert(text@.skip(start as int) =~= Seq::<char>::empty());
    assert(views(lines@) + lines_of(text@.skip(start as int)) =~= views(lines@));
    lines
}

proof fn lemma_lines_of_two(p: Seq<char>, q: Seq<char>)
    requires
        p.len() > 0,
        p.last() == '\n',
    ensures
        lines_of(p + q) == lines_of(p) + lines_of(q),
    decreases p.len(),
{
    let n = first_index(p, '\n') as int;
    lemma_first_index(p, '\n');
    assert(n < p.len()) by {
        if n == p.len() {
            assert(p[p.len() - 1] != '\n');
        }
    }
    let whole = p + q;
    lemma_first_index_is(whole, '\n', n);
    assert(whole.take(n) =~= p.take(n));
    let rest = p.skip(n + 1);
    assert(whole.skip(n + 1) =~= rest + q);
    let line = without_carriage_return(p.take(n));
    if rest.len() > 0 {
        assert(rest.last() == p.last());
        lemma_lines_of_two(rest, q);
        assert(seq![line] + (lines_of(rest) + lines_of(q)) =~= (seq![line] + lines_of(rest))
            + lines_of(q));
    } else {
        assert(rest + q =~= q);
        assert(lines_of(rest) =~= seq![]);
        assert(seq![line] + lines_of(rest) =~= seq![line]);
    }
}

/// Joined by line feeds and ended by one, lines without line feeds are the lines of the text, but
/// for one carriage return at the end of each.
pub proof fn lemma_lines_of_joined(lines: Seq<Seq<char>>)
    requires
        lines.len() > 0,
        forall|i: int, j: int|
            0 <= i < lines.len() && 0 <= j < lines[i].len() ==> #[trigger] lines[i][j] != '\n',
    ensures
        lines_of(joined(lines, seq!['\n']) + seq!['\n']) == lines.map_values(
            |line: Seq<char>| without_carriage_return(line),
        ),
    decreases lines.len(),
{
    let feed = seq!['\n'];
    let last = lines.last();
    let end = last + feed;
    assert(lines_of(end) =~= seq![without_carriage_return(last)]) by {
        assert forall|j: int| 0 <= j < last.len() implies end[j] != '\n' by {
            assert(lines[lines.len() - 1][j] != '\n');
        }
        lemma_first_index_is(end, '\n', last.len() as int);
        assert(end.take(last.len() as int) =~= last);
        assert(end.skip(last.len() as int + 1) =~= seq![]);
        assert(lines_of(end.skip(last.len() as int + 1)) =~= seq![]);
    }
    let wanted = lines.map_values(|line: Seq<char>| without_carriage_return(line));
    if lines.len() == 1 {
        assert(wanted =~= seq![without_carriage_return(last)]);
    } else {
        let rest = lines.drop_last();
        assert forall|i: int, j: int|
            0 <= i < rest.len() && 0 <= j < rest[i].len() implies #[trigger] rest[i][j] != '\n' by {
            assert(lines[i][j] != '\n');
        }
        lemma_lines_of_joined(rest);
        let p = joined(rest, feed) + feed;
        lemma_lines_of_two(p, end);
        assert(joined(lines, feed) + feed =~= p + end);
        assert(wanted =~= rest.map_values(|line: Seq<char>| without_carriage_return(line))
            + seq![without_carriage_return(last)]);
    }
}

/// No line of a text holds a line feed.
pub proof fn lemma_lines_hold_no_feed(s: Seq<char>)
    ensures
        forall|i: int, j: int|
            0 <= i < lines_of(s).len() && 0 <= j < lines_of(s)[i].len() ==> #[trigger] lines_of(
                s,
            )[i][j] != '\n',
    decreases s.len(),
{
    let n = first_index(s, '\n') as int;
    lemma_first_index(s, '\n');
    if s.len() > 0 && n < s.len() {
        let rest = s.skip(n + 1);
        lemma_lines_hold_no_feed(rest);
        assert forall|i: int, j: int|
            0 <= i < lines_of(s).len() && 0 <= j < lines_of(s)[i].len() implies #[trigger] lines_of(
            s,
        )[i][j] != '\n' by {
            if i == 0 {
                assert(lines_of(s)[0] == without_carriage_return(s.take(n)));
                assert(lines_of(s)[0][j] == s[j]);
            } else {
                assert(lines_of(s)[i] == lines_of(rest)[i - 1]);
                assert(lines_of(rest)[i - 1][j] != '\n');
            }
        }
    }
}

/// One carriage return at the end makes no difference to what trimming leaves.
pub proof fn lemma_trimmed_carriage_return(s: Seq<char>)
    ensures
        trimmed(without_carriage_return(s)) == trimmed(s),
    decreases s.len(),
{
    if s.len() > 0 && s.last() == '\r' {
        if is_white(s[0]) {
            if s.len() > 1 {
                lemma_trimmed_carriage_return(s.drop_first());
                assert(s.drop_last().drop_first() =~= s.drop_first().drop_last());
            } else {
                assert(s.drop_first() =~= s.drop_last());
            }
        } else {
            assert(s.len() > 1);
            assert(s.drop_last()[0] == s[0]);
        }
    }
}

/// Whether the two texts hold the same characters.
pub fn same_text(a: &str, b: &str) -> (same: bool)
    ensures
        same == (a@ == b@),
{
    let left = chars_of(a);
    let right = chars_of(b);
    if left.len() != right.len() {
        return false;
    }
    let mut i: usize = 0;
    while i < left.len()
        invariant
            left@.len() == right@.len(),
            i <= left@.len(),
            left@ == a@,
            right@ == b@,
            forall|j: int| 0 <= j < i ==> left@[j] == right@[j],
        decreases left@.len() - i,
    {
        if left[i] != right[i] {
            return false;
        }
        i += 1;
    }
    assert(left@ =~= right@);
    true
}

/// Whether the two optional texts are equal.
pub fn same_opt(a: &Option<String>, b: &Option<String>) -> (same: bool)
    ensures
        same == (opt_view(*a) == opt_view(*b)),
{
    match (a, b) {
        (Some(a), Some(b)) => same_text(a.as_str(), b.as_str()),
        (None, None) => true,
        _ => false,
    }
}

/// Whether the characters `part` stand in `s` at position `at`.
pub open spec fn stands_at(s: Seq<char>, at: int, part: Seq<char>) -> bool {
    &&& 0 <= at
    &&& at + part.len() <= s.len()
    &&& s.subrange(at, at + part.len()) == part
}

/// Whether `part` stands anywhere in `s`.
pub open spec fn holds_part(s: Seq<char>, part: Seq<char>) -> bool {
    exists|at: int| stands_at(s, at, part)
}

/// Whether `s` begins with `prefix`.
pub open spec fn begins_with(s: Seq<char>, prefix: Seq<char>) -> bool {
    stands_at(s, 0, prefix)
}

/// Whether `s` ends with `suffix`.
pub open spec fn finishes_with(s: Seq<char>, suffix: Seq<char>) -> bool {
    stands_at(s, s.len() - suffix.len(), suffix)
}

fn part_stands_at(chars: &Vec<char>, at: usize, part: &Vec<char>) -> (stands: bool)
    ensures
        stands == stands_at(chars@, at as int, part@),
{
    if at > chars.len() || part.len() > chars.len() - at {
        return false;
    }
    let mut i: usize = 0;
    while i < part.len()
        invariant
            i <= part@.len(),
            at + part@.len() <= chars@.len() <= usize::MAX,
            forall|j: int| 0 <= j < i ==> chars@[at + j] == part@[j],
        decreases part@.len() - i,
    {
        if chars[at + i] != part[i] {
            assert(chars@.subrange(at as int, at + part@.len())[i as int] != part@[i as int]);
            return false;
        }
        i += 1;
    }
    assert(chars@.subrange(at as int, at + part@.len()) =~= part@);
    true
}

/// Whether `text` begins with `prefix`.
pub fn starts_with(text: &str, prefix: &str) -> (yes: bool)
    ensures
        yes == begins_with(text@, prefix@),
{
    part_stands_at(&chars_of(text), 0, &chars_of(prefix))
}

/// Whether `text` ends with `suffix`.
pub fn ends_with(text: &str, suffix: &str) -> (yes: bool)
    ensures
        yes == finishes_with(text@, suffix@),
{
    let chars = chars_of(text);
    let part = chars_of(suffix);
    if part.len() > chars.len() {
        false
    } else {
        part_stands_at(&chars, chars.len() - part.len(), &part)
    }
}

/// Whether `part` stands anywhere in `text`.
pub fn contains(text: &str, part: &str) -> (yes: bool)
    ensures
        yes == holds_part(text@, part@),
{
    let chars = chars_of(text);
    let part_chars = chars_of(part);
    if part_chars.len() > chars.len() {
        return false;
    }
    let last: usize = chars.len() - part_chars.len();
    let mut at: usize = 0;
    loop
        invariant
            at <= last,
            last + part@.len() == text@.len(),
            chars@ == text@,
            part_chars@ == part@,
            forall|k: int| 0 <= k < at ==> !stands_at(text@, k, part@),
        decreases last - at,
    {
        if part_stands_at(&chars, at, &part_chars) {
            return true;
        }
        if at == last {
            return false;
        }
        at += 1;
    }
}

/// What follows `prefix` in `s`, where `s` begins with it.
pub open spec fn after_prefix(s: Seq<char>, prefix: Seq<char>) -> Option<Seq<char>> {
    if begins_with(s, prefix) {
        Some(s.skip(prefix.len() as int))
    } else {
        None
    }
}

/// What follows `prefix` in `text`, where `text` begins with it.
pub fn strip_prefix(text: &str, prefix: &str) -> (rest: Option<String>)
    ensures
        opt_view(rest) == after_prefix(text@, prefix@),
{
    let chars = chars_of(text);
    let part = chars_of(prefix);
    if part_stands_at(&chars, 0, &part) {
        let rest = string_of(&chars, part.len(), chars.len());
        assert(rest@ =~= text@.skip(prefix@.len() as int));
        Some(rest)
    } else {
        None
    }
}

/// What stands before `suffix` in `s`, where `s` ends with it.
pub open spec fn before_suffix(s: Seq<char>, suffix: Seq<char>) -> Option<Seq<char>> {
    if finishes_with(s, suffix) {
        Some(s.take(s.len() - suffix.len()))
    } else {
        None
    }
}

/// What stands before `suffix` in `text`, where `text` ends with it.
pub fn strip_suffix(text: &str, suffix: &str) -> (rest: Option<String>)
    ensures
        opt_view(rest) == before_suffix(text@, suffix@),
{
    let chars = chars_of(text);
    let part = chars_of(suffix);
    if part.len() <= chars.len() && part_stands_at(&chars, chars.len() - part.len(), &part) {
        let rest = string_of(&chars, 0, chars.len() - part.len());
        assert(rest@ =~= text@.take(text@.len() - suffix@.len()));
        Some(rest)
    } else {
        None
    }
}

/// An upper case letter of ASCII in lower case; any other character as it is.
pub open spec fn lowered_char(c: char) -> char {
    if 'A' <= c <= 'Z' {
        (c as u32 + 32) as char
    } else {
        c
    }
}

/// `s` with the letters of ASCII in lower case.
pub open spec fn lowered(s: Seq<char>) -> Seq<char> {
    s.map_values(|c: char| lowered_char(c))
}

/// `text` with the letters of ASCII in lower case.
pub fn to_ascii_lowercase(text: &str) -> (low: String)
    ensures
        low@ == lowered(text@),
{
    let chars = chars_of(text);
    let mut low = String::new();
    let mut i: usize = 0;
    while i < chars.len()
        invariant
            i <= chars@.len(),
            chars@ == text@,
            low@ == lowered(text@).take(i as int),
        decreases chars@.len() - i,
    {
        let c = chars[i];
        if 'A' <= c && c <= 'Z' {
            low.push((c as u8 + 32) as char);
        } else {
            low.push(c);
        }
        i += 1;
        assert(low@ =~= lowered(text@).take(i as int));
    }
    assert(low@ =~= lowered(text@));
    low
}

/// `s` with `to` in place of every `from`.
pub open spec fn replaced(s: Seq<char>, from: char, to: char) -> Seq<char> {
    s.map_values(
        |c: char|
            if c == from {
                to
            } else {
                c
            },
    )
}

/// `parts` one after the other, with `separator` between them.
pub open spec fn joined(parts: Seq<Seq<char>>, separator: Seq<char>) -> Seq<char>
    decreases parts.len(),
{
    if parts.len() == 0 {
        seq![]
    } else if parts.len() == 1 {
        parts[0]
    } else {
        joined(parts.drop_last(), separator) + separator + parts.last()
    }
}

/// Joins `parts`, with `separator` between them.
pub fn join(parts: &Vec<String>, separator: &str) -> (text: String)
    ensures
        text@ == joined(views(parts@), separator@),
{
    let mut text = String::new();
    let mut i: usize = 0;
    while i < parts.len()
        invariant
            i <= parts@.len(),
            text@ == joined(views(parts@).take(i as int), separator@),
        decreases parts@.len() - i,
    {
        if i > 0 {
            text.append(separator);
        }
        text.append(parts[i].as_str());
        i += 1;
        proof {
            let done = views(parts@).take(i as int);
            assert(done.drop_last() =~= views(parts@).take(i - 1));
            assert(done.last() == parts@[i - 1]@);
            if i == 1 {
                assert(text@ =~= done[0]);
            }
        }
    }
    assert(views(parts@).take(i as int) =~= views(parts@));
    text
}

/// The bytes that `c` takes in UTF-8.
pub open spec fn char_bytes(c: char) -> nat {
    if (c as u32) < 0x80 {
        1
    } else if (c as u32) < 0x800 {
        2
    } else if (c as u32) < 0x10000 {
        3
    } else {
        4
    }
}

/// The bytes that `s` takes in UTF-8.
pub open spec fn byte_len(s: Seq<char>) -> nat
    decreases s.len(),
{
    if s.len() == 0 {
        0
    } else {
        byte_len(s.drop_last()) + char_bytes(s.last())
    }
}

pub proof fn lemma_byte_len_bounds(s: Seq<char>)
    ensures
        s.len() <= byte_len(s) <= 4 * s.len(),
    decreases s.len(),
{
    if s.len() > 0 {
        lemma_byte_len_bounds(s.drop_last());
    }
}

pub proof fn lemma_byte_len_take(s: Seq<char>, n: int)
    requires
        0 <= n <= s.len(),
    ensures
        byte_len(s.take(n)) + (s.len() - n) <= byte_len(s),
    decreases s.len() - n,
{
    if n < s.len() {
        lemma_byte_len_take(s.drop_last(), n);
        assert(s.drop_last().take(n) =~= s.take(n));
    } else {
        assert(s.take(n) =~= s);
    }
}

/// The bytes that `chars` takes in UTF-8, or `limit` if that is less.
pub fn byte_len_up_to(chars: &Vec<char>, limit: usize) -> (len: usize)
    ensures
        len == if byte_len(chars@) < limit { byte_len(chars@) } else { limit as nat },
{
    let mut len: usize = 0;
    let mut i: usize = 0;
    assert(chars@.take(0) =~= Seq::<char>::empty());
    while i < chars.len()
        invariant
            i <= chars@.len(),
            len <= limit,
            len == byte_len(chars@.take(i as int)),
        decreases chars@.len() - i,
    {
        let c = chars[i];
        proof {
            assert(chars@.take(i + 1).drop_last() =~= chars@.take(i as int));
            lemma_byte_len_take(chars@, i + 1);
        }
        let width: usize = if (c as u32) < 0x80 {
            1
        } else if (c as u32) < 0x800 {
            2
        } else if (c as u32) < 0x10000 {
            3
        } else {
            4
        };
        if limit - len <= width {
            return limit;
        }
        len += width;
        i += 1;
    }
    assert(chars@.take(i as int) =~= chars@);
    len
}

pub open spec fn is_slash(c: char) -> bool {
    c == '/' || c == '\\'
}

/// The position of the first slash or backslash in `s`, or the length of `s`.
pub open spec fn first_slash(s: Seq<char>) -> nat
    decreases s.len(),
{
    if s.len() == 0 || is_slash(s[0]) {
        0
    } else {
        1 + first_slash(s.drop_first())
    }
}

pub proof fn lemma_first_slash_is(s: Seq<char>, n: int)
    requires
        0 <= n <= s.len(),
        n < s.len() ==> is_slash(s[n]),
        forall|i: int| 0 <= i < n ==> !is_slash(#[trigger] s[i]),
    ensures
        first_slash(s) == n,
    decreases s.len(),
{
    if n > 0 {
        let rest = s.drop_first();
        assert forall|i: int| 0 <= i < n - 1 implies !is_slash(#[trigger] rest[i]) by {
            assert(rest[i] == s[i + 1]);
        }
        assert(!is_slash(s[0]));
        lemma_first_slash_is(rest, n - 1);
    }
}

/// The non-empty pieces of `s` between slashes and backslashes.
pub open spec fn path_parts(s: Seq<char>) -> Seq<Seq<char>>
    decreases s.len(),
{
    let n = first_slash(s);
    let rest = if n < s.len() {
        path_parts(s.skip(n as int + 1))
    } else {
        seq![]
    };
    if n == 0 {
        rest
    } else {
        seq![s.take(n as int)] + rest
    }
}

/// Splits `text` at slashes and backslashes and leaves out the empty pieces.
pub fn split_path(text: &str) -> (parts: Vec<String>)
    ensures
        views(parts@) == path_parts(text@),
{
    let chars = chars_of(text);
    let mut parts: Vec<String> = Vec::new();
    let mut start: usize = 0;
    assert(text@.skip(0) =~= text@);
    assert(views(parts@) + path_parts(text@) =~= path_parts(text@));
    while start < chars.len()
        invariant
            start <= chars@.len(),
            chars@ == text@,
            views(parts@) + path_parts(text@.skip(start as int)) == path_parts(text@),
        decreases chars@.len() - start,
    {
        let mut n: usize = start;
        while n < chars.len() && chars[n] != '/' && chars[n] != '\\'
            invariant
                start <= n <= chars@.len(),
                forall|i: int| start <= i < n ==> !is_slash(#[trigger] chars@[i]),
            decreases chars@.len() - n,
        {
            n += 1;
        }
        let ghost rest = text@.skip(start as int);
        let ghost before = views(parts@);
        proof {
            assert forall|i: int| 0 <= i < n - start implies !is_slash(#[trigger] rest[i]) by {
                assert(rest[i] == chars@[start + i]);
            }
            lemma_first_slash_is(rest, n - start);
            if n < chars@.len() {
                assert(rest.skip(n - start + 1) =~= text@.skip(n + 1));
            } else {
                assert(text@.skip(n as int) =~= Seq::<char>::empty());
            }
        }
        if n > start {
            let part = string_of(&chars, start, n);
            let ghost found = part@;
            parts.push(part);
            proof {
                assert(found =~= rest.take(n - start));
                assert(views(parts@) =~= before.push(found));
                if n < chars@.len() {
                    assert(before + path_parts(rest) =~= views(parts@) + path_parts(
                        text@.skip(n + 1),
                    ));
                } else {
                    assert(before + path_parts(rest) =~= views(parts@) + path_parts(
                        text@.skip(n as int),
                    ));
                }
            }
        }
        start = if n < chars.len() {
            n + 1
        } else {
            n
        };
    }
    assert(text@.skip(start as int) =~= Seq::<char>::empty());
    assert(views(parts@) + path_parts(text@.skip(start as int)) =~= views(parts@));
    parts
}

pub open spec fn is_digit(c: char) -> bool {
    '0' <= c <= '9'
}

pub open spec fn digit_char(d: nat) -> char {
    ('0' as nat + d) as char
}

/// The decimal digits of `n`.
pub open spec fn decimal(n: nat) -> Seq<char>
    decreases n,
{
    if n < 10 {
        seq![digit_char(n)]
    } else {
        decimal(n / 10).push(digit_char(n % 10))
    }
}

/// Writes `n` in decimal.
pub fn decimal_text(n: u64) -> (text: String)
    ensures
        text@ == decimal(n as nat),
    decreases n,
{
    let digit = (48 + (n % 10) as u8) as char;
    if n < 10 {
        let mut text = String::new();
        text.push(digit);
        assert(text@ =~= seq![digit_char(n as nat)]);
        text
    } else {
        let mut text = decimal_text(n / 10);
        text.push(digit);
        text
    }
}

/// `n` in decimal, with a minus sign where it is negative.
pub open spec fn signed_decimal(n: int) -> Seq<char> {
    if n < 0 {
        seq!['-'] + decimal((-n) as nat)
    } else {
        decimal(n as nat)
    }
}

/// Writes `n` in decimal, with a minus sign where it is negative.
pub fn signed_decimal_text(n: i64) -> (text: String)
    ensures
        text@ == signed_decimal(n as int),
{
    if n < 0 {
        let mut text = String::new();
        text.push('-');
        assert(text@ =~= seq!['-']);
        text.append(decimal_text((-(n as i128)) as u64).as_str());
        text
    } else {
        decimal_text(n as u64)
    }
}

pub open spec fn all_digits(s: Seq<char>) -> bool {
    forall|i: int| 0 <= i < s.len() ==> is_digit(#[trigger] s[i])
}

/// The number that the decimal digits `s` stand for.
pub open spec fn digits_value(s: Seq<char>) -> nat
    decreases s.len(),
{
    if s.len() == 0 {
        0
    } else {
        digits_value(s.drop_last()) * 10 + (s.last() as nat - '0' as nat) as nat
    }
}

/// The 64-bit integer that `s` writes in decimal, with an optional sign.
pub open spec fn integer_of(s: Seq<char>) -> Option<i64> {
    let signed = s.len() > 0 && (s[0] == '-' || s[0] == '+');
    let digits = if signed {
        s.skip(1)
    } else {
        s
    };
    let value = if signed && s[0] == '-' {
        -(digits_value(digits) as int)
    } else {
        digits_value(digits) as int
    };
    if digits.len() == 0 || !all_digits(digits) || value < i64::MIN || value > i64::MAX {
        None
    } else {
        Some(value as i64)
    }
}

proof fn lemma_digits_value_take(s: Seq<char>, n: int)
    requires
        0 <= n <= s.len(),
    ensures
        digits_value(s.take(n)) <= digits_value(s),
    decreases s.len() - n,
{
    if n < s.len() {
        lemma_digits_value_take(s.drop_last(), n);
        assert(s.drop_last().take(n) =~= s.take(n));
    } else {
        assert(s.take(n) =~= s);
    }
}

/// Reads a 64-bit integer in decimal, with an optional sign.
pub fn parse_i64(text: &str) -> (value: Option<i64>)
    ensures
        value == integer_of(text@),
{
    let chars = chars_of(text);
    let signed = chars.len() > 0 && (chars[0] == '-' || chars[0] == '+');
    let negative = signed && chars[0] == '-';
    let start: usize = if signed {
        1
    } else {
        0
    };
    let ghost digits = if signed {
        text@.skip(1)
    } else {
        text@
    };
    if start == chars.len() {
        return None;
    }
    let mut value: u64 = 0;
    let mut i: usize = start;
    assert(digits.take(0) =~= Seq::<char>::empty());
    while i < chars.len()
        invariant
            start <= i <= chars@.len(),
            chars@ == text@,
            start == if signed { 1int } else { 0 },
            signed == (text@.len() > 0 && (text@[0] == '-' || text@[0] == '+')),
            digits == if signed { text@.skip(1) } else { text@ },
            value == digits_value(digits.take(i - start)),
            value <= 9223372036854775808,
            forall|j: int| 0 <= j < i - start ==> is_digit(#[trigger] digits[j]),
        decreases chars@.len() - i,
    {
        let c = chars[i];
        assert(c == digits[i - start]);
        if c < '0' || c > '9' {
            return None;
        }
        proof {
            assert(digits.take(i - start + 1).drop_last() =~= digits.take(i - start));
            lemma_digits_value_take(digits, i - start + 1);
        }
        let digit: u64 = (c as u8 - 48) as u64;
        if value > 922337203685477580 || value * 10 + digit > 9223372036854775808 {
            return None;
        }
        value = value * 10 + digit;
        i += 1;
    }
    assert(digits.take(i - start) =~= digits);
    if negative {
        if value == 9223372036854775808 {
            Some(i64::MIN)
        } else {
            Some(-(value as i64))
        }
    } else if value <= 9223372036854775807 {
        Some(value as i64)
    } else {
        None
    }
}

proof fn lemma_trimmed_range(s: Seq<char>) -> (range: (int, int))
    ensures
        0 <= range.0 <= range.1 <= s.len(),
        trimmed(s) == s.subrange(range.0, range.1),
        forall|i: int|
            0 <= i < range.0 || range.1 <= i < s.len() ==> is_white(#[trigger] s[i]),
    decreases s.len(),
{
    if s.len() > 0 && is_white(s[0]) {
        let rest = s.drop_first();
        let (a, b) = lemma_trimmed_range(rest);
        assert forall|i: int| 0 <= i < a + 1 || b + 1 <= i < s.len() implies is_white(
            #[trigger] s[i],
        ) by {
            if i > 0 {
                assert(rest[i - 1] == s[i]);
            }
        }
        assert(rest.subrange(a, b) =~= s.subrange(a + 1, b + 1));
        (a + 1, b + 1)
    } else {
        let b = lemma_trimmed_end_range(s);
        (0, b)
    }
}

proof fn lemma_trimmed_end_range(s: Seq<char>) -> (b: int)
    ensures
        0 <= b <= s.len(),
        trimmed_end(s) == s.subrange(0, b),
        forall|i: int| b <= i < s.len() ==> is_white(#[trigger] s[i]),
    decreases s.len(),
{
    if s.len() > 0 && is_white(s.last()) {
        let rest = s.drop_last();
        let b = lemma_trimmed_end_range(rest);
        assert forall|i: int| b <= i < s.len() implies is_white(#[trigger] s[i]) by {
            if i < rest.len() {
                assert(rest[i] == s[i]);
            }
        }
        assert(rest.subrange(0, b) =~= s.subrange(0, b));
        b
    } else {
        assert(s.subrange(0, s.len() as int) =~= s);
        s.len() as int
    }
}

/// Nothing is left of a text exactly where all of it is white space.
pub proof fn lemma_trimmed_blank(s: Seq<char>)
    ensures
        trimmed(s).len() == 0 <==> forall|i: int| 0 <= i < s.len() ==> is_white(#[trigger] s[i]),
{
    let (a, b) = lemma_trimmed_range(s);
    lemma_trimmed(s);
    if trimmed(s).len() > 0 {
        assert(trimmed(s)[0] == s[a]);
    }
}

/// Trimming drops the white space around a text, however much there is on either side, and nothing
/// of the text.
pub proof fn white_space_around_a_text_is_dropped(
    before: Seq<char>,
    text: Seq<char>,
    after: Seq<char>,
)
    requires
        forall|i: int| 0 <= i < before.len() ==> is_white(#[trigger] before[i]),
        forall|i: int| 0 <= i < after.len() ==> is_white(#[trigger] after[i]),
        text.len() > 0,
        !is_white(text[0]),
        !is_white(text.last()),
    ensures
        trimmed(before + text + after) == text,
{
    let s = before + text + after;
    let a = before.len() as int;
    assert forall|i: int| 0 <= i < a implies is_white(#[trigger] s[i]) by {
        assert(s[i] == before[i]);
    }
    assert(s[a] == text[0]);
    lemma_trimmed_start(s, a);
    let rest = s.subrange(a, s.len() as int);
    assert(rest =~= text + after);
    assert forall|i: int| text.len() <= i < rest.len() implies is_white(#[trigger] rest[i]) by {
        assert(rest[i] == after[i - text.len()]);
    }
    lemma_trimmed_end(rest, text.len() as int);
    assert(rest.subrange(0, text.len() as int) =~= text);
}

/// The pieces of a path on either side of a slash or backslash are those of what stands before it,
/// and of what stands after it. A path without such a character is one piece, or none where it is
/// empty.
pub proof fn slashes_divide_a_path(before: Seq<char>, slash: char, after: Seq<char>)
    requires
        slash == '/' || slash == '\\',
    ensures
        path_parts(before + seq![slash] + after) == path_parts(before) + path_parts(after),
        (forall|i: int| 0 <= i < before.len() ==> #[trigger] before[i] != '/' && before[i] != '\\')
            ==> path_parts(before) == if before.len() == 0 {
            seq![]
        } else {
            seq![before]
        },
    decreases before.len(),
{
    let whole = before + seq![slash] + after;
    let n = first_slash(before) as int;
    lemma_first_slash(before);
    assert forall|i: int| 0 <= i < n implies !is_slash(#[trigger] whole[i]) by {
        assert(whole[i] == before[i]);
    }
    if n < before.len() {
        assert(whole[n] == before[n]);
        lemma_first_slash_is(whole, n);
        let rest = before.skip(n + 1);
        slashes_divide_a_path(rest, slash, after);
        assert(whole.skip(n + 1) =~= rest + seq![slash] + after);
        assert(whole.take(n) =~= before.take(n));
        if n == 0 {
            assert(path_parts(whole) == path_parts(rest) + path_parts(after));
        } else {
            assert(path_parts(whole) =~= seq![before.take(n)] + path_parts(rest) + path_parts(
                after,
            ));
        }
        assert(is_slash(before[n]));
    } else {
        assert(whole[n] == slash);
        lemma_first_slash_is(whole, n);
        assert(whole.skip(n + 1) =~= after);
        assert(whole.take(n) =~= before);
        assert(before.take(n) =~= before);
        assert(path_parts(before) =~= if before.len() == 0 {
            seq![]
        } else {
            seq![before]
        });
        assert(path_parts(whole) =~= path_parts(before) + path_parts(after));
    }
}

proof fn lemma_first_slash(s: Seq<char>)
    ensures
        0 <= first_slash(s) <= s.len(),
        first_slash(s) < s.len() ==> is_slash(s[first_slash(s) as int]),
        forall|i: int| 0 <= i < first_slash(s) ==> !is_slash(#[trigger] s[i]),
    decreases s.len(),
{
    if s.len() > 0 && !is_slash(s[0]) {
        let rest = s.drop_first();
        lemma_first_slash(rest);
        assert forall|i: int| 0 <= i < first_slash(s) implies !is_slash(#[trigger] s[i]) by {
            if i > 0 {
                assert(rest[i - 1] == s[i]);
            }
        }
    }
}

proof fn lemma_decimal_value(n: nat)
    ensures
        all_digits(decimal(n)),
        digits_value(decimal(n)) == n,
        decimal(n).len() > 0,
        decimal(n)[0] != '-' && decimal(n)[0] != '+',
    decreases n,
{
    if n < 10 {
        assert(decimal(n).drop_last() =~= Seq::<char>::empty());
        assert(digits_value(Seq::<char>::empty()) == 0);
    } else {
        lemma_decimal_value(n / 10);
        let rest = decimal(n / 10);
        assert(decimal(n).drop_last() =~= rest);
        assert forall|i: int| 0 <= i < decimal(n).len() implies is_digit(
            #[trigger] decimal(n)[i],
        ) by {
            if i < rest.len() {
                assert(decimal(n)[i] == rest[i]);
            }
        }
        assert(decimal(n)[0] == rest[0]);
    }
}

/// A number in decimal is read as the number that was written, with or without a plus sign.
pub proof fn written_integers_read_back(n: i64)
    ensures
        integer_of(signed_decimal(n as int)) == Some(n),
        n >= 0 ==> integer_of(seq!['+'] + decimal(n as nat)) == Some(n),
{
    if n >= 0 {
        lemma_decimal_value(n as nat);
        assert((seq!['+'] + decimal(n as nat)).skip(1) =~= decimal(n as nat));
    } else {
        let size = (-(n as int)) as nat;
        lemma_decimal_value(size);
        let text = signed_decimal(n as int);
        assert(text[0] == '-');
        assert(text.skip(1) =~= decimal(size));
    }
}

/// In lower case every capital letter of ASCII is the letter that follows it by thirty-two; every
/// other character is as it was.
pub proof fn lowering_changes_capitals_alone(s: Seq<char>, i: int)
    requires
        0 <= i < s.len(),
    ensures
        lowered(s).len() == s.len(),
        'A' <= s[i] <= 'Z' ==> lowered(s)[i] as u32 == s[i] as u32 + 32,
        s[i] < 'A' || s[i] > 'Z' ==> lowered(s)[i] == s[i],
{
}

/// A line feed ends a line, with a carriage return before it where there is one; what follows it has
/// its own lines. A text without line feeds is one line, or none where it is empty.
pub proof fn line_feeds_divide_a_text(line: Seq<char>, rest: Seq<char>)
    requires
        forall|i: int| 0 <= i < line.len() ==> #[trigger] line[i] != '\n',
    ensures
        lines_of(line + seq!['\r', '\n'] + rest) == seq![line] + lines_of(rest),
        line.len() == 0 || line.last() != '\r' ==> lines_of(line + seq!['\n'] + rest) == seq![line]
            + lines_of(rest),
        lines_of(line) == if line.len() == 0 {
            seq![]
        } else {
            seq![line]
        },
{
    let plain = line + seq!['\n'] + rest;
    let n = line.len() as int;
    assert forall|i: int| 0 <= i < n implies #[trigger] plain[i] != '\n' by {
        assert(plain[i] == line[i]);
    }
    lemma_first_index_is(plain, '\n', n);
    assert(plain.take(n) =~= line);
    assert(plain.skip(n + 1) =~= rest);
    let returned = line + seq!['\r', '\n'] + rest;
    assert forall|i: int| 0 <= i < n + 1 implies #[trigger] returned[i] != '\n' by {
        if i < n {
            assert(returned[i] == line[i]);
        }
    }
    lemma_first_index_is(returned, '\n', n + 1);
    assert(returned.take(n + 1) =~= line.push('\r'));
    assert(line.push('\r').drop_last() =~= line);
    assert(returned.skip(n + 2) =~= rest);
    lemma_first_index(line, '\n');
}

/// The bytes that a text is said to take are those of its encoding in UTF-8.
pub proof fn bytes_are_those_of_the_encoding(s: Seq<char>)
    ensures
        byte_len(s) == encode_utf8(s).len(),
    decreases s.len(),
{
    if s.len() > 0 {
        char_is_scalar(s[0]);
        bytes_are_those_of_the_encoding(s.drop_first());
        lemma_byte_len_first(s);
        assert(encode_scalar(s[0] as u32).len() == char_bytes(s[0]));
    }
}

proof fn lemma_byte_len_first(s: Seq<char>)
    requires
        s.len() > 0,
    ensures
        byte_len(s) == char_bytes(s[0]) + byte_len(s.drop_first()),
    decreases s.len(),
{
    if s.len() > 1 {
        lemma_byte_len_first(s.drop_last());
        assert(s.drop_last().drop_first() =~= s.drop_first().drop_last());
        assert(s.drop_first().last() == s.last());
    } else {
        assert(s.drop_first() =~= Seq::<char>::empty());
        assert(s.drop_last() =~= Seq::<char>::empty());
    }
}

/// Only digits, with at most one sign before them, are read as a number.
pub proof fn integers_are_written_in_digits(s: Seq<char>)
    ensures
        integer_of(s) is Some ==> {
            &&& s.len() > 0
            &&& s[0] == '-' || s[0] == '+' || '0' <= s[0] <= '9'
            &&& s[0] == '-' || s[0] == '+' ==> s.len() > 1
            &&& forall|i: int| 0 < i < s.len() ==> '0' <= #[trigger] s[i] <= '9'
        },
{
    if integer_of(s) is Some {
        let signed = s[0] == '-' || s[0] == '+';
        assert forall|i: int| 0 < i < s.len() implies '0' <= #[trigger] s[i] <= '9' by {
            if signed {
                assert(is_digit(s.skip(1)[i - 1]));
            } else {
                assert(is_digit(s[i]));
            }
        }
        if !signed {
            assert(is_digit(s[0]));
        }
    }
}

} // verus!
