//! The first line of a rollout file, as bytes: where it ends, what it says, and how another one
//! takes its place.

use vstd::prelude::*;
use vstd::utf8::{
    decode_utf8, decode_utf8_encode_utf8, encode_scalar, encode_utf8, encode_utf8_decode_utf8,
    encode_utf8_valid_utf8, has_width_1_encoding, leading_byte_width_1,
    partial_valid_partial_invalid_utf8, valid_utf8, valid_utf8_concat,
};

use crate::sqlite::{format_sqlite_read_error, lemma_located, located};
use crate::text::{
    finishes_with, first_index, lemma_first_index, lemma_first_index_is, lines_of, same_text,
    without_carriage_return,
};

verus! {

/// The position of the first line feed in `bytes`, or their number.
pub open spec fn first_feed(bytes: Seq<u8>) -> nat
    decreases bytes.len(),
{
    if bytes.len() == 0 || bytes[0] == 10 {
        0
    } else {
        1 + first_feed(bytes.drop_first())
    }
}

proof fn lemma_first_feed(bytes: Seq<u8>)
    ensures
        first_feed(bytes) <= bytes.len(),
        first_feed(bytes) < bytes.len() ==> bytes[first_feed(bytes) as int] == 10,
        forall|i: int| 0 <= i < first_feed(bytes) ==> bytes[i] != 10,
    decreases bytes.len(),
{
    if bytes.len() > 0 && bytes[0] != 10 {
        let rest = bytes.drop_first();
        lemma_first_feed(rest);
        assert forall|i: int| 0 <= i < first_feed(bytes) implies bytes[i] != 10 by {
            if i > 0 {
                assert(rest[i - 1] == bytes[i]);
            }
        }
    }
}

/// The bytes that end the first line: a line feed, with a carriage return before it where there is
/// one; nothing where the line ends with the file.
pub open spec fn line_end(bytes: Seq<u8>) -> Seq<u8> {
    let n = first_feed(bytes) as int;
    if n == bytes.len() {
        seq![]
    } else if n > 0 && bytes[n - 1] == 13 {
        seq![13, 10]
    } else {
        seq![10]
    }
}

/// The bytes of the first line, without those that end it.
pub open spec fn line_bytes(bytes: Seq<u8>) -> Seq<u8> {
    let n = first_feed(bytes) as int;
    if n < bytes.len() && n > 0 && bytes[n - 1] == 13 {
        bytes.take(n - 1)
    } else {
        bytes.take(n)
    }
}

/// The bytes after the first line and what ends it.
pub open spec fn rest_bytes(bytes: Seq<u8>) -> Seq<u8> {
    let n = first_feed(bytes) as int;
    if n < bytes.len() {
        bytes.skip(n + 1)
    } else {
        seq![]
    }
}

/// The first line, what ends it and the rest are the whole file.
pub proof fn first_line_splits_the_file(bytes: Seq<u8>)
    ensures
        line_bytes(bytes) + line_end(bytes) + rest_bytes(bytes) == bytes,
{
    lemma_first_feed(bytes);
    assert(line_bytes(bytes) + line_end(bytes) + rest_bytes(bytes) =~= bytes);
}

/// Where the rest of a file begins after its first line, and the characters that end that line.
pub fn detect_first_line_boundary(bytes: &Vec<u8>) -> (boundary: (usize, &'static str))
    ensures
        boundary.0 == line_bytes(bytes@).len() + line_end(bytes@).len(),
        boundary.0 <= bytes@.len(),
        boundary.1@ == decode_utf8(line_end(bytes@)),
        encode_utf8(boundary.1@) == line_end(bytes@),
        boundary.1@.len() == line_end(bytes@).len(),
{
    proof {
        lemma_separators();
        lemma_first_feed(bytes@);
    }
    let mut i: usize = 0;
    while i < bytes.len()
        invariant
            i <= bytes@.len(),
            i <= first_feed(bytes@) <= bytes@.len(),
            first_feed(bytes@) < bytes@.len() ==> bytes@[first_feed(bytes@) as int] == 10,
            forall|j: int| 0 <= j < first_feed(bytes@) ==> bytes@[j] != 10,
            encode_utf8("\r\n"@) == seq![13u8, 10u8],
            encode_utf8("\n"@) == seq![10u8],
            decode_utf8(seq![13u8, 10u8]) == "\r\n"@,
            decode_utf8(seq![10u8]) == "\n"@,
            "\r\n"@.len() == 2,
            "\n"@.len() == 1,
        decreases bytes@.len() - i,
    {
        if bytes[i] == 10 {
            assert(first_feed(bytes@) == i);
            if i > 0 && bytes[i - 1] == 13 {
                return (i + 1, "\r\n");
            }
            return (i + 1, "\n");
        }
        i += 1;
    }
    (bytes.len(), "")
}

proof fn lemma_separators()
    ensures
        encode_utf8("\r\n"@) == seq![13u8, 10u8],
        encode_utf8("\n"@) == seq![10u8],
        encode_utf8(""@) == Seq::<u8>::empty(),
        decode_utf8(seq![13u8, 10u8]) == "\r\n"@,
        decode_utf8(seq![10u8]) == "\n"@,
        decode_utf8(Seq::<u8>::empty()) == ""@,
        "\r\n"@.len() == 2,
        "\n"@.len() == 1,
        ""@.len() == 0,
{
    reveal_strlit("\r\n");
    reveal_strlit("\n");
    reveal_strlit("");
    assert("\r\n"@ =~= seq!['\r', '\n']);
    assert("\n"@ =~= seq!['\n']);
    assert(""@ =~= seq![]);
    reveal_with_fuel(encode_utf8, 3);
    assert(seq!['\r', '\n'].drop_first() =~= seq!['\n']);
    assert(seq!['\n'].drop_first() =~= seq![]);
    lemma_ascii(13);
    lemma_ascii(10);
    assert(encode_scalar(13) =~= seq![13u8]);
    assert(encode_scalar(10) =~= seq![10u8]);
    assert(encode_utf8("\n"@) =~= seq![10u8]);
    assert(encode_utf8("\r\n"@) =~= seq![13u8, 10u8]);
    assert(encode_utf8(""@) =~= Seq::<u8>::empty());
    encode_utf8_decode_utf8("\r\n"@);
    encode_utf8_decode_utf8("\n"@);
    encode_utf8_decode_utf8(""@);
}

proof fn lemma_ascii(c: u32)
    requires
        c < 0x80,
    ensures
        has_width_1_encoding(c),
        leading_byte_width_1(c) == c,
{
    assert((c & 0x7F) as u8 == c) by (bit_vector)
        requires
            c < 0x80,
    ;
}

/// The words with which the standard library says that bytes are no UTF-8.
pub uninterp spec fn utf8_error(bytes: Seq<u8>) -> Seq<char>;

/// `String::from_utf8` takes exactly the bytes that are UTF-8 and gives the characters that they
/// encode. What its error says depends on the bytes alone.
#[verifier::external_body]
fn text_from_utf8(bytes: Vec<u8>) -> (text: Result<String, String>)
    ensures
        match text {
            Ok(text) => valid_utf8(bytes@) && text@ == decode_utf8(bytes@),
            Err(error) => !valid_utf8(bytes@) && error@ == utf8_error(bytes@),
        },
{
    String::from_utf8(bytes).map_err(|error| error.to_string())
}

/// The first line of a file and the characters that end it; nothing for an empty file. A line that
/// is no UTF-8 is an error.
pub open spec fn first_line(path: Seq<char>, bytes: Seq<u8>) -> Result<
    Option<(Seq<char>, Seq<char>)>,
    Seq<char>,
> {
    if bytes.len() == 0 {
        Ok(None)
    } else if valid_utf8(line_bytes(bytes)) {
        Ok(Some((decode_utf8(line_bytes(bytes)), decode_utf8(line_end(bytes)))))
    } else {
        Err(located("解析 rollout 首行 UTF-8 失败"@, path, utf8_error(line_bytes(bytes))))
    }
}

/// The first line in the bytes of the file at `path`, and the characters that end it.
pub fn read_first_line(path: &str, bytes: &Vec<u8>) -> (line: Result<
    Option<(String, String)>,
    String,
>)
    ensures
        match first_line(path@, bytes@) {
            Ok(Some((text, end))) => line matches Ok(Some(line)) && line.0@ == text && line.1@
                == end,
            Ok(None) => line matches Ok(None),
            Err(text) => line matches Err(error) && error@ == text,
        },
{
    if bytes.len() == 0 {
        return Ok(None);
    }
    let (offset, separator) = detect_first_line_boundary(bytes);
    proof {
        lemma_separators();
        lemma_first_feed(bytes@);
    }
    let ends: usize = if separator.is_empty() {
        0
    } else if same_text(separator, "\n") {
        1
    } else {
        2
    };
    assert(ends == line_end(bytes@).len());
    let mut line: Vec<u8> = Vec::new();
    let mut i: usize = 0;
    while i < offset - ends
        invariant
            i <= offset - ends,
            ends <= offset <= bytes@.len(),
            offset - ends == line_bytes(bytes@).len(),
            line_bytes(bytes@) == bytes@.take(line_bytes(bytes@).len() as int),
            line@ == bytes@.take(i as int),
        decreases offset - ends - i,
    {
        line.push(bytes[i]);
        i += 1;
        assert(line@ =~= bytes@.take(i as int));
    }
    match text_from_utf8(line) {
        Ok(text) => Ok(Some((text, separator.to_owned()))),
        Err(error) => Err(
            format_sqlite_read_error(path, "解析 rollout 首行 UTF-8 失败", error.as_str()),
        ),
    }
}

/// The bytes of a file with `line` in place of its first line.
pub open spec fn with_first_line(bytes: Seq<u8>, line: Seq<char>) -> Seq<u8> {
    encode_utf8(line) + line_end(bytes) + rest_bytes(bytes)
}

/// The bytes of a rollout file with another first line. Nothing else changes.
pub fn rewrite_rollout_provider(bytes: &Vec<u8>, updated_first_line: &str) -> (next: Vec<u8>)
    ensures
        next@ == with_first_line(bytes@, updated_first_line@),
{
    let (offset, separator) = detect_first_line_boundary(bytes);
    let mut next: Vec<u8> = Vec::new();
    next.extend_from_slice(updated_first_line.as_bytes());
    assert(next@ =~= encode_utf8(updated_first_line@));
    next.extend_from_slice(separator.as_bytes());
    assert(next@ =~= encode_utf8(updated_first_line@) + line_end(bytes@));
    let ghost start = next@;
    let mut i: usize = offset;
    while i < bytes.len()
        invariant
            offset <= i <= bytes@.len(),
            next@ == start + bytes@.subrange(offset as int, i as int),
        decreases bytes@.len() - i,
    {
        next.push(bytes[i]);
        i += 1;
        assert(next@ =~= start + bytes@.subrange(offset as int, i as int));
    }
    proof {
        lemma_first_feed(bytes@);
        assert(bytes@.subrange(offset as int, i as int) =~= rest_bytes(bytes@));
    }
    next
}

proof fn lemma_no_feed_byte(c: char)
    requires
        c != '\n',
    ensures
        forall|i: int|
            0 <= i < encode_scalar(c as u32).len() ==> #[trigger] encode_scalar(c as u32)[i] != 10,
        c != '\r' ==> encode_scalar(c as u32).last() != 13,
        encode_scalar(c as u32).len() > 0,
{
    let v = c as u32;
    assert(v != 10);
    assert(has_width_1_encoding(v) ==> leading_byte_width_1(v) == v) by {
        if has_width_1_encoding(v) {
            lemma_ascii(v);
        }
    }
    assert(0xC0u8 | ((v >> 6) & 0x1F) as u8 >= 0x80) by (bit_vector);
    assert(0xE0u8 | ((v >> 12) & 0x0F) as u8 >= 0x80) by (bit_vector);
    assert(0xF0u8 | ((v >> 18) & 0x7) as u8 >= 0x80) by (bit_vector);
    assert(0x80u8 | (v & 0x3F) as u8 >= 0x80) by (bit_vector);
    assert(0x80u8 | ((v >> 6) & 0x3F) as u8 >= 0x80) by (bit_vector);
    assert(0x80u8 | ((v >> 12) & 0x3F) as u8 >= 0x80) by (bit_vector);
}

proof fn lemma_encoded_line(line: Seq<char>)
    requires
        forall|i: int| 0 <= i < line.len() ==> line[i] != '\n',
    ensures
        forall|i: int| 0 <= i < encode_utf8(line).len() ==> encode_utf8(line)[i] != 10,
        line.len() > 0 ==> encode_utf8(line).len() > 0,
        line.len() > 0 && line.last() != '\r' ==> encode_utf8(line).last() != 13,
    decreases line.len(),
{
    if line.len() > 0 {
        let rest = line.drop_first();
        assert forall|i: int| 0 <= i < rest.len() implies rest[i] != '\n' by {
            assert(rest[i] == line[i + 1]);
        }
        lemma_encoded_line(rest);
        lemma_no_feed_byte(line[0]);
        let head = encode_scalar(line[0] as u32);
        let tail = encode_utf8(rest);
        assert(encode_utf8(line) == head + tail);
        if rest.len() == 0 {
            assert(tail =~= seq![]);
            assert(encode_utf8(line) =~= head);
        } else {
            assert(rest.last() == line.last());
            assert(encode_utf8(line).last() == tail.last());
        }
    }
}

proof fn lemma_first_feed_is(bytes: Seq<u8>, n: int)
    requires
        0 <= n <= bytes.len(),
        n < bytes.len() ==> bytes[n] == 10,
        forall|i: int| 0 <= i < n ==> bytes[i] != 10,
    ensures
        first_feed(bytes) == n,
{
    lemma_first_feed(bytes);
}

/// Another first line, put in place of the first line of a file, is the first line of what results,
/// ended as the first line was; and the rest of the file is the rest of what results. The line has
/// to be one: not empty, without line feeds, and not ending with a carriage return.
pub proof fn rewritten_file_has_the_new_first_line(
    path: Seq<char>,
    bytes: Seq<u8>,
    line: Seq<char>,
)
    requires
        line.len() > 0,
        line.last() != '\r',
        forall|i: int| 0 <= i < line.len() ==> line[i] != '\n',
    ensures
        first_line(path, with_first_line(bytes, line)) == Ok::<
            Option<(Seq<char>, Seq<char>)>,
            Seq<char>,
        >(Some((line, decode_utf8(line_end(bytes))))),
        rest_bytes(with_first_line(bytes, line)) == rest_bytes(bytes),
{
    lemma_encoded_line(line);
    lemma_first_feed(bytes);
    encode_utf8_valid_utf8(line);
    encode_utf8_decode_utf8(line);
    let head = encode_utf8(line);
    let end = line_end(bytes);
    let next = with_first_line(bytes, line);
    let n = head.len() + end.len() - if end.len() == 0 {
        0int
    } else {
        1int
    };
    assert(next.take(head.len() as int) =~= head);
    assert forall|i: int| 0 <= i < n implies next[i] != 10 by {
        if i < head.len() {
            assert(next[i] == head[i]);
        } else {
            assert(next[i] == end[i - head.len()]);
        }
    }
    if end.len() > 0 {
        assert(next[n] == end[end.len() - 1]);
    } else {
        assert(rest_bytes(bytes) =~= seq![]);
        assert(next.len() == n);
    }
    lemma_first_feed_is(next, n);
    assert(next[head.len() - 1] == head.last());
    assert(line_bytes(next) =~= head);
    assert(line_end(next) =~= end);
    assert(rest_bytes(next) =~= rest_bytes(bytes));
}

/// How many characters the first line of a text has.
pub open spec fn first_line_len(text: Seq<char>) -> int {
    let n = first_index(text, '\n') as int;
    if 0 < n < text.len() && text[n - 1] == '\r' {
        n - 1
    } else {
        n
    }
}

/// The text with `line` in place of its first line.
pub open spec fn text_with_first_line(text: Seq<char>, line: Seq<char>) -> Seq<char> {
    line + text.skip(first_line_len(text))
}

proof fn lemma_encode_concat(a: Seq<char>, b: Seq<char>)
    ensures
        encode_utf8(a + b) == encode_utf8(a) + encode_utf8(b),
    decreases a.len(),
{
    if a.len() == 0 {
        assert(a + b =~= b);
        assert(encode_utf8(a) =~= seq![]);
        assert(encode_utf8(a) + encode_utf8(b) =~= encode_utf8(b));
    } else {
        lemma_encode_concat(a.drop_first(), b);
        assert((a + b).drop_first() =~= a.drop_first() + b);
        assert((a + b)[0] == a[0]);
        let head = encode_scalar(a[0] as u32);
        assert(encode_utf8(a) == head + encode_utf8(a.drop_first()));
        assert(encode_utf8(a + b) == head + encode_utf8(a.drop_first() + b));
        assert(head + (encode_utf8(a.drop_first()) + encode_utf8(b)) =~= head + encode_utf8(
            a.drop_first(),
        ) + encode_utf8(b));
    }
}

/// Putting another first line in place is the same for a text as for its bytes.
pub proof fn first_line_changes_in_text_as_in_bytes(text: Seq<char>, line: Seq<char>)
    ensures
        encode_utf8(text_with_first_line(text, line)) == with_first_line(encode_utf8(text), line),
{
    lemma_separators();
    lemma_first_index(text, '\n');
    reveal_strlit("\r\n");
    reveal_strlit("\n");
    let k = first_line_len(text);
    let n = first_index(text, '\n') as int;
    let head = text.take(k);
    let bytes = encode_utf8(text);
    assert(text =~= head + text.skip(k));
    lemma_encode_concat(head, text.skip(k));
    lemma_encode_concat(line, text.skip(k));
    lemma_encoded_line(head);
    let start = encode_utf8(head);
    let end = encode_utf8(text.skip(k));
    assert(bytes == start + end);
    if n < text.len() {
        let rest = text.skip(n + 1);
        let separator = text.subrange(k, n + 1);
        assert(text.skip(k) =~= separator + rest);
        lemma_encode_concat(separator, rest);
        if k < n {
            assert(separator =~= "\r\n"@);
        } else {
            assert(separator =~= "\n"@);
            if k > 0 {
                assert(head.last() == text[n - 1]);
            }
        }
        let mark = encode_utf8(separator);
        let feed = start.len() + mark.len() - 1;
        assert(end == mark + encode_utf8(rest));
        assert forall|i: int| 0 <= i < feed implies bytes[i] != 10 by {
            if i < start.len() {
                assert(bytes[i] == start[i]);
            } else {
                assert(bytes[i] == mark[i - start.len()]);
            }
        }
        assert(bytes[feed] == mark[mark.len() - 1]);
        lemma_first_feed_is(bytes, feed);
        if k == n && feed > 0 {
            assert(bytes[feed - 1] == start.last());
            assert(line_end(bytes) =~= mark);
        } else {
            assert(line_end(bytes) =~= mark);
        }
        assert(rest_bytes(bytes) =~= encode_utf8(rest));
        assert(encode_utf8(line) + (mark + encode_utf8(rest)) =~= encode_utf8(line) + mark
            + encode_utf8(rest));
    } else {
        assert(text.skip(k) =~= seq![]);
        assert(end =~= seq![]);
        assert(bytes =~= start);
        lemma_first_feed_is(bytes, bytes.len() as int);
        assert(with_first_line(bytes, line) =~= encode_utf8(line) + end);
    }
}

/// Another first line, put in place of the first line of a text, is the first of its lines; the
/// other lines are as they were.
pub proof fn lines_follow_the_first_line(text: Seq<char>, line: Seq<char>)
    requires
        text.len() > 0,
        line.len() > 0,
        line.last() != '\r',
        forall|i: int| 0 <= i < line.len() ==> line[i] != '\n',
    ensures
        lines_of(text).len() > 0,
        lines_of(text_with_first_line(text, line)) == lines_of(text).update(0, line),
{
    lemma_first_index(text, '\n');
    let k = first_line_len(text);
    let n = first_index(text, '\n') as int;
    let next = text_with_first_line(text, line);
    let at = line.len() + (n - k);
    assert forall|i: int| 0 <= i < at implies next[i] != '\n' by {
        if i < line.len() {
            assert(next[i] == line[i]);
        } else {
            assert(next[i] == text[k + i - line.len()]);
        }
    }
    if n < text.len() {
        assert(next[at] == text[n]);
        lemma_first_index_is(next, '\n', at);
        assert(next.skip(at + 1) =~= text.skip(n + 1));
        if k < n {
            assert(next[at - 1] == text[n - 1]);
            assert(next.take(at).drop_last() =~= line);
        } else {
            assert(next.take(at) =~= line);
        }
        assert(without_carriage_return(next.take(at)) =~= line);
        assert(lines_of(next) =~= seq![line] + lines_of(text.skip(n + 1)));
    } else {
        assert(next =~= line);
        lemma_first_index_is(next, '\n', at);
        assert(lines_of(next) =~= seq![line]);
    }
    assert(lines_of(next) =~= lines_of(text).update(0, line));
}

/// What a file holds, where it is text.
pub open spec fn content_of(bytes: Seq<u8>) -> Option<Seq<char>> {
    if valid_utf8(bytes) {
        Some(decode_utf8(bytes))
    } else {
        None
    }
}

/// Whether `head` is the beginning of a file with these bytes: up to its first line feed at least,
/// or all of it.
pub open spec fn is_head_of(head: Seq<u8>, bytes: Seq<u8>) -> bool {
    &&& head.len() <= bytes.len()
    &&& head == bytes.take(head.len() as int)
    &&& head.len() < bytes.len() ==> first_feed(head) < head.len()
}

/// The beginning of a file has the first line of the file.
pub proof fn head_has_the_first_line(path: Seq<char>, head: Seq<u8>, bytes: Seq<u8>)
    requires
        is_head_of(head, bytes),
    ensures
        line_bytes(head) == line_bytes(bytes),
        first_line(path, head) == first_line(path, bytes),
{
    if head.len() < bytes.len() {
        lemma_first_feed(head);
        let n = first_feed(head) as int;
        assert forall|i: int| 0 <= i < n implies bytes[i] != 10 by {
            assert(head[i] == bytes[i]);
        }
        assert(bytes[n] == head[n]);
        lemma_first_feed_is(bytes, n);
        if n > 0 {
            assert(bytes[n - 1] == head[n - 1]);
        }
        assert(line_bytes(head) =~= line_bytes(bytes));
        assert(line_end(head) =~= line_end(bytes));
    } else {
        assert(head =~= bytes);
    }
}

/// The first line of a text is the first line of its bytes.
pub proof fn first_line_of_a_text(text: Seq<char>)
    requires
        text.len() > 0,
    ensures
        lines_of(text).len() > 0,
        line_bytes(encode_utf8(text)) == encode_utf8(lines_of(text)[0]),
        decode_utf8(line_bytes(encode_utf8(text))) == lines_of(text)[0],
{
    let k = first_line_len(text);
    let bytes = encode_utf8(text);
    lemma_first_index(text, '\n');
    let head = text.take(k);
    let tail = text.skip(k);
    assert(text =~= head + tail);
    lemma_encode_concat(head, tail);
    first_line_changes_in_text_as_in_bytes(text, seq![]);
    assert(text_with_first_line(text, seq![]) =~= tail);
    assert(encode_utf8(Seq::<char>::empty()) =~= seq![]);
    assert(with_first_line(bytes, seq![]) =~= line_end(bytes) + rest_bytes(bytes));
    first_line_splits_the_file(bytes);
    let after = line_end(bytes) + rest_bytes(bytes);
    assert(line_bytes(bytes) + after =~= bytes);
    assert(encode_utf8(head) + after =~= bytes);
    assert(line_bytes(bytes) =~= bytes.take(bytes.len() - after.len()));
    assert(encode_utf8(head) =~= bytes.take(bytes.len() - after.len()));
    assert(lines_of(text)[0] =~= head) by {
        let n = first_index(text, '\n') as int;
        if n < text.len() {
            assert(without_carriage_return(text.take(n)) =~= head);
        } else {
            assert(head =~= text);
        }
    }
    encode_utf8_decode_utf8(head);
}

/// A file that gets another first line is text where it was text, and then it is that text with the
/// new line in place of its first.
pub proof fn rewritten_file_is_rewritten_text(bytes: Seq<u8>, line: Seq<char>)
    requires
        valid_utf8(line_bytes(bytes)),
    ensures
        content_of(with_first_line(bytes, line)) == match content_of(bytes) {
            Some(text) => Some(text_with_first_line(text, line)),
            None => None,
        },
{
    let next = with_first_line(bytes, line);
    let after = line_end(bytes) + rest_bytes(bytes);
    encode_utf8_valid_utf8(line);
    if valid_utf8(bytes) {
        let text = decode_utf8(bytes);
        decode_utf8_encode_utf8(bytes);
        first_line_changes_in_text_as_in_bytes(text, line);
        encode_utf8_valid_utf8(text_with_first_line(text, line));
        encode_utf8_decode_utf8(text_with_first_line(text, line));
    } else {
        first_line_splits_the_file(bytes);
        assert(line_bytes(bytes) + after =~= bytes);
        if valid_utf8(after) {
            valid_utf8_concat(line_bytes(bytes), after);
        }
        let n = encode_utf8(line).len() as int;
        assert(next.subrange(0, n) =~= encode_utf8(line));
        assert(next.subrange(n, next.len() as int) =~= after);
        partial_valid_partial_invalid_utf8(next, n);
    }
}

/// The first line of a file is what stands before its first line feed, without a carriage return
/// there; another line takes the place of just that. A file without a line feed is one line.
pub proof fn first_line_ends_at_the_first_feed(line: Seq<u8>, rest: Seq<u8>, new: Seq<char>)
    requires
        forall|i: int| 0 <= i < line.len() ==> #[trigger] line[i] != 10,
    ensures
        line.len() == 0 || line.last() != 13 ==> {
            let file = line + seq![10u8] + rest;
            &&& line_bytes(file) == line
            &&& line_end(file) == seq![10u8]
            &&& rest_bytes(file) == rest
            &&& with_first_line(file, new) == encode_utf8(new) + seq![10u8] + rest
        },
        ({
            let file = line + seq![13u8, 10u8] + rest;
            &&& line_bytes(file) == line
            &&& line_end(file) == seq![13u8, 10u8]
            &&& rest_bytes(file) == rest
            &&& with_first_line(file, new) == encode_utf8(new) + seq![13u8, 10u8] + rest
        }),
        line_bytes(line) == line,
        line_end(line).len() == 0,
        rest_bytes(line).len() == 0,
        with_first_line(line, new) == encode_utf8(new),
{
    let n = line.len() as int;
    let plain = line + seq![10u8] + rest;
    assert forall|i: int| 0 <= i < n implies plain[i] != 10 by {
        assert(plain[i] == line[i]);
    }
    lemma_first_feed_is(plain, n);
    assert(plain.take(n) =~= line);
    assert(plain.skip(n + 1) =~= rest);
    let returned = line + seq![13u8, 10u8] + rest;
    assert forall|i: int| 0 <= i < n + 1 implies returned[i] != 10 by {
        if i < n {
            assert(returned[i] == line[i]);
        }
    }
    lemma_first_feed_is(returned, n + 1);
    assert(returned.take(n) =~= line);
    assert(returned.skip(n + 2) =~= rest);
    lemma_first_feed_is(line, n);
    assert(line.take(n) =~= line);
    assert(with_first_line(line, new) =~= encode_utf8(new));
}

/// A file is read as no line exactly where it is empty, and refused exactly where its first line is
/// no UTF-8; the error ends with the path.
pub proof fn first_line_is_refused_where_it_is_no_text(path: Seq<char>, bytes: Seq<u8>)
    ensures
        match first_line(path, bytes) {
            Ok(None) => bytes.len() == 0,
            Ok(Some((line, end))) => bytes.len() > 0 && valid_utf8(line_bytes(bytes)) && line
                == decode_utf8(line_bytes(bytes)) && end == decode_utf8(line_end(bytes)),
            Err(text) => bytes.len() > 0 && !valid_utf8(line_bytes(bytes)) && finishes_with(
                text,
                " ("@ + path + "): "@ + utf8_error(line_bytes(bytes)),
            ),
        },
{
    lemma_located(path);
}

} // verus!
