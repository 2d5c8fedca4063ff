//! The request line of an HTTP request.

use crate::text;
use vstd::prelude::*;
use vstd::slice::slice_subrange;
use vstd::string::*;
use vstd::utf8::*;

verus! {

/// The first line of a request, without its line feed.
pub open spec fn first_line(request: Seq<u8>) -> Seq<u8> {
    text::before_first(request, 10u8)
}

/// The path that a request line names: its second word, up to a question mark,
/// if that starts with a slash.
pub open spec fn path_of_line(line: Seq<char>) -> Option<Seq<char>> {
    let fields = text::words(line);
    if fields.len() < 2 {
        None
    } else {
        let path = text::before_first(fields[1], '?');
        if path.len() > 0 && path[0] == '/' {
            Some(path)
        } else {
            None
        }
    }
}

/// The path that a request names on its first line, which has to be UTF-8.
pub open spec fn target(request: Seq<u8>) -> Option<Seq<char>> {
    if valid_utf8(first_line(request)) {
        path_of_line(decode_utf8(first_line(request)))
    } else {
        None
    }
}

/// `core::str::from_utf8` of the standard library: bytes that are UTF-8 are
/// handed back as text, which has these very bytes; other bytes are refused.
#[verifier::external_body]
fn utf8_text(bytes: &[u8]) -> (text: Option<&str>)
    ensures
        text is Some <==> valid_utf8(bytes@),
        text matches Some(s) ==> s.spec_bytes() == bytes@,
{
    core::str::from_utf8(bytes).ok()
}

/// The length of the first line, without its line feed.
fn first_line_len(request: &[u8]) -> (len: usize)
    ensures
        len <= request.len(),
        first_line(request@) == request@.take(len as int),
{
    let mut len: usize = 0;
    while len < request.len() && request[len] != 10u8
        invariant
            len <= request.len(),
            forall|i: int| 0 <= i < len ==> request@[i] != 10u8,
        decreases request.len() - len,
    {
        len += 1;
    }
    proof {
        text::lemma_before_first(request@, 10u8, len as int);
    }
    len
}

/// The path that a request line names.
fn line_path(line: &str) -> (path: Option<&str>)
    ensures
        path_of_line(line@) is Some <==> path is Some,
        path matches Some(p) ==> path_of_line(line@) == Some(p@),
{
    let chars = text::chars_of(line);
    let method: usize = text::run_end(&chars, 0, true);
    let method_end: usize = text::run_end(&chars, method, false);
    let start: usize = text::run_end(&chars, method_end, true);
    let end: usize = text::run_end(&chars, start, false);
    proof {
        let s = line@;
        text::lemma_words_skip_white(s, method as int);
        let first = s.skip(method as int);
        text::lemma_first_word(first, method_end - method);
        let between = s.skip(method_end as int);
        assert(first.skip(method_end - method) =~= between);
        text::lemma_words_skip_white(between, start - method_end);
        let second = s.skip(start as int);
        assert(between.skip(start - method_end) =~= second);
        text::lemma_first_word(second, end - start);
        assert(second.take(end - start) =~= s.subrange(start as int, end as int));
        if method < s.len() {
            assert(text::words(s) == seq![text::first_word(first)] + text::words(between));
            if start < s.len() {
                assert(text::words(second) == seq![text::first_word(second)] + text::words(
                    second.skip(text::first_word(second).len() as int),
                ));
            } else {
                assert(second =~= Seq::empty());
            }
        } else {
            assert(first =~= Seq::empty());
        }
    }
    if start == end {
        return None;
    }
    let mut path_end: usize = start;
    while path_end < end && chars[path_end] != '?'
        invariant
            start <= path_end <= end <= chars.len(),
            forall|i: int| start <= i < path_end ==> chars@[i] != '?',
        decreases end - path_end,
    {
        path_end += 1;
    }
    proof {
        let word = line@.subrange(start as int, end as int);
        text::lemma_before_first(word, '?', path_end - start);
        assert(word.take(path_end - start) =~= line@.subrange(start as int, path_end as int));
    }
    if path_end > start && chars[start] == '/' {
        Some(line.substring_char(start, path_end))
    } else {
        None
    }
}

/// The request target from an HTTP request line (`GET /metrics HTTP/1.1`),
/// with any query string stripped. `None` when the bytes are not a request
/// line naming an absolute path.
pub fn request_target(request: &[u8]) -> (path: Option<&str>)
    ensures
        path is Some <==> target(request@) is Some,
        path matches Some(p) ==> target(request@) == Some(p@),
{
    let len: usize = first_line_len(request);
    let line = slice_subrange(request, 0, len);
    proof {
        assert(line@ =~= first_line(request@));
    }
    match utf8_text(line) {
        Some(s) => {
            proof {
                encode_utf8_decode_utf8(s@);
            }
            line_path(s)
        },
        None => None,
    }
}

/// A target that was read is an absolute path without a query string and
/// without white space.
pub proof fn target_is_an_absolute_path(request: Seq<u8>, path: Seq<char>)
    requires
        target(request) == Some(path),
    ensures
        path.len() > 0,
        path[0] == '/',
        !path.contains('?'),
        forall|i: int| 0 <= i < path.len() ==> !text::is_white(#[trigger] path[i]),
{
    let fields = text::words(decode_utf8(first_line(request)));
    text::lemma_words_have_no_white(decode_utf8(first_line(request)));
    text::lemma_before_first_prefix(fields[1], '?');
    assert forall|i: int| 0 <= i < path.len() implies !text::is_white(#[trigger] path[i]) by {
        assert(path[i] == fields[1][i]);
        assert(!text::is_white(fields[1][i]));
    }
}

/// Only the first line counts: what follows its line feed changes nothing.
pub proof fn target_depends_on_the_first_line(line: Seq<u8>, rest: Seq<u8>)
    requires
        !line.contains(10u8),
    ensures
        target(line + seq![10u8] + rest) == target(line),
{
    let request = line + seq![10u8] + rest;
    assert forall|i: int| 0 <= i < line.len() implies request[i] != 10u8 && line[i] != 10u8 by {
        assert(line.contains(line[i]));
    }
    text::lemma_before_first(request, 10u8, line.len() as int);
    text::lemma_before_first(line, 10u8, line.len() as int);
    assert(request.take(line.len() as int) =~= line);
    assert(line.take(line.len() as int) =~= line);
}

/// A line of a method, a space and an absolute path names that path, whatever
/// query string is attached to the path and whatever follows after white space.
pub proof fn line_names_its_path(
    method: Seq<char>,
    path: Seq<char>,
    query: Seq<char>,
    rest: Seq<char>,
)
    requires
        method.len() > 0,
        forall|i: int| 0 <= i < method.len() ==> !text::is_white(#[trigger] method[i]),
        path.len() > 0,
        path[0] == '/',
        !path.contains('?'),
        forall|i: int| 0 <= i < path.len() ==> !text::is_white(#[trigger] path[i]),
        query.len() > 0 ==> query[0] == '?',
        forall|i: int| 0 <= i < query.len() ==> !text::is_white(#[trigger] query[i]),
        rest.len() > 0 ==> text::is_white(rest[0]),
    ensures
        path_of_line(method + seq![' '] + path + query + rest) == Some(path),
{
    let line = method + seq![' '] + path + query + rest;
    let after_method = seq![' '] + path + query + rest;
    let after_space = path + query + rest;
    let field = path + query;
    assert(line.skip(method.len() as int) =~= after_method);
    assert(line.take(method.len() as int) =~= method);
    assert forall|i: int| 0 <= i < method.len() implies !text::is_white(#[trigger] line[i]) by {
        assert(line[i] == method[i]);
    }
    text::lemma_first_word(line, method.len() as int);
    assert(text::words(line) == seq![method] + text::words(after_method));
    assert(after_method.drop_first() =~= after_space);
    assert(after_space.take(field.len() as int) =~= field);
    assert forall|i: int| 0 <= i < field.len() implies !text::is_white(
        #[trigger] after_space[i],
    ) by {
        if i < path.len() {
            assert(after_space[i] == path[i]);
        } else {
            assert(after_space[i] == query[i - path.len()]);
        }
    }
    text::lemma_first_word(after_space, field.len() as int);
    assert(!text::is_white(after_space[0]));
    assert(text::words(after_space)[0] == field);
    assert(text::words(line)[1] == field);
    assert forall|i: int| 0 <= i < path.len() implies field[i] != '?' by {
        assert(path.contains(path[i]));
    }
    text::lemma_before_first(field, '?', path.len() as int);
    assert(field.take(path.len() as int) =~= path);
}

/// The UTF-8 encoding of a text holds a line feed byte only where the text
/// holds a line feed.
proof fn lemma_encoding_without_line_feed(line: Seq<char>)
    requires
        !line.contains('\n'),
    ensures
        !encode_utf8(line).contains(10u8),
    decreases line.len(),
{
    if line.len() > 0 {
        let rest = line.drop_first();
        assert forall|i: int| 0 <= i < rest.len() implies rest[i] != '\n' by {
            assert(line.contains(line[i + 1]));
        }
        lemma_encoding_without_line_feed(rest);
        assert(line.contains(line[0]));
        let scalar = line[0] as u32;
        char_is_scalar(line[0]);
        char_u32_cast(line[0], scalar);
        assert(scalar != 10);
        let head = encode_scalar(scalar);
        assert(!head.contains(10u8)) by {
            if has_width_1_encoding(scalar) {
                assert((scalar & 0x7F) as u8 != 10u8) by (bit_vector)
                    requires
                        0 <= scalar <= 0x7F,
                        scalar != 10,
                ;
            } else {
                assert(forall|b: u8| #[trigger] (0xC0u8 | b) >= 0x80u8) by (bit_vector);
                assert(forall|b: u8| #[trigger] (0xE0u8 | b) >= 0x80u8) by (bit_vector);
                assert(forall|b: u8| #[trigger] (0xF0u8 | b) >= 0x80u8) by (bit_vector);
                assert(forall|b: u8| #[trigger] (0x80u8 | b) >= 0x80u8) by (bit_vector);
            }
        }
        let tail = encode_utf8(rest);
        assert forall|i: int| 0 <= i < (head + tail).len() implies (head + tail)[i] != 10u8 by {
            if i < head.len() {
                assert(head.contains(head[i]));
            } else {
                assert(tail.contains(tail[i - head.len()]));
            }
        }
    }
}

/// A request whose first line is a method, a space and an absolute path has
/// that path as its target: a query string, the rest of the line and the lines
/// after it change nothing.
pub proof fn request_names_its_path(
    method: Seq<char>,
    path: Seq<char>,
    query: Seq<char>,
    rest: Seq<char>,
    lines: Seq<u8>,
)
    requires
        method.len() > 0,
        forall|i: int| 0 <= i < method.len() ==> !text::is_white(#[trigger] method[i]),
        path.len() > 0,
        path[0] == '/',
        !path.contains('?'),
        forall|i: int| 0 <= i < path.len() ==> !text::is_white(#[trigger] path[i]),
        query.len() > 0 ==> query[0] == '?',
        forall|i: int| 0 <= i < query.len() ==> !text::is_white(#[trigger] query[i]),
        rest.len() > 0 ==> text::is_white(rest[0]),
        !rest.contains('\n'),
    ensures
        target(encode_utf8(method + seq![' '] + path + query + rest) + seq![10u8] + lines) == Some(
            path,
        ),
{
    let line = method + seq![' '] + path + query + rest;
    line_names_its_path(method, path, query, rest);
    assert forall|i: int| 0 <= i < line.len() implies line[i] != '\n' by {
        let p = method.len() + 1;
        let q = p + path.len();
        let r = q + query.len();
        if i < method.len() {
            assert(line[i] == method[i] && !text::is_white(method[i]));
        } else if i < p {
        } else if i < q {
            assert(line[i] == path[i - p] && !text::is_white(path[i - p]));
        } else if i < r {
            assert(line[i] == query[i - q] && !text::is_white(query[i - q]));
        } else {
            assert(line[i] == rest[i - r] && rest.contains(rest[i - r]));
        }
    }
    let bytes = encode_utf8(line);
    lemma_encoding_without_line_feed(line);
    target_depends_on_the_first_line(bytes, lines);
    assert forall|i: int| 0 <= i < bytes.len() implies bytes[i] != 10u8 by {
        assert(bytes.contains(bytes[i]));
    }
    text::lemma_before_first(bytes, 10u8, bytes.len() as int);
    assert(bytes.take(bytes.len() as int) =~= bytes);
    encode_utf8_valid_utf8(line);
    encode_utf8_decode_utf8(line);
}

/// Whether a text is nothing but white space.
pub open spec fn is_blank(s: Seq<char>) -> bool {
    forall|i: int| 0 <= i < s.len() ==> text::is_white(#[trigger] s[i])
}

/// Whether a text holds no white space.
pub open spec fn is_solid(s: Seq<char>) -> bool {
    forall|i: int| 0 <= i < s.len() ==> !text::is_white(#[trigger] s[i])
}

/// The words of a text that starts with a word are that word and those of what
/// follows it.
proof fn lemma_words_of_a_word(word: Seq<char>, rest: Seq<char>)
    requires
        word.len() > 0,
        is_solid(word),
        rest.len() > 0 ==> text::is_white(rest[0]),
    ensures
        text::words(word + rest) == seq![word] + text::words(rest),
{
    let s = word + rest;
    assert forall|i: int| 0 <= i < word.len() implies !text::is_white(#[trigger] s[i]) by {
        assert(s[i] == word[i]);
    }
    text::lemma_first_word(s, word.len() as int);
    assert(s.take(word.len() as int) =~= word);
    assert(s.skip(word.len() as int) =~= rest);
    assert(!text::is_white(s[0]));
}

/// White space in front adds no word.
proof fn lemma_words_behind_blanks(blank: Seq<char>, rest: Seq<char>)
    requires
        is_blank(blank),
    ensures
        text::words(blank + rest) == text::words(rest),
{
    let s = blank + rest;
    assert forall|i: int| 0 <= i < blank.len() implies text::is_white(#[trigger] s[i]) by {
        assert(s[i] == blank[i]);
    }
    text::lemma_words_skip_white(s, blank.len() as int);
    assert(s.skip(blank.len() as int) =~= rest);
}

/// A line is read by its second word, however much white space there is around
/// the words: what stands in that word up to a question mark is the path, if it
/// starts with a slash, and there is none otherwise.
pub proof fn line_is_read_by_its_second_word(
    lead: Seq<char>,
    method: Seq<char>,
    gap: Seq<char>,
    path: Seq<char>,
    query: Seq<char>,
    rest: Seq<char>,
)
    requires
        is_blank(lead),
        method.len() > 0,
        is_solid(method),
        gap.len() > 0,
        is_blank(gap),
        path.len() + query.len() > 0,
        is_solid(path),
        is_solid(query),
        !path.contains('?'),
        query.len() > 0 ==> query[0] == '?',
        rest.len() > 0 ==> text::is_white(rest[0]),
    ensures
        path_of_line(lead + (method + (gap + (path + query + rest)))) == if path.len() > 0
            && path[0] == '/' {
            Some(path)
        } else {
            None
        },
{
    let word = path + query;
    assert forall|i: int| 0 <= i < word.len() implies !text::is_white(#[trigger] word[i]) by {
        if i < path.len() {
            assert(word[i] == path[i]);
        } else {
            assert(word[i] == query[i - path.len()]);
        }
    }
    assert(text::is_white(gap[0]));
    lemma_words_behind_blanks(lead, method + (gap + (word + rest)));
    lemma_words_of_a_word(method, gap + (word + rest));
    lemma_words_behind_blanks(gap, word + rest);
    lemma_words_of_a_word(word, rest);
    assert forall|i: int| 0 <= i < path.len() implies word[i] != '?' by {
        assert(path.contains(path[i]));
    }
    text::lemma_before_first(word, '?', path.len() as int);
    assert(word.take(path.len() as int) =~= path);
}

/// A line of fewer than two words names no path.
pub proof fn line_of_one_word_names_no_path(lead: Seq<char>, word: Seq<char>, rest: Seq<char>)
    requires
        is_blank(lead),
        is_solid(word),
        is_blank(rest),
    ensures
        path_of_line(lead + (word + rest)) is None,
{
    lemma_words_behind_blanks(lead, word + rest);
    assert(rest + Seq::<char>::empty() =~= rest);
    lemma_words_behind_blanks(rest, Seq::empty());
    assert(text::words(Seq::<char>::empty()).len() == 0);
    if word.len() > 0 {
        if rest.len() > 0 {
            assert(text::is_white(rest[0]));
        }
        lemma_words_of_a_word(word, rest);
    } else {
        assert(word + rest =~= rest);
    }
}

/// A request is read by its first line, whether or not more lines follow it.
pub proof fn request_is_read_by_its_first_line(line: Seq<char>, lines: Seq<u8>)
    requires
        !line.contains('\n'),
    ensures
        target(encode_utf8(line)) == path_of_line(line),
        target(encode_utf8(line) + seq![10u8] + lines) == path_of_line(line),
{
    let bytes = encode_utf8(line);
    lemma_encoding_without_line_feed(line);
    target_depends_on_the_first_line(bytes, lines);
    assert forall|i: int| 0 <= i < bytes.len() implies bytes[i] != 10u8 by {
        assert(bytes.contains(bytes[i]));
    }
    text::lemma_before_first(bytes, 10u8, bytes.len() as int);
    assert(bytes.take(bytes.len() as int) =~= bytes);
    encode_utf8_valid_utf8(line);
    encode_utf8_decode_utf8(line);
}

/// A request whose first line is not UTF-8 names no path, whatever follows.
pub proof fn request_that_is_not_utf8_names_no_path(line: Seq<u8>, lines: Seq<u8>)
    requires
        !line.contains(10u8),
        !valid_utf8(line),
    ensures
        target(line) is None,
        target(line + seq![10u8] + lines) is None,
{
    target_depends_on_the_first_line(line, lines);
    assert forall|i: int| 0 <= i < line.len() implies line[i] != 10u8 by {
        assert(line.contains(line[i]));
    }
    text::lemma_before_first(line, 10u8, line.len() as int);
    assert(line.take(line.len() as int) =~= line);
}

} // verus!
