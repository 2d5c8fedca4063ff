//! HTTP/1.1 responses.

use crate::text;
use vstd::prelude::*;
use vstd::string::*;
use vstd::utf8::*;

verus! {

/// What the admin server serves for a request path.
pub enum AdminBody {
    /// The Prometheus exposition text.
    Prometheus(String),
    /// A snapshot, encoded as msgpack.
    Msgpack(Vec<u8>),
    /// Nothing is served under the path.
    NotFound,
    /// The body could not be produced.
    ServerError,
}

/// The status line's code and reason.
pub open spec fn status(body: AdminBody) -> Seq<char> {
    match body {
        AdminBody::Prometheus(_) => "200 OK"@,
        AdminBody::Msgpack(_) => "200 OK"@,
        AdminBody::NotFound => "404 Not Found"@,
        AdminBody::ServerError => "500 Internal Server Error"@,
    }
}

/// The media type of a body.
pub open spec fn content_type(body: AdminBody) -> Seq<char> {
    match body {
        AdminBody::Prometheus(_) => "text/plain; version=0.0.4"@,
        AdminBody::Msgpack(_) => "application/msgpack"@,
        AdminBody::NotFound => "text/plain"@,
        AdminBody::ServerError => "text/plain"@,
    }
}

/// The bytes of a body.
pub open spec fn payload(body: AdminBody) -> Seq<u8> {
    match body {
        AdminBody::Prometheus(text) => encode_utf8(text@),
        AdminBody::Msgpack(bytes) => bytes@,
        AdminBody::NotFound => Seq::empty(),
        AdminBody::ServerError => Seq::empty(),
    }
}

/// The status line and the header lines, with the blank line that ends them.
pub open spec fn head(status: Seq<char>, content_type: Seq<char>, length: nat) -> Seq<char> {
    "HTTP/1.1 "@ + status + "\r\nContent-Type: "@ + content_type + "\r\nContent-Length: "@
        + text::decimal(length) + "\r\nConnection: close\r\n\r\n"@
}

/// The head of the response that carries a body.
pub open spec fn response_head(body: AdminBody) -> Seq<char> {
    head(status(body), content_type(body), payload(body).len())
}

/// The response that carries a body.
pub open spec fn response(body: AdminBody) -> Seq<u8> {
    encode_utf8(response_head(body)) + payload(body)
}

/// Whether a line end and an empty line stand at an index.
pub open spec fn blank_line_at(bytes: Seq<u8>, i: int) -> bool {
    &&& 0 <= i <= bytes.len() - 4
    &&& bytes[i] == 13
    &&& bytes[i + 1] == 10
    &&& bytes[i + 2] == 13
    &&& bytes[i + 3] == 10
}

/// Frames a body of a status and a media type.
fn frame(status: &str, content_type: &str, body: &[u8]) -> (bytes: Vec<u8>)
    ensures
        bytes@ == encode_utf8(head(status@, content_type@, body@.len())) + body@,
{
    let mut text = String::new();
    text.append("HTTP/1.1 ");
    text.append(status);
    text.append("\r\nContent-Type: ");
    text.append(content_type);
    text.append("\r\nContent-Length: ");
    text::push_decimal(&mut text, body.len() as u128);
    text.append("\r\nConnection: close\r\n\r\n");
    proof {
        assert(text@ =~= head(status@, content_type@, body@.len()));
    }
    let mut bytes = text.as_str().as_bytes_vec();
    bytes.extend_from_slice(body);
    bytes
}

/// Frame a body as an HTTP/1.1 response. Bytes, not a string: the msgpack body
/// is not UTF-8.
pub fn http_response(body: AdminBody) -> (bytes: Vec<u8>)
    ensures
        bytes@ == response(body),
{
    match body {
        AdminBody::Prometheus(text) => frame(
            "200 OK",
            "text/plain; version=0.0.4",
            text.as_str().as_bytes(),
        ),
        AdminBody::Msgpack(bytes) => frame("200 OK", "application/msgpack", bytes.as_slice()),
        AdminBody::NotFound => frame("404 Not Found", "text/plain", &[]),
        AdminBody::ServerError => frame("500 Internal Server Error", "text/plain", &[]),
    }
}

/// Whether a line end stands at an index, and the start of another behind it.
spec fn breaks_twice_at(chars: Seq<char>, i: int) -> bool {
    chars[i] == '\r' && chars[i + 1] == '\n' && chars[i + 2] == '\r'
}

proof fn lemma_head_lines(body: AdminBody)
    ensures
        is_ascii_chars(status(body)),
        is_ascii_chars(content_type(body)),
        !status(body).contains('\r'),
        !content_type(body).contains('\r'),
{
    reveal_strlit("200 OK");
    reveal_strlit("404 Not Found");
    reveal_strlit("500 Internal Server Error");
    reveal_strlit("text/plain; version=0.0.4");
    reveal_strlit("application/msgpack");
    reveal_strlit("text/plain");
}

proof fn lemma_head_ends_at_its_first_blank_line(
    status: Seq<char>,
    content_type: Seq<char>,
    length: nat,
)
    requires
        is_ascii_chars(status),
        is_ascii_chars(content_type),
        !status.contains('\r'),
        !content_type.contains('\r'),
    ensures
        is_ascii_chars(head(status, content_type, length)),
        blank_line_at(
            encode_utf8(head(status, content_type, length)),
            head(status, content_type, length).len() - 4,
        ),
        forall|i: int|
            0 <= i < head(status, content_type, length).len() - 4 ==> !breaks_twice_at(
                head(status, content_type, length),
                i,
            ),
{
    let chars = head(status, content_type, length);
    let digits = text::decimal(length);
    text::decimal_reads_back(length);
    reveal_strlit("HTTP/1.1 ");
    reveal_strlit("\r\nContent-Type: ");
    reveal_strlit("\r\nContent-Length: ");
    reveal_strlit("\r\nConnection: close\r\n\r\n");
    let a = 9 + status.len();
    let b = a + 16 + content_type.len();
    let c = b + 18 + digits.len();
    assert(chars.len() == c + 23);
    assert forall|i: int| 0 <= i < chars.len() implies '\0' <= #[trigger] chars[i] <= '\u{7f}' by {
        if 9 <= i < a {
            assert(chars[i] == status[i - 9]);
        } else if a + 16 <= i < b {
            assert(chars[i] == content_type[i - a - 16]);
        } else if b + 18 <= i < c {
            assert(chars[i] == digits[i - b - 18]);
        }
    }
    assert forall|i: int| 0 <= i < chars.len() - 4 implies !breaks_twice_at(chars, i) by {
        if 9 <= i < a {
            assert(status.contains(status[i - 9]));
            assert(chars[i] == status[i - 9]);
        } else if a + 16 <= i < b {
            assert(content_type.contains(content_type[i - a - 16]));
            assert(chars[i] == content_type[i - a - 16]);
        } else if b + 18 <= i < c {
            assert(text::is_digit(digits[i - b - 18]));
            assert(chars[i] == digits[i - b - 18]);
        }
    }
    is_ascii_chars_encode_utf8(chars);
    let bytes = encode_utf8(chars);
    let end = chars.len() - 4;
    assert(bytes[end] == chars[end] as u8);
    assert(bytes[end + 1] == chars[end + 1] as u8);
    assert(bytes[end + 2] == chars[end + 2] as u8);
    assert(bytes[end + 3] == chars[end + 3] as u8);
}

/// A response can be taken apart again: its first blank line ends the head,
/// what follows that line is the body, byte for byte, and the digits of
/// `Content-Length` denote the number of these bytes.
pub proof fn response_splits_at_its_first_blank_line(body: AdminBody)
    ensures
        ({
            let bytes = response(body);
            let end = response_head(body).len() - 4;
            &&& blank_line_at(bytes, end)
            &&& forall|i: int| 0 <= i < end ==> !blank_line_at(bytes, i)
            &&& bytes.take(end + 4) == encode_utf8(response_head(body))
            &&& bytes.skip(end + 4) == payload(body)
            &&& text::decimal_value(text::decimal(payload(body).len())) == bytes.skip(
                end + 4,
            ).len()
        }),
{
    let bytes = response(body);
    let chars = response_head(body);
    let end = chars.len() - 4;
    let front = encode_utf8(chars);
    lemma_head_lines(body);
    lemma_head_ends_at_its_first_blank_line(
        status(body),
        content_type(body),
        payload(body).len(),
    );
    is_ascii_chars_encode_utf8(chars);
    assert forall|i: int| 0 <= i < end implies !blank_line_at(bytes, i) by {
        assert(!breaks_twice_at(chars, i));
        assert(bytes[i] == front[i] && front[i] == chars[i] as u8);
        assert(bytes[i + 1] == front[i + 1] && front[i + 1] == chars[i + 1] as u8);
        assert(bytes[i + 2] == front[i + 2] && front[i + 2] == chars[i + 2] as u8);
        assert('\0' <= chars[i] <= '\u{7f}');
        assert('\0' <= chars[i + 1] <= '\u{7f}');
        assert('\0' <= chars[i + 2] <= '\u{7f}');
    }
    assert(bytes.take(end + 4) =~= front);
    assert(bytes.skip(end + 4) =~= payload(body));
    text::decimal_reads_back(payload(body).len());
}

/// A line of some bytes, counted from zero, without its line feed.
pub open spec fn line_of(bytes: Seq<u8>, n: nat) -> Seq<u8>
    decreases n,
{
    let line = text::before_first(bytes, 10u8);
    if n == 0 {
        line
    } else if line.len() == bytes.len() {
        Seq::empty()
    } else {
        line_of(bytes.skip(line.len() as int + 1), (n - 1) as nat)
    }
}

/// Where bytes start with a line of ASCII characters, that is their first line,
/// and their other lines are those of what follows it.
proof fn lemma_line(line: Seq<char>, rest: Seq<u8>)
    requires
        is_ascii_chars(line),
        !line.contains('\n'),
    ensures
        line_of(encode_utf8(line) + seq![10u8] + rest, 0) == encode_utf8(line),
        forall|n: nat|
            n > 0 ==> #[trigger] line_of(encode_utf8(line) + seq![10u8] + rest, n) == line_of(
                rest,
                (n - 1) as nat,
            ),
{
    let bytes = encode_utf8(line) + seq![10u8] + rest;
    is_ascii_chars_encode_utf8(line);
    assert forall|i: int| 0 <= i < line.len() implies bytes[i] != 10u8 by {
        assert(line.contains(line[i]));
        assert('\0' <= line[i] <= '\u{7f}');
        assert(bytes[i] == line[i] as u8);
    }
    text::lemma_before_first(bytes, 10u8, line.len() as int);
    assert(bytes.take(line.len() as int) =~= encode_utf8(line));
    assert(bytes.skip(line.len() as int + 1) =~= rest);
}

/// The head of a response, line by line: the status line, the media type, the
/// length of the body, the notice that the connection ends, and the blank line.
/// The digits behind `Content-Length: ` denote the number of bytes that follow the
/// first blank line.
pub proof fn response_has_these_head_lines(body: AdminBody, end: int)
    requires
        blank_line_at(response(body), end),
        forall|i: int| 0 <= i < end ==> !#[trigger] blank_line_at(response(body), i),
    ensures
        line_of(response(body), 0) == encode_utf8(
            match body {
                AdminBody::Prometheus(_) => "HTTP/1.1 200 OK\r"@,
                AdminBody::Msgpack(_) => "HTTP/1.1 200 OK\r"@,
                AdminBody::NotFound => "HTTP/1.1 404 Not Found\r"@,
                AdminBody::ServerError => "HTTP/1.1 500 Internal Server Error\r"@,
            },
        ),
        line_of(response(body), 1) == encode_utf8(
            match body {
                AdminBody::Prometheus(_) => "Content-Type: text/plain; version=0.0.4\r"@,
                AdminBody::Msgpack(_) => "Content-Type: application/msgpack\r"@,
                AdminBody::NotFound => "Content-Type: text/plain\r"@,
                AdminBody::ServerError => "Content-Type: text/plain\r"@,
            },
        ),
        exists|digits: Seq<char>|
            {
                &&& #[trigger] text::is_numeral_of(digits, response(body).len() - (end + 4))
                &&& line_of(response(body), 2) == encode_utf8(
                    "Content-Length: "@ + digits + "\r"@,
                )
            },
        line_of(response(body), 3) == encode_utf8("Connection: close\r"@),
        line_of(response(body), 4) == encode_utf8("\r"@),
{
    let bytes = response(body);
    response_splits_at_its_first_blank_line(body);
    let head_end = response_head(body).len() - 4;
    assert(end == head_end) by {
        if end < head_end {
            assert(!blank_line_at(bytes, end));
        } else if head_end < end {
            assert(!blank_line_at(bytes, head_end));
        }
    }
    let length = payload(body).len();
    let digits = text::decimal(length);
    text::decimal_is_a_numeral(length);
    let first = encode_utf8("HTTP/1.1 "@ + status(body) + "\r"@);
    let second = encode_utf8("Content-Type: "@ + content_type(body) + "\r"@);
    let third = encode_utf8("Content-Length: "@ + digits + "\r"@);
    let fourth = encode_utf8("Connection: close\r"@);
    let fifth = encode_utf8("\r"@);
    lemma_literals(body);
    lemma_length_line(length);
    lemma_head_is_made_of_lines(body);
    let lf = seq![10u8];
    let rest4 = Seq::<u8>::empty() + payload(body);
    let rest3 = fifth + lf + rest4;
    let rest2 = fourth + lf + rest3;
    let rest1 = third + lf + rest2;
    let rest0 = second + lf + rest1;
    lemma_line("\r"@, rest4);
    lemma_line("Connection: close\r"@, rest3);
    lemma_line("Content-Length: "@ + digits + "\r"@, rest2);
    lemma_line("Content-Type: "@ + content_type(body) + "\r"@, rest1);
    lemma_line("HTTP/1.1 "@ + status(body) + "\r"@, rest0);
    let part3 = fifth + lf + Seq::<u8>::empty();
    let part2 = fourth + lf + part3;
    let part1 = third + lf + part2;
    let part0 = second + lf + part1;
    lemma_regroup(fifth + lf, Seq::<u8>::empty(), payload(body));
    lemma_regroup(fourth + lf, part3, payload(body));
    lemma_regroup(third + lf, part2, payload(body));
    lemma_regroup(second + lf, part1, payload(body));
    lemma_regroup(first + lf, part0, payload(body));
    assert(bytes == first + lf + rest0);
    assert(line_of(bytes, 0) == first);
    assert(line_of(bytes, 1) == line_of(rest0, 0));
    assert(line_of(bytes, 2) == line_of(rest0, 1) && line_of(rest0, 1) == line_of(rest1, 0));
    assert(line_of(bytes, 3) == line_of(rest0, 2) && line_of(rest0, 2) == line_of(rest1, 1)
        && line_of(rest1, 1) == line_of(rest2, 0));
    assert(line_of(bytes, 4) == line_of(rest0, 3) && line_of(rest0, 3) == line_of(rest1, 2)
        && line_of(rest1, 2) == line_of(rest2, 1) && line_of(rest2, 1) == line_of(rest3, 0));
    assert(bytes.len() - (end + 4) == length);
}

/// The lines of the head that are fixed are ASCII and have no line feed.
proof fn lemma_literals(body: AdminBody)
    ensures
        is_ascii_chars("HTTP/1.1 "@ + status(body) + "\r"@),
        !("HTTP/1.1 "@ + status(body) + "\r"@).contains('\n'),
        "HTTP/1.1 "@ + status(body) + "\r"@ == (match body {
            AdminBody::Prometheus(_) => "HTTP/1.1 200 OK\r"@,
            AdminBody::Msgpack(_) => "HTTP/1.1 200 OK\r"@,
            AdminBody::NotFound => "HTTP/1.1 404 Not Found\r"@,
            AdminBody::ServerError => "HTTP/1.1 500 Internal Server Error\r"@,
        }),
        is_ascii_chars("Content-Type: "@ + content_type(body) + "\r"@),
        !("Content-Type: "@ + content_type(body) + "\r"@).contains('\n'),
        "Content-Type: "@ + content_type(body) + "\r"@ == (match body {
            AdminBody::Prometheus(_) => "Content-Type: text/plain; version=0.0.4\r"@,
            AdminBody::Msgpack(_) => "Content-Type: application/msgpack\r"@,
            AdminBody::NotFound => "Content-Type: text/plain\r"@,
            AdminBody::ServerError => "Content-Type: text/plain\r"@,
        }),
        is_ascii_chars("Connection: close\r"@),
        !"Connection: close\r"@.contains('\n'),
        is_ascii_chars("\r"@),
        !"\r"@.contains('\n'),
{
    reveal_strlit("HTTP/1.1 ");
    reveal_strlit("\r");
    reveal_strlit("200 OK");
    reveal_strlit("404 Not Found");
    reveal_strlit("500 Internal Server Error");
    reveal_strlit("HTTP/1.1 200 OK\r");
    reveal_strlit("HTTP/1.1 404 Not Found\r");
    reveal_strlit("HTTP/1.1 500 Internal Server Error\r");
    reveal_strlit("Content-Type: ");
    reveal_strlit("text/plain; version=0.0.4");
    reveal_strlit("application/msgpack");
    reveal_strlit("text/plain");
    reveal_strlit("Content-Type: text/plain; version=0.0.4\r");
    reveal_strlit("Content-Type: application/msgpack\r");
    reveal_strlit("Content-Type: text/plain\r");
    reveal_strlit("Connection: close\r");
    let first = "HTTP/1.1 "@ + status(body) + "\r"@;
    let second = "Content-Type: "@ + content_type(body) + "\r"@;
    match body {
        AdminBody::Prometheus(_) => {
            assert(first =~= "HTTP/1.1 200 OK\r"@);
            assert(second =~= "Content-Type: text/plain; version=0.0.4\r"@);
        },
        AdminBody::Msgpack(_) => {
            assert(first =~= "HTTP/1.1 200 OK\r"@);
            assert(second =~= "Content-Type: application/msgpack\r"@);
        },
        AdminBody::NotFound => {
            assert(first =~= "HTTP/1.1 404 Not Found\r"@);
            assert(second =~= "Content-Type: text/plain\r"@);
        },
        AdminBody::ServerError => {
            assert(first =~= "HTTP/1.1 500 Internal Server Error\r"@);
            assert(second =~= "Content-Type: text/plain\r"@);
        },
    }
}

/// The lines of the head that carry a number are ASCII and have no line feed.
proof fn lemma_length_line(length: nat)
    ensures
        is_ascii_chars("Content-Length: "@ + text::decimal(length) + "\r"@),
        !("Content-Length: "@ + text::decimal(length) + "\r"@).contains('\n'),
{
    reveal_strlit("Content-Length: ");
    reveal_strlit("\r");
    let digits = text::decimal(length);
    let line = "Content-Length: "@ + digits + "\r"@;
    text::decimal_reads_back(length);
    assert forall|i: int| 0 <= i < line.len() implies '\0' <= #[trigger] line[i] <= '\u{7f}'
        && line[i] != '\n' by {
        if 16 <= i < 16 + digits.len() {
            assert(line[i] == digits[i - 16]);
            assert(text::is_digit(digits[i - 16]));
        }
    }
}

/// Where the head breaks its lines.
proof fn lemma_line_breaks()
    ensures
        "\r\nContent-Type: "@ == "\r"@ + seq!['\n'] + "Content-Type: "@,
        "\r\nContent-Length: "@ == "\r"@ + seq!['\n'] + "Content-Length: "@,
        "\r\nConnection: close\r\n\r\n"@ == "\r"@ + seq!['\n'] + "Connection: close\r"@ + seq![
            '\n',
        ] + "\r"@ + seq!['\n'],
{
    reveal_strlit("\r");
    reveal_strlit("Content-Type: ");
    reveal_strlit("Content-Length: ");
    reveal_strlit("Connection: close\r");
    reveal_strlit("\r\nContent-Type: ");
    reveal_strlit("\r\nContent-Length: ");
    reveal_strlit("\r\nConnection: close\r\n\r\n");
    assert("\r\nContent-Type: "@ =~= "\r"@ + seq!['\n'] + "Content-Type: "@);
    assert("\r\nContent-Length: "@ =~= "\r"@ + seq!['\n'] + "Content-Length: "@);
    assert("\r\nConnection: close\r\n\r\n"@ =~= "\r"@ + seq!['\n'] + "Connection: close\r"@ + seq![
        '\n',
    ] + "\r"@ + seq!['\n']);
}

/// Joining goes from the left as from the right.
proof fn lemma_regroup<A>(a: Seq<A>, b: Seq<A>, c: Seq<A>)
    ensures
        a + b + c == a + (b + c),
{
    assert(a + b + c =~= a + (b + c));
}

/// The head is its five lines, each with a line feed behind it.
proof fn lemma_lines_of_the_head(
    h: Seq<char>,
    status: Seq<char>,
    r: Seq<char>,
    n: Seq<char>,
    t: Seq<char>,
    content_type: Seq<char>,
    l: Seq<char>,
    digits: Seq<char>,
    c: Seq<char>,
)
    ensures
        h + status + (r + n + t) + content_type + (r + n + l) + digits + (r + n + c + n + r + n)
            == (h + status + r) + n + ((t + content_type + r) + n + ((l + digits + r) + n + (c + n
            + (r + n + Seq::empty())))),
{
    assert(h + status + (r + n + t) + content_type + (r + n + l) + digits + (r + n + c + n + r + n)
        =~= (h + status + r) + n + ((t + content_type + r) + n + ((l + digits + r) + n + (c + n + (r
        + n + Seq::empty())))));
}

/// The encoded head is its five encoded lines, each with a line feed behind it.
proof fn lemma_head_is_made_of_lines(body: AdminBody)
    ensures
        encode_utf8(response_head(body)) == encode_utf8("HTTP/1.1 "@ + status(body) + "\r"@)
            + seq![10u8] + (encode_utf8("Content-Type: "@ + content_type(body) + "\r"@) + seq![10u8]
            + (encode_utf8("Content-Length: "@ + text::decimal(payload(body).len()) + "\r"@)
            + seq![10u8] + (encode_utf8("Connection: close\r"@) + seq![10u8] + (encode_utf8("\r"@)
            + seq![10u8] + Seq::empty())))),
{
    let length = payload(body).len();
    let n = seq!['\n'];
    let first = "HTTP/1.1 "@ + status(body) + "\r"@;
    let second = "Content-Type: "@ + content_type(body) + "\r"@;
    let third = "Content-Length: "@ + text::decimal(length) + "\r"@;
    let fourth = "Connection: close\r"@;
    let fifth = "\r"@;
    lemma_literals(body);
    lemma_length_line(length);
    lemma_line_breaks();
    lemma_lines_of_the_head(
        "HTTP/1.1 "@,
        status(body),
        "\r"@,
        n,
        "Content-Type: "@,
        content_type(body),
        "Content-Length: "@,
        text::decimal(length),
        fourth,
    );
    let after4 = fifth + n + Seq::<char>::empty();
    let after3 = fourth + n + after4;
    let after2 = third + n + after3;
    let after1 = second + n + after2;
    assert(response_head(body) == first + n + after1);
    lemma_encode_line(first, after1);
    lemma_encode_line(second, after2);
    lemma_encode_line(third, after3);
    lemma_encode_line(fourth, after4);
    lemma_encode_line(fifth, Seq::empty());
    assert(encode_utf8(Seq::<char>::empty()) =~= Seq::empty());
}

/// An ASCII line is encoded on its own.
proof fn lemma_encode_line(line: Seq<char>, rest: Seq<char>)
    requires
        is_ascii_chars(line),
    ensures
        encode_utf8(line + seq!['\n'] + rest) == encode_utf8(line) + seq![10u8] + encode_utf8(rest),
    decreases line.len(),
{
    let chars = line + seq!['\n'] + rest;
    if line.len() == 0 {
        assert(chars.drop_first() =~= rest);
        is_ascii_chars_encode_utf8(seq!['\n']);
        reveal_with_fuel(encode_utf8, 2);
        assert(seq!['\n'].drop_first() =~= Seq::empty());
        assert(encode_utf8(seq!['\n']) =~= seq![10u8]);
        assert(encode_utf8(chars) =~= encode_utf8(line) + seq![10u8] + encode_utf8(rest));
    } else {
        let tail = line.drop_first();
        assert forall|i: int| 0 <= i < tail.len() implies '\0' <= #[trigger] tail[i]
            <= '\u{7f}' by {
            assert(tail[i] == line[i + 1]);
        }
        lemma_encode_line(tail, rest);
        assert(chars.drop_first() =~= tail + seq!['\n'] + rest);
        assert(encode_utf8(chars) =~= encode_utf8(line) + seq![10u8] + encode_utf8(rest));
    }
}

/// What follows the first blank line of a response is what was to be sent: the
/// text in UTF-8, the bytes as they are, and nothing with an error.
pub proof fn response_carries_its_body(body: AdminBody, end: int)
    requires
        blank_line_at(response(body), end),
        forall|i: int| 0 <= i < end ==> !#[trigger] blank_line_at(response(body), i),
    ensures
        match body {
            AdminBody::Prometheus(text) => decode_utf8(response(body).skip(end + 4)) == text@
                && valid_utf8(response(body).skip(end + 4)),
            AdminBody::Msgpack(bytes) => response(body).skip(end + 4) == bytes@,
            AdminBody::NotFound => response(body).len() == end + 4,
            AdminBody::ServerError => response(body).len() == end + 4,
        },
{
    let bytes = response(body);
    response_splits_at_its_first_blank_line(body);
    let head_end = response_head(body).len() - 4;
    assert(end == head_end) by {
        if end < head_end {
            assert(!blank_line_at(bytes, end));
        } else if head_end < end {
            assert(!blank_line_at(bytes, head_end));
        }
    }
    if let AdminBody::Prometheus(text) = body {
        encode_utf8_valid_utf8(text@);
        encode_utf8_decode_utf8(text@);
    }
}

} // verus!
