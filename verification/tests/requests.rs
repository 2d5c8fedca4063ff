use cachecannon::request::request_target;
use cachecannon::response::{http_response, AdminBody};
use cachecannon::text::{is_whitespace, push_decimal, push_signed_decimal, same_text};

#[test]
fn target_is_the_second_word_of_the_first_line() {
    assert_eq!(request_target(b"GET /"), Some("/"));
    assert_eq!(request_target(b"  GET \t /a/b?c?d  HTTP/1.1"), Some("/a/b"));
    assert_eq!(request_target(b"x /a\ny /b"), Some("/a"));
    assert_eq!(request_target(b"x\n/a /b"), None);
    assert_eq!(request_target(b"/only"), None);
    assert_eq!(request_target(b"\nGET /metrics"), None);
    assert_eq!(request_target(b"GET ?/a"), None);
    assert_eq!(request_target(b"GET *"), None);
    assert_eq!(request_target(b""), None);
}

#[test]
fn only_the_first_line_needs_to_be_utf8() {
    assert_eq!(request_target(b"GET /a HTTP/1.1\r\nX: \xff\xfe\r\n"), Some("/a"));
    assert_eq!(request_target(b"GET /a\xff HTTP/1.1\r\n"), None);
    assert_eq!(
        request_target("GET /\u{e9}t\u{e9}?\u{1f600} HTTP/1.1\r\n".as_bytes()),
        Some("/\u{e9}t\u{e9}")
    );
    // An ideographic space separates words as well.
    assert_eq!(request_target("GET\u{3000}/a\u{3000}b".as_bytes()), Some("/a"));
}

#[test]
fn white_space_is_that_of_unicode() {
    for code in 0..=0x10ffffu32 {
        if let Some(c) = char::from_u32(code) {
            assert_eq!(is_whitespace(c), c.is_whitespace(), "{code:x}");
        }
    }
}

#[test]
fn responses_are_framed_with_their_length() {
    assert_eq!(
        http_response(AdminBody::Prometheus("a \u{e9}\n".to_string())),
        "HTTP/1.1 200 OK\r\nContent-Type: text/plain; version=0.0.4\r\nContent-Length: 5\r\n\
         Connection: close\r\n\r\na \u{e9}\n"
            .as_bytes()
    );
    let mut binary = b"HTTP/1.1 200 OK\r\nContent-Type: application/msgpack\r\nContent-Length: 12\r\n\
        Connection: close\r\n\r\n"
        .to_vec();
    binary.extend_from_slice(b"\xff\x00\r\n\r\n\x80\x81\x82\x83\x84\x85");
    assert_eq!(
        http_response(AdminBody::Msgpack(
            b"\xff\x00\r\n\r\n\x80\x81\x82\x83\x84\x85".to_vec()
        )),
        binary
    );
}

#[test]
fn errors_are_framed_without_a_body() {
    assert_eq!(
        http_response(AdminBody::NotFound),
        b"HTTP/1.1 404 Not Found\r\nContent-Type: text/plain\r\nContent-Length: 0\r\n\
          Connection: close\r\n\r\n"
    );
    assert_eq!(
        http_response(AdminBody::ServerError),
        b"HTTP/1.1 500 Internal Server Error\r\nContent-Type: text/plain\r\nContent-Length: 0\r\n\
          Connection: close\r\n\r\n"
    );
}

#[test]
fn head_ends_at_the_first_blank_line() {
    let payload = "\r\n\r\nbody\r\n\r\n";
    let response = http_response(AdminBody::Prometheus(payload.to_string()));
    let split = response.windows(4).position(|w| w == b"\r\n\r\n").unwrap();
    assert_eq!(&response[split + 4..], payload.as_bytes());
}

#[test]
fn decimals_are_those_of_the_standard_library() {
    for n in [0u128, 1, 9, 10, 11, 99, 100, 12_345, u64::MAX.into(), u128::MAX] {
        let mut text = "n=".to_string();
        push_decimal(&mut text, n);
        assert_eq!(text, format!("n={n}"));
    }
    for n in [0i64, 7, -1, -10, 1_000, i64::MAX, i64::MIN] {
        let mut text = "n=".to_string();
        push_signed_decimal(&mut text, n);
        assert_eq!(text, format!("n={n}"));
    }
}

#[test]
fn texts_are_compared_by_their_characters() {
    assert!(same_text("", ""));
    assert!(same_text("/\u{e9}", "/\u{e9}"));
    assert!(!same_text("/", ""));
    assert!(!same_text("/a", "/b"));
    assert!(!same_text("/a", "/a/"));
}
