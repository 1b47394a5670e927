use tcp_chatroom::handshake::{
    find_first, handshake, is_authorized, parse_handshake, record_line, HandshakeFailure,
    HandshakeParser, COLON, LINE_FEED, NUL,
};
use tcp_chatroom::headers::HeaderMap;

fn value_of(headers: &HeaderMap, key: &str) -> Option<String> {
    headers.get(key).cloned()
}

#[test]
fn handshake_with_token_yields_its_header() {
    let headers = parse_handshake(b"Hello:GoToGroup\n\0").expect("frame is complete");
    assert_eq!(headers.len(), 1);
    assert_eq!(value_of(&headers, "Hello"), Some("GoToGroup".to_string()));
    assert!(is_authorized(&headers));
    assert!(handshake(b"Hello:GoToGroup\n\0").is_ok());
}

#[test]
fn handshake_with_wrong_token_parses_but_is_refused() {
    let headers = parse_handshake(b"Hello:Nope\n\0").expect("frame is complete");
    assert_eq!(headers.len(), 1);
    assert_eq!(value_of(&headers, "Hello"), Some("Nope".to_string()));
    assert!(!is_authorized(&headers));
    assert_eq!(handshake(b"Hello:Nope\n\0").err(), Some(HandshakeFailure::Unauthorized));
}

#[test]
fn handshake_without_required_key_is_refused() {
    assert_eq!(handshake(b"Other:GoToGroup\n\0").err(), Some(HandshakeFailure::Unauthorized));
    assert_eq!(handshake(b"\0").err(), Some(HandshakeFailure::Unauthorized));
}

#[test]
fn handshake_cut_short_yields_nothing() {
    assert!(parse_handshake(b"Hello:GoToGroup\n").is_none());
    assert_eq!(handshake(b"Hello:GoToGroup\n").err(), Some(HandshakeFailure::Unterminated));
    assert!(parse_handshake(b"").is_none());
}

#[test]
fn malformed_line_is_skipped() {
    let headers = parse_handshake(b"NoColonHere\nHello:GoToGroup\n\0").expect("complete");
    assert_eq!(headers.len(), 1);
    assert_eq!(value_of(&headers, "Hello"), Some("GoToGroup".to_string()));
    assert!(handshake(b"NoColonHere\nHello:GoToGroup\n\0").is_ok());
}

#[test]
fn malformed_line_changes_nothing_wherever_it_stands() {
    let with = parse_handshake(b"A:1\nNoColonHere\nB:2\n\0").expect("complete");
    let without = parse_handshake(b"A:1\nB:2\n\0").expect("complete");
    assert_eq!(with.len(), without.len());
    assert_eq!(value_of(&with, "A"), value_of(&without, "A"));
    assert_eq!(value_of(&with, "B"), value_of(&without, "B"));
    assert_eq!(value_of(&with, "NoColonHere"), None);
}

#[test]
fn key_and_value_are_trimmed() {
    let headers = parse_handshake(b"Hello: GoToGroup\n\0").expect("complete");
    assert_eq!(value_of(&headers, "Hello"), Some("GoToGroup".to_string()));
    assert!(handshake(b"Hello: GoToGroup\n\0").is_ok());

    let headers = parse_handshake(b"  Hello \t:\t GoToGroup \r\n\0").expect("complete");
    assert_eq!(headers.len(), 1);
    assert_eq!(value_of(&headers, "Hello"), Some("GoToGroup".to_string()));
    assert_eq!(value_of(&headers, "  Hello \t"), None);
}

#[test]
fn unicode_white_space_is_trimmed() {
    let frame = "Hello:\u{3000}GoToGroup\u{00A0}\n\0";
    let headers = parse_handshake(frame.as_bytes()).expect("complete");
    assert_eq!(value_of(&headers, "Hello"), Some("GoToGroup".to_string()));
}

#[test]
fn inner_white_space_is_kept() {
    let headers = parse_handshake(b"Who: Go To Group \n\0").expect("complete");
    assert_eq!(value_of(&headers, "Who"), Some("Go To Group".to_string()));
}

#[test]
fn line_is_split_at_its_first_colon() {
    let headers = parse_handshake(b"Time:12:30:00\n\0").expect("complete");
    assert_eq!(headers.len(), 1);
    assert_eq!(value_of(&headers, "Time"), Some("12:30:00".to_string()));
}

#[test]
fn empty_key_or_value_is_no_header() {
    let headers = parse_handshake(b"Hello:\n:GoToGroup\n:\n\n\0").expect("complete");
    assert_eq!(headers.len(), 0);
    assert!(headers.is_empty());
    assert!(!headers.contains_key("Hello"));
}

#[test]
fn part_of_only_white_space_is_recorded_as_empty_text() {
    let headers = parse_handshake(b"Key: \n\0").expect("complete");
    assert_eq!(value_of(&headers, "Key"), Some(String::new()));
}

#[test]
fn later_value_replaces_earlier() {
    let headers = parse_handshake(b"Hello:Nope\nHello:GoToGroup\n\0").expect("complete");
    assert_eq!(headers.len(), 1);
    assert_eq!(value_of(&headers, "Hello"), Some("GoToGroup".to_string()));

    let headers = parse_handshake(b"Hello:GoToGroup\nHello:Nope\n\0").expect("complete");
    assert_eq!(value_of(&headers, "Hello"), Some("Nope".to_string()));
    assert_eq!(
        handshake(b"Hello:GoToGroup\nHello:Nope\n\0").err(),
        Some(HandshakeFailure::Unauthorized)
    );
}

#[test]
fn line_without_line_feed_before_nul_is_dropped() {
    let headers = parse_handshake(b"Hello:GoToGroup\0").expect("complete");
    assert_eq!(headers.len(), 0);
    assert_eq!(handshake(b"Hello:GoToGroup\0").err(), Some(HandshakeFailure::Unauthorized));
}

#[test]
fn bytes_after_nul_are_ignored() {
    let headers = parse_handshake(b"Hello:GoToGroup\n\0Hello:Nope\n\0").expect("complete");
    assert_eq!(headers.len(), 1);
    assert_eq!(value_of(&headers, "Hello"), Some("GoToGroup".to_string()));
}

#[test]
fn part_that_is_not_utf8_makes_the_line_no_header() {
    let headers = parse_handshake(b"Bad:\xff\xfe\n\xc3:Value\nGood:yes\n\0").expect("complete");
    assert_eq!(headers.len(), 1);
    assert_eq!(value_of(&headers, "Good"), Some("yes".to_string()));
}

#[test]
fn multibyte_text_is_decoded() {
    let frame = "Gr\u{00fc}\u{00df}:\u{4f60}\u{597d}\n\0";
    let headers = parse_handshake(frame.as_bytes()).expect("complete");
    assert_eq!(value_of(&headers, "Gr\u{00fc}\u{00df}"), Some("\u{4f60}\u{597d}".to_string()));
}

#[test]
fn parser_takes_the_frame_byte_by_byte() {
    let mut parser = HandshakeParser::new();
    assert!(!parser.is_complete());
    for byte in b"Hello:GoToGroup\n" {
        assert!(!parser.feed(*byte));
    }
    assert!(!parser.is_complete());
    assert!(parser.feed(NUL));
    assert!(parser.is_complete());
    assert!(parser.feed(b'x'));
    let headers = parser.finish().expect("complete");
    assert_eq!(headers.len(), 1);
    assert_eq!(value_of(&headers, "Hello"), Some("GoToGroup".to_string()));
}

#[test]
fn parser_that_saw_no_nul_yields_nothing() {
    let mut parser = HandshakeParser::new();
    for byte in b"Hello:GoToGroup\n" {
        parser.feed(*byte);
    }
    assert!(parser.finish().is_none());
    assert!(HandshakeParser::new().finish().is_none());
}

#[test]
fn first_position_of_a_byte() {
    assert_eq!(find_first(b"a:b:c", COLON), 1);
    assert_eq!(find_first(b":", COLON), 0);
    assert_eq!(find_first(b"abc", COLON), 3);
    assert_eq!(find_first(b"", COLON), 0);
    assert_eq!(find_first(b"ab\ncd\n", LINE_FEED), 2);
}

#[test]
fn record_line_inserts_or_leaves() {
    let mut headers = HeaderMap::new();
    record_line(&mut headers, b"no colon");
    assert!(headers.is_empty());
    record_line(&mut headers, b"a: 1");
    record_line(&mut headers, b"b :2 ");
    record_line(&mut headers, b"a:3");
    assert_eq!(headers.len(), 2);
    assert_eq!(value_of(&headers, "a"), Some("3".to_string()));
    assert_eq!(value_of(&headers, "b"), Some("2".to_string()));
}

#[test]
fn header_map_holds_each_key_once() {
    let mut headers = HeaderMap::new();
    assert!(headers.is_empty());
    assert_eq!(headers.len(), 0);
    headers.insert("k".to_string(), "v".to_string());
    headers.insert("k".to_string(), "w".to_string());
    headers.insert("other".to_string(), "x".to_string());
    assert_eq!(headers.len(), 2);
    assert!(headers.contains_key("k"));
    assert!(!headers.contains_key("K"));
    assert_eq!(value_of(&headers, "k"), Some("w".to_string()));
    assert_eq!(value_of(&headers, "missing"), None);
}

#[test]
fn token_is_compared_after_trimming() {
    let mut headers = HeaderMap::new();
    headers.insert("Hello".to_string(), "  GoToGroup\n".to_string());
    assert!(is_authorized(&headers));
    headers.insert("Hello".to_string(), "GoTo Group".to_string());
    assert!(!is_authorized(&headers));
    headers.insert("Hello".to_string(), "gotogroup".to_string());
    assert!(!is_authorized(&headers));
}
