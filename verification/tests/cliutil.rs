//! The command line's texts.
use shellglass::cliutil::{
    api_failure_text, checked_name, hub_url, pad, recording_failure_text, recording_line,
    session_line, take_chunk, valid_stream_name,
};
use shellglass::record::{blob_message, event_line, file_name, first_seen, header_line};

#[test]
fn names_are_validated_before_touching_the_url() {
    assert!(valid_stream_name("1752574530123.sgs"));
    assert!(!valid_stream_name("../etc.sgs"), "separators rejected");
    assert!(!valid_stream_name("100.cast"), "wrong suffix");
    assert!(!valid_stream_name(".sgs"), "empty stem");
    assert!(checked_name("nope").is_err());
    assert_eq!(checked_name("1.sgs").unwrap(), "1.sgs");
}

#[test]
fn urls_have_one_slash_between() {
    assert_eq!(hub_url("http://h/", "/sessions"), "http://h/sessions");
    assert_eq!(hub_url("http://h", "/sessions"), "http://h/sessions");
}

#[test]
fn bodies_are_bounded() {
    let mut buf = Vec::new();
    assert!(take_chunk(&mut buf, b"abc"));
    assert_eq!(buf, b"abc");
    let big = vec![0u8; 8 * 1024 * 1024];
    assert!(!take_chunk(&mut buf, &big));
}

#[test]
fn columns_are_padded() {
    assert_eq!(pad("ab".to_string(), 4), "ab  ");
    assert_eq!(pad("abcde".to_string(), 4), "abcde");
    assert_eq!(recording_line("1.sgs", 12), "1.sgs                12");
    assert_eq!(session_line("s", true, "id"), "s                        live     id");
}

#[test]
fn failures_are_told() {
    assert_eq!(
        api_failure_text(404, "404 Not Found", "no such session"),
        "404 Not Found: no such session"
    );
    assert_eq!(recording_failure_text(500, "500 Error", "x\n"), "500 Error: x");
    assert_eq!(
        api_failure_text(401, "401 Unauthorized", ""),
        "401 Unauthorized: missing/unusable API key"
    );
}

#[test]
fn recordings_are_lines() {
    assert!(valid_stream_name(&file_name(1752574530123)));
    assert_eq!(header_line(7), "{\"protocol\":1,\"shellglass\":1,\"start\":7}\n");
    assert_eq!(event_line(3, "{}"), "[3,{}]\n");
    assert_eq!(
        blob_message("image/png", b"ABC"),
        "{\"blob\":{\"m\":\"image/png\",\"d\":\"QUJD\"}}"
    );
    let mut seen = Vec::new();
    assert!(first_seen(&mut seen, "a"));
    assert!(!first_seen(&mut seen, "a"));
}
