use debugscope::framer::LineProtocol;

#[test]
fn feed_bytes_but_no_crlf() {
    let mut lp = LineProtocol::new();
    let lines = lp.feed(b"Hallo");
    assert!(lines.is_empty());
}

#[test]
fn feed_bytes_with_crlf() {
    let mut lp = LineProtocol::new();
    let lines = lp.feed(b"Hallo\r\n");
    assert_eq!(lines, vec!["Hallo".to_string()]);
}

#[test]
fn back_to_back_terminators_make_an_empty_line() {
    let mut lp = LineProtocol::new();
    let lines = lp.feed(b"a\r\nb\r\n\r\n");
    assert_eq!(
        lines,
        vec!["a".to_string(), "b".to_string(), "".to_string()]
    );
}

#[test]
fn invalid_utf8_frames_are_skipped() {
    let mut lp = LineProtocol::new();
    let lines = lp.feed(b"\xFF\xFE\r\nok\r\n");
    assert_eq!(lines, vec!["ok".to_string()]);
}

#[test]
fn embedded_nul_is_tolerated() {
    let mut lp = LineProtocol::new();
    let lines = lp.feed(b"\x00\r\n");
    assert_eq!(lines, vec!["\u{0}".to_string()]);
}

#[test]
fn framing_resumes_across_chunks() {
    let mut lp = LineProtocol::new();
    assert!(lp.feed(b"Hal").is_empty());
    let first = lp.feed(b"lo\r\nWo");
    assert_eq!(first, vec!["Hallo".to_string()]);
    let second = lp.feed(b"rld\r\n");
    assert_eq!(second, vec!["World".to_string()]);
}

#[test]
fn truncated_trailing_fragment_is_dropped() {
    let mut lp = LineProtocol::new();
    let lines = lp.feed(b"done\r\nhalf");
    assert_eq!(lines, vec!["done".to_string()]);
}

#[test]
fn lone_cr_or_lf_does_not_terminate() {
    let mut lp = LineProtocol::new();
    assert!(lp.feed(b"a\rb\nc").is_empty());
    let lines = lp.feed(b"\r\n");
    assert_eq!(lines.len(), 1);
}
