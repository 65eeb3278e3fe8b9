use rangefetch::request::build_range_request;
use rangefetch::request::build_size_request;
use rangefetch::windows::SegmentWindow;

#[test]
fn size_request_bytes_are_exact() {
    let req = build_size_request(b"127.0.0.1:8080");
    let expected: Vec<u8> =
        b"GET / HTTP/1.1\r\nHost: 127.0.0.1:8080\r\nConnection: close\r\n\r\n".to_vec();
    assert_eq!(req, expected);
}

#[test]
fn range_request_bytes_are_exact() {
    let w = SegmentWindow { start: 64000, length: 64000 };
    let req = build_range_request(b"127.0.0.1:8080", &w);
    let expected: Vec<u8> = b"GET / HTTP/1.1\r\nHost: 127.0.0.1:8080\r\nConnection: close\r\nRange: bytes=64000-127999\r\n\r\n"
        .to_vec();
    assert_eq!(req, expected);
}

#[test]
fn range_request_upper_bound_is_inclusive() {
    let w = SegmentWindow { start: 0, length: 1 };
    let req = build_range_request(b"h", &w);
    let expected: Vec<u8> =
        b"GET / HTTP/1.1\r\nHost: h\r\nConnection: close\r\nRange: bytes=0-0\r\n\r\n".to_vec();
    assert_eq!(req, expected);
}

#[test]
fn trailing_short_window_range() {
    let w = SegmentWindow { start: 128000, length: 22000 };
    let req = build_range_request(b"example:80", &w);
    let text = String::from_utf8(req).unwrap();
    assert!(text.contains("Range: bytes=128000-149999\r\n"));
}
