use rangefetch::ProtocolError;
use rangefetch::framing::find_header_end;
use rangefetch::framing::frame_response;

#[test]
fn frames_header_and_body_at_first_blank_line() {
    let resp: Vec<u8> = b"HTTP/1.1 200 OK\r\nContent-Length: 5\r\n\r\nhello".to_vec();
    let framed = frame_response(&resp).unwrap();
    assert_eq!(framed.header, b"HTTP/1.1 200 OK\r\nContent-Length: 5".to_vec());
    assert_eq!(framed.body, b"hello".to_vec());
}

#[test]
fn frames_at_the_first_of_two_blank_lines() {
    let resp: Vec<u8> = b"A\r\n\r\nbody\r\n\r\nmore".to_vec();
    let framed = frame_response(&resp).unwrap();
    assert_eq!(framed.header, b"A".to_vec());
    assert_eq!(framed.body, b"body\r\n\r\nmore".to_vec());
}

#[test]
fn empty_body_after_trailing_blank_line() {
    let resp: Vec<u8> = b"HTTP/1.1 204 No Content\r\n\r\n".to_vec();
    let framed = frame_response(&resp).unwrap();
    assert_eq!(framed.header, b"HTTP/1.1 204 No Content".to_vec());
    assert_eq!(framed.body, Vec::<u8>::new());
}

#[test]
fn missing_separator_is_fatal() {
    let resp: Vec<u8> = b"HTTP/1.1 200 OK\r\nContent-Length: 5\r\n".to_vec();
    assert_eq!(frame_response(&resp), Err(ProtocolError::MissingSeparator));
}

#[test]
fn empty_response_has_no_separator() {
    let resp: Vec<u8> = Vec::new();
    assert_eq!(frame_response(&resp), Err(ProtocolError::MissingSeparator));
    assert_eq!(find_header_end(&resp), None);
}

#[test]
fn separator_position_is_reported() {
    let resp: Vec<u8> = b"ab\r\n\r\ncd".to_vec();
    assert_eq!(find_header_end(&resp), Some(2));
}

#[test]
fn bare_line_feeds_do_not_separate() {
    let resp: Vec<u8> = b"header\n\nbody".to_vec();
    assert_eq!(frame_response(&resp), Err(ProtocolError::MissingSeparator));
}
