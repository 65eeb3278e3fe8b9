use rangefetch::ProtocolError;
use rangefetch::decimal::parse_decimal_u32;
use rangefetch::headers::content_length_of_header;
use rangefetch::headers::discover_total_length;

#[test]
fn reads_content_length_from_header_block() {
    let header: Vec<u8> = b"HTTP/1.1 200 OK\r\nContent-Length: 150000\r\nServer: x".to_vec();
    assert_eq!(content_length_of_header(&header), Ok(150000));
}

#[test]
fn content_length_value_is_whitespace_trimmed() {
    let header: Vec<u8> = b"Content-Length:   42  ".to_vec();
    assert_eq!(content_length_of_header(&header), Ok(42));
}

#[test]
fn missing_content_length_is_fatal() {
    let header: Vec<u8> = b"HTTP/1.1 200 OK\r\nServer: x".to_vec();
    assert_eq!(
        content_length_of_header(&header),
        Err(ProtocolError::MissingContentLength)
    );
}

#[test]
fn zero_content_length_is_fatal() {
    let header: Vec<u8> = b"Content-Length: 0".to_vec();
    assert_eq!(
        content_length_of_header(&header),
        Err(ProtocolError::InvalidContentLength)
    );
}

#[test]
fn unparsable_content_length_is_fatal() {
    let header: Vec<u8> = b"Content-Length: many".to_vec();
    assert_eq!(
        content_length_of_header(&header),
        Err(ProtocolError::InvalidContentLength)
    );
}

#[test]
fn content_length_match_is_case_sensitive() {
    let header: Vec<u8> = b"content-length: 9".to_vec();
    assert_eq!(
        content_length_of_header(&header),
        Err(ProtocolError::MissingContentLength)
    );
}

#[test]
fn later_content_length_line_wins() {
    let header: Vec<u8> = b"Content-Length: 7\r\nContent-Length: 9".to_vec();
    assert_eq!(content_length_of_header(&header), Ok(9));
}

#[test]
fn unparsable_line_is_fatal_even_with_a_good_one() {
    let header: Vec<u8> = b"Content-Length: bad\r\nContent-Length: 9".to_vec();
    assert_eq!(
        content_length_of_header(&header),
        Err(ProtocolError::InvalidContentLength)
    );
}

#[test]
fn discovers_total_length_from_whole_response() {
    let resp: Vec<u8> = b"HTTP/1.1 200 OK\r\nContent-Length: 150000\r\n\r\nignored".to_vec();
    assert_eq!(discover_total_length(&resp), Ok(150000));
}

#[test]
fn discovery_needs_a_framed_response() {
    let resp: Vec<u8> = b"HTTP/1.1 200 OK\r\nContent-Length: 150000\r\n".to_vec();
    assert_eq!(
        discover_total_length(&resp),
        Err(ProtocolError::MissingSeparator)
    );
}

#[test]
fn content_length_in_body_is_ignored() {
    let resp: Vec<u8> = b"HTTP/1.1 200 OK\r\n\r\nContent-Length: 5".to_vec();
    assert_eq!(
        discover_total_length(&resp),
        Err(ProtocolError::MissingContentLength)
    );
}

#[test]
fn parses_trimmed_decimal() {
    assert_eq!(parse_decimal_u32(&b"  123  ".to_vec()), Some(123));
    assert_eq!(parse_decimal_u32(&b"0".to_vec()), Some(0));
    assert_eq!(parse_decimal_u32(&b"4294967295".to_vec()), Some(u32::MAX));
}

#[test]
fn rejects_non_decimal_values() {
    assert_eq!(parse_decimal_u32(&b"".to_vec()), None);
    assert_eq!(parse_decimal_u32(&b"   ".to_vec()), None);
    assert_eq!(parse_decimal_u32(&b"12a".to_vec()), None);
    assert_eq!(parse_decimal_u32(&b"1 2".to_vec()), None);
    assert_eq!(parse_decimal_u32(&b"4294967296".to_vec()), None);
    assert_eq!(parse_decimal_u32(&b"99999999999999999999".to_vec()), None);
}
