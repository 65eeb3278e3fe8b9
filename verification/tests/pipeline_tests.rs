use rangefetch::ProtocolError;
use rangefetch::digest::digest_bytes;
use rangefetch::pipeline::apply_segment;
use rangefetch::pipeline::new_buffer;
use rangefetch::pipeline::reassemble;
use rangefetch::pipeline::run_pipeline;
use rangefetch::windows::SegmentWindow;
use rangefetch::windows::make_windows;

fn segment_response(body: &[u8]) -> Vec<u8> {
    let mut resp: Vec<u8> = b"HTTP/1.1 206 Partial Content\r\n\r\n".to_vec();
    resp.extend_from_slice(body);
    resp
}

fn size_response(total: usize) -> Vec<u8> {
    let mut resp: Vec<u8> = b"HTTP/1.1 200 OK\r\nContent-Length: ".to_vec();
    resp.extend_from_slice(total.to_string().as_bytes());
    resp.extend_from_slice(b"\r\n\r\n");
    resp.extend_from_slice(&vec![0u8; total]);
    resp
}

fn segment_responses_for(resource: &[u8], packet_size: u32) -> Vec<Vec<u8>> {
    let windows = make_windows(resource.len() as u32, packet_size);
    windows
        .iter()
        .map(|w| {
            segment_response(&resource[w.start as usize..(w.start + w.length) as usize])
        })
        .collect()
}

#[test]
fn new_buffer_is_zeroed() {
    let buf = new_buffer(5);
    assert_eq!(buf, vec![0u8; 5]);
}

#[test]
fn apply_segment_copies_body_into_window() {
    let mut buf = new_buffer(10);
    let w = SegmentWindow { start: 3, length: 4 };
    let resp = segment_response(b"wxyz");
    assert_eq!(apply_segment(&mut buf, &w, &resp), Ok(()));
    assert_eq!(buf, b"\0\0\0wxyz\0\0\0".to_vec());
}

#[test]
fn apply_segment_rejects_short_body_without_corrupting() {
    let mut buf = new_buffer(10);
    let first = SegmentWindow { start: 0, length: 4 };
    assert_eq!(apply_segment(&mut buf, &first, &segment_response(b"abcd")), Ok(()));
    let filled = buf.clone();
    let w = SegmentWindow { start: 4, length: 4 };
    let resp = segment_response(b"xy");
    assert_eq!(
        apply_segment(&mut buf, &w, &resp),
        Err(ProtocolError::BodyLengthMismatch)
    );
    assert_eq!(buf, filled);
}

#[test]
fn apply_segment_rejects_long_body_without_corrupting() {
    let mut buf = new_buffer(10);
    let w = SegmentWindow { start: 4, length: 4 };
    let resp = segment_response(b"toolong");
    assert_eq!(
        apply_segment(&mut buf, &w, &resp),
        Err(ProtocolError::BodyLengthMismatch)
    );
    assert_eq!(buf, vec![0u8; 10]);
}

#[test]
fn apply_segment_rejects_unframed_response() {
    let mut buf = new_buffer(4);
    let w = SegmentWindow { start: 0, length: 4 };
    let resp: Vec<u8> = b"no separator here".to_vec();
    assert_eq!(
        apply_segment(&mut buf, &w, &resp),
        Err(ProtocolError::MissingSeparator)
    );
    assert_eq!(buf, vec![0u8; 4]);
}

#[test]
fn reassemble_reconstructs_the_resource() {
    let resource: Vec<u8> = (0u8..=255).cycle().take(1000).collect();
    let responses = segment_responses_for(&resource, 64);
    let buf = reassemble(1000, 64, &responses).unwrap();
    assert_eq!(buf, resource);
}

#[test]
fn reassemble_stops_at_first_bad_segment() {
    let resource: Vec<u8> = (1u8..=100).collect();
    let mut responses = segment_responses_for(&resource, 30);
    responses[2] = segment_response(b"wrong length");
    assert_eq!(
        reassemble(100, 30, &responses),
        Err(ProtocolError::BodyLengthMismatch)
    );
}

#[test]
fn pipeline_digest_matches_direct_digest() {
    let resource: Vec<u8> = (0u8..=255).cycle().take(150).collect();
    let size_resp = size_response(resource.len());
    let responses = segment_responses_for(&resource, 64);
    let digest = run_pipeline(&size_resp, &responses, 64).unwrap();
    assert_eq!(digest, digest_bytes(&resource));
}

#[test]
fn pipeline_is_idempotent_across_runs() {
    let resource: Vec<u8> = (7u8..=77).cycle().take(500).collect();
    let size_resp = size_response(resource.len());
    let responses = segment_responses_for(&resource, 128);
    let first = run_pipeline(&size_resp, &responses, 128).unwrap();
    let second = run_pipeline(&size_resp, &responses, 128).unwrap();
    assert_eq!(first, second);
}

#[test]
fn pipeline_aborts_before_segments_when_length_is_missing() {
    let size_resp: Vec<u8> = b"HTTP/1.1 200 OK\r\nServer: x\r\n\r\nbody".to_vec();
    let responses: Vec<Vec<u8>> = Vec::new();
    assert_eq!(
        run_pipeline(&size_resp, &responses, 64),
        Err(ProtocolError::MissingContentLength)
    );
}

#[test]
fn digest_is_32_bytes_and_not_the_input() {
    let data: Vec<u8> = b"abc".to_vec();
    let digest = digest_bytes(&data);
    assert_eq!(digest.len(), 32);
    assert_ne!(digest, data);
}

#[test]
fn digest_matches_known_sha256_of_abc() {
    let digest = digest_bytes(&b"abc".to_vec());
    let expected: Vec<u8> = vec![
        0xba, 0x78, 0x16, 0xbf, 0x8f, 0x01, 0xcf, 0xea, 0x41, 0x41, 0x40, 0xde, 0x5d, 0xae,
        0x22, 0x23, 0xb0, 0x03, 0x61, 0xa3, 0x96, 0x17, 0x7a, 0x9c, 0xb4, 0x10, 0xff, 0x61,
        0xf2, 0x00, 0x15, 0xad,
    ];
    assert_eq!(digest, expected);
}

#[test]
fn digest_matches_known_sha256_of_empty_input() {
    let digest = digest_bytes(&Vec::new());
    let expected: Vec<u8> = vec![
        0xe3, 0xb0, 0xc4, 0x42, 0x98, 0xfc, 0x1c, 0x14, 0x9a, 0xfb, 0xf4, 0xc8, 0x99, 0x6f,
        0xb9, 0x24, 0x27, 0xae, 0x41, 0xe4, 0x64, 0x9b, 0x93, 0x4c, 0xa4, 0x95, 0x99, 0x1b,
        0x78, 0x52, 0xb8, 0x55,
    ];
    assert_eq!(digest, expected);
}

#[test]
fn example_three_window_download_end_to_end() {
    let resource: Vec<u8> = (0u8..=255).cycle().take(150000).collect();
    let size_resp = size_response(resource.len());
    let responses = segment_responses_for(&resource, 64000);
    assert_eq!(responses.len(), 3);
    let buf = reassemble(150000, 64000, &responses).unwrap();
    assert_eq!(buf, resource);
    let digest = run_pipeline(&size_resp, &responses, 64000).unwrap();
    assert_eq!(digest, digest_bytes(&resource));
}
