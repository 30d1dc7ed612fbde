use coder::frame::FRAME_DETACH;
use coder::frame::FRAME_EXIT;
use coder::frame::FRAME_STDOUT;
use coder::frame::FrameError;
use coder::frame::MAX_PAYLOAD;
use coder::frame::ReadFailure;
use coder::frame::exit_payload;
use coder::frame::failed_read;
use coder::frame::read_exit_payload;
use coder::frame::read_failure_is_end;
use coder::frame::read_frame;
use coder::frame::read_header;
use coder::frame::read_resize_payload;
use coder::frame::resize_payload;
use coder::frame::write_frame;

#[test]
fn frames_are_written_with_a_little_endian_length() {
    let mut out = b"before".to_vec();
    assert_eq!(write_frame(&mut out, FRAME_STDOUT, b"hello"), Ok(()));
    assert_eq!(out, b"before\x01\x05\x00\x00\x00hello");
}

#[test]
fn frames_are_read_back() {
    let payload = vec![7u8; 70000];
    let mut out = Vec::new();
    write_frame(&mut out, FRAME_EXIT, &payload).unwrap();
    out.extend_from_slice(b"rest");
    assert_eq!(read_frame(&out), Ok(Some((FRAME_EXIT, payload))));
    let mut empty = Vec::new();
    write_frame(&mut empty, FRAME_DETACH, &[]).unwrap();
    assert_eq!(read_frame(&empty), Ok(Some((FRAME_DETACH, Vec::new()))));
}

#[test]
fn cut_frames_are_not_read() {
    let mut out = Vec::new();
    write_frame(&mut out, FRAME_STDOUT, b"hello").unwrap();
    for n in 0..5 {
        assert_eq!(read_frame(&out[..n]), Ok(None));
    }
    for n in 5..out.len() {
        assert_eq!(read_frame(&out[..n]), Err(FrameError::UnexpectedEof));
    }
}

#[test]
fn payloads_beyond_the_limit_are_refused() {
    let n = MAX_PAYLOAD as u32;
    let mut header = [1u8, 0, 0, 0, 0];
    header[1..].copy_from_slice(&n.to_le_bytes());
    assert_eq!(read_header(&header), Ok((1, MAX_PAYLOAD)));
    assert_eq!(read_frame(&header), Err(FrameError::UnexpectedEof));
    header[1..].copy_from_slice(&(n + 1).to_le_bytes());
    assert_eq!(read_header(&header), Err(FrameError::PayloadTooLarge));
    assert_eq!(read_frame(&header), Err(FrameError::PayloadTooLarge));
}

#[test]
fn exit_codes_are_sent_as_four_bytes() {
    for code in [0, 1, -1, 42, i32::MIN, i32::MAX, -1073741801] {
        assert_eq!(exit_payload(code), code.to_le_bytes());
        assert_eq!(read_exit_payload(&exit_payload(code)), Some(code));
    }
    assert_eq!(read_exit_payload(&[1, 2, 3]), None);
    assert_eq!(read_exit_payload(&[1, 2, 3, 4, 5]), None);
}

#[test]
fn sizes_are_sent_as_four_bytes() {
    assert_eq!(resize_payload(0x1234, 0x5678), [0x34, 0x12, 0x78, 0x56]);
    assert_eq!(read_resize_payload(&resize_payload(120, 30)), Some((120, 30)));
    assert_eq!(read_resize_payload(&resize_payload(65535, 0)), Some((65535, 0)));
    assert_eq!(read_resize_payload(&[1, 2, 3]), None);
}

#[test]
fn connections_end_before_a_header_only() {
    let closed =
        [ReadFailure::UnexpectedEof, ReadFailure::ConnectionReset, ReadFailure::ConnectionAborted];
    for failure in closed {
        assert!(read_failure_is_end(true, failure));
        assert!(!read_failure_is_end(false, failure));
        assert_eq!(failed_read(true, failure, "e"), Ok(None));
        assert_eq!(failed_read(false, failure, "e"), Err("e"));
    }
    for in_header in [true, false] {
        assert!(!read_failure_is_end(in_header, ReadFailure::Other));
        assert_eq!(failed_read(in_header, ReadFailure::Other, "e"), Err("e"));
    }
}
