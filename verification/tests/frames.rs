//! What crosses the boundary of the sandbox.
use machine_elves::frame::{decode_frame, encode_frame, FrameError, MAX_BLOB};

#[test]
fn frames_round_trip() {
    let frame = encode_frame(b"state", b"inputs");
    let (state, inputs) = decode_frame(&frame).expect("decodes");
    assert_eq!(state, b"state");
    assert_eq!(inputs, b"inputs");
}

#[test]
fn empty_blocks_are_valid() {
    // A job's first tick has no prior state, and a quiet tick produces no
    // effects. Neither is an error.
    let frame = encode_frame(b"", b"");
    assert_eq!(decode_frame(&frame).expect("decodes"), (vec![], vec![]));
}

#[test]
fn rejects_a_length_that_runs_past_the_buffer() {
    // The guest picks these numbers, so believing them is how a sandboxed
    // job reads memory that was never handed to it.
    let mut frame = encode_frame(b"abc", b"");
    frame[0] = 0xFF;
    assert!(decode_frame(&frame).is_err());
}

#[test]
fn rejects_a_truncated_header() {
    assert!(decode_frame(&[1, 2]).is_err());
}

#[test]
fn rejects_an_absurd_length() {
    let mut frame = vec![];
    frame.extend_from_slice(&(u32::MAX).to_le_bytes());
    assert!(decode_frame(&frame).is_err());
}

#[test]
fn a_frame_byte_for_byte() {
    assert_eq!(encode_frame(b"ab", b"c"), [2, 0, 0, 0, b'a', b'b', 1, 0, 0, 0, b'c']);
}

#[test]
fn every_frame_error_says_what_is_wrong() {
    let message = |bytes: &[u8]| decode_frame(bytes).unwrap_err().message();
    assert_eq!(message(&[1, 2]), "truncated length header");
    assert_eq!(
        message(&u32::MAX.to_le_bytes()),
        "block claims 4294967295 bytes, over the 16777216 limit"
    );
    assert_eq!(message(&[5, 0, 0, 0, 1, 2]), "block claims 5 bytes but only 2 remain");
    assert_eq!(FrameError::TruncatedLength.message(), "truncated length");
    assert_eq!(FrameError::LengthOverflows.message(), "length overflows");
}

#[test]
fn a_block_over_the_limit_is_refused_even_where_it_is_all_there() {
    let big = vec![0u8; MAX_BLOB + 1];
    assert!(decode_frame(&encode_frame(&big, b"")).is_err());
    assert!(decode_frame(&encode_frame(b"", &big)).is_err());
    assert!(decode_frame(&encode_frame(&big[1..], b"")).is_ok());
}

#[test]
fn what_follows_a_frame_is_ignored() {
    let mut frame = encode_frame(b"a", b"b");
    frame.extend_from_slice(b"more");
    assert_eq!(decode_frame(&frame).expect("decodes"), (b"a".to_vec(), b"b".to_vec()));
}
