//! Frame decoding across read boundaries, false delimiter prefixes, and
//! frame size enforcement.

use framed_relay::codec::{delim_bytes, FrameDecoder, Poll, MAX_FRAME};

fn frame(payload: &[u8]) -> Vec<u8> {
    let mut v = payload.to_vec();
    v.extend_from_slice(&delim_bytes());
    v
}

fn drain_frames(dec: &mut FrameDecoder) -> Vec<Vec<u8>> {
    let mut frames = Vec::new();
    loop {
        match dec.poll() {
            Poll::Frame(f) => frames.push(f),
            Poll::Pending => return frames,
            Poll::Violation => panic!("unexpected protocol violation"),
        }
    }
}

#[test]
fn yields_each_frame_exactly_once() {
    let mut stream = Vec::new();
    let payloads: Vec<&[u8]> = vec![b"abc", b"", b"second frame"];
    for p in &payloads {
        stream.extend_from_slice(&frame(p));
    }
    let mut dec = FrameDecoder::new();
    dec.push(&stream);
    let frames = drain_frames(&mut dec);
    assert_eq!(frames.len(), 3);
    for (got, want) in frames.iter().zip(payloads.iter()) {
        assert_eq!(got.as_slice(), *want);
    }
}

#[test]
fn payload_bytes_that_look_like_delimiter_parts_do_not_split() {
    // The payload holds the delimiter's trailing byte, its leading byte,
    // and a two-byte delimiter prefix, none of them a true boundary.
    let payload: &[u8] = &[0x0A, 0x01, 0xFF, 0x02, 0xFF, 0x0D, 0x03];
    let mut dec = FrameDecoder::new();
    dec.push(&frame(payload));
    let frames = drain_frames(&mut dec);
    assert_eq!(frames.len(), 1);
    assert_eq!(frames[0].as_slice(), payload);
}

#[test]
fn delimiter_split_across_reads_is_reassembled() {
    let mut dec = FrameDecoder::new();
    dec.push(&[b'h', b'e', 0xFF]);
    assert!(matches!(dec.poll(), Poll::Pending));
    dec.push(&[0x0D]);
    assert!(matches!(dec.poll(), Poll::Pending));
    dec.push(&[0x0A]);
    match dec.poll() {
        Poll::Frame(f) => assert_eq!(f.as_slice(), b"he"),
        _ => panic!("expected a complete frame"),
    }
    assert!(matches!(dec.poll(), Poll::Pending));
}

#[test]
fn one_byte_reads_yield_the_same_frames() {
    let payloads: Vec<&[u8]> = vec![b"x", &[0xFF, 0x0D], b"tail"];
    let mut stream = Vec::new();
    for p in &payloads {
        stream.extend_from_slice(&frame(p));
    }
    let mut dec = FrameDecoder::new();
    let mut frames = Vec::new();
    for b in &stream {
        dec.push(&[*b]);
        frames.extend(drain_frames(&mut dec));
    }
    assert_eq!(frames.len(), 3);
    for (got, want) in frames.iter().zip(payloads.iter()) {
        assert_eq!(got.as_slice(), *want);
    }
}

#[test]
fn largest_frame_that_fits_is_yielded() {
    let payload = vec![7u8; MAX_FRAME - 3];
    let mut dec = FrameDecoder::new();
    dec.push(&frame(&payload));
    match dec.poll() {
        Poll::Frame(f) => assert_eq!(f, payload),
        _ => panic!("expected a complete frame"),
    }
}

#[test]
fn complete_frame_over_the_bound_is_a_violation() {
    let payload = vec![7u8; MAX_FRAME - 2];
    let mut dec = FrameDecoder::new();
    dec.push(&frame(&payload));
    assert!(matches!(dec.poll(), Poll::Violation));
}

#[test]
fn delimiter_free_stream_over_the_bound_is_a_violation() {
    let mut dec = FrameDecoder::new();
    dec.push(&vec![1u8; MAX_FRAME]);
    assert!(matches!(dec.poll(), Poll::Violation));
}

#[test]
fn delimiter_free_stream_under_the_bound_is_pending() {
    let mut dec = FrameDecoder::new();
    dec.push(&vec![1u8; MAX_FRAME - 1]);
    assert!(matches!(dec.poll(), Poll::Pending));
}
