//! The receiver pipeline end to end: stamping, fan-out, publish order, and
//! session teardown on protocol violation.

use framed_relay::codec::{delim_bytes, MAX_FRAME};
use framed_relay::epoch_now;
use framed_relay::receiver::{fan_out, IngestResult, Receiver};
use framed_relay::stamp::{decimal_bytes, stamp};

fn frame(payload: &[u8]) -> Vec<u8> {
    let mut v = payload.to_vec();
    v.extend_from_slice(&delim_bytes());
    v
}

fn published(r: IngestResult) -> Vec<Vec<u8>> {
    match r {
        IngestResult::Published(msgs) => msgs,
        IngestResult::Abort(_) => panic!("unexpected protocol violation"),
    }
}

#[test]
fn decimal_rendering_exact_values() {
    assert_eq!(decimal_bytes(0), b"0".to_vec());
    assert_eq!(decimal_bytes(7), b"7".to_vec());
    assert_eq!(decimal_bytes(10), b"10".to_vec());
    assert_eq!(decimal_bytes(1234567890123), b"1234567890123".to_vec());
    assert_eq!(
        decimal_bytes(340282366920938463463374607431768211455),
        b"340282366920938463463374607431768211455".to_vec()
    );
}

#[test]
fn stamp_appends_decimal_time_and_delimiter() {
    let msg = stamp(&b"hello".to_vec(), 10_000_000_000_000);
    let mut want = b"hello10000000000000".to_vec();
    want.extend_from_slice(&delim_bytes());
    assert_eq!(msg, want);
}

#[test]
fn stamp_of_empty_payload_is_time_and_delimiter() {
    let msg = stamp(&Vec::new(), 5);
    let mut want = b"5".to_vec();
    want.extend_from_slice(&delim_bytes());
    assert_eq!(msg, want);
}

#[test]
fn hello_frame_reaches_both_destinations_stamped() {
    // One producer frame, two configured destinations: each destination's
    // queue receives the payload, a 14-digit millisecond timestamp, and the
    // delimiter.
    let now: u128 = 10_000_000_000_000;
    let mut rx = Receiver::new();
    rx.accept();
    let msgs = published(rx.ingest(&frame(b"hello"), now));
    assert_eq!(msgs.len(), 1);
    let copies = fan_out(&msgs[0], 2);
    assert_eq!(copies.len(), 2);
    let mut want = b"hello10000000000000".to_vec();
    want.extend_from_slice(&delim_bytes());
    assert_eq!(want.len(), 5 + 14 + 3);
    for c in &copies {
        assert_eq!(*c, want);
    }
}

#[test]
fn round_trip_preserves_payload_bytes_exactly() {
    let payload: Vec<u8> = (0u8..=255).filter(|b| *b != 0xFF).collect();
    let mut rx = Receiver::new();
    rx.accept();
    let msgs = published(rx.ingest(&frame(&payload), 77));
    assert_eq!(msgs.len(), 1);
    assert_eq!(&msgs[0][..payload.len()], payload.as_slice());
    let tail = &msgs[0][payload.len()..];
    assert_eq!(tail, b"77\xFF\x0D\x0A");
}

#[test]
fn publish_order_follows_arrival_order() {
    // Sequence numbers embedded in the payloads: message i is published
    // before message i + 1.
    let mut stream = Vec::new();
    for i in 0..10u8 {
        stream.extend_from_slice(&frame(format!("seq-{i}").as_bytes()));
    }
    let mut rx = Receiver::new();
    rx.accept();
    let msgs = published(rx.ingest(&stream, 1));
    assert_eq!(msgs.len(), 10);
    for (i, m) in msgs.iter().enumerate() {
        let mut want = format!("seq-{i}1").into_bytes();
        want.extend_from_slice(&delim_bytes());
        assert_eq!(*m, want);
    }
}

#[test]
fn frames_split_across_ingest_calls_are_reassembled() {
    let mut rx = Receiver::new();
    rx.accept();
    let all = frame(b"left-right");
    let first = published(rx.ingest(&all[..4], 3));
    assert!(first.is_empty());
    let second = published(rx.ingest(&all[4..], 3));
    assert_eq!(second.len(), 1);
    assert!(second[0].starts_with(b"left-right"));
}

#[test]
fn oversized_frame_aborts_and_publishes_nothing() {
    let mut rx = Receiver::new();
    rx.accept();
    // More than a frame's worth of bytes with no delimiter, fed in two
    // reads: nothing is published, then the session aborts.
    let first = published(rx.ingest(&vec![9u8; MAX_FRAME - 1], 2));
    assert!(first.is_empty());
    match rx.ingest(&vec![9u8; 2], 2) {
        IngestResult::Abort(msgs) => assert!(msgs.is_empty()),
        IngestResult::Published(_) => panic!("oversized frame must abort the session"),
    }
    assert!(!rx.is_active());
    // A fresh session starts with an empty buffer: the stale bytes are gone.
    rx.accept();
    let msgs = published(rx.ingest(&frame(b"fresh"), 4));
    assert_eq!(msgs.len(), 1);
    assert!(msgs[0].starts_with(b"fresh"));
}

#[test]
fn frames_before_a_violation_are_still_published() {
    let mut rx = Receiver::new();
    rx.accept();
    let mut stream = frame(b"good");
    stream.extend_from_slice(&vec![8u8; MAX_FRAME + 1]);
    match rx.ingest(&stream, 6) {
        IngestResult::Abort(msgs) => {
            assert_eq!(msgs.len(), 1);
            let mut want = b"good6".to_vec();
            want.extend_from_slice(&delim_bytes());
            assert_eq!(msgs[0], want);
        }
        IngestResult::Published(_) => panic!("oversized frame must abort the session"),
    }
    assert!(!rx.is_active());
}

#[test]
fn fan_out_copies_one_message_per_destination() {
    let msg = b"payload".to_vec();
    let copies = fan_out(&msg, 3);
    assert_eq!(copies.len(), 3);
    for c in &copies {
        assert_eq!(*c, msg);
    }
    assert!(fan_out(&msg, 0).is_empty());
}

#[test]
fn epoch_now_is_after_the_unix_epoch() {
    // The system clock of any machine running this is set past 2001.
    assert!(epoch_now() > 1_000_000_000_000);
}
