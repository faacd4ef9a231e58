//! Frame-level tests of the proposer--acceptor message codec.

use wal_acceptor::lsn::Lsn;
use wal_acceptor::messages::{
    AcceptorReply, AppendRequest, Greeting, ParseError, ProposerAcceptorMessage, parse_msg,
    serialize_msg, serialize_reply,
};

fn sample_greeting() -> Greeting {
    Greeting {
        term: 3,
        tenant_id: 0x11000000_00000000_00000000_00000007,
        timeline_id: 0x22000000_00000000_00000000_00000009,
        pg_version: 140000,
        system_id: 4242,
        wal_seg_size: 16 * 1024 * 1024,
    }
}

#[test]
fn greeting_round_trip() {
    let msg = ProposerAcceptorMessage::Greeting(sample_greeting());
    let frame = serialize_msg(&msg);
    assert_eq!(frame.len(), 57);
    assert_eq!(frame[0], 1);
    let back = parse_msg(&frame).unwrap();
    assert_eq!(back, msg);
}

#[test]
fn append_round_trip() {
    let msg = ProposerAcceptorMessage::AppendRequest(AppendRequest {
        term: 7,
        start_lsn: Lsn(100),
        end_lsn: Lsn(104),
        wal_data: vec![0xAA, 0xBB, 0xCC, 0xDD],
    });
    let frame = serialize_msg(&msg);
    assert_eq!(frame.len(), 29);
    assert_eq!(frame[0], 2);
    let back = parse_msg(&frame).unwrap();
    assert_eq!(back, msg);
}

#[test]
fn no_flush_append_travels_as_append() {
    let a = AppendRequest { term: 1, start_lsn: Lsn(0), end_lsn: Lsn(1), wal_data: vec![9] };
    let noflush = ProposerAcceptorMessage::NoFlushAppendRequest(a.clone());
    let frame = serialize_msg(&noflush);
    let back = parse_msg(&frame).unwrap();
    assert_eq!(back, ProposerAcceptorMessage::AppendRequest(a));
}

#[test]
fn flush_round_trip() {
    let msg = ProposerAcceptorMessage::FlushWAL;
    let frame = serialize_msg(&msg);
    assert_eq!(frame, vec![3u8]);
    assert_eq!(parse_msg(&frame).unwrap(), msg);
}

#[test]
fn reply_frame_exact_bytes() {
    let reply = AcceptorReply { term: 1, flush_lsn: Lsn(4096), commit_lsn: Lsn(4096) };
    let frame = serialize_reply(&reply);
    let mut expected = vec![4u8];
    expected.extend_from_slice(&1u64.to_le_bytes());
    expected.extend_from_slice(&4096u64.to_le_bytes());
    expected.extend_from_slice(&4096u64.to_le_bytes());
    assert_eq!(frame, expected);
}

#[test]
fn empty_frame_is_unknown_tag() {
    assert_eq!(parse_msg(&[]), Err(ParseError::UnknownTag));
}

#[test]
fn unknown_tag_byte_refused() {
    assert_eq!(parse_msg(&[99, 0, 0]), Err(ParseError::UnknownTag));
}

#[test]
fn greeting_frame_with_wrong_length_refused() {
    let msg = ProposerAcceptorMessage::Greeting(sample_greeting());
    let mut frame = serialize_msg(&msg);
    frame.pop();
    assert_eq!(parse_msg(&frame), Err(ParseError::BadLength));
}

#[test]
fn flush_frame_with_trailing_bytes_refused() {
    assert_eq!(parse_msg(&[3, 0]), Err(ParseError::BadLength));
}

#[test]
fn append_frame_too_short_refused() {
    assert_eq!(parse_msg(&[2, 0, 0, 0]), Err(ParseError::BadLength));
}

#[test]
fn append_frame_with_mismatched_range_refused() {
    // end - start says 4 bytes, but the payload holds 3.
    let msg = ProposerAcceptorMessage::AppendRequest(AppendRequest {
        term: 7,
        start_lsn: Lsn(100),
        end_lsn: Lsn(104),
        wal_data: vec![0xAA, 0xBB, 0xCC, 0xDD],
    });
    let mut frame = serialize_msg(&msg);
    frame.pop();
    assert_eq!(parse_msg(&frame), Err(ParseError::BadRange));
}

#[test]
fn append_frame_with_reversed_range_refused() {
    let mut frame = vec![2u8];
    frame.extend_from_slice(&1u64.to_le_bytes());
    frame.extend_from_slice(&10u64.to_le_bytes()); // start
    frame.extend_from_slice(&4u64.to_le_bytes()); // end < start
    assert_eq!(parse_msg(&frame), Err(ParseError::BadRange));
}
