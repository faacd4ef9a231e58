//! End-to-end scenarios through the connection handler, the registry
//! and the acceptor state machine.

use wal_acceptor::acceptor::SkError;
use wal_acceptor::conn::{ConnError, ConnOutcome, ConnState};
use wal_acceptor::lsn::Lsn;
use wal_acceptor::messages::{
    AcceptorReply, AppendRequest, Greeting, ProposerAcceptorMessage, serialize_reply,
};
use wal_acceptor::registry::{GlobalMap, TenantTimelineId};

const SEG_16MB: u32 = 16 * 1024 * 1024;

fn greeting(term: u64) -> ProposerAcceptorMessage {
    ProposerAcceptorMessage::Greeting(Greeting {
        term,
        tenant_id: 7,
        timeline_id: 9,
        pg_version: 140000,
        system_id: 42,
        wal_seg_size: SEG_16MB,
    })
}

fn append(term: u64, start: u64, end: u64) -> ProposerAcceptorMessage {
    ProposerAcceptorMessage::AppendRequest(AppendRequest {
        term,
        start_lsn: Lsn(start),
        end_lsn: Lsn(end),
        wal_data: vec![0x5A; (end - start) as usize],
    })
}

#[test]
fn fresh_timeline_scenario() {
    let mut global = GlobalMap::new(vec![], 1).unwrap();
    let mut conn = ConnState::new();

    let r = conn.process(greeting(1), &mut global).unwrap();
    assert!(r.is_none());
    let ttid = TenantTimelineId::new(7, 9);
    assert!(global.has_tli(&ttid));
    assert_eq!(global.get(&ttid).state.commit_lsn, Lsn(0));
    assert_eq!(global.get(&ttid).state.term, 1);

    let r = conn.process(append(1, 0, 4096), &mut global).unwrap();
    assert!(r.is_none()); // buffered: no reply before the flush

    let reply = conn.flush(&mut global).unwrap().unwrap();
    let expected = AcceptorReply { term: 1, flush_lsn: Lsn(4096), commit_lsn: Lsn(4096) };
    assert_eq!(reply, serialize_reply(&expected));
    assert_eq!(global.get(&ttid).state.commit_lsn, Lsn(4096));
    assert_eq!(global.get(&ttid).state.flush_lsn, Lsn(4096));
}

#[test]
fn stale_term_rejected_scenario() {
    let mut global = GlobalMap::new(vec![], 1).unwrap();
    let mut conn = ConnState::new();
    conn.process(greeting(1), &mut global).unwrap();
    conn.process(append(1, 0, 4096), &mut global).unwrap();
    conn.flush(&mut global).unwrap();

    let ttid = TenantTimelineId::new(7, 9);
    let term_before = global.get(&ttid).state.term;
    let flush_before = global.get(&ttid).state.flush_lsn;
    let commit_before = global.get(&ttid).state.commit_lsn;

    // A proposer whose term was superseded sends more WAL: the append
    // is rejected, the connection closes, and nothing changed.
    let r = conn.process(append(0, 4096, 8192), &mut global);
    assert_eq!(r, Err(ConnError::Sk(SkError::StaleTerm)));
    assert_eq!(global.get(&ttid).state.term, term_before);
    assert_eq!(global.get(&ttid).state.flush_lsn, flush_before);
    assert_eq!(global.get(&ttid).state.commit_lsn, commit_before);
}

#[test]
fn term_rises_and_lower_terms_bounce() {
    let mut global = GlobalMap::new(vec![], 1).unwrap();
    let mut conn = ConnState::new();
    conn.process(greeting(1), &mut global).unwrap();
    conn.process(append(2, 0, 10), &mut global).unwrap();
    let ttid = TenantTimelineId::new(7, 9);
    assert_eq!(global.get(&ttid).state.term, 2);

    // term 1 < 2: rejected with no state change
    let r = conn.process(append(1, 10, 20), &mut global);
    assert_eq!(r, Err(ConnError::Sk(SkError::StaleTerm)));
    assert_eq!(global.get(&ttid).state.term, 2);

    // equal term still accepted
    let mut conn2 = ConnState::new();
    conn2.process(greeting(2), &mut global).unwrap();
    assert_eq!(global.get(&ttid).state.term, 2);
}

#[test]
fn lsn_invariant_holds_along_the_way() {
    let mut global = GlobalMap::new(vec![], 1).unwrap();
    let mut conn = ConnState::new();
    conn.process(greeting(1), &mut global).unwrap();
    let ttid = TenantTimelineId::new(7, 9);
    for step in 0..4u64 {
        conn.process(append(1, step * 100, (step + 1) * 100), &mut global).unwrap();
        conn.flush(&mut global).unwrap();
        let st = &global.get(&ttid).state;
        assert!(st.commit_lsn.0 >= st.local_start_lsn.0);
        assert!(st.flush_lsn.0 >= st.commit_lsn.0);
    }
}

#[test]
fn first_message_must_be_greeting() {
    let mut global = GlobalMap::new(vec![], 1).unwrap();
    let mut conn = ConnState::new();
    let r = conn.process(append(1, 0, 10), &mut global);
    assert_eq!(r, Err(ConnError::UnexpectedMessage));
}

#[test]
fn second_greeting_with_other_seg_size_is_fatal_mismatch() {
    let mut global = GlobalMap::new(vec![], 1).unwrap();
    let mut conn = ConnState::new();
    conn.process(greeting(1), &mut global).unwrap();

    let mut conn2 = ConnState::new();
    let other = ProposerAcceptorMessage::Greeting(Greeting {
        term: 1,
        tenant_id: 7,
        timeline_id: 9,
        pg_version: 140000,
        system_id: 42,
        wal_seg_size: 1024 * 1024,
    });
    let r = conn2.process(other, &mut global);
    assert_eq!(r, Err(ConnError::Sk(SkError::ServerInfoMismatch)));
}

#[test]
fn append_with_gap_is_rejected() {
    let mut global = GlobalMap::new(vec![], 1).unwrap();
    let mut conn = ConnState::new();
    conn.process(greeting(1), &mut global).unwrap();
    // nothing buffered yet, an append starting at 100 leaves a gap
    let r = conn.process(append(1, 100, 200), &mut global);
    assert_eq!(r, Err(ConnError::Sk(SkError::AppendGap)));
}

#[test]
fn overlapping_retransmit_overwrites() {
    let mut global = GlobalMap::new(vec![], 1).unwrap();
    let mut conn = ConnState::new();
    conn.process(greeting(1), &mut global).unwrap();
    conn.process(append(1, 0, 100), &mut global).unwrap();
    // retransmit of [50, 100) plus new bytes up to 150
    conn.process(append(1, 50, 150), &mut global).unwrap();
    let reply = conn.flush(&mut global).unwrap().unwrap();
    let expected = AcceptorReply { term: 1, flush_lsn: Lsn(150), commit_lsn: Lsn(150) };
    assert_eq!(reply, serialize_reply(&expected));
}

#[test]
fn flush_without_pending_append_is_a_no_op() {
    let mut global = GlobalMap::new(vec![], 1).unwrap();
    let mut conn = ConnState::new();
    conn.process(greeting(1), &mut global).unwrap();
    assert_eq!(conn.flush(&mut global), Ok(None));
}

#[test]
fn start_replication_serves_wal_bytes() {
    let mut global = GlobalMap::new(vec![], 1).unwrap();
    let mut conn = ConnState::new();
    conn.process(greeting(1), &mut global).unwrap();
    let msg = ProposerAcceptorMessage::AppendRequest(AppendRequest {
        term: 1,
        start_lsn: Lsn(0),
        end_lsn: Lsn(8),
        wal_data: vec![10, 11, 12, 13, 14, 15, 16, 17],
    });
    conn.process(msg, &mut global).unwrap();
    conn.flush(&mut global).unwrap();

    let mut reader = ConnState::new();
    let cmd =
        b"START_REPLICATION 00000000000000000000000000000007 00000000000000000000000000000009 2 6";
    let r = reader.process_any(cmd, &mut global).unwrap();
    assert_eq!(r, ConnOutcome::ReplyAndClose(vec![12, 13, 14, 15]));
}

#[test]
fn start_replication_bad_command_refused() {
    let mut global = GlobalMap::new(vec![], 1).unwrap();
    let mut reader = ConnState::new();
    let r = reader.process_any(b"START_REPLICATION not hex at all", &mut global);
    assert_eq!(r, Err(ConnError::BadStartReplication));
}

#[test]
fn start_replication_unknown_timeline_refused() {
    let mut global = GlobalMap::new(vec![], 1).unwrap();
    let mut reader = ConnState::new();
    let cmd =
        b"START_REPLICATION 000000000000000000000000000000aa 000000000000000000000000000000bb 0 4";
    let r = reader.process_any(cmd, &mut global);
    assert_eq!(r, Err(ConnError::BadReadRange));
}

#[test]
fn start_replication_range_past_wal_refused() {
    let mut global = GlobalMap::new(vec![], 1).unwrap();
    let mut conn = ConnState::new();
    conn.process(greeting(1), &mut global).unwrap();
    let mut reader = ConnState::new();
    let cmd =
        b"START_REPLICATION 00000000000000000000000000000007 00000000000000000000000000000009 0 4";
    let r = reader.process_any(cmd, &mut global);
    assert_eq!(r, Err(ConnError::BadReadRange));
}

#[test]
fn unparseable_frame_closes_connection() {
    let mut global = GlobalMap::new(vec![], 1).unwrap();
    let mut conn = ConnState::new();
    let r = conn.process_any(&[250, 1, 2], &mut global);
    assert!(matches!(r, Err(ConnError::Parse(_))));
}
