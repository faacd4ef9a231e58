//! Loading and creating timelines in the registry, plus the plain
//! parsers and administrative types.

use wal_acceptor::acceptor::SafeKeeperState;
use wal_acceptor::backup::{PartialRemoteSegment, State, UploadStatus};
use wal_acceptor::compute::_upgrade;
use wal_acceptor::lsn::Lsn;
use wal_acceptor::messages::ServerInfo;
use wal_acceptor::node_policy::{
    NodeAvailability, NodePolicyError, NodeSchedulingPolicy,
};
use wal_acceptor::parsenum::{parse_dec_u64, parse_hex32_u128, split_bytes};
use wal_acceptor::registry::{GlobalMap, TenantTimelineId, TimelineError, TimelineLoad};

fn server_info() -> ServerInfo {
    ServerInfo { pg_version: 140000, system_id: 42, wal_seg_size: 16 * 1024 * 1024 }
}

fn good_state() -> SafeKeeperState {
    let mut st = SafeKeeperState::new(server_info(), Lsn(0), Lsn(0));
    st.term = 3;
    st.commit_lsn = Lsn(100);
    st.flush_lsn = Lsn(200);
    st
}

fn load(ttid_lo: u128, state: SafeKeeperState, wal_len: usize) -> TimelineLoad {
    TimelineLoad {
        ttid: TenantTimelineId::new(ttid_lo, ttid_lo + 1),
        state,
        wal: vec![0u8; wal_len],
    }
}

#[test]
fn loading_valid_timelines_succeeds() {
    let g = GlobalMap::new(vec![load(1, good_state(), 200), load(5, good_state(), 300)], 9)
        .unwrap();
    assert!(g.has_tli(&TenantTimelineId::new(1, 2)));
    assert!(g.has_tli(&TenantTimelineId::new(5, 6)));
    assert!(!g.has_tli(&TenantTimelineId::new(2, 3)));
    let sk = g.get(&TenantTimelineId::new(1, 2));
    assert_eq!(sk.state.term, 3);
    assert_eq!(sk.node_id, 9);
}

#[test]
fn zero_seg_size_refuses_startup() {
    let mut st = good_state();
    st.server.wal_seg_size = 0;
    let r = GlobalMap::new(vec![load(1, st, 200)], 9);
    assert_eq!(r.err(), Some(TimelineError::UninitializedWalSegSize));
}

#[test]
fn unknown_pg_version_refuses_startup() {
    let mut st = good_state();
    st.server.pg_version = 0;
    let r = GlobalMap::new(vec![load(1, st, 200)], 9);
    assert_eq!(r.err(), Some(TimelineError::UninitializedPgVersion));
}

#[test]
fn commit_below_local_start_is_corrupt() {
    let mut st = good_state();
    st.local_start_lsn = Lsn(150);
    let r = GlobalMap::new(vec![load(1, st, 200)], 9);
    assert_eq!(r.err(), Some(TimelineError::LsnOrderViolation));
}

#[test]
fn flush_below_commit_is_corrupt() {
    let mut st = good_state();
    st.flush_lsn = Lsn(50);
    let r = GlobalMap::new(vec![load(1, st, 200)], 9);
    assert_eq!(r.err(), Some(TimelineError::LsnOrderViolation));
}

#[test]
fn wal_shorter_than_flush_is_missing_wal() {
    let r = GlobalMap::new(vec![load(1, good_state(), 100)], 9);
    assert_eq!(r.err(), Some(TimelineError::MissingWal));
}

#[test]
fn two_uploaded_backups_are_corrupt() {
    let seg = PartialRemoteSegment {
        status: UploadStatus::Uploaded,
        name: "n".to_string(),
        commit_lsn: Lsn(1),
        flush_lsn: Lsn(1),
        term: 1,
    };
    let mut st = good_state();
    st.partial_backup = State { segments: vec![seg.clone(), seg] };
    let r = GlobalMap::new(vec![load(1, st, 200)], 9);
    assert_eq!(r.err(), Some(TimelineError::BackupListCorrupt));
}

#[test]
fn duplicate_timeline_ids_refuse_startup() {
    let a = TimelineLoad {
        ttid: TenantTimelineId::new(1, 2),
        state: good_state(),
        wal: vec![0u8; 200],
    };
    let b = TimelineLoad {
        ttid: TenantTimelineId::new(1, 2),
        state: good_state(),
        wal: vec![0u8; 200],
    };
    let r = GlobalMap::new(vec![a, b], 9);
    assert_eq!(r.err(), Some(TimelineError::AlreadyExists));
}

#[test]
fn create_validates_server_facts() {
    let mut g = GlobalMap::new(vec![], 9).unwrap();
    let ttid = TenantTimelineId::new(1, 2);
    let mut bad = server_info();
    bad.wal_seg_size = 0;
    assert_eq!(g.create(ttid, bad), Err(TimelineError::UninitializedWalSegSize));
    let mut bad = server_info();
    bad.pg_version = 0;
    assert_eq!(g.create(ttid, bad), Err(TimelineError::UninitializedPgVersion));
    assert_eq!(g.create(ttid, server_info()), Ok(()));
    assert_eq!(g.create(ttid, server_info()), Err(TimelineError::AlreadyExists));
    let sk = g.get(&ttid);
    assert_eq!(sk.state.term, 0);
    assert_eq!(sk.state.commit_lsn, Lsn(0));
    assert_eq!(sk.state.local_start_lsn, Lsn(0));
}

#[test]
fn decimal_parser_is_exact() {
    assert_eq!(parse_dec_u64(b"0"), Some(0));
    assert_eq!(parse_dec_u64(b"4096"), Some(4096));
    assert_eq!(parse_dec_u64(b"18446744073709551615"), Some(u64::MAX));
    assert_eq!(parse_dec_u64(b"18446744073709551616"), None); // overflow
    assert_eq!(parse_dec_u64(b""), None);
    assert_eq!(parse_dec_u64(b"12a"), None);
}

#[test]
fn hex_identifier_parser_is_exact() {
    assert_eq!(
        parse_hex32_u128(b"00000000000000000000000000000007"),
        Some(7)
    );
    assert_eq!(
        parse_hex32_u128(b"110000000000000000000000000000aB"),
        Some(0x11000000_00000000_00000000_000000AB)
    );
    assert_eq!(parse_hex32_u128(b"0007"), None); // wrong width
    assert_eq!(parse_hex32_u128(b"0000000000000000000000000000000g"), None);
}

#[test]
fn splitting_on_spaces() {
    let tokens = split_bytes(b"a bc  d", 32);
    assert_eq!(tokens, vec![b"a".to_vec(), b"bc".to_vec(), b"".to_vec(), b"d".to_vec()]);
    assert_eq!(split_bytes(b"", 32), vec![b"".to_vec()]);
}

#[test]
fn availability_names_parse() {
    assert_eq!("active".parse::<NodeAvailability>(), Ok(NodeAvailability::Active));
    assert_eq!("offline".parse::<NodeAvailability>(), Ok(NodeAvailability::Offline));
    assert_eq!(
        "banana".parse::<NodeAvailability>(),
        Err(NodePolicyError::UnknownAvailability)
    );
}

#[test]
fn scheduling_names_round_trip() {
    let all = [
        NodeSchedulingPolicy::Active,
        NodeSchedulingPolicy::Filling,
        NodeSchedulingPolicy::Pause,
        NodeSchedulingPolicy::Draining,
    ];
    for p in all {
        assert_eq!(p.name().parse::<NodeSchedulingPolicy>(), Ok(p));
    }
    assert_eq!(NodeSchedulingPolicy::Draining.name(), "draining");
    assert_eq!(
        "Active".parse::<NodeSchedulingPolicy>(),
        Err(NodePolicyError::UnknownScheduling)
    );
}

#[test]
fn upgrade_binary_path() {
    assert_eq!(_upgrade("/usr/lib/postgresql/bin", "15"), "/usr/lib/postgresql/bin/pg_upgrade");
}
