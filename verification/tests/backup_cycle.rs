//! The partial-backup upload cycle against a simulated remote store
//! and control record, including crash-and-resume runs.

use wal_acceptor::acceptor::SafekeeperInfo;
use wal_acceptor::backup::{
    BackupError, PartialBackup, PartialRemoteSegment, State, UploadStatus,
};
use wal_acceptor::lsn::Lsn;
use wal_acceptor::numfmt::{format_dec, format_hex};

const SEG_16MB: u64 = 16 * 1024 * 1024;

fn fresh_backup(state: State) -> PartialBackup {
    PartialBackup::new(SEG_16MB, 1, "work/tl".to_string(), "remote/tl".to_string(), state)
}

fn info(term: u64, commit: u64, flush: u64) -> SafekeeperInfo {
    SafekeeperInfo { term, commit_lsn: commit, flush_lsn: flush }
}

/// Simulated remote put: re-uploading the same name is a harmless
/// overwrite.
fn remote_put(remote: &mut Vec<String>, name: &String) {
    if !remote.contains(name) {
        remote.push(name.clone());
    }
}

/// One full upload cycle, with the control record (`disk`) persisted
/// after every compare-and-set and the remote store driven between
/// the steps. `crash_after` stops the cycle early to simulate a
/// crash: 2 after recording intent, 3 after the upload, 4 after the
/// commit.
fn run_cycle(
    pb: &mut PartialBackup,
    sk: &SafekeeperInfo,
    disk: &mut State,
    remote: &mut Vec<String>,
    crash_after: u32,
) -> Result<(), BackupError> {
    let prepared = pb.prepare_upload(sk);
    if !pb.needs_upload(&prepared) {
        return Ok(());
    }
    pb.start_upload(&prepared, disk)?;
    *disk = pb.state.duplicate();
    if crash_after == 2 {
        return Ok(());
    }
    let _plan = pb.upload_plan(&prepared);
    remote_put(remote, &prepared.name);
    pb.verify_upload(&prepared, sk)?;
    if crash_after == 3 {
        return Ok(());
    }
    pb.finish_upload(&prepared, disk)?;
    *disk = pb.state.duplicate();
    if crash_after == 4 {
        return Ok(());
    }
    let to_delete = pb.gc_prepare();
    remote.retain(|n| !to_delete.contains(n));
    pb.gc_commit(disk)?;
    *disk = pb.state.duplicate();
    Ok(())
}

fn uploaded_names(disk: &State) -> Vec<String> {
    disk.segments
        .iter()
        .filter(|s| s.status == UploadStatus::Uploaded)
        .map(|s| s.name.clone())
        .collect()
}

const NAME_4096: &str = "000000010000000000000000_0000000000001000_sk1.partial";

#[test]
fn partial_backup_round_trip() {
    let mut pb = fresh_backup(State::default());
    let mut disk = State::default();
    let mut remote: Vec<String> = vec![];
    let sk = info(1, 4096, 4096);

    run_cycle(&mut pb, &sk, &mut disk, &mut remote, 0).unwrap();
    assert_eq!(remote, vec![NAME_4096.to_string()]);
    assert_eq!(disk.count_uploaded_segments(), 1);
    assert_eq!(disk.segments.len(), 1);
    assert_eq!(disk.segments[0].flush_lsn, Lsn(4096));

    // A second cycle with unchanged flush position is a no-op.
    let disk_before = disk.duplicate();
    let remote_before = remote.clone();
    run_cycle(&mut pb, &sk, &mut disk, &mut remote, 0).unwrap();
    assert_eq!(remote, remote_before);
    assert!(disk == disk_before);
}

#[test]
fn advancing_flush_supersedes_the_old_copy() {
    let mut pb = fresh_backup(State::default());
    let mut disk = State::default();
    let mut remote: Vec<String> = vec![];
    run_cycle(&mut pb, &info(1, 1024, 1024), &mut disk, &mut remote, 0).unwrap();
    run_cycle(&mut pb, &info(1, 4096, 4096), &mut disk, &mut remote, 0).unwrap();
    assert_eq!(remote, vec![NAME_4096.to_string()]);
    assert_eq!(uploaded_names(&disk), vec![NAME_4096.to_string()]);
    assert_eq!(disk.segments.len(), 1);
}

fn resume_and_check(disk: State, mut remote: Vec<String>) {
    // A crash forgets the in-memory engine; the loop restarts from
    // the persisted list and converges in one successful cycle.
    let mut pb = fresh_backup(disk.duplicate());
    let mut disk = disk;
    let sk = info(1, 4096, 4096);
    run_cycle(&mut pb, &sk, &mut disk, &mut remote, 0).unwrap();
    assert_eq!(disk.count_uploaded_segments(), 1);
    assert_eq!(uploaded_names(&disk), vec![NAME_4096.to_string()]);
    // zero orphans: the remote holds exactly the tracked uploaded copy
    assert_eq!(remote, vec![NAME_4096.to_string()]);
}

fn crashed_state(crash_after: u32) -> (State, Vec<String>) {
    let mut pb = fresh_backup(State::default());
    let mut disk = State::default();
    let mut remote: Vec<String> = vec![];
    // an earlier successful cycle left an older copy behind
    run_cycle(&mut pb, &info(1, 1024, 1024), &mut disk, &mut remote, 0).unwrap();
    run_cycle(&mut pb, &info(1, 4096, 4096), &mut disk, &mut remote, crash_after).unwrap();
    (disk, remote)
}

#[test]
fn crash_after_recording_intent_recovers() {
    let (disk, remote) = crashed_state(2);
    // intent persisted, nothing uploaded yet under the new name
    assert_eq!(disk.segments.len(), 2);
    resume_and_check(disk, remote);
}

#[test]
fn crash_after_upload_recovers() {
    let (disk, remote) = crashed_state(3);
    assert!(remote.contains(&NAME_4096.to_string()));
    resume_and_check(disk, remote);
}

#[test]
fn crash_after_commit_recovers() {
    let (disk, remote) = crashed_state(4);
    // the fresh copy is committed but the old one is not collected yet
    assert_eq!(disk.count_uploaded_segments(), 1);
    assert_eq!(disk.segments.len(), 2);
    assert_eq!(remote.len(), 2);
    resume_and_check(disk, remote);
}

#[test]
fn at_most_one_uploaded_at_every_persisted_snapshot() {
    for crash_after in [2u32, 3, 4, 0] {
        let (disk, _) = crashed_state(crash_after);
        assert!(disk.count_uploaded_segments() <= 1);
    }
}

#[test]
fn remote_names_are_deterministic_and_flush_specific() {
    let pb = fresh_backup(State::default());
    let a = pb.prepare_upload(&info(1, 4096, 4096));
    let b = pb.prepare_upload(&info(1, 4096, 4096));
    assert_eq!(a.name, b.name); // same flush position, same name
    assert_eq!(a.name, NAME_4096);
    let c = pb.prepare_upload(&info(1, 8192, 8192));
    assert_ne!(a.name, c.name); // different flush positions never collide
    assert_eq!(c.name, "000000010000000000000000_0000000000002000_sk1.partial");
}

#[test]
fn segment_names_follow_the_wal_layout() {
    let pb = fresh_backup(State::default());
    assert_eq!(pb.segment_name(0), "000000010000000000000000");
    assert_eq!(pb.segment_name(5), "000000010000000000000005");
    // 256 sixteen-megabyte segments share one high half
    assert_eq!(pb.segment_name(256), "000000010000000100000000");
    assert_eq!(pb.local_segment_name(5), "000000010000000000000005.partial");
}

#[test]
fn upload_plan_builds_real_paths() {
    let pb = fresh_backup(State::default());
    let prepared = pb.prepare_upload(&info(1, 4096, 4096));
    let plan = pb.upload_plan(&prepared);
    assert_eq!(plan.local_path, "work/tl/000000010000000000000000.partial");
    assert_eq!(plan.remote_path, format!("remote/tl/{}", NAME_4096));
    assert_eq!(plan.backup_bytes, 4096);
}

#[test]
fn diverged_control_record_aborts_the_cycle() {
    let mut pb = fresh_backup(State::default());
    let sk = info(1, 4096, 4096);
    let prepared = pb.prepare_upload(&sk);
    // a competing writer put something else on disk
    let foreign = State {
        segments: vec![PartialRemoteSegment {
            status: UploadStatus::InProgress,
            name: "other".to_string(),
            commit_lsn: Lsn(1),
            flush_lsn: Lsn(1),
            term: 1,
        }],
    };
    let r = pb.start_upload(&prepared, &foreign);
    assert_eq!(r, Err(BackupError::Diverged));
    // the in-memory copy adopted the disk copy
    assert!(pb.state == foreign);
}

#[test]
fn term_change_during_upload_fails_the_cycle() {
    let pb = fresh_backup(State::default());
    let prepared = pb.prepare_upload(&info(1, 4096, 4096));
    let r = pb.verify_upload(&prepared, &info(2, 4096, 4096));
    assert_eq!(r, Err(BackupError::TermChanged));
}

#[test]
fn lsn_regression_during_upload_is_fatal() {
    let pb = fresh_backup(State::default());
    let prepared = pb.prepare_upload(&info(1, 4096, 4096));
    let r = pb.verify_upload(&prepared, &info(1, 4096, 2048));
    assert_eq!(r, Err(BackupError::LsnRegressed));
}

#[test]
fn hex_and_decimal_rendering() {
    assert_eq!(format_hex(255, 4), "00FF");
    assert_eq!(format_hex(0x1000, 16), "0000000000001000");
    assert_eq!(format_hex(u64::MAX, 16), "FFFFFFFFFFFFFFFF");
    assert_eq!(format_dec(0), "0");
    assert_eq!(format_dec(1234567890), "1234567890");
}
