//! The page-version index: ordered iteration and pointer round trips.

use wal_acceptor::lsn::Lsn;
use wal_acceptor::page_versions::{
    PageVersion, PageVersionPtr, PageVersions, PageVersionsError, VersionType, WALRecord,
};

#[test]
fn test_ordered_iter() -> Result<(), PageVersionsError> {
    let mut page_versions = PageVersions::new();

    const BLOCKS: u32 = 1000;
    const LSNS: u64 = 50;

    let empty_page = vec![0u8; 8192];
    let empty_page_version = PageVersion::Page(empty_page);

    for blknum in 0..BLOCKS {
        for lsn in 0..LSNS {
            let old = page_versions.append_or_update_last(
                blknum,
                Lsn(lsn),
                empty_page_version.clone(),
            )?;
            assert!(old.is_none());
        }
    }

    let mut iter = page_versions.ordered_page_version_iter(None);
    for blknum in 0..BLOCKS {
        for lsn in 0..LSNS {
            let (actual_blknum, actual_lsn, _pv) = iter.next().unwrap();
            assert_eq!(actual_blknum, blknum);
            assert_eq!(Lsn(lsn), actual_lsn);
        }
    }
    assert!(iter.next().is_none());
    assert!(iter.next().is_none()); // should be robust against excessive next() calls

    const CUTOFF_LSN: Lsn = Lsn(30);
    let mut iter = page_versions.ordered_page_version_iter(Some(CUTOFF_LSN));
    for blknum in 0..BLOCKS {
        for lsn in 0..CUTOFF_LSN.0 {
            let (actual_blknum, actual_lsn, _pv) = iter.next().unwrap();
            assert_eq!(actual_blknum, blknum);
            assert_eq!(Lsn(lsn), actual_lsn);
        }
    }
    assert!(iter.next().is_none());
    assert!(iter.next().is_none()); // should be robust against excessive next() calls

    Ok(())
}

#[test]
fn version_type_follows_the_payload() {
    let mut pv = PageVersions::new();
    pv.append_or_update_last(1, Lsn(10), PageVersion::Page(vec![1, 2, 3])).unwrap();
    pv.append_or_update_last(
        1,
        Lsn(11),
        PageVersion::Wal(WALRecord { will_init: false, rec: vec![4] }),
    )
    .unwrap();
    pv.append_or_update_last(
        1,
        Lsn(12),
        PageVersion::Wal(WALRecord { will_init: true, rec: vec![5] }),
    )
    .unwrap();
    let mut iter = pv.ordered_page_version_iter(None);
    let (_, _, p1) = iter.next().unwrap();
    let (_, _, p2) = iter.next().unwrap();
    let (_, _, p3) = iter.next().unwrap();
    assert_eq!(p1.as_version_type(), VersionType::Init);
    assert_eq!(p2.as_version_type(), VersionType::Delta);
    assert_eq!(p3.as_version_type(), VersionType::Init);
}

#[test]
fn pointers_read_back_their_payload() {
    let mut pv = PageVersions::new();
    pv.append_or_update_last(3, Lsn(1), PageVersion::Page(vec![7, 8])).unwrap();
    let mut iter = pv.ordered_page_version_iter(None);
    let (_, _, ptr) = iter.next().unwrap();
    assert_eq!(pv.get_page_version(ptr), Ok(PageVersion::Page(vec![7, 8])));
    assert_eq!(pv.get_num_blocks(), 1);
    assert_eq!(
        pv.get_page_version(PageVersionPtr(999)),
        Err(PageVersionsError::InvalidPointer)
    );
}

#[test]
fn same_lsn_replaces_the_last_version() {
    let mut pv = PageVersions::new();
    let old = pv.append_or_update_last(2, Lsn(5), PageVersion::Page(vec![1])).unwrap();
    assert!(old.is_none());
    let old = pv.append_or_update_last(2, Lsn(5), PageVersion::Page(vec![2])).unwrap();
    let old_ptr = old.unwrap();
    assert_eq!(pv.get_page_version(old_ptr), Ok(PageVersion::Page(vec![1])));
    let mut iter = pv.ordered_page_version_iter(None);
    let (_, lsn, ptr) = iter.next().unwrap();
    assert_eq!(lsn, Lsn(5));
    assert_eq!(pv.get_page_version(ptr), Ok(PageVersion::Page(vec![2])));
    assert!(iter.next().is_none());
}

#[test]
fn out_of_order_lsn_is_refused() {
    let mut pv = PageVersions::new();
    pv.append_or_update_last(2, Lsn(5), PageVersion::Page(vec![1])).unwrap();
    let r = pv.append_or_update_last(2, Lsn(4), PageVersion::Page(vec![2]));
    assert_eq!(r, Err(PageVersionsError::OutOfOrderLsn));
}

#[test]
fn block_lsn_range_is_half_open() {
    let mut pv = PageVersions::new();
    for lsn in [10u64, 20, 30, 40] {
        pv.append_or_update_last(5, Lsn(lsn), PageVersion::Page(vec![])).unwrap();
    }
    let range = pv.get_block_lsn_range(5, Some(Lsn(20)), Some(Lsn(40)));
    let lsns: Vec<u64> = range.iter().map(|(l, _)| l.0).collect();
    assert_eq!(lsns, vec![20, 30]);
    let all = pv.get_block_lsn_range(5, None, None);
    assert_eq!(all.len(), 4);
    assert!(pv.get_block_lsn_range(6, None, None).is_empty());
}

#[test]
fn blocks_come_out_sorted_even_when_inserted_backwards() {
    let mut pv = PageVersions::new();
    for blknum in [30u32, 10, 20] {
        pv.append_or_update_last(blknum, Lsn(1), PageVersion::Page(vec![])).unwrap();
    }
    let mut iter = pv.ordered_page_version_iter(None);
    let mut seen = vec![];
    while let Some((blknum, _, _)) = iter.next() {
        seen.push(blknum);
    }
    assert_eq!(seen, vec![10, 20, 30]);
}
