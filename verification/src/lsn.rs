//! Log sequence numbers: byte positions in the WAL stream, and the
//! arithmetic that maps them onto fixed-size segments.

use vstd::prelude::*;

verus! {

/// A monotonically increasing log sequence number identifying a byte
/// position in the WAL stream. `Lsn(0)` is the invalid/zero sentinel.
#[derive(Clone, Copy, PartialEq, Eq, Structural, Debug, Hash)]
pub struct Lsn(pub u64);

impl Lsn {
    /// The number of the segment that holds this position.
    pub open spec fn spec_segment_number(self, wal_seg_size: u64) -> int {
        (self.0 as int) / (wal_seg_size as int)
    }

    /// The offset of this position within its segment.
    pub open spec fn spec_segment_offset(self, wal_seg_size: u64) -> int {
        (self.0 as int) % (wal_seg_size as int)
    }

    /// The number of the segment that holds this position.
    pub fn segment_number(&self, wal_seg_size: u64) -> (r: u64)
        requires
            wal_seg_size > 0,
        ensures
            r == self.spec_segment_number(wal_seg_size),
    {
        self.0 / wal_seg_size
    }

    /// The offset of this position within its segment.
    pub fn segment_offset(&self, wal_seg_size: u64) -> (r: u64)
        requires
            wal_seg_size > 0,
        ensures
            r == self.spec_segment_offset(wal_seg_size),
    {
        self.0 % wal_seg_size
    }
}

} // verus!
