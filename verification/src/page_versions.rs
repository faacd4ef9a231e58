//! An in-memory index of page versions ingested from incoming WAL:
//! per block, an append-only list of versions keyed by ascending LSN,
//! with the version payloads stored once and addressed by tagged
//! pointers.

use vstd::prelude::*;
use crate::lsn::Lsn;

verus! {

/// Whether a version starts a page from scratch or amends it.
#[derive(Clone, Copy, PartialEq, Eq, Structural, Debug)]
pub enum VersionType {
    Init,
    Delta,
}

/// A tagged pointer to one stored page version: the payload's slot,
/// with the top bit marking an initializing version.
#[derive(Clone, Copy, PartialEq, Eq, Structural, Debug, Hash)]
pub struct PageVersionPtr(pub u64);

/// The tag bit of an initializing version.
pub const PTR_INIT_BIT: u64 = 0x8000_0000_0000_0000;

/// The payload slot a pointer addresses.
pub open spec fn spec_ptr_index(p: PageVersionPtr) -> int {
    (p.0 as int) % (PTR_INIT_BIT as int)
}

/// Whether the pointer carries the initializing tag.
pub open spec fn spec_ptr_init(p: PageVersionPtr) -> bool {
    p.0 >= PTR_INIT_BIT
}

impl PageVersionPtr {
    /// Which kind of version this pointer addresses, read off the tag.
    pub fn as_version_type(&self) -> (r: VersionType)
        ensures
            r == (if spec_ptr_init(*self) {
                VersionType::Init
            } else {
                VersionType::Delta
            }),
    {
        if self.0 >= PTR_INIT_BIT {
            VersionType::Init
        } else {
            VersionType::Delta
        }
    }
}

fn make_ptr(index: u64, init: bool) -> (r: PageVersionPtr)
    requires
        index < PTR_INIT_BIT,
    ensures
        spec_ptr_index(r) == index,
        spec_ptr_init(r) == init,
{
    if init {
        PageVersionPtr(index + PTR_INIT_BIT)
    } else {
        PageVersionPtr(index)
    }
}

/// One WAL record as a version payload.
#[derive(Clone, PartialEq, Eq, Debug)]
pub struct WALRecord {
    pub will_init: bool,
    pub rec: Vec<u8>,
}

/// Mathematical image of a [`WALRecord`].
pub struct WALRecordView {
    pub will_init: bool,
    pub rec: Seq<u8>,
}

impl View for WALRecord {
    type V = WALRecordView;

    open spec fn view(&self) -> WALRecordView {
        WALRecordView { will_init: self.will_init, rec: self.rec@ }
    }
}

/// One version payload: a full page image or a WAL record.
#[derive(Clone, PartialEq, Eq, Debug)]
pub enum PageVersion {
    Page(Vec<u8>),
    Wal(WALRecord),
}

/// Mathematical image of a [`PageVersion`].
pub enum PageVersionView {
    Page(Seq<u8>),
    Wal(WALRecordView),
}

impl View for PageVersion {
    type V = PageVersionView;

    open spec fn view(&self) -> PageVersionView {
        match self {
            PageVersion::Page(p) => PageVersionView::Page(p@),
            PageVersion::Wal(w) => PageVersionView::Wal(w@),
        }
    }
}

/// Whether this payload initializes its page, which decides the
/// pointer tag.
pub open spec fn spec_pv_init(pv: PageVersionView) -> bool {
    match pv {
        PageVersionView::Page(_) => true,
        PageVersionView::Wal(w) => w.will_init,
    }
}

impl PageVersion {
    /// A field-for-field copy.
    pub fn duplicate(&self) -> (r: PageVersion)
        ensures
            r@ == self@,
    {
        match self {
            PageVersion::Page(p) => PageVersion::Page(crate::parsenum::copy_bytes(p)),
            PageVersion::Wal(w) => PageVersion::Wal(
                WALRecord { will_init: w.will_init, rec: crate::parsenum::copy_bytes(&w.rec) },
            ),
        }
    }
}

/// The versions of one block, keyed by strictly ascending LSN.
pub struct BlockVersions {
    pub blknum: u32,
    pub versions: Vec<(Lsn, PageVersionPtr)>,
}

/// Why the index refused an operation.
#[derive(Clone, Copy, PartialEq, Eq, Structural, Debug)]
pub enum PageVersionsError {
    /// An append at an LSN below the block's last version.
    OutOfOrderLsn,
    /// A pointer addressing no stored payload.
    InvalidPointer,
}

/// The per-block index plus the payload store.
pub struct PageVersions {
    pub map: Vec<BlockVersions>,
    pub entries: Vec<PageVersion>,
}

/// The items an ordered walk of one block yields under a cutoff:
/// `(block, lsn, pointer)` for each version with `lsn` below it.
pub open spec fn spec_filtered_items(
    blknum: u32,
    vs: Seq<(Lsn, PageVersionPtr)>,
    cutoff: Option<Lsn>,
) -> Seq<(u32, Lsn, PageVersionPtr)>
    decreases vs.len(),
{
    if vs.len() == 0 {
        Seq::empty()
    } else if match cutoff {
        Option::Some(c) => vs.last().0.0 < c.0,
        Option::None => true,
    } {
        spec_filtered_items(blknum, vs.drop_last(), cutoff).push(
            (blknum, vs.last().0, vs.last().1),
        )
    } else {
        spec_filtered_items(blknum, vs.drop_last(), cutoff)
    }
}

/// Is an LSN inside the queried half-open range? An absent bound does
/// not constrain.
pub open spec fn spec_in_lsn_range(l: Lsn, lo: Option<Lsn>, hi: Option<Lsn>) -> bool {
    &&& match lo {
        Option::Some(a) => a.0 <= l.0,
        Option::None => true,
    }
    &&& match hi {
        Option::Some(b) => l.0 < b.0,
        Option::None => true,
    }
}

/// The versions of one block whose LSN falls inside the range, in
/// order.
pub open spec fn spec_lsn_range(
    vs: Seq<(Lsn, PageVersionPtr)>,
    lo: Option<Lsn>,
    hi: Option<Lsn>,
) -> Seq<(Lsn, PageVersionPtr)>
    decreases vs.len(),
{
    if vs.len() == 0 {
        Seq::empty()
    } else if spec_in_lsn_range(vs.last().0, lo, hi) {
        spec_lsn_range(vs.drop_last(), lo, hi).push(vs.last())
    } else {
        spec_lsn_range(vs.drop_last(), lo, hi)
    }
}

/// The items an ordered walk of the whole index yields: blocks in
/// ascending block order, versions in ascending LSN order.
pub open spec fn spec_ordered_items(
    m: Seq<BlockVersions>,
    cutoff: Option<Lsn>,
) -> Seq<(u32, Lsn, PageVersionPtr)>
    decreases m.len(),
{
    if m.len() == 0 {
        Seq::empty()
    } else {
        spec_ordered_items(m.drop_last(), cutoff) + spec_filtered_items(
            m.last().blknum,
            m.last().versions@,
            cutoff,
        )
    }
}

impl PageVersions {
    pub open spec fn spec_map(&self) -> Seq<BlockVersions> {
        self.map@
    }

    pub open spec fn spec_entries(&self) -> Seq<PageVersion> {
        self.entries@
    }

    /// Blocks strictly ascending, each non-empty with strictly
    /// ascending LSNs, and every pointer addressing a stored payload.
    pub open spec fn wf(&self) -> bool {
        &&& forall|i: int, j: int|
            0 <= i < j < self.map@.len() ==> (#[trigger] self.map@[i]).blknum < (
            #[trigger] self.map@[j]).blknum
        &&& forall|i: int| 0 <= i < self.map@.len() ==> (#[trigger] self.map@[i]).versions@.len() > 0
        &&& forall|i: int, a: int, b: int|
            0 <= i < self.map@.len() && 0 <= a < b < (#[trigger] self.map@[i]).versions@.len()
                ==> (#[trigger] self.map@[i].versions@[a]).0.0 < (
            #[trigger] self.map@[i].versions@[b]).0.0
        &&& forall|i: int, a: int|
            0 <= i < self.map@.len() && 0 <= a < (#[trigger] self.map@[i]).versions@.len()
                ==> spec_ptr_index((#[trigger] self.map@[i].versions@[a]).1) < self.entries@.len()
        &&& self.entries@.len() < PTR_INIT_BIT
    }

    /// An empty index.
    pub fn new() -> (r: PageVersions)
        ensures
            r.wf(),
            r.spec_map().len() == 0,
            r.spec_entries().len() == 0,
    {
        PageVersions { map: Vec::new(), entries: Vec::new() }
    }

    fn find_block(&self, blknum: u32) -> (r: Option<usize>)
        ensures
            match r {
                Option::Some(i) => i < self.map@.len() && self.map@[i as int].blknum == blknum,
                Option::None => forall|i: int|
                    0 <= i < self.map@.len() ==> (#[trigger] self.map@[i]).blknum != blknum,
            },
    {
        let n = self.map.len();
        let mut i: usize = 0;
        while i < n
            invariant
                i <= n,
                n == self.map@.len(),
                forall|j: int| 0 <= j < i ==> (#[trigger] self.map@[j]).blknum != blknum,
            decreases n - i,
        {
            if self.map[i].blknum == blknum {
                return Some(i);
            }
            i += 1;
        }
        None
    }

    /// Store one more version of a block. The version joins the
    /// block's list at a strictly higher LSN, or replaces the last
    /// version at the same LSN (returning the replaced pointer); an
    /// LSN below the block's last version is refused.
    pub fn append_or_update_last(
        &mut self,
        blknum: u32,
        lsn: Lsn,
        page_version: PageVersion,
    ) -> (r: Result<Option<PageVersionPtr>, PageVersionsError>)
        requires
            old(self).wf(),
            old(self).spec_entries().len() + 1 < PTR_INIT_BIT,
        ensures
            final(self).wf(),
            r is Err ==> r == Result::<Option<PageVersionPtr>, PageVersionsError>::Err(
                PageVersionsError::OutOfOrderLsn,
            ) && *final(self) == *old(self) && (exists|i: int|
                0 <= i < old(self).spec_map().len() && (#[trigger] old(self).spec_map()[i]).blknum
                    == blknum && lsn.0 < old(self).spec_map()[i].versions@.last().0.0),
            r is Ok ==> final(self).spec_entries().len() == old(self).spec_entries().len() + 1
                && final(self).spec_entries().last()@ == page_version@ && final(self).spec_entries().subrange(0, old(self).spec_entries().len() as int) =~= old(
                self,
            ).spec_entries(),
            r is Ok ==> (exists|i: int|
                {
                    &&& 0 <= i < final(self).spec_map().len()
                    &&& (#[trigger] final(self).spec_map()[i]).blknum == blknum
                    &&& {
                        let vs = final(self).spec_map()[i].versions@;
                        let p = vs.last().1;
                        &&& vs.last().0 == lsn
                        &&& spec_ptr_index(p) == old(self).spec_entries().len()
                        &&& spec_ptr_init(p) == spec_pv_init(page_version@)
                    }
                }),
            r is Ok && (forall|i: int|
                0 <= i < old(self).spec_map().len() ==> (#[trigger] old(self).spec_map()[i]).blknum
                    != blknum) ==> r == Result::<Option<PageVersionPtr>, PageVersionsError>::Ok(
                Option::None,
            ) && final(self).spec_map().len() == old(self).spec_map().len() + 1,
    {
        proof {
            assert(self.entries@.len() == self.entries.len());
        }
        let index = self.entries.len() as u64;
        let init = match &page_version {
            PageVersion::Page(_) => true,
            PageVersion::Wal(w) => w.will_init,
        };
        let ptr = make_ptr(index, init);
        match self.find_block(blknum) {
            Some(i) => {
                let last_idx = self.map[i].versions.len() - 1;
                let (last_lsn, last_ptr) = self.map[i].versions[last_idx];
                if lsn.0 < last_lsn.0 {
                    proof {
                        assert(self.map@[i as int].versions@.last() == (last_lsn, last_ptr));
                        assert((i as int) < self.spec_map().len() && (self.spec_map()[
                        i as int]).blknum == blknum && lsn.0 < self.spec_map()[
                        i as int].versions@.last().0.0);
                    }
                    return Err(PageVersionsError::OutOfOrderLsn);
                }
                self.entries.push(page_version);
                let ghost map0 = self.map@;
                let mut block = self.map.remove(i);
                let r: Option<PageVersionPtr>;
                if lsn.0 == last_lsn.0 {
                    let ghost vs0 = block.versions@;
                    let _replaced = block.versions.pop();
                    block.versions.push((lsn, ptr));
                    proof {
                        assert(block.versions@ =~= vs0.update(
                            vs0.len() - 1,
                            (lsn, ptr),
                        ));
                    }
                    r = Some(last_ptr);
                } else {
                    block.versions.push((lsn, ptr));
                    r = None;
                }
                self.map.insert(i, block);
                proof {
                    assert(self.map@.len() == map0.len());
                    assert(forall|j: int|
                        0 <= j < map0.len() && j != i ==> #[trigger] self.map@[j] == map0[j]);
                    assert(self.map@[i as int].blknum == blknum);
                    assert(self.map@[i as int].versions@.last() == (lsn, ptr));
                    assert({
                        let fi = i as int;
                        &&& 0 <= fi < self.spec_map().len()
                        &&& (self.spec_map()[fi]).blknum == blknum
                        &&& self.spec_map()[fi].versions@.last().0 == lsn
                        &&& spec_ptr_index(self.spec_map()[fi].versions@.last().1) == old(
                            self,
                        ).spec_entries().len()
                        &&& spec_ptr_init(self.spec_map()[fi].versions@.last().1) == spec_pv_init(
                            page_version@,
                        )
                    });
                }
                Ok(r)
            },
            None => {
                self.entries.push(page_version);
                let mut versions: Vec<(Lsn, PageVersionPtr)> = Vec::new();
                versions.push((lsn, ptr));
                let block = BlockVersions { blknum, versions };
                let pos = self.insert_pos(blknum);
                let ghost map0 = self.map@;
                self.map.insert(pos, block);
                proof {
                    assert(self.map@[pos as int].blknum == blknum);
                    assert(forall|j: int| 0 <= j < pos ==> #[trigger] self.map@[j] == map0[j]);
                    assert(forall|j: int|
                        pos < j < self.map@.len() ==> #[trigger] self.map@[j] == map0[j - 1]);
                    assert(self.map@[pos as int].versions@.last() == (lsn, ptr));
                    assert({
                        let fi = pos as int;
                        &&& 0 <= fi < self.spec_map().len()
                        &&& (self.spec_map()[fi]).blknum == blknum
                        &&& self.spec_map()[fi].versions@.last().0 == lsn
                        &&& spec_ptr_index(self.spec_map()[fi].versions@.last().1) == old(
                            self,
                        ).spec_entries().len()
                        &&& spec_ptr_init(self.spec_map()[fi].versions@.last().1) == spec_pv_init(
                            page_version@,
                        )
                    });
                }
                Ok(None)
            },
        }
    }

    /// Where a new block must stand to keep the blocks ascending.
    fn insert_pos(&self, blknum: u32) -> (r: usize)
        requires
            self.wf(),
            forall|i: int| 0 <= i < self.map@.len() ==> (#[trigger] self.map@[i]).blknum != blknum,
        ensures
            r <= self.map@.len(),
            forall|i: int| 0 <= i < r ==> (#[trigger] self.map@[i]).blknum < blknum,
            forall|i: int|
                r <= i < self.map@.len() ==> (#[trigger] self.map@[i]).blknum > blknum,
    {
        let n = self.map.len();
        let mut i: usize = 0;
        while i < n
            invariant
                self.wf(),
                i <= n,
                n == self.map@.len(),
                forall|j: int| 0 <= j < i ==> (#[trigger] self.map@[j]).blknum < blknum,
                forall|j: int| 0 <= j < self.map@.len() ==> (#[trigger] self.map@[j]).blknum
                    != blknum,
            decreases n - i,
        {
            if self.map[i].blknum > blknum {
                proof {
                    assert forall|j: int| i < j < self.map@.len() implies (
                    #[trigger] self.map@[j]).blknum > blknum by {
                        if (i as int) < j {
                            assert((self.map@[i as int]).blknum < (self.map@[j]).blknum);
                        }
                    }
                }
                return i;
            }
            i += 1;
        }
        n
    }

    /// The versions of one block inside an LSN range: lower bound
    /// inclusive, upper bound exclusive, either side unbounded when
    /// absent. A block with no versions yields nothing.
    pub fn get_block_lsn_range(&self, blknum: u32, lo: Option<Lsn>, hi: Option<Lsn>) -> (r: Vec<
        (Lsn, PageVersionPtr),
    >)
        requires
            self.wf(),
        ensures
            (forall|i: int|
                0 <= i < self.spec_map().len() ==> (#[trigger] self.spec_map()[i]).blknum
                    != blknum) ==> r@ == Seq::<(Lsn, PageVersionPtr)>::empty(),
            forall|i: int|
                0 <= i < self.spec_map().len() && (#[trigger] self.spec_map()[i]).blknum == blknum
                    ==> r@ == spec_lsn_range(self.spec_map()[i].versions@, lo, hi),
    {
        match self.find_block(blknum) {
            None => {
                let r: Vec<(Lsn, PageVersionPtr)> = Vec::new();
                proof {
                    assert(r@ =~= Seq::<(Lsn, PageVersionPtr)>::empty());
                }
                r
            },
            Some(i) => {
                let block = &self.map[i];
                let m = block.versions.len();
                let mut r: Vec<(Lsn, PageVersionPtr)> = Vec::new();
                let mut a: usize = 0;
                proof {
                    assert(block.versions@.subrange(0, 0) =~= Seq::<
                        (Lsn, PageVersionPtr),
                    >::empty());
                }
                while a < m
                    invariant
                        a <= m,
                        m == block.versions@.len(),
                        r@ == spec_lsn_range(block.versions@.subrange(0, a as int), lo, hi),
                    decreases m - a,
                {
                    proof {
                        assert(block.versions@.subrange(0, a + 1).drop_last()
                            =~= block.versions@.subrange(0, a as int));
                        assert(block.versions@.subrange(0, a + 1).last()
                            == block.versions@[a as int]);
                    }
                    let (lsn, p) = block.versions[a];
                    let lo_ok = match lo {
                        Some(bound) => bound.0 <= lsn.0,
                        None => true,
                    };
                    let hi_ok = match hi {
                        Some(bound) => lsn.0 < bound.0,
                        None => true,
                    };
                    if lo_ok && hi_ok {
                        r.push((lsn, p));
                    }
                    a += 1;
                }
                proof {
                    assert(block.versions@.subrange(0, block.versions@.len() as int)
                        =~= block.versions@);
                    assert((self.spec_map()[i as int]).blknum == blknum);
                    assert forall|j: int|
                        0 <= j < self.spec_map().len() && (#[trigger] self.spec_map()[j]).blknum
                            == blknum implies j == i as int by {
                        if j < i as int {
                            assert((self.spec_map()[j]).blknum < (self.spec_map()[
                            i as int]).blknum);
                        } else if j > i as int {
                            assert((self.spec_map()[i as int]).blknum < (
                            self.spec_map()[j]).blknum);
                        }
                    }
                }
                r
            },
        }
    }

    /// The stored payload a pointer addresses.
    pub fn get_page_version(&self, ptr: PageVersionPtr) -> (r: Result<
        PageVersion,
        PageVersionsError,
    >)
        ensures
            r is Ok <==> spec_ptr_index(ptr) < self.spec_entries().len(),
            r is Ok ==> r->Ok_0@ == self.spec_entries()[spec_ptr_index(ptr)]@,
            r is Err ==> r == Result::<PageVersion, PageVersionsError>::Err(
                PageVersionsError::InvalidPointer,
            ),
    {
        let index = ptr.0 % PTR_INIT_BIT;
        proof {
            assert(self.entries@.len() == self.entries.len());
        }
        if index >= self.entries.len() as u64 {
            return Err(PageVersionsError::InvalidPointer);
        }
        Ok(self.entries[index as usize].duplicate())
    }

    /// How many blocks hold at least one version.
    pub fn get_num_blocks(&self) -> (r: usize)
        ensures
            r == self.spec_map().len(),
    {
        self.map.len()
    }

    /// Walk every version in `(block, lsn)` order; with a cutoff, only
    /// versions strictly below it appear.
    pub fn ordered_page_version_iter(&self, cutoff_lsn: Option<Lsn>) -> (r: OrderedPageVersionIter)
        ensures
            r.spec_items() == spec_ordered_items(self.spec_map(), cutoff_lsn),
            r.spec_pos() == 0,
    {
        let mut items: Vec<(u32, Lsn, PageVersionPtr)> = Vec::new();
        let n = self.map.len();
        let mut i: usize = 0;
        proof {
            assert(self.map@.subrange(0, 0) =~= Seq::<BlockVersions>::empty());
        }
        while i < n
            invariant
                i <= n,
                n == self.map@.len(),
                items@ == spec_ordered_items(self.map@.subrange(0, i as int), cutoff_lsn),
            decreases n - i,
        {
            proof {
                assert(self.map@.subrange(0, i + 1).drop_last() =~= self.map@.subrange(
                    0,
                    i as int,
                ));
                assert(self.map@.subrange(0, i + 1).last() == self.map@[i as int]);
            }
            let block = &self.map[i];
            let m = block.versions.len();
            let mut a: usize = 0;
            proof {
                assert(block.versions@.subrange(0, 0) =~= Seq::<(Lsn, PageVersionPtr)>::empty());
            }
            while a < m
                invariant
                    a <= m,
                    m == block.versions@.len(),
                    items@ == spec_ordered_items(self.map@.subrange(0, i as int), cutoff_lsn)
                        + spec_filtered_items(
                        block.blknum,
                        block.versions@.subrange(0, a as int),
                        cutoff_lsn,
                    ),
                decreases m - a,
            {
                proof {
                    assert(block.versions@.subrange(0, a + 1).drop_last()
                        =~= block.versions@.subrange(0, a as int));
                    assert(block.versions@.subrange(0, a + 1).last() == block.versions@[a as int]);
                }
                let (lsn, p) = block.versions[a];
                let pass = match cutoff_lsn {
                    Some(c) => lsn.0 < c.0,
                    None => true,
                };
                if pass {
                    items.push((block.blknum, lsn, p));
                }
                a += 1;
            }
            proof {
                assert(block.versions@.subrange(0, block.versions@.len() as int)
                    =~= block.versions@);
            }
            i += 1;
        }
        proof {
            assert(self.map@.subrange(0, self.map@.len() as int) =~= self.map@);
        }
        OrderedPageVersionIter { items, pos: 0 }
    }
}

/// A finished ordered walk: the items, handed out one at a time.
pub struct OrderedPageVersionIter {
    pub items: Vec<(u32, Lsn, PageVersionPtr)>,
    pub pos: usize,
}

impl OrderedPageVersionIter {
    pub open spec fn spec_items(&self) -> Seq<(u32, Lsn, PageVersionPtr)> {
        self.items@
    }

    pub open spec fn spec_pos(&self) -> int {
        self.pos as int
    }

    /// The next item, if any; safe to call past the end.
    pub fn next(&mut self) -> (r: Option<(u32, Lsn, PageVersionPtr)>)
        ensures
            final(self).spec_items() == old(self).spec_items(),
            old(self).spec_pos() < old(self).spec_items().len() ==> r == Option::Some(
                old(self).spec_items()[old(self).spec_pos()],
            ) && final(self).spec_pos() == old(self).spec_pos() + 1,
            old(self).spec_pos() >= old(self).spec_items().len() ==> r is None && final(self).spec_pos() == old(self).spec_pos(),
    {
        if self.pos < self.items.len() {
            let item = self.items[self.pos];
            self.pos += 1;
            Some(item)
        } else {
            None
        }
    }
}

} // verus!
