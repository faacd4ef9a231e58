//! The timeline registry and the per-connection protocol flow: a
//! process-wide map from timeline identifier to acceptor instance,
//! lazily created on first greeting, and the demultiplexing of inbound
//! frames to the right timeline.

use vstd::prelude::*;
use vstd::slice::slice_to_vec;
use crate::lsn::Lsn;
use crate::acceptor::{
    SafeKeeper, SafeKeeperState, SafeKeeperView, SkError, spec_process, spec_msg_end,
    UNKNOWN_SERVER_VERSION,
};
use crate::backup::SegView;
use crate::messages::{ServerInfo, ProposerAcceptorMessage, AcceptorReply, msg_wf};

verus! {

/// The globally unique key of one replicated WAL stream.
#[derive(Clone, Copy, PartialEq, Eq, Structural, Debug)]
pub struct TenantTimelineId {
    pub tenant_id: u128,
    pub timeline_id: u128,
}

impl TenantTimelineId {
    pub fn new(tenant_id: u128, timeline_id: u128) -> (r: TenantTimelineId)
        ensures
            r.tenant_id == tenant_id,
            r.timeline_id == timeline_id,
    {
        TenantTimelineId { tenant_id, timeline_id }
    }

    /// The all-zero placeholder of a connection not yet bound.
    pub fn empty() -> (r: TenantTimelineId)
        ensures
            r.tenant_id == 0,
            r.timeline_id == 0,
    {
        TenantTimelineId { tenant_id: 0, timeline_id: 0 }
    }
}

/// Why a timeline refused to load or to be created.
#[derive(Clone, Copy, PartialEq, Eq, Structural, Debug)]
pub enum TimelineError {
    /// A timeline with this identifier already exists.
    AlreadyExists,
    /// The stored `wal_seg_size` is zero.
    UninitializedWalSegSize,
    /// The stored postgres version was never learned.
    UninitializedPgVersion,
    /// `commit_lsn` below `local_start_lsn`, or `flush_lsn` below
    /// `commit_lsn`: the control record is corrupt.
    LsnOrderViolation,
    /// The recovered WAL ends before the durable flush watermark.
    MissingWal,
    /// More than one backup segment stands as `Uploaded`.
    BackupListCorrupt,
}

/// One timeline as recovered from disk at startup.
pub struct TimelineLoad {
    pub ttid: TenantTimelineId,
    pub state: SafeKeeperState,
    pub wal: Vec<u8>,
}

/// Mathematical image of a [`TimelineLoad`].
pub struct TimelineLoadView {
    pub ttid: TenantTimelineId,
    pub state: crate::acceptor::SafeKeeperStateView,
    pub wal: Seq<u8>,
}

impl View for TimelineLoad {
    type V = TimelineLoadView;

    open spec fn view(&self) -> TimelineLoadView {
        TimelineLoadView { ttid: self.ttid, state: self.state@, wal: self.wal@ }
    }
}

impl DeepView for TimelineLoad {
    type V = TimelineLoadView;

    open spec fn deep_view(&self) -> TimelineLoadView {
        self@
    }
}

/// The consistency conditions a loaded timeline must meet before its
/// acceptor may start.
pub open spec fn spec_load_ok(l: TimelineLoadView) -> bool {
    l.state.wf() && l.state.flush_lsn.0 <= l.wal.len()
}

/// Every recovered timeline is consistent and no identifier repeats.
pub open spec fn spec_loads_ok(loads: Seq<TimelineLoadView>) -> bool {
    &&& forall|i: int| 0 <= i < loads.len() ==> spec_load_ok(#[trigger] loads[i])
    &&& forall|i: int, j: int|
        0 <= i < j < loads.len() ==> (#[trigger] loads[i]).ttid != (#[trigger] loads[j]).ttid
}

/// The registry entry a recovered timeline becomes.
pub open spec fn spec_loaded_entry(l: TimelineLoadView, my_id: u64) -> TimelineEntryView {
    TimelineEntryView {
        ttid: l.ttid,
        sk: SafeKeeperView { state: l.state, wal: l.wal, node_id: my_id },
    }
}

/// One registry entry: a timeline bound to its acceptor.
pub struct TimelineEntry {
    pub ttid: TenantTimelineId,
    pub sk: SafeKeeper,
}

/// Mathematical image of a [`TimelineEntry`].
pub struct TimelineEntryView {
    pub ttid: TenantTimelineId,
    pub sk: SafeKeeperView,
}

impl View for TimelineEntry {
    type V = TimelineEntryView;

    open spec fn view(&self) -> TimelineEntryView {
        TimelineEntryView { ttid: self.ttid, sk: self.sk@ }
    }
}

impl DeepView for TimelineEntry {
    type V = TimelineEntryView;

    open spec fn deep_view(&self) -> TimelineEntryView {
        self@
    }
}

/// No two entries share a timeline identifier.
pub open spec fn unique_keys(s: Seq<TimelineEntryView>) -> bool {
    forall|i: int, j: int| 0 <= i < j < s.len() ==> (#[trigger] s[i]).ttid != (#[trigger] s[j]).ttid
}

/// The acceptor bound to `ttid`, scanning from the most recent entry.
pub open spec fn spec_lookup(s: Seq<TimelineEntryView>, ttid: TenantTimelineId) -> Option<
    SafeKeeperView,
>
    decreases s.len(),
{
    if s.len() == 0 {
        Option::None
    } else if s.last().ttid == ttid {
        Option::Some(s.last().sk)
    } else {
        spec_lookup(s.drop_last(), ttid)
    }
}

/// The entries after the acceptor bound to `ttid` is replaced by `sk`,
/// in place.
pub open spec fn spec_store(
    s: Seq<TimelineEntryView>,
    ttid: TenantTimelineId,
    sk: SafeKeeperView,
) -> Seq<TimelineEntryView>
    decreases s.len(),
{
    if s.len() == 0 {
        s
    } else if s.last().ttid == ttid {
        s.drop_last().push((TimelineEntryView { ttid, sk }))
    } else {
        spec_store(s.drop_last(), ttid, sk).push(s.last())
    }
}

pub proof fn lemma_lookup(s: Seq<TimelineEntryView>, t: TenantTimelineId)
    ensures
        match spec_lookup(s, t) {
            Option::Some(sk) => exists|i: int|
                0 <= i < s.len() && #[trigger] s[i].ttid == t && s[i].sk == sk,
            Option::None => forall|i: int| 0 <= i < s.len() ==> #[trigger] s[i].ttid != t,
        },
    decreases s.len(),
{
    if s.len() > 0 {
        if s.last().ttid == t {
            assert(s[s.len() - 1].ttid == t && s[s.len() - 1].sk == s.last().sk);
        } else {
            lemma_lookup(s.drop_last(), t);
            match spec_lookup(s, t) {
                Option::Some(sk) => {
                    let i = choose|i: int|
                        0 <= i < s.drop_last().len() && #[trigger] s.drop_last()[i].ttid == t
                            && s.drop_last()[i].sk == sk;
                    assert(s[i].ttid == t && s[i].sk == sk);
                },
                Option::None => {
                    assert forall|i: int| 0 <= i < s.len() implies #[trigger] s[i].ttid != t by {
                        if i < s.len() - 1 {
                            assert(s.drop_last()[i].ttid != t);
                        }
                    }
                },
            }
        }
    }
}

pub proof fn lemma_lookup_at(s: Seq<TimelineEntryView>, t: TenantTimelineId, i: int)
    requires
        unique_keys(s),
        0 <= i < s.len(),
        s[i].ttid == t,
    ensures
        spec_lookup(s, t) == Option::Some(s[i].sk),
    decreases s.len(),
{
    if i < s.len() - 1 {
        assert(s.last().ttid != t);
        assert(unique_keys(s.drop_last())) by {
            assert(forall|a: int, b: int|
                0 <= a < b < s.drop_last().len() ==> (#[trigger] s.drop_last()[a]).ttid != (
                #[trigger] s.drop_last()[b]).ttid);
        }
        lemma_lookup_at(s.drop_last(), t, i);
    }
}

pub proof fn lemma_lookup_push(s: Seq<TimelineEntryView>, e: TimelineEntryView, t: TenantTimelineId)
    ensures
        spec_lookup(s.push(e), t) == (if e.ttid == t {
            Option::Some(e.sk)
        } else {
            spec_lookup(s, t)
        }),
{
    assert(s.push(e).drop_last() =~= s);
    assert(s.push(e).last() == e);
}

/// Rebinding the acceptor of a known timeline binds the new acceptor
/// under that identifier.
pub proof fn lemma_lookup_store(s: Seq<TimelineEntryView>, t: TenantTimelineId, sk: SafeKeeperView)
    requires
        spec_lookup(s, t) is Some,
    ensures
        spec_lookup(spec_store(s, t, sk), t) == Option::Some(sk),
    decreases s.len(),
{
    if s.len() > 0 {
        if s.last().ttid == t {
            lemma_lookup_push(s.drop_last(), (TimelineEntryView { ttid: t, sk }), t);
        } else {
            lemma_lookup_store(s.drop_last(), t, sk);
            lemma_lookup_push(spec_store(s.drop_last(), t, sk), s.last(), t);
        }
    }
}

/// Replacing the acceptor bound to `t` is an in-place update: the keys
/// and their order stay, and only that binding's acceptor changes.
pub proof fn lemma_store(
    s: Seq<TimelineEntryView>,
    t: TenantTimelineId,
    sk: SafeKeeperView,
    i: int,
)
    requires
        unique_keys(s),
        0 <= i < s.len(),
        s[i].ttid == t,
    ensures
        spec_store(s, t, sk) == s.update(i, (TimelineEntryView { ttid: t, sk })),
    decreases s.len(),
{
    if i == s.len() - 1 {
        assert(spec_store(s, t, sk) =~= s.update(i, (TimelineEntryView { ttid: t, sk })));
    } else {
        assert(s.last().ttid != t);
        assert(unique_keys(s.drop_last())) by {
            assert(forall|a: int, b: int|
                0 <= a < b < s.drop_last().len() ==> (#[trigger] s.drop_last()[a]).ttid != (
                #[trigger] s.drop_last()[b]).ttid);
        }
        lemma_store(s.drop_last(), t, sk, i);
        assert(spec_store(s, t, sk) =~= s.update(i, (TimelineEntryView { ttid: t, sk })));
    }
}

/// The process-wide registry: every known timeline with its acceptor,
/// owned by the one server task that routes messages.
pub struct GlobalMap {
    pub timelines: Vec<TimelineEntry>,
    /// This acceptor's node identity, from the server configuration.
    pub my_id: u64,
}

impl GlobalMap {
    pub open spec fn entries(self) -> Seq<TimelineEntryView> {
        self.timelines.deep_view()
    }

    pub open spec fn spec_has(self, ttid: TenantTimelineId) -> bool {
        spec_lookup(self.entries(), ttid) is Some
    }

    pub open spec fn spec_get(self, ttid: TenantTimelineId) -> SafeKeeperView {
        spec_lookup(self.entries(), ttid)->Some_0
    }

    /// Unique keys, and every acceptor well-formed.
    pub open spec fn wf(self) -> bool {
        &&& unique_keys(self.entries())
        &&& forall|i: int| 0 <= i < self.entries().len() ==> (#[trigger] self.entries()[i]).sk.wf()
    }

    /// Load the registry from the timelines recovered on disk,
    /// validating each control record; any violation refuses startup.
    pub fn new(disk: Vec<TimelineLoad>, my_id: u64) -> (r: Result<GlobalMap, TimelineError>)
        ensures
            r is Ok <==> spec_loads_ok(disk.deep_view()),
            r is Ok ==> {
                let g = r->Ok_0;
                &&& g.my_id == my_id
                &&& g.wf()
                &&& g.entries().len() == disk.deep_view().len()
                &&& forall|i: int|
                    0 <= i < disk.deep_view().len() ==> g.entries()[i] == spec_loaded_entry(
                        #[trigger] disk.deep_view()[i],
                        my_id,
                    )
            },
    {
        let ghost loads = disk.deep_view();
        let mut g = GlobalMap { timelines: Vec::new(), my_id };
        let n = disk.len();
        let mut idx: usize = 0;
        proof {
            assert(loads.len() == disk@.len());
        }
        while idx < n
            invariant
                idx <= n,
                n == loads.len(),
                loads == disk.deep_view(),
                loads.len() == disk@.len(),
                g.my_id == my_id,
                g.entries().len() == idx,
                forall|i: int|
                    0 <= i < idx ==> g.entries()[i] == spec_loaded_entry(
                        #[trigger] loads[i],
                        my_id,
                    ),
                forall|i: int| 0 <= i < idx ==> spec_load_ok(#[trigger] loads[i]),
                forall|i: int, j: int|
                    0 <= i < j < idx ==> (#[trigger] loads[i]).ttid != (#[trigger] loads[j]).ttid,
                g.wf(),
            decreases n - idx,
        {
            let ghost k: int = idx as int;
            let l = &disk[idx];
            proof {
                assert(l@ == loads[k]);
            }
            if l.state.server.wal_seg_size == 0 {
                proof {
                    assert(!spec_load_ok(loads[k]));
                    assert(!spec_loads_ok(loads));
                }
                return Err(TimelineError::UninitializedWalSegSize);
            }
            if l.state.server.pg_version == UNKNOWN_SERVER_VERSION {
                proof {
                    assert(!spec_load_ok(loads[k]));
                    assert(!spec_loads_ok(loads));
                }
                return Err(TimelineError::UninitializedPgVersion);
            }
            if l.state.commit_lsn.0 < l.state.local_start_lsn.0 {
                proof {
                    assert(!spec_load_ok(loads[k]));
                    assert(!spec_loads_ok(loads));
                }
                return Err(TimelineError::LsnOrderViolation);
            }
            if l.state.flush_lsn.0 < l.state.commit_lsn.0 {
                proof {
                    assert(!spec_load_ok(loads[k]));
                    assert(!spec_loads_ok(loads));
                }
                return Err(TimelineError::LsnOrderViolation);
            }
            if l.state.partial_backup.count_uploaded_segments() > 1 {
                proof {
                    assert(!spec_load_ok(loads[k]));
                    assert(!spec_loads_ok(loads));
                }
                return Err(TimelineError::BackupListCorrupt);
            }
            if (l.wal.len() as u64) < l.state.flush_lsn.0 {
                proof {
                    assert(l.wal@.len() == l.wal.len());
                    assert(!spec_load_ok(loads[k]));
                    assert(!spec_loads_ok(loads));
                }
                return Err(TimelineError::MissingWal);
            }
            if g.has_tli(&l.ttid) {
                proof {
                    lemma_lookup(g.entries(), l.ttid);
                    let i = choose|i: int|
                        0 <= i < g.entries().len() && #[trigger] g.entries()[i].ttid == l.ttid
                            && g.entries()[i].sk == spec_lookup(g.entries(), l.ttid)->Some_0;
                    assert(loads[i].ttid == loads[k].ttid);
                    assert(!spec_loads_ok(loads));
                }
                return Err(TimelineError::AlreadyExists);
            }
            proof {
                lemma_lookup(g.entries(), l.ttid);
            }
            let ghost entries0 = g.entries();
            let state = l.state.duplicate();
            let wal = slice_to_vec(l.wal.as_slice());
            let sk = SafeKeeper::new(state, wal, my_id);
            let entry = TimelineEntry { ttid: l.ttid, sk };
            g.timelines.push(entry);
            proof {
                assert(g.entries() =~= entries0.push(entry@));
                assert(entry@ == spec_loaded_entry(loads[k], my_id));
                assert(unique_keys(g.entries())) by {
                    assert(forall|i: int|
                        0 <= i < entries0.len() ==> #[trigger] g.entries()[i] == entries0[i]);
                    assert(forall|i: int|
                        0 <= i < entries0.len() ==> (#[trigger] entries0[i]).ttid != loads[k].ttid);
                }
            }
            idx += 1;
        }
        proof {
            assert(spec_loads_ok(loads));
        }
        Ok(g)
    }

    fn find_index(&self, ttid: &TenantTimelineId) -> (r: Option<usize>)
        ensures
            match r {
                Option::Some(i) => i < self.entries().len() && self.entries()[i as int].ttid
                    == *ttid,
                Option::None => forall|i: int|
                    0 <= i < self.entries().len() ==> (#[trigger] self.entries()[i]).ttid != *ttid,
            },
    {
        let n = self.timelines.len();
        let mut i: usize = 0;
        while i < n
            invariant
                i <= n,
                n == self.entries().len(),
                forall|j: int| 0 <= j < i ==> (#[trigger] self.entries()[j]).ttid != *ttid,
            decreases n - i,
        {
            if self.timelines[i].ttid == *ttid {
                return Some(i);
            }
            i += 1;
        }
        None
    }

    /// Is this timeline known?
    pub fn has_tli(&self, ttid: &TenantTimelineId) -> (r: bool)
        ensures
            r == self.spec_has(*ttid),
    {
        proof {
            lemma_lookup(self.entries(), *ttid);
        }
        match self.find_index(ttid) {
            Some(i) => {
                proof {
                    if spec_lookup(self.entries(), *ttid) is None {
                        assert(self.entries()[i as int].ttid != *ttid);
                    }
                }
                true
            },
            None => {
                proof {
                    if spec_lookup(self.entries(), *ttid) is Some {
                        let w = choose|w: int|
                            0 <= w < self.entries().len() && #[trigger] self.entries()[w].ttid
                                == *ttid && self.entries()[w].sk == spec_lookup(
                                self.entries(),
                                *ttid,
                            )->Some_0;
                        assert(self.entries()[w].ttid == *ttid);
                    }
                }
                false
            },
        }
    }

    /// The acceptor bound to a known timeline.
    pub fn get(&self, ttid: &TenantTimelineId) -> (r: &SafeKeeper)
        requires
            self.wf(),
            self.spec_has(*ttid),
        ensures
            r@ == self.spec_get(*ttid),
    {
        match self.find_index(ttid) {
            Some(i) => {
                proof {
                    lemma_lookup_at(self.entries(), *ttid, i as int);
                }
                &self.timelines[i].sk
            },
            None => {
                proof {
                    lemma_lookup(self.entries(), *ttid);
                    let w = choose|w: int|
                        0 <= w < self.entries().len() && #[trigger] self.entries()[w].ttid == *ttid
                            && self.entries()[w].sk == self.spec_get(*ttid);
                    assert(false);
                }
                &self.timelines[0].sk
            },
        }
    }

    /// Create a fresh timeline from a first greeting's server facts:
    /// the control record starts at the invalid/zero LSN sentinel
    /// under term zero, with no backups tracked.
    pub fn create(&mut self, ttid: TenantTimelineId, server_info: ServerInfo) -> (r: Result<
        (),
        TimelineError,
    >)
        requires
            old(self).wf(),
        ensures
            final(self).my_id == old(self).my_id,
            final(self).wf(),
            r is Ok <==> (!old(self).spec_has(ttid) && server_info.wal_seg_size != 0
                && server_info.pg_version != UNKNOWN_SERVER_VERSION),
            old(self).spec_has(ttid) ==> r == Result::<(), TimelineError>::Err(
                TimelineError::AlreadyExists,
            ) && *final(self) == *old(self),
            !old(self).spec_has(ttid) && server_info.wal_seg_size == 0 ==> r == Result::<
                (),
                TimelineError,
            >::Err(TimelineError::UninitializedWalSegSize) && *final(self) == *old(self),
            (!old(self).spec_has(ttid) && server_info.wal_seg_size != 0 && server_info.pg_version
                == UNKNOWN_SERVER_VERSION) ==> r == Result::<(), TimelineError>::Err(
                TimelineError::UninitializedPgVersion,
            ) && *final(self) == *old(self),
            r is Ok ==> final(self).entries() == old(self).entries().push(
                spec_fresh_entry(ttid, server_info, old(self).my_id),
            ),
    {
        if self.has_tli(&ttid) {
            return Err(TimelineError::AlreadyExists);
        }
        if server_info.wal_seg_size == 0 {
            return Err(TimelineError::UninitializedWalSegSize);
        }
        if server_info.pg_version == UNKNOWN_SERVER_VERSION {
            return Err(TimelineError::UninitializedPgVersion);
        }
        proof {
            lemma_lookup(self.entries(), ttid);
        }
        let ghost entries0 = self.entries();
        let state = SafeKeeperState::new(server_info, Lsn(0), Lsn(0));
        let sk = SafeKeeper::new(state, Vec::new(), self.my_id);
        let entry = TimelineEntry { ttid, sk };
        self.timelines.push(entry);
        proof {
            assert(self.entries() =~= entries0.push(entry@));
            assert(entry@ == spec_fresh_entry(ttid, server_info, self.my_id));
            assert(unique_keys(self.entries())) by {
                assert(forall|i: int|
                    0 <= i < entries0.len() ==> #[trigger] self.entries()[i] == entries0[i]);
            }
        }
        Ok(())
    }

    /// Route one message to a known timeline's acceptor, in place.
    pub fn process_msg_for(&mut self, ttid: &TenantTimelineId, msg: &ProposerAcceptorMessage) -> (r:
        Result<Option<AcceptorReply>, SkError>)
        requires
            old(self).wf(),
            old(self).spec_has(*ttid),
            msg_wf(msg@),
            spec_msg_end(msg@) <= usize::MAX,
        ensures
            final(self).my_id == old(self).my_id,
            final(self).wf(),
            final(self).entries() == spec_store(
                old(self).entries(),
                *ttid,
                spec_process(old(self).spec_get(*ttid), msg@).0,
            ),
            r == spec_process(old(self).spec_get(*ttid), msg@).1,
    {
        let ghost entries0 = self.entries();
        let i = match self.find_index(ttid) {
            Some(i) => i,
            None => {
                proof {
                    lemma_lookup(self.entries(), *ttid);
                    let w = choose|w: int|
                        0 <= w < self.entries().len() && #[trigger] self.entries()[w].ttid == *ttid
                            && self.entries()[w].sk == self.spec_get(*ttid);
                    assert(false);
                }
                0
            },
        };
        proof {
            lemma_lookup_at(entries0, *ttid, i as int);
        }
        let mut entry = self.timelines.remove(i);
        let res = entry.sk.process_msg(msg);
        self.timelines.insert(i, entry);
        proof {
            assert(self.entries() =~= entries0.update(
                i as int,
                (TimelineEntryView { ttid: *ttid, sk: spec_process(entries0[i as int].sk, msg@).0 }),
            ));
            lemma_store(entries0, *ttid, spec_process(entries0[i as int].sk, msg@).0, i as int);
            assert(unique_keys(self.entries())) by {
                assert(forall|j: int|
                    0 <= j < entries0.len() ==> (#[trigger] self.entries()[j]).ttid
                        == entries0[j].ttid);
            }
            assert forall|j: int| 0 <= j < self.entries().len() implies (
            #[trigger] self.entries()[j]).sk.wf() by {
                if j != i as int {
                    assert(self.entries()[j] == entries0[j]);
                }
            }
        }
        res
    }
}

/// The registry entry a fresh greeting creates.
pub open spec fn spec_fresh_entry(
    ttid: TenantTimelineId,
    server_info: ServerInfo,
    my_id: u64,
) -> TimelineEntryView {
    TimelineEntryView {
        ttid,
        sk: SafeKeeperView {
            state: crate::acceptor::SafeKeeperStateView {
                server: server_info,
                term: 0,
                commit_lsn: Lsn(0),
                local_start_lsn: Lsn(0),
                flush_lsn: Lsn(0),
                partial_backup: Seq::<SegView>::empty(),
            },
            wal: Seq::empty(),
            node_id: my_id,
        },
    }
}

} // verus!
