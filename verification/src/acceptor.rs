//! The acceptor state machine: accepts or rejects proposer messages,
//! maintains the durable term/LSN control state and the locally
//! buffered WAL, and produces reply messages. It never touches the
//! network: the connection handler hands it typed messages and sends
//! whatever reply comes back.

use vstd::prelude::*;
use vstd::slice::{slice_subrange, slice_to_vec};
use crate::lsn::Lsn;
use crate::backup::{State, SegView, state_wf};
use crate::messages::{
    ServerInfo, ProposerAcceptorMessage, MsgView, AcceptorReply, msg_wf,
};

verus! {

/// The sentinel for a postgres version that was never learned.
pub const UNKNOWN_SERVER_VERSION: u32 = 0;

/// The durable per-timeline control record: server facts, the highest
/// term seen, LSN watermarks and the partial-backup list.
#[derive(Clone, Debug)]
pub struct SafeKeeperState {
    pub server: ServerInfo,
    pub term: u64,
    pub commit_lsn: Lsn,
    /// The earliest LSN retained locally.
    pub local_start_lsn: Lsn,
    pub flush_lsn: Lsn,
    pub partial_backup: State,
}

/// Mathematical image of a [`SafeKeeperState`].
pub struct SafeKeeperStateView {
    pub server: ServerInfo,
    pub term: u64,
    pub commit_lsn: Lsn,
    pub local_start_lsn: Lsn,
    pub flush_lsn: Lsn,
    pub partial_backup: Seq<SegView>,
}

impl View for SafeKeeperState {
    type V = SafeKeeperStateView;

    open spec fn view(&self) -> SafeKeeperStateView {
        SafeKeeperStateView {
            server: self.server,
            term: self.term,
            commit_lsn: self.commit_lsn,
            local_start_lsn: self.local_start_lsn,
            flush_lsn: self.flush_lsn,
            partial_backup: self.partial_backup@,
        }
    }
}

impl SafeKeeperStateView {
    /// The consistency conditions checked on every load and creation:
    /// known server facts, ordered LSN watermarks, and the backup
    /// list's own invariant. A violation is a fatal consistency
    /// error, never a retryable one.
    pub open spec fn wf(self) -> bool {
        &&& self.server.wal_seg_size != 0
        &&& self.server.pg_version != UNKNOWN_SERVER_VERSION
        &&& self.local_start_lsn.0 <= self.commit_lsn.0
        &&& self.commit_lsn.0 <= self.flush_lsn.0
        &&& state_wf(self.partial_backup)
    }
}

impl SafeKeeperState {
    pub open spec fn wf(self) -> bool {
        self@.wf()
    }

    /// A field-for-field copy.
    pub fn duplicate(&self) -> (r: SafeKeeperState)
        ensures
            r@ == self@,
    {
        SafeKeeperState {
            server: self.server,
            term: self.term,
            commit_lsn: self.commit_lsn,
            local_start_lsn: self.local_start_lsn,
            flush_lsn: self.flush_lsn,
            partial_backup: self.partial_backup.duplicate(),
        }
    }

    /// A fresh control record under term zero, as written when a
    /// timeline is created from a first greeting.
    pub fn new(server: ServerInfo, commit_lsn: Lsn, local_start_lsn: Lsn) -> (r: SafeKeeperState)
        ensures
            r.server == server,
            r.term == 0,
            r.commit_lsn == commit_lsn,
            r.local_start_lsn == local_start_lsn,
            r.flush_lsn == commit_lsn,
            r.partial_backup@ == Seq::<SegView>::empty(),
    {
        SafeKeeperState {
            server,
            term: 0,
            commit_lsn,
            local_start_lsn,
            flush_lsn: commit_lsn,
            partial_backup: State::default(),
        }
    }
}

/// A read-taken snapshot of the acceptor's live term and LSNs, as the
/// partial backup engine consumes it.
#[derive(Clone, Copy, PartialEq, Eq, Structural, Debug)]
pub struct SafekeeperInfo {
    pub term: u64,
    pub commit_lsn: u64,
    pub flush_lsn: u64,
}

/// Why the acceptor refused a message. All of these are protocol
/// errors scoped to the offending connection: the durable state is
/// left exactly as it was.
#[derive(Clone, Copy, PartialEq, Eq, Structural, Debug)]
pub enum SkError {
    /// The message claims a term below the highest term seen.
    StaleTerm,
    /// A greeting whose `wal_seg_size` or `pg_version` differs from
    /// the stored server facts.
    ServerInfoMismatch,
    /// An append starting beyond the buffered watermark would leave a
    /// gap in the WAL.
    AppendGap,
}

/// One per-timeline acceptor: the durable control record plus the
/// locally buffered WAL. Byte `i` of `wal` is the WAL byte at LSN `i`;
/// the buffered (not yet durable) watermark is `wal.len()`.
pub struct SafeKeeper {
    pub state: SafeKeeperState,
    pub wal: Vec<u8>,
    pub node_id: u64,
}

/// Mathematical image of a [`SafeKeeper`].
pub struct SafeKeeperView {
    pub state: SafeKeeperStateView,
    pub wal: Seq<u8>,
    pub node_id: u64,
}

impl View for SafeKeeper {
    type V = SafeKeeperView;

    open spec fn view(&self) -> SafeKeeperView {
        SafeKeeperView { state: self.state@, wal: self.wal@, node_id: self.node_id }
    }
}

impl SafeKeeperView {
    /// The control record is well-formed and the durable flush
    /// watermark never runs ahead of the buffered WAL.
    pub open spec fn wf(self) -> bool {
        &&& self.state.wf()
        &&& self.state.flush_lsn.0 <= self.wal.len()
        &&& self.wal.len() <= u64::MAX
    }
}

/// The term a message claims, if it claims one.
pub open spec fn spec_msg_term(m: MsgView) -> Option<u64> {
    match m {
        MsgView::Greeting(g) => Option::Some(g.term),
        MsgView::AppendRequest(a) => Option::Some(a.term),
        MsgView::NoFlushAppendRequest(a) => Option::Some(a.term),
        MsgView::FlushWAL => Option::None,
    }
}

/// The end LSN an append advertises; zero for other messages.
pub open spec fn spec_msg_end(m: MsgView) -> u64 {
    match m {
        MsgView::AppendRequest(a) => a.end_lsn.0,
        MsgView::NoFlushAppendRequest(a) => a.end_lsn.0,
        _ => 0,
    }
}

/// The WAL buffer after writing `d` at position `start`: bytes before
/// `start` kept, `d` laid down, and any old bytes past the written
/// range kept.
pub open spec fn spec_wal_write(w: Seq<u8>, start: int, d: Seq<u8>) -> Seq<u8> {
    w.subrange(0, start) + d + (if start + d.len() < w.len() {
        w.subrange(start + d.len(), w.len() as int)
    } else {
        Seq::empty()
    })
}

/// The acceptor after buffering one append: the term rises to the
/// message's term and the WAL takes the bytes.
pub open spec fn spec_append(s: SafeKeeperView, term: u64, start: int, d: Seq<u8>) -> SafeKeeperView {
    SafeKeeperView {
        state: SafeKeeperStateView { term, ..s.state },
        wal: spec_wal_write(s.wal, start, d),
        ..s
    }
}

/// The acceptor after a flush: the durable flush and commit watermarks
/// advance to the buffered watermark.
pub open spec fn spec_flush(s: SafeKeeperView) -> SafeKeeperView {
    SafeKeeperView {
        state: SafeKeeperStateView {
            flush_lsn: Lsn(s.wal.len() as u64),
            commit_lsn: Lsn(s.wal.len() as u64),
            ..s.state
        },
        ..s
    }
}

/// The reply a flush produces.
pub open spec fn spec_flush_reply(s: SafeKeeperView) -> AcceptorReply {
    AcceptorReply {
        term: spec_flush(s).state.term,
        flush_lsn: spec_flush(s).state.flush_lsn,
        commit_lsn: spec_flush(s).state.commit_lsn,
    }
}

/// What processing one message does: the next acceptor state and the
/// outcome handed back to the connection. A rejected message leaves
/// the state exactly as it was; only a flush produces a reply.
pub open spec fn spec_process(s: SafeKeeperView, m: MsgView) -> (SafeKeeperView, Result<
    Option<AcceptorReply>,
    SkError,
>) {
    match m {
        MsgView::Greeting(g) => {
            if g.term < s.state.term {
                (s, Result::Err(SkError::StaleTerm))
            } else if g.wal_seg_size != s.state.server.wal_seg_size || g.pg_version
                != s.state.server.pg_version {
                (s, Result::Err(SkError::ServerInfoMismatch))
            } else {
                (
                    SafeKeeperView { state: SafeKeeperStateView { term: g.term, ..s.state }, ..s },
                    Result::Ok(Option::None),
                )
            }
        },
        MsgView::AppendRequest(a) => {
            if a.term < s.state.term {
                (s, Result::Err(SkError::StaleTerm))
            } else if a.start_lsn.0 > s.wal.len() {
                (s, Result::Err(SkError::AppendGap))
            } else {
                let s1 = spec_append(s, a.term, a.start_lsn.0 as int, a.wal_data);
                (spec_flush(s1), Result::Ok(Option::Some(spec_flush_reply(s1))))
            }
        },
        MsgView::NoFlushAppendRequest(a) => {
            if a.term < s.state.term {
                (s, Result::Err(SkError::StaleTerm))
            } else if a.start_lsn.0 > s.wal.len() {
                (s, Result::Err(SkError::AppendGap))
            } else {
                (spec_append(s, a.term, a.start_lsn.0 as int, a.wal_data), Result::Ok(Option::None))
            }
        },
        MsgView::FlushWAL => {
            (spec_flush(s), Result::Ok(Option::Some(spec_flush_reply(s))))
        },
    }
}

impl SafeKeeper {
    pub open spec fn wf(self) -> bool {
        self@.wf()
    }

    /// An acceptor over a loaded control record and the WAL bytes
    /// recovered beside it.
    pub fn new(state: SafeKeeperState, wal: Vec<u8>, node_id: u64) -> (r: SafeKeeper)
        requires
            state.wf(),
            state.flush_lsn.0 <= wal@.len(),
        ensures
            r.state == state,
            r.wal == wal,
            r.node_id == node_id,
            r.wf(),
    {
        proof {
            assert(wal@.len() == wal.len());
        }
        SafeKeeper { state, wal, node_id }
    }

    /// The live snapshot the partial backup engine reads.
    pub fn get_safekeeper_info(&self) -> (r: SafekeeperInfo)
        ensures
            r.term == self.state.term,
            r.commit_lsn == self.state.commit_lsn.0,
            r.flush_lsn == self.state.flush_lsn.0,
    {
        SafekeeperInfo {
            term: self.state.term,
            commit_lsn: self.state.commit_lsn.0,
            flush_lsn: self.state.flush_lsn.0,
        }
    }

    /// Process one proposer message: exactly the transition
    /// [`spec_process`] describes. The term never decreases, and a
    /// rejection leaves the acceptor untouched.
    pub fn process_msg(&mut self, msg: &ProposerAcceptorMessage) -> (r: Result<
        Option<AcceptorReply>,
        SkError,
    >)
        requires
            old(self).wf(),
            msg_wf(msg@),
            spec_msg_end(msg@) <= usize::MAX,
        ensures
            final(self)@ == spec_process(old(self)@, msg@).0,
            r == spec_process(old(self)@, msg@).1,
            final(self).wf(),
            final(self).state.term >= old(self).state.term,
    {
        proof {
            lemma_process_preserves_wf(self@, msg@);
            lemma_process_term_monotonic(self@, msg@);
        }
        match msg {
            ProposerAcceptorMessage::Greeting(g) => {
                if g.term < self.state.term {
                    return Err(SkError::StaleTerm);
                }
                if g.wal_seg_size != self.state.server.wal_seg_size || g.pg_version
                    != self.state.server.pg_version {
                    return Err(SkError::ServerInfoMismatch);
                }
                self.state.term = g.term;
                Ok(None)
            },
            ProposerAcceptorMessage::AppendRequest(a) => {
                if a.term < self.state.term {
                    return Err(SkError::StaleTerm);
                }
                if a.start_lsn.0 > self.wal.len() as u64 {
                    return Err(SkError::AppendGap);
                }
                self.append_wal(a);
                let reply = self.flush();
                Ok(Some(reply))
            },
            ProposerAcceptorMessage::NoFlushAppendRequest(a) => {
                if a.term < self.state.term {
                    return Err(SkError::StaleTerm);
                }
                if a.start_lsn.0 > self.wal.len() as u64 {
                    return Err(SkError::AppendGap);
                }
                self.append_wal(a);
                Ok(None)
            },
            ProposerAcceptorMessage::FlushWAL => {
                let reply = self.flush();
                Ok(Some(reply))
            },
        }
    }

    /// Lay the append's bytes into the buffered WAL and remember its
    /// term as the highest seen.
    fn append_wal(&mut self, a: &crate::messages::AppendRequest)
        requires
            old(self).wf(),
            crate::messages::append_wf(a@),
            a.term >= old(self).state.term,
            a.start_lsn.0 <= old(self).wal@.len(),
            a.end_lsn.0 <= usize::MAX,
        ensures
            final(self)@ == spec_append(old(self)@, a.term, a.start_lsn.0 as int, a.wal_data@),
    {
        let start: usize = a.start_lsn.0 as usize;
        let end: usize = a.end_lsn.0 as usize;
        let mut tail: Vec<u8> = Vec::new();
        if end < self.wal.len() {
            tail = slice_to_vec(slice_subrange(self.wal.as_slice(), end, self.wal.len()));
        }
        self.wal.truncate(start);
        self.wal.extend_from_slice(a.wal_data.as_slice());
        self.wal.append(&mut tail);
        self.state.term = a.term;
        proof {
            assert(self.wal@ =~= spec_wal_write(
                old(self).wal@,
                a.start_lsn.0 as int,
                a.wal_data@,
            ));
        }
    }

    /// Force durability of everything buffered: the durable flush and
    /// commit watermarks advance to the buffered watermark, and the
    /// reply carries the updated feedback.
    fn flush(&mut self) -> (r: AcceptorReply)
        requires
            old(self)@.wal.len() <= u64::MAX,
        ensures
            final(self)@ == spec_flush(old(self)@),
            r == spec_flush_reply(old(self)@),
    {
        let watermark = Lsn(self.wal.len() as u64);
        self.state.flush_lsn = watermark;
        self.state.commit_lsn = watermark;
        AcceptorReply {
            term: self.state.term,
            flush_lsn: self.state.flush_lsn,
            commit_lsn: self.state.commit_lsn,
        }
    }
}

/// One processing step never lowers the remembered term.
pub proof fn lemma_process_term_monotonic(s: SafeKeeperView, m: MsgView)
    ensures
        spec_process(s, m).0.state.term >= s.state.term,
{
}

/// One processing step keeps the acceptor well-formed: in particular
/// `commit_lsn >= local_start_lsn` survives every legal message.
pub proof fn lemma_process_preserves_wf(s: SafeKeeperView, m: MsgView)
    requires
        s.wf(),
        msg_wf(m),
    ensures
        spec_process(s, m).0.wf(),
{
}

/// The acceptor after a whole sequence of messages, applied in order.
pub open spec fn spec_apply_msgs(s: SafeKeeperView, msgs: Seq<MsgView>) -> SafeKeeperView
    decreases msgs.len(),
{
    if msgs.len() == 0 {
        s
    } else {
        spec_apply_msgs(spec_process(s, msgs[0]).0, msgs.drop_first())
    }
}

/// No sequence of messages ever lowers the remembered term.
pub proof fn lemma_apply_term_monotonic(s: SafeKeeperView, msgs: Seq<MsgView>)
    ensures
        spec_apply_msgs(s, msgs).state.term >= s.state.term,
    decreases msgs.len(),
{
    if msgs.len() > 0 {
        lemma_process_term_monotonic(s, msgs[0]);
        lemma_apply_term_monotonic(spec_process(s, msgs[0]).0, msgs.drop_first());
    }
}

/// Term monotonicity: whatever messages the acceptor has accepted, a
/// later message claiming a term below the remembered term is rejected
/// as stale and causes no state change — in particular, once a message
/// under term `t` was accepted, the remembered term stays at least `t`
/// forever, so every lower-termed straggler bounces.
pub proof fn lemma_term_monotonicity(s: SafeKeeperView, msgs: Seq<MsgView>, m: MsgView)
    requires
        spec_msg_term(m) is Some,
        spec_msg_term(m)->Some_0 < s.state.term,
    ensures
        spec_process(spec_apply_msgs(s, msgs), m).0 == spec_apply_msgs(s, msgs),
        spec_process(spec_apply_msgs(s, msgs), m).1 == Result::<
            Option<AcceptorReply>,
            SkError,
        >::Err(SkError::StaleTerm),
{
    lemma_apply_term_monotonic(s, msgs);
}

/// The LSN invariant: every state reachable from a well-formed state
/// by legal messages is well-formed, so `commit_lsn >= local_start_lsn`
/// holds of every reachable persisted state.
pub proof fn lemma_lsn_invariant(s: SafeKeeperView, msgs: Seq<MsgView>)
    requires
        s.wf(),
        forall|i: int| 0 <= i < msgs.len() ==> msg_wf(#[trigger] msgs[i]),
    ensures
        spec_apply_msgs(s, msgs).wf(),
        spec_apply_msgs(s, msgs).state.commit_lsn.0 >= spec_apply_msgs(
            s,
            msgs,
        ).state.local_start_lsn.0,
    decreases msgs.len(),
{
    if msgs.len() > 0 {
        lemma_process_preserves_wf(s, msgs[0]);
        assert(forall|i: int|
            0 <= i < msgs.drop_first().len() ==> msg_wf(#[trigger] msgs.drop_first()[i]));
        lemma_lsn_invariant(spec_process(s, msgs[0]).0, msgs.drop_first());
    }
}

} // verus!
