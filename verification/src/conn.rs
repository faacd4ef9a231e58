//! Per-connection protocol flow: the first frame must be a greeting,
//! which binds the connection to a timeline (creating it if needed);
//! later frames route to that timeline's acceptor. A buffered append
//! only marks the connection as owing a flush; a separate periodic
//! pass issues the flush, decoupling append throughput from fsync
//! latency. An out-of-band streaming-read command is answered from
//! local storage without touching the acceptor.

use vstd::prelude::*;
use vstd::slice::{slice_subrange, slice_to_vec};
use crate::acceptor::{SkError, spec_process, spec_msg_end, UNKNOWN_SERVER_VERSION};
use crate::messages::{
    ServerInfo, ProposerAcceptorMessage, MsgView, AcceptorReply, ParseError, msg_wf, parse_msg,
    serialize_reply, spec_parse_msg, spec_ser_reply, lemma_parse_msg_wf,
};
use crate::registry::{
    GlobalMap, TenantTimelineId, TimelineEntryView, TimelineError, spec_lookup, spec_store,
    spec_fresh_entry, lemma_lookup_push, lemma_lookup_store,
};
use crate::parsenum::{
    spec_split, spec_parse_dec, spec_parse_hex32, split_bytes, parse_dec_u64, parse_hex32_u128,
};

verus! {

/// The per-connection context: whether the handshake happened, which
/// timeline the connection is bound to, and whether a flush is owed.
#[derive(Clone, Copy, PartialEq, Eq, Structural, Debug)]
pub struct ConnState {
    pub greeting: bool,
    pub ttid: TenantTimelineId,
    pub flush_pending: bool,
}

/// Why a connection must close. All of these are scoped to the
/// offending connection: the registry's durable state never changes
/// beyond what the acceptor already persisted.
#[derive(Clone, Copy, PartialEq, Eq, Structural, Debug)]
pub enum ConnError {
    /// The frame is not a protocol message.
    Parse(ParseError),
    /// The acceptor refused the message.
    Sk(SkError),
    /// The greeting could not create its timeline.
    Timeline(TimelineError),
    /// The first message on the connection was not a greeting.
    UnexpectedMessage,
    /// A malformed streaming-read command.
    BadStartReplication,
    /// A streaming read of an unknown timeline or an invalid range.
    BadReadRange,
    /// An append whose end position does not fit this machine's
    /// buffer index.
    OversizedAppend,
}

/// What the connection handler sends back for one inbound frame.
#[derive(Clone, PartialEq, Eq, Debug)]
pub enum ConnOutcome {
    /// Nothing to send.
    NoReply,
    /// One reply frame.
    Reply(Vec<u8>),
    /// One raw byte payload, after which the connection closes.
    ReplyAndClose(Vec<u8>),
}

/// A parsed streaming-read command: serve the WAL bytes
/// `[start_lsn, end_lsn)` of one timeline.
#[derive(Clone, Copy, PartialEq, Eq, Structural, Debug)]
pub struct ReplCmd {
    pub ttid: TenantTimelineId,
    pub start_lsn: u64,
    pub end_lsn: u64,
}

/// The bytes `START_REPLICATION ` that mark the out-of-band command.
pub open spec fn spec_repl_prefix() -> Seq<u8> {
    seq![
        83u8,
        84u8,
        65u8,
        82u8,
        84u8,
        95u8,
        82u8,
        69u8,
        80u8,
        76u8,
        73u8,
        67u8,
        65u8,
        84u8,
        73u8,
        79u8,
        78u8,
        32u8,
    ]
}

/// Does the frame begin with the streaming-read command word?
pub open spec fn is_repl_prefix(d: Seq<u8>) -> bool {
    d.len() >= 18 && d.subrange(0, 18) == spec_repl_prefix()
}

/// What a streaming-read command's arguments mean:
/// `<tenant hex32> <timeline hex32> <start decimal> <end decimal>`,
/// separated by single spaces; anything after the fourth token is
/// ignored.
pub open spec fn spec_parse_repl_cmd(d: Seq<u8>) -> Option<ReplCmd> {
    let tokens = spec_split(d, 32);
    if tokens.len() >= 4 {
        if spec_parse_hex32(tokens[0]) is Some && spec_parse_hex32(tokens[1]) is Some
            && spec_parse_dec(tokens[2]) is Some && spec_parse_dec(tokens[3]) is Some {
            Option::Some(ReplCmd {
                ttid: TenantTimelineId {
                    tenant_id: spec_parse_hex32(tokens[0])->Some_0,
                    timeline_id: spec_parse_hex32(tokens[1])->Some_0,
                },
                start_lsn: spec_parse_dec(tokens[2])->Some_0,
                end_lsn: spec_parse_dec(tokens[3])->Some_0,
            })
        } else {
            Option::None
        }
    } else {
        Option::None
    }
}

/// An append from the wire is re-dispatched as a no-flush append, so
/// repeated small appends amortize durability cost; everything else
/// routes unchanged.
pub open spec fn spec_routed(m: MsgView) -> MsgView {
    match m {
        MsgView::AppendRequest(a) => MsgView::NoFlushAppendRequest(a),
        x => x,
    }
}

/// One message routed to the bound timeline of a greeted connection:
/// the new connection context, the new registry entries, and what the
/// connection hands back.
pub open spec fn spec_conn_route(
    conn: ConnState,
    entries: Seq<TimelineEntryView>,
    m: MsgView,
) -> (ConnState, Seq<TimelineEntryView>, Result<Option<AcceptorReply>, ConnError>) {
    let c2 = ConnState {
        flush_pending: conn.flush_pending || m is AppendRequest,
        ..conn
    };
    if spec_msg_end(m) > usize::MAX {
        (c2, entries, Result::Err(ConnError::OversizedAppend))
    } else {
        let sk0 = spec_lookup(entries, conn.ttid)->Some_0;
        let step = spec_process(sk0, spec_routed(m));
        let entries1 = spec_store(entries, conn.ttid, step.0);
        match step.1 {
            Result::Ok(x) => (c2, entries1, Result::Ok(x)),
            Result::Err(e) => (c2, entries1, Result::Err(ConnError::Sk(e))),
        }
    }
}

/// One typed message through the whole connection flow, greeting
/// handshake included.
pub open spec fn spec_conn_process(
    conn: ConnState,
    entries: Seq<TimelineEntryView>,
    my_id: u64,
    m: MsgView,
) -> (ConnState, Seq<TimelineEntryView>, Result<Option<AcceptorReply>, ConnError>) {
    if conn.greeting {
        spec_conn_route(conn, entries, m)
    } else {
        match m {
            MsgView::Greeting(g) => {
                let t = TenantTimelineId { tenant_id: g.tenant_id, timeline_id: g.timeline_id };
                let c = ConnState { greeting: true, ttid: t, flush_pending: conn.flush_pending };
                if spec_lookup(entries, t) is Some {
                    spec_conn_route(c, entries, m)
                } else if g.wal_seg_size == 0 {
                    (
                        c,
                        entries,
                        Result::Err(ConnError::Timeline(TimelineError::UninitializedWalSegSize)),
                    )
                } else if g.pg_version == UNKNOWN_SERVER_VERSION {
                    (
                        c,
                        entries,
                        Result::Err(ConnError::Timeline(TimelineError::UninitializedPgVersion)),
                    )
                } else {
                    spec_conn_route(
                        c,
                        entries.push(
                            spec_fresh_entry(
                                t,
                                ServerInfo {
                                    pg_version: g.pg_version,
                                    system_id: g.system_id,
                                    wal_seg_size: g.wal_seg_size,
                                },
                                my_id,
                            ),
                        ),
                        m,
                    )
                }
            },
            _ => (
                (ConnState { greeting: true, ..conn }),
                entries,
                Result::Err(ConnError::UnexpectedMessage),
            ),
        }
    }
}

impl ConnState {
    /// A greeted connection is bound to a known timeline, and a flush
    /// is only ever owed after the handshake.
    pub open spec fn wf(self, g: GlobalMap) -> bool {
        &&& (self.greeting ==> g.spec_has(self.ttid))
        &&& (self.flush_pending ==> self.greeting)
    }

    /// A fresh connection context, not yet bound to any timeline.
    pub fn new() -> (r: ConnState)
        ensures
            !r.greeting,
            !r.flush_pending,
            r.ttid == (TenantTimelineId { tenant_id: 0, timeline_id: 0 }),
    {
        ConnState { greeting: false, ttid: TenantTimelineId::empty(), flush_pending: false }
    }

    /// Bind this connection to `ttid`, creating the timeline from the
    /// greeting's server facts if the registry does not know it yet.
    fn init_timeline(
        &mut self,
        ttid: TenantTimelineId,
        server_info: ServerInfo,
        global: &mut GlobalMap,
    ) -> (r: Result<(), TimelineError>)
        requires
            old(global).wf(),
        ensures
            final(self).ttid == ttid,
            final(self).greeting == old(self).greeting,
            final(self).flush_pending == old(self).flush_pending,
            final(global).wf(),
            final(global).my_id == old(global).my_id,
            old(global).spec_has(ttid) ==> r is Ok && *final(global) == *old(global),
            !old(global).spec_has(ttid) ==> {
                &&& (r is Ok <==> server_info.wal_seg_size != 0 && server_info.pg_version
                    != UNKNOWN_SERVER_VERSION)
                &&& (server_info.wal_seg_size == 0 ==> r == Result::<(), TimelineError>::Err(
                    TimelineError::UninitializedWalSegSize,
                ) && *final(global) == *old(global))
                &&& ((server_info.wal_seg_size != 0 && server_info.pg_version
                    == UNKNOWN_SERVER_VERSION) ==> r == Result::<(), TimelineError>::Err(
                    TimelineError::UninitializedPgVersion,
                ) && *final(global) == *old(global))
                &&& (r is Ok ==> final(global).entries() == old(global).entries().push(
                    spec_fresh_entry(ttid, server_info, old(global).my_id),
                ))
            },
            r is Ok ==> final(global).spec_has(ttid),
    {
        self.ttid = ttid;
        if global.has_tli(&ttid) {
            return Ok(());
        }
        let r = global.create(ttid, server_info);
        proof {
            if r is Ok {
                lemma_lookup_push(
                    old(global).entries(),
                    spec_fresh_entry(ttid, server_info, old(global).my_id),
                    ttid,
                );
            }
        }
        r
    }

    /// Route one message to the bound timeline's acceptor and
    /// serialize whatever reply it produces.
    fn process_sk_msg(&self, global: &mut GlobalMap, msg: &ProposerAcceptorMessage) -> (r: Result<
        Option<Vec<u8>>,
        ConnError,
    >)
        requires
            old(global).wf(),
            old(global).spec_has(self.ttid),
            msg_wf(msg@),
        ensures
            final(global).wf(),
            final(global).my_id == old(global).my_id,
            final(global).spec_has(self.ttid),
            spec_msg_end(msg@) > usize::MAX ==> r == Result::<Option<Vec<u8>>, ConnError>::Err(
                ConnError::OversizedAppend,
            ) && *final(global) == *old(global),
            spec_msg_end(msg@) <= usize::MAX ==> {
                let step = spec_process(old(global).spec_get(self.ttid), msg@);
                &&& final(global).entries() == spec_store(
                    old(global).entries(),
                    self.ttid,
                    step.0,
                )
                &&& match step.1 {
                    Result::Ok(rep) => match rep {
                        Option::None => r == Result::<Option<Vec<u8>>, ConnError>::Ok(
                            Option::None,
                        ),
                        Option::Some(rep) => r is Ok && r->Ok_0 is Some && r->Ok_0->Some_0@
                            == spec_ser_reply(rep),
                    },
                    Result::Err(e) => r == Result::<Option<Vec<u8>>, ConnError>::Err(
                        ConnError::Sk(e),
                    ),
                }
            },
    {
        let oversized = match msg {
            ProposerAcceptorMessage::AppendRequest(a) => a.end_lsn.0 > usize::MAX as u64,
            ProposerAcceptorMessage::NoFlushAppendRequest(a) => a.end_lsn.0 > usize::MAX as u64,
            _ => false,
        };
        if oversized {
            return Err(ConnError::OversizedAppend);
        }
        let res = global.process_msg_for(&self.ttid, msg);
        proof {
            lemma_lookup_store(
                old(global).entries(),
                self.ttid,
                spec_process(old(global).spec_get(self.ttid), msg@).0,
            );
        }
        match res {
            Ok(None) => Ok(None),
            Ok(Some(reply)) => Ok(Some(serialize_reply(&reply))),
            Err(e) => Err(ConnError::Sk(e)),
        }
    }

    /// One typed proposer message through the connection: handshake on
    /// the first message, then routing, exactly as
    /// [`spec_conn_process`] describes.
    pub fn process(&mut self, msg: ProposerAcceptorMessage, global: &mut GlobalMap) -> (r: Result<
        Option<Vec<u8>>,
        ConnError,
    >)
        requires
            old(global).wf(),
            old(self).wf(*old(global)),
            msg_wf(msg@),
        ensures
            final(global).wf(),
            final(global).my_id == old(global).my_id,
            ({
                let step = spec_conn_process(
                    *old(self),
                    old(global).entries(),
                    old(global).my_id,
                    msg@,
                );
                &&& *final(self) == step.0
                &&& final(global).entries() == step.1
                &&& match step.2 {
                    Result::Ok(rep) => match rep {
                        Option::None => r == Result::<Option<Vec<u8>>, ConnError>::Ok(
                            Option::None,
                        ),
                        Option::Some(rep) => r is Ok && r->Ok_0 is Some && r->Ok_0->Some_0@
                            == spec_ser_reply(rep),
                    },
                    Result::Err(e) => r == Result::<Option<Vec<u8>>, ConnError>::Err(e),
                }
            }),
            r is Ok ==> final(self).wf(*final(global)),
    {
        if !self.greeting {
            self.greeting = true;
            match &msg {
                ProposerAcceptorMessage::Greeting(g) => {
                    let server_info = ServerInfo {
                        pg_version: g.pg_version,
                        system_id: g.system_id,
                        wal_seg_size: g.wal_seg_size,
                    };
                    let ttid = TenantTimelineId::new(g.tenant_id, g.timeline_id);
                    match self.init_timeline(ttid, server_info, global) {
                        Ok(()) => {},
                        Err(e) => {
                            return Err(ConnError::Timeline(e));
                        },
                    }
                },
                _ => {
                    return Err(ConnError::UnexpectedMessage);
                },
            }
        }
        match msg {
            ProposerAcceptorMessage::AppendRequest(a) => {
                self.flush_pending = true;
                self.process_sk_msg(
                    global,
                    &ProposerAcceptorMessage::NoFlushAppendRequest(a),
                )
            },
            other => self.process_sk_msg(global, &other),
        }
    }

    /// Issue the owed flush, if any: the only point that produces a
    /// reply carrying updated feedback to the proposer.
    pub fn flush(&mut self, global: &mut GlobalMap) -> (r: Result<Option<Vec<u8>>, ConnError>)
        requires
            old(global).wf(),
            old(self).wf(*old(global)),
        ensures
            final(self).greeting == old(self).greeting,
            final(self).ttid == old(self).ttid,
            !final(self).flush_pending,
            final(global).wf(),
            final(global).my_id == old(global).my_id,
            final(self).wf(*final(global)),
            !old(self).flush_pending ==> r == Result::<Option<Vec<u8>>, ConnError>::Ok(
                Option::None,
            ) && *final(global) == *old(global),
            old(self).flush_pending ==> {
                let step = spec_process(
                    old(global).spec_get(old(self).ttid),
                    MsgView::FlushWAL,
                );
                &&& final(global).entries() == spec_store(
                    old(global).entries(),
                    old(self).ttid,
                    step.0,
                )
                &&& step.1 is Ok && step.1->Ok_0 is Some
                &&& r is Ok && r->Ok_0 is Some && r->Ok_0->Some_0@ == spec_ser_reply(
                    step.1->Ok_0->Some_0,
                )
            },
    {
        if !self.flush_pending {
            return Ok(None);
        }
        self.flush_pending = false;
        self.process_sk_msg(global, &ProposerAcceptorMessage::FlushWAL)
    }

    /// Serve a streaming-read command: parse the timeline and LSN
    /// range and return the raw WAL byte range from local storage,
    /// bypassing the acceptor.
    pub fn process_start_replication(&self, copy_data: &[u8], global: &GlobalMap) -> (r: Result<
        Vec<u8>,
        ConnError,
    >)
        requires
            global.wf(),
        ensures
            spec_parse_repl_cmd(copy_data@) is None ==> r == Result::<Vec<u8>, ConnError>::Err(
                ConnError::BadStartReplication,
            ),
            spec_parse_repl_cmd(copy_data@) matches Option::Some(cmd) ==> {
                if !global.spec_has(cmd.ttid) {
                    r == Result::<Vec<u8>, ConnError>::Err(ConnError::BadReadRange)
                } else if !(cmd.start_lsn <= cmd.end_lsn && cmd.end_lsn <= global.spec_get(
                    cmd.ttid,
                ).wal.len()) {
                    r == Result::<Vec<u8>, ConnError>::Err(ConnError::BadReadRange)
                } else {
                    r is Ok && r->Ok_0@ == global.spec_get(cmd.ttid).wal.subrange(
                        cmd.start_lsn as int,
                        cmd.end_lsn as int,
                    )
                }
            },
    {
        let tokens = split_bytes(copy_data, 32);
        if tokens.len() < 4 {
            return Err(ConnError::BadStartReplication);
        }
        proof {
            assert(tokens@[0]@ =~= tokens.deep_view()[0]);
            assert(tokens@[1]@ =~= tokens.deep_view()[1]);
            assert(tokens@[2]@ =~= tokens.deep_view()[2]);
            assert(tokens@[3]@ =~= tokens.deep_view()[3]);
        }
        let tenant_id = match parse_hex32_u128(tokens[0].as_slice()) {
            Some(v) => v,
            None => {
                return Err(ConnError::BadStartReplication);
            },
        };
        let timeline_id = match parse_hex32_u128(tokens[1].as_slice()) {
            Some(v) => v,
            None => {
                return Err(ConnError::BadStartReplication);
            },
        };
        let start_lsn = match parse_dec_u64(tokens[2].as_slice()) {
            Some(v) => v,
            None => {
                return Err(ConnError::BadStartReplication);
            },
        };
        let end_lsn = match parse_dec_u64(tokens[3].as_slice()) {
            Some(v) => v,
            None => {
                return Err(ConnError::BadStartReplication);
            },
        };
        let ttid = TenantTimelineId::new(tenant_id, timeline_id);
        if !global.has_tli(&ttid) {
            return Err(ConnError::BadReadRange);
        }
        let sk = global.get(&ttid);
        if !(start_lsn <= end_lsn && end_lsn <= sk.wal.len() as u64) {
            return Err(ConnError::BadReadRange);
        }
        Ok(slice_to_vec(slice_subrange(sk.wal.as_slice(), start_lsn as usize, end_lsn as usize)))
    }

    /// One inbound frame: a streaming-read command on a fresh
    /// connection is answered directly and closes the connection;
    /// anything else must parse as a proposer message and flows
    /// through [`ConnState::process`].
    pub fn process_any(&mut self, data: &[u8], global: &mut GlobalMap) -> (r: Result<
        ConnOutcome,
        ConnError,
    >)
        requires
            old(global).wf(),
            old(self).wf(*old(global)),
        ensures
            final(global).wf(),
            final(global).my_id == old(global).my_id,
            (!old(self).greeting && is_repl_prefix(data@)) ==> {
                &&& *final(self) == *old(self)
                &&& *final(global) == *old(global)
                &&& match spec_parse_repl_cmd(data@.skip(18)) {
                    Option::None => r == Result::<ConnOutcome, ConnError>::Err(
                        ConnError::BadStartReplication,
                    ),
                    Option::Some(cmd) => {
                        if !old(global).spec_has(cmd.ttid) {
                            r == Result::<ConnOutcome, ConnError>::Err(ConnError::BadReadRange)
                        } else if !(cmd.start_lsn <= cmd.end_lsn && cmd.end_lsn <= old(
                            global,
                        ).spec_get(cmd.ttid).wal.len()) {
                            r == Result::<ConnOutcome, ConnError>::Err(ConnError::BadReadRange)
                        } else {
                            r is Ok && r->Ok_0 is ReplyAndClose && r->Ok_0->ReplyAndClose_0@
                                == old(global).spec_get(cmd.ttid).wal.subrange(
                                cmd.start_lsn as int,
                                cmd.end_lsn as int,
                            )
                        }
                    },
                }
            },
            !(!old(self).greeting && is_repl_prefix(data@)) ==> match spec_parse_msg(data@) {
                Option::None => {
                    &&& *final(self) == *old(self)
                    &&& *final(global) == *old(global)
                    &&& r is Err && r->Err_0 is Parse
                },
                Option::Some(mv) => {
                    let step = spec_conn_process(
                        *old(self),
                        old(global).entries(),
                        old(global).my_id,
                        mv,
                    );
                    &&& *final(self) == step.0
                    &&& final(global).entries() == step.1
                    &&& match step.2 {
                        Result::Ok(rep) => match rep {
                            Option::None => r == Result::<ConnOutcome, ConnError>::Ok(
                                ConnOutcome::NoReply,
                            ),
                            Option::Some(rep) => r is Ok && r->Ok_0 is Reply
                                && r->Ok_0->Reply_0@ == spec_ser_reply(rep),
                        },
                        Result::Err(e) => r == Result::<ConnOutcome, ConnError>::Err(e),
                    }
                },
            },
            r is Ok ==> final(self).wf(*final(global)),
    {
        if !self.greeting && has_repl_prefix(data) {
            let rest = slice_subrange(data, 18, data.len());
            proof {
                assert(rest@ =~= data@.skip(18));
            }
            return match self.process_start_replication(rest, global) {
                Ok(b) => Ok(ConnOutcome::ReplyAndClose(b)),
                Err(e) => Err(e),
            };
        }
        match parse_msg(data) {
            Err(e) => Err(ConnError::Parse(e)),
            Ok(msg) => {
                proof {
                    lemma_parse_msg_wf(data@);
                }
                match self.process(msg, global) {
                    Ok(None) => Ok(ConnOutcome::NoReply),
                    Ok(Some(b)) => Ok(ConnOutcome::Reply(b)),
                    Err(e) => Err(e),
                }
            },
        }
    }
}

/// Does the frame begin with `START_REPLICATION `?
fn has_repl_prefix(data: &[u8]) -> (r: bool)
    ensures
        r == is_repl_prefix(data@),
{
    if data.len() < 18 {
        return false;
    }
    let ok = data[0] == 83 && data[1] == 84 && data[2] == 65 && data[3] == 82 && data[4] == 84
        && data[5] == 95 && data[6] == 82 && data[7] == 69 && data[8] == 80 && data[9] == 76
        && data[10] == 73 && data[11] == 67 && data[12] == 65 && data[13] == 84 && data[14] == 73
        && data[15] == 79 && data[16] == 78 && data[17] == 32;
    proof {
        if ok {
            assert(data@.subrange(0, 18) =~= spec_repl_prefix());
        }
        if data@.subrange(0, 18) == spec_repl_prefix() {
            assert forall|i: int| 0 <= i < 18 implies data@[i] == spec_repl_prefix()[i] by {
                assert(data@.subrange(0, 18)[i] == data@[i]);
            }
            assert(ok);
        }
    }
    ok
}

} // verus!
