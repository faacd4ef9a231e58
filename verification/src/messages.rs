//! Proposer--acceptor protocol messages and their framed binary encoding.
//!
//! Every message travels as one opaque byte payload: a tag byte followed
//! by fixed-width little-endian fields, with the WAL bytes of an append
//! as the remainder of the frame.

use vstd::prelude::*;
use vstd::bytes::{
    spec_u32_to_le_bytes, spec_u64_to_le_bytes, spec_u128_to_le_bytes,
    lemma_auto_spec_u32_to_from_le_bytes, lemma_auto_spec_u64_to_from_le_bytes,
    lemma_auto_spec_u128_to_from_le_bytes, spec_u32_from_le_bytes, spec_u64_from_le_bytes,
    spec_u128_from_le_bytes, u32_from_le_bytes, u64_from_le_bytes, u128_from_le_bytes,
    u32_to_le_bytes, u64_to_le_bytes, u128_to_le_bytes,
};
use vstd::slice::{slice_subrange, slice_to_vec};
use crate::lsn::Lsn;

verus! {

/// Immutable per-timeline facts set from the first proposer greeting.
#[derive(Clone, Copy, PartialEq, Eq, Structural, Debug)]
pub struct ServerInfo {
    pub pg_version: u32,
    pub system_id: u64,
    pub wal_seg_size: u32,
}

/// First message on a fresh connection: identifies the timeline and
/// carries the server facts that must match the stored ones.
#[derive(Clone, Copy, PartialEq, Eq, Structural, Debug)]
pub struct Greeting {
    pub term: u64,
    pub tenant_id: u128,
    pub timeline_id: u128,
    pub pg_version: u32,
    pub system_id: u64,
    pub wal_seg_size: u32,
}

/// WAL bytes for the range `[start_lsn, end_lsn)` under a term.
#[derive(Clone, PartialEq, Eq, Debug)]
pub struct AppendRequest {
    pub term: u64,
    pub start_lsn: Lsn,
    pub end_lsn: Lsn,
    pub wal_data: Vec<u8>,
}

/// Mathematical image of an [`AppendRequest`].
pub struct AppendRequestView {
    pub term: u64,
    pub start_lsn: Lsn,
    pub end_lsn: Lsn,
    pub wal_data: Seq<u8>,
}

impl View for AppendRequest {
    type V = AppendRequestView;

    open spec fn view(&self) -> AppendRequestView {
        AppendRequestView {
            term: self.term,
            start_lsn: self.start_lsn,
            end_lsn: self.end_lsn,
            wal_data: self.wal_data@,
        }
    }
}

/// A message from the proposer to the acceptor.
/// `NoFlushAppendRequest` never travels on the wire: the connection
/// handler re-dispatches a buffered append under this variant so that
/// repeated small appends amortize durability cost.
#[derive(Clone, PartialEq, Eq, Debug)]
pub enum ProposerAcceptorMessage {
    Greeting(Greeting),
    AppendRequest(AppendRequest),
    NoFlushAppendRequest(AppendRequest),
    FlushWAL,
}

/// Mathematical image of a [`ProposerAcceptorMessage`].
pub enum MsgView {
    Greeting(Greeting),
    AppendRequest(AppendRequestView),
    NoFlushAppendRequest(AppendRequestView),
    FlushWAL,
}

impl View for ProposerAcceptorMessage {
    type V = MsgView;

    open spec fn view(&self) -> MsgView {
        match self {
            ProposerAcceptorMessage::Greeting(g) => MsgView::Greeting(*g),
            ProposerAcceptorMessage::AppendRequest(a) => MsgView::AppendRequest(a@),
            ProposerAcceptorMessage::NoFlushAppendRequest(a) => MsgView::NoFlushAppendRequest(a@),
            ProposerAcceptorMessage::FlushWAL => MsgView::FlushWAL,
        }
    }
}

/// Reply carrying updated feedback to the proposer, emitted after a flush.
#[derive(Clone, Copy, PartialEq, Eq, Structural, Debug)]
pub struct AcceptorReply {
    pub term: u64,
    pub flush_lsn: Lsn,
    pub commit_lsn: Lsn,
}

/// Why a frame was refused.
#[derive(Clone, Copy, PartialEq, Eq, Structural, Debug)]
pub enum ParseError {
    /// Empty frame or a tag byte that names no message.
    UnknownTag,
    /// The frame length does not fit the message named by the tag.
    BadLength,
    /// An append whose `end_lsn` lies before its `start_lsn`, or whose
    /// payload length differs from the advertised LSN range.
    BadRange,
}

pub const TAG_GREETING: u8 = 1;

pub const TAG_APPEND: u8 = 2;

pub const TAG_FLUSH: u8 = 3;

pub const TAG_REPLY: u8 = 4;

/// Byte length of a greeting frame: tag, term, tenant, timeline,
/// pg_version, system_id, wal_seg_size.
pub const GREETING_FRAME_LEN: usize = 57;

/// Byte length of an append frame before its WAL payload: tag, term,
/// start_lsn, end_lsn.
pub const APPEND_HEADER_LEN: usize = 25;

/// Byte length of a reply frame: tag, term, flush_lsn, commit_lsn.
pub const REPLY_FRAME_LEN: usize = 25;

/// True of the messages that travel on the wire.
pub open spec fn wire_msg(m: MsgView) -> bool {
    !(m is NoFlushAppendRequest)
}

/// An append whose payload matches its advertised LSN range.
pub open spec fn append_wf(a: AppendRequestView) -> bool {
    a.start_lsn.0 <= a.end_lsn.0 && a.wal_data.len() == a.end_lsn.0 - a.start_lsn.0
}

/// A message whose frame is parseable back: any message except an
/// append whose payload disagrees with its LSN range.
pub open spec fn msg_wf(m: MsgView) -> bool {
    match m {
        MsgView::AppendRequest(a) => append_wf(a),
        MsgView::NoFlushAppendRequest(a) => append_wf(a),
        _ => true,
    }
}

/// The frame for a greeting.
pub open spec fn spec_ser_greeting(g: Greeting) -> Seq<u8> {
    seq![TAG_GREETING] + spec_u64_to_le_bytes(g.term) + spec_u128_to_le_bytes(g.tenant_id)
        + spec_u128_to_le_bytes(g.timeline_id) + spec_u32_to_le_bytes(g.pg_version)
        + spec_u64_to_le_bytes(g.system_id) + spec_u32_to_le_bytes(g.wal_seg_size)
}

/// The frame for an append.
pub open spec fn spec_ser_append(a: AppendRequestView) -> Seq<u8> {
    seq![TAG_APPEND] + spec_u64_to_le_bytes(a.term) + spec_u64_to_le_bytes(a.start_lsn.0)
        + spec_u64_to_le_bytes(a.end_lsn.0) + a.wal_data
}

/// The frame for any proposer message; a no-flush append re-uses the
/// append frame, since the distinction is local to the acceptor.
pub open spec fn spec_ser_msg(m: MsgView) -> Seq<u8> {
    match m {
        MsgView::Greeting(g) => spec_ser_greeting(g),
        MsgView::AppendRequest(a) => spec_ser_append(a),
        MsgView::NoFlushAppendRequest(a) => spec_ser_append(a),
        MsgView::FlushWAL => seq![TAG_FLUSH],
    }
}

/// The frame for a reply.
pub open spec fn spec_ser_reply(r: AcceptorReply) -> Seq<u8> {
    seq![TAG_REPLY] + spec_u64_to_le_bytes(r.term) + spec_u64_to_le_bytes(r.flush_lsn.0)
        + spec_u64_to_le_bytes(r.commit_lsn.0)
}

/// What a frame means: the unique wire message it encodes, if any.
pub open spec fn spec_parse_msg(d: Seq<u8>) -> Option<MsgView> {
    if d.len() == 0 {
        Option::None
    } else if d[0] == TAG_GREETING {
        if d.len() == GREETING_FRAME_LEN {
            Option::Some(MsgView::Greeting(Greeting {
                term: spec_u64_from_le_bytes(d.subrange(1, 9)),
                tenant_id: spec_u128_from_le_bytes(d.subrange(9, 25)),
                timeline_id: spec_u128_from_le_bytes(d.subrange(25, 41)),
                pg_version: spec_u32_from_le_bytes(d.subrange(41, 45)),
                system_id: spec_u64_from_le_bytes(d.subrange(45, 53)),
                wal_seg_size: spec_u32_from_le_bytes(d.subrange(53, 57)),
            }))
        } else {
            Option::None
        }
    } else if d[0] == TAG_APPEND {
        if d.len() >= APPEND_HEADER_LEN {
            let start = spec_u64_from_le_bytes(d.subrange(9, 17));
            let end = spec_u64_from_le_bytes(d.subrange(17, 25));
            if start <= end && end - start == d.len() - APPEND_HEADER_LEN {
                Option::Some(MsgView::AppendRequest(AppendRequestView {
                    term: spec_u64_from_le_bytes(d.subrange(1, 9)),
                    start_lsn: Lsn(start),
                    end_lsn: Lsn(end),
                    wal_data: d.subrange(APPEND_HEADER_LEN as int, d.len() as int),
                }))
            } else {
                Option::None
            }
        } else {
            Option::None
        }
    } else if d[0] == TAG_FLUSH {
        if d.len() == 1 {
            Option::Some(MsgView::FlushWAL)
        } else {
            Option::None
        }
    } else {
        Option::None
    }
}

/// Parse one inbound frame into a typed message.
pub fn parse_msg(data: &[u8]) -> (r: Result<ProposerAcceptorMessage, ParseError>)
    ensures
        match r {
            Ok(m) => spec_parse_msg(data@) == Option::Some(m@) && wire_msg(m@),
            Err(_) => spec_parse_msg(data@) is None,
        },
{
    if data.len() == 0 {
        return Err(ParseError::UnknownTag);
    }
    let tag = data[0];
    if tag == TAG_GREETING {
        if data.len() != GREETING_FRAME_LEN {
            return Err(ParseError::BadLength);
        }
        let g = Greeting {
            term: u64_from_le_bytes(slice_subrange(data, 1, 9)),
            tenant_id: u128_from_le_bytes(slice_subrange(data, 9, 25)),
            timeline_id: u128_from_le_bytes(slice_subrange(data, 25, 41)),
            pg_version: u32_from_le_bytes(slice_subrange(data, 41, 45)),
            system_id: u64_from_le_bytes(slice_subrange(data, 45, 53)),
            wal_seg_size: u32_from_le_bytes(slice_subrange(data, 53, 57)),
        };
        Ok(ProposerAcceptorMessage::Greeting(g))
    } else if tag == TAG_APPEND {
        if data.len() < APPEND_HEADER_LEN {
            return Err(ParseError::BadLength);
        }
        let start = u64_from_le_bytes(slice_subrange(data, 9, 17));
        let end = u64_from_le_bytes(slice_subrange(data, 17, 25));
        if !(start <= end && end - start == (data.len() - APPEND_HEADER_LEN) as u64) {
            return Err(ParseError::BadRange);
        }
        let a = AppendRequest {
            term: u64_from_le_bytes(slice_subrange(data, 1, 9)),
            start_lsn: Lsn(start),
            end_lsn: Lsn(end),
            wal_data: slice_to_vec(slice_subrange(data, APPEND_HEADER_LEN, data.len())),
        };
        Ok(ProposerAcceptorMessage::AppendRequest(a))
    } else if tag == TAG_FLUSH {
        if data.len() != 1 {
            return Err(ParseError::BadLength);
        }
        Ok(ProposerAcceptorMessage::FlushWAL)
    } else {
        Err(ParseError::UnknownTag)
    }
}

/// Serialize a proposer message into one frame.
pub fn serialize_msg(m: &ProposerAcceptorMessage) -> (r: Vec<u8>)
    ensures
        r@ == spec_ser_msg(m@),
{
    match m {
        ProposerAcceptorMessage::Greeting(g) => {
            let mut out: Vec<u8> = Vec::new();
            out.push(TAG_GREETING);
            let mut f = u64_to_le_bytes(g.term);
            out.append(&mut f);
            let mut f = u128_to_le_bytes(g.tenant_id);
            out.append(&mut f);
            let mut f = u128_to_le_bytes(g.timeline_id);
            out.append(&mut f);
            let mut f = u32_to_le_bytes(g.pg_version);
            out.append(&mut f);
            let mut f = u64_to_le_bytes(g.system_id);
            out.append(&mut f);
            let mut f = u32_to_le_bytes(g.wal_seg_size);
            out.append(&mut f);
            proof {
                assert(out@ =~= spec_ser_greeting(*g));
            }
            out
        },
        ProposerAcceptorMessage::AppendRequest(a) => serialize_append(a),
        ProposerAcceptorMessage::NoFlushAppendRequest(a) => serialize_append(a),
        ProposerAcceptorMessage::FlushWAL => {
            let mut out: Vec<u8> = Vec::new();
            out.push(TAG_FLUSH);
            proof {
                assert(out@ =~= seq![TAG_FLUSH]);
            }
            out
        },
    }
}

fn serialize_append(a: &AppendRequest) -> (r: Vec<u8>)
    ensures
        r@ == spec_ser_append(a@),
{
    let mut out: Vec<u8> = Vec::new();
    out.push(TAG_APPEND);
    let mut f = u64_to_le_bytes(a.term);
    out.append(&mut f);
    let mut f = u64_to_le_bytes(a.start_lsn.0);
    out.append(&mut f);
    let mut f = u64_to_le_bytes(a.end_lsn.0);
    out.append(&mut f);
    out.extend_from_slice(a.wal_data.as_slice());
    proof {
        assert(out@ =~= spec_ser_append(a@));
    }
    out
}

/// Serialize a reply into one frame.
pub fn serialize_reply(r: &AcceptorReply) -> (out: Vec<u8>)
    ensures
        out@ == spec_ser_reply(*r),
{
    let mut out: Vec<u8> = Vec::new();
    out.push(TAG_REPLY);
    let mut f = u64_to_le_bytes(r.term);
    out.append(&mut f);
    let mut f = u64_to_le_bytes(r.flush_lsn.0);
    out.append(&mut f);
    let mut f = u64_to_le_bytes(r.commit_lsn.0);
    out.append(&mut f);
    proof {
        assert(out@ =~= spec_ser_reply(*r));
    }
    out
}

/// Whatever a frame parses to is well-formed: an append only parses
/// when its payload length matches its advertised LSN range.
pub proof fn lemma_parse_msg_wf(d: Seq<u8>)
    ensures
        spec_parse_msg(d) is Some ==> msg_wf(spec_parse_msg(d)->Some_0) && wire_msg(
            spec_parse_msg(d)->Some_0,
        ),
{
}

/// A frame decodes back to the wire message it was built from: parsing
/// inverts serialization, so the connection handler and the proposer
/// agree on what every frame means.
pub proof fn lemma_msg_round_trip(m: MsgView)
    requires
        wire_msg(m),
        msg_wf(m),
    ensures
        spec_parse_msg(spec_ser_msg(m)) == Option::Some(m),
{
    lemma_auto_spec_u32_to_from_le_bytes();
    lemma_auto_spec_u64_to_from_le_bytes();
    lemma_auto_spec_u128_to_from_le_bytes();
    match m {
        MsgView::Greeting(g) => {
            let d = spec_ser_greeting(g);
            assert(d.len() == GREETING_FRAME_LEN);
            assert(d[0] == TAG_GREETING);
            assert(d.subrange(1, 9) =~= spec_u64_to_le_bytes(g.term));
            assert(d.subrange(9, 25) =~= spec_u128_to_le_bytes(g.tenant_id));
            assert(d.subrange(25, 41) =~= spec_u128_to_le_bytes(g.timeline_id));
            assert(d.subrange(41, 45) =~= spec_u32_to_le_bytes(g.pg_version));
            assert(d.subrange(45, 53) =~= spec_u64_to_le_bytes(g.system_id));
            assert(d.subrange(53, 57) =~= spec_u32_to_le_bytes(g.wal_seg_size));
            assert(spec_parse_msg(d) == Option::Some(m));
        },
        MsgView::AppendRequest(a) => {
            let d = spec_ser_append(a);
            assert(d.len() == APPEND_HEADER_LEN + a.wal_data.len());
            assert(d[0] == TAG_APPEND);
            assert(d.subrange(1, 9) =~= spec_u64_to_le_bytes(a.term));
            assert(d.subrange(9, 17) =~= spec_u64_to_le_bytes(a.start_lsn.0));
            assert(d.subrange(17, 25) =~= spec_u64_to_le_bytes(a.end_lsn.0));
            assert(d.subrange(APPEND_HEADER_LEN as int, d.len() as int) =~= a.wal_data);
            assert(spec_parse_msg(d) == Option::Some(m));
        },
        MsgView::NoFlushAppendRequest(_) => {
        },
        MsgView::FlushWAL => {
            let d = spec_ser_msg(m);
            assert(d.len() == 1);
            assert(d[0] == TAG_FLUSH);
        },
    }
}

} // verus!
