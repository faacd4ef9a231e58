//! Partial-segment remote backup: keeps at most one remote copy of the
//! currently-open WAL segment up to date with local flush progress and
//! garbage-collects superseded copies, surviving a crash at any step.
//!
//! All remote and control-file I/O stays with the caller: every step
//! here is a decision from plain values to plain values, so the cycle
//! can be driven by any loop and replayed after a crash.

use vstd::prelude::*;
use crate::lsn::Lsn;
use crate::acceptor::SafekeeperInfo;
use crate::numfmt::{
    spec_hex, spec_dec, format_hex, format_dec, lemma_spec_hex_len, lemma_spec_hex_no_slash,
    lemma_spec_hex_injective, lemma_u64_fits_hex16,
};

verus! {

/// Where one remote copy of the partial segment stands in its life.
#[derive(Clone, Copy, PartialEq, Eq, Structural, Debug)]
pub enum UploadStatus {
    /// Upload is in progress
    InProgress,
    /// Upload is finished
    Uploaded,
    /// Deletion is in progress
    Deleting,
}

/// One tracked remote copy of the open segment's prefix.
#[derive(Clone, Debug)]
pub struct PartialRemoteSegment {
    pub status: UploadStatus,
    pub name: String,
    pub commit_lsn: Lsn,
    pub flush_lsn: Lsn,
    pub term: u64,
}

/// Mathematical image of a [`PartialRemoteSegment`].
pub struct SegView {
    pub status: UploadStatus,
    pub name: Seq<char>,
    pub commit_lsn: Lsn,
    pub flush_lsn: Lsn,
    pub term: u64,
}

impl View for PartialRemoteSegment {
    type V = SegView;

    open spec fn view(&self) -> SegView {
        SegView {
            status: self.status,
            name: self.name@,
            commit_lsn: self.commit_lsn,
            flush_lsn: self.flush_lsn,
            term: self.term,
        }
    }
}

impl DeepView for PartialRemoteSegment {
    type V = SegView;

    open spec fn deep_view(&self) -> SegView {
        self@
    }
}

impl PartialRemoteSegment {
    /// A field-for-field copy.
    pub fn duplicate(&self) -> (r: PartialRemoteSegment)
        ensures
            r@ == self@,
    {
        PartialRemoteSegment {
            status: self.status,
            name: self.name.clone(),
            commit_lsn: self.commit_lsn,
            flush_lsn: self.flush_lsn,
            term: self.term,
        }
    }
}

impl PartialEq for PartialRemoteSegment {
    fn eq(&self, other: &PartialRemoteSegment) -> (r: bool) {
        let r = self.status == other.status && self.name == other.name && self.commit_lsn
            == other.commit_lsn && self.flush_lsn == other.flush_lsn && self.term == other.term;
        proof {
            if self@ == other@ {
                assert(self.name@ == other.name@);
            }
        }
        r
    }
}

impl vstd::std_specs::cmp::PartialEqSpecImpl for PartialRemoteSegment {
    open spec fn obeys_eq_spec() -> bool {
        true
    }

    open spec fn eq_spec(&self, other: &PartialRemoteSegment) -> bool {
        self@ == other@
    }
}

/// The durable list of tracked remote copies, part of the control record.
#[derive(Clone, Debug)]
pub struct State {
    pub segments: Vec<PartialRemoteSegment>,
}

impl View for State {
    type V = Seq<SegView>;

    open spec fn view(&self) -> Seq<SegView> {
        self.segments.deep_view()
    }
}

impl Default for State {
    fn default() -> (r: State)
        ensures
            r@ == Seq::<SegView>::empty(),
    {
        let r = State { segments: Vec::new() };
        proof {
            assert(r@ =~= Seq::<SegView>::empty());
        }
        r
    }
}

impl State {
    /// How many tracked segments stand as `Uploaded`.
    pub fn count_uploaded_segments(&self) -> (r: usize)
        ensures
            r as int == count_uploaded(self@),
    {
        let n = self.segments.len();
        let mut r: usize = 0;
        let mut i: usize = 0;
        proof {
            assert(self@.subrange(0, 0) =~= Seq::<SegView>::empty());
        }
        while i < n
            invariant
                i <= n,
                n == self@.len(),
                r <= i,
                r as int == count_uploaded(self@.subrange(0, i as int)),
            decreases n - i,
        {
            proof {
                assert(self@.subrange(0, i + 1).drop_last() =~= self@.subrange(0, i as int));
                assert(self@.subrange(0, i + 1).last() == self@[i as int]);
            }
            if self.segments[i].status == UploadStatus::Uploaded {
                r += 1;
            }
            i += 1;
        }
        proof {
            assert(self@.subrange(0, self@.len() as int) =~= self@);
        }
        r
    }

    /// An element-for-element copy.
    pub fn duplicate(&self) -> (r: State)
        ensures
            r@ == self@,
    {
        let mut segments: Vec<PartialRemoteSegment> = Vec::new();
        let n = self.segments.len();
        let mut i: usize = 0;
        while i < n
            invariant
                i <= n,
                n == self.segments.len(),
                segments.len() == i,
                forall|j: int| 0 <= j < i ==> segments.deep_view()[j] == self@[j],
            decreases n - i,
        {
            segments.push(self.segments[i].duplicate());
            i += 1;
        }
        let r = State { segments };
        proof {
            assert(r@ =~= self@);
        }
        r
    }
}

impl PartialEq for State {
    fn eq(&self, other: &State) -> (r: bool) {
        if self.segments.len() != other.segments.len() {
            proof {
                assert(self@.len() == self.segments@.len());
                assert(other@.len() == other.segments@.len());
            }
            return false;
        }
        let n = self.segments.len();
        let mut i: usize = 0;
        while i < n
            invariant
                i <= n,
                n == self.segments.len(),
                n == other.segments.len(),
                forall|j: int| 0 <= j < i ==> self@[j] == other@[j],
            decreases n - i,
        {
            if !(self.segments[i] == other.segments[i]) {
                proof {
                    assert(self@[i as int] == self.segments@[i as int].deep_view());
                    assert(other@[i as int] == other.segments@[i as int].deep_view());
                }
                return false;
            }
            i += 1;
        }
        proof {
            assert(self@ =~= other@);
        }
        true
    }
}

impl vstd::std_specs::cmp::PartialEqSpecImpl for State {
    open spec fn obeys_eq_spec() -> bool {
        true
    }

    open spec fn eq_spec(&self, other: &State) -> bool {
        self@ == other@
    }
}

/// How many tracked segments stand as `Uploaded`.
pub open spec fn count_uploaded(segs: Seq<SegView>) -> int
    decreases segs.len(),
{
    if segs.len() == 0 {
        0
    } else if segs.last().status == UploadStatus::Uploaded {
        count_uploaded(segs.drop_last()) + 1
    } else {
        count_uploaded(segs.drop_last())
    }
}

/// The durable invariant of the backup list: at most one segment is
/// the authoritative uploaded copy at any durable snapshot.
pub open spec fn state_wf(segs: Seq<SegView>) -> bool {
    count_uploaded(segs) <= 1
}

/// Recording intent: the prepared segment joins the list as `InProgress`.
pub open spec fn spec_record_intent(segs: Seq<SegView>, prepared: SegView) -> Seq<SegView> {
    segs.push(prepared)
}

/// All previously tracked copies, marked for deletion.
pub open spec fn spec_mark_deleting(segs: Seq<SegView>) -> Seq<SegView> {
    Seq::new(segs.len(), |i: int| (SegView { status: UploadStatus::Deleting, ..segs[i] }))
}

/// Committing an upload: every older copy is marked `Deleting` and the
/// fresh copy joins the list as `Uploaded`.
pub open spec fn spec_commit_upload(segs: Seq<SegView>, prepared: SegView) -> Seq<SegView> {
    spec_mark_deleting(segs).push((SegView { status: UploadStatus::Uploaded, ..prepared }))
}

/// Garbage collection keeps exactly the `Uploaded` copies.
pub open spec fn spec_gc_retained(segs: Seq<SegView>) -> Seq<SegView>
    decreases segs.len(),
{
    if segs.len() == 0 {
        Seq::empty()
    } else if segs.last().status == UploadStatus::Uploaded {
        spec_gc_retained(segs.drop_last()).push(segs.last())
    } else {
        spec_gc_retained(segs.drop_last())
    }
}

/// Does some `Uploaded` copy in the list carry this name?
pub open spec fn spec_has_uploaded_name(segs: Seq<SegView>, name: Seq<char>) -> bool {
    exists|i: int|
        0 <= i < segs.len() && (#[trigger] segs[i]).status == UploadStatus::Uploaded && segs[i].name
            == name
}

/// The to-delete names among a prefix, judged against the whole list:
/// a superseded copy whose name the retained copy still uses (the
/// same flush position reproduces the same name) must not be deleted,
/// or the delete would take the live object with it.
pub open spec fn spec_gc_deleted_names_rec(segs: Seq<SegView>, full: Seq<SegView>) -> Seq<
    Seq<char>,
>
    decreases segs.len(),
{
    if segs.len() == 0 {
        Seq::empty()
    } else if segs.last().status != UploadStatus::Uploaded && !spec_has_uploaded_name(
        full,
        segs.last().name,
    ) {
        spec_gc_deleted_names_rec(segs.drop_last(), full).push(segs.last().name)
    } else {
        spec_gc_deleted_names_rec(segs.drop_last(), full)
    }
}

/// The names garbage collection must remove from remote storage:
/// every copy not standing as `Uploaded`, in list order, except those
/// whose name an `Uploaded` copy still carries.
pub open spec fn spec_gc_deleted_names(segs: Seq<SegView>) -> Seq<Seq<char>> {
    spec_gc_deleted_names_rec(segs, segs)
}

/// Whether the tracked list already says exactly "this prepared
/// segment is the single uploaded copy".
pub open spec fn spec_already_uploaded(segs: Seq<SegView>, prepared: SegView) -> bool {
    &&& segs.len() == 1
    &&& segs[0].status == UploadStatus::Uploaded
    &&& segs[0].name == prepared.name
    &&& segs[0].commit_lsn == prepared.commit_lsn
    &&& segs[0].flush_lsn == prepared.flush_lsn
    &&& segs[0].term == prepared.term
}

proof fn lemma_count_uploaded_push(segs: Seq<SegView>, s: SegView)
    ensures
        s.status == UploadStatus::Uploaded ==> count_uploaded(segs.push(s)) == count_uploaded(
            segs,
        ) + 1,
        s.status != UploadStatus::Uploaded ==> count_uploaded(segs.push(s)) == count_uploaded(
            segs,
        ),
{
    assert(segs.push(s).drop_last() =~= segs);
    assert(segs.push(s).last() == s);
}

proof fn lemma_count_uploaded_mark_deleting(segs: Seq<SegView>)
    ensures
        count_uploaded(spec_mark_deleting(segs)) == 0,
    decreases segs.len(),
{
    if segs.len() == 0 {
        assert(spec_mark_deleting(segs) =~= Seq::<SegView>::empty());
    } else {
        lemma_count_uploaded_mark_deleting(segs.drop_last());
        assert(spec_mark_deleting(segs).drop_last() =~= spec_mark_deleting(segs.drop_last()));
        assert(spec_mark_deleting(segs).last().status == UploadStatus::Deleting);
    }
}

proof fn lemma_count_uploaded_gc(segs: Seq<SegView>)
    ensures
        count_uploaded(spec_gc_retained(segs)) == count_uploaded(segs),
    decreases segs.len(),
{
    if segs.len() > 0 {
        lemma_count_uploaded_gc(segs.drop_last());
        if segs.last().status == UploadStatus::Uploaded {
            lemma_count_uploaded_push(spec_gc_retained(segs.drop_last()), segs.last());
        }
    }
}

/// At most one `Uploaded` copy in every reachable durable list: the
/// invariant holds of the empty list and is preserved by each step of
/// the upload cycle — recording intent adds an `InProgress` copy,
/// committing an upload leaves exactly one `Uploaded` copy, and
/// garbage collection keeps only what was already `Uploaded`.
pub proof fn lemma_at_most_one_uploaded(segs: Seq<SegView>, prepared: SegView)
    requires
        state_wf(segs),
        prepared.status == UploadStatus::InProgress,
    ensures
        state_wf(Seq::<SegView>::empty()),
        state_wf(spec_record_intent(segs, prepared)),
        count_uploaded(spec_commit_upload(segs, prepared)) == 1,
        state_wf(spec_commit_upload(segs, prepared)),
        state_wf(spec_gc_retained(segs)),
{
    lemma_count_uploaded_push(segs, prepared);
    lemma_count_uploaded_mark_deleting(segs);
    lemma_count_uploaded_push(
        spec_mark_deleting(segs),
        (SegView { status: UploadStatus::Uploaded, ..prepared }),
    );
    lemma_count_uploaded_gc(segs);
}

proof fn lemma_gc_retained_mark_deleting(segs: Seq<SegView>)
    ensures
        spec_gc_retained(spec_mark_deleting(segs)) == Seq::<SegView>::empty(),
    decreases segs.len(),
{
    if segs.len() == 0 {
        assert(spec_mark_deleting(segs) =~= Seq::<SegView>::empty());
    } else {
        lemma_gc_retained_mark_deleting(segs.drop_last());
        assert(spec_mark_deleting(segs).drop_last() =~= spec_mark_deleting(segs.drop_last()));
        assert(spec_mark_deleting(segs).last().status == UploadStatus::Deleting);
    }
}

/// Crash-safe convergence: whatever the tracked list held before, one
/// successful cycle commits to exactly one copy — the fresh upload,
/// standing as `Uploaded` — and garbage collection then prunes the
/// list to exactly that copy.
pub proof fn lemma_cycle_converges(segs: Seq<SegView>, prepared: SegView)
    ensures
        spec_gc_retained(spec_commit_upload(segs, prepared)) == seq![
            (SegView { status: UploadStatus::Uploaded, ..prepared }),
        ],
{
    let committed = spec_commit_upload(segs, prepared);
    let fresh = SegView { status: UploadStatus::Uploaded, ..prepared };
    lemma_gc_retained_mark_deleting(segs);
    assert(committed.drop_last() =~= spec_mark_deleting(segs));
    assert(committed.last() == fresh);
    assert(spec_gc_retained(committed) =~= seq![fresh]);
}

proof fn lemma_gc_deleted_names_rec_safe(segs: Seq<SegView>, full: Seq<SegView>, n: Seq<char>)
    requires
        spec_has_uploaded_name(full, n),
    ensures
        !spec_gc_deleted_names_rec(segs, full).contains(n),
    decreases segs.len(),
{
    if segs.len() > 0 {
        lemma_gc_deleted_names_rec_safe(segs.drop_last(), full, n);
        let rest = spec_gc_deleted_names_rec(segs.drop_last(), full);
        if segs.last().status != UploadStatus::Uploaded && !spec_has_uploaded_name(
            full,
            segs.last().name,
        ) {
            assert(segs.last().name != n);
            assert forall|i: int|
                0 <= i < rest.push(segs.last().name).len() implies rest.push(
                segs.last().name,
            )[i] != n by {
                if i < rest.len() {
                    assert(!rest.contains(n));
                }
            }
        }
    }
}

/// Garbage collection never deletes a name the retained copy still
/// carries: re-uploading the same flush position reproduces the same
/// name, and pruning the superseded entry must not take the live
/// remote object with it.
pub proof fn lemma_gc_never_deletes_uploaded_name(segs: Seq<SegView>, n: Seq<char>)
    requires
        spec_has_uploaded_name(segs, n),
    ensures
        !spec_gc_deleted_names(segs).contains(n),
{
    lemma_gc_deleted_names_rec_safe(segs, segs, n);
}

/// The timeline identifier used in WAL segment file names.
pub const PG_TLI: u64 = 1;

/// How many segments share one high half of the segment file name.
pub open spec fn spec_segments_per_xlogid(wal_seg_size: u64) -> int {
    0x1_0000_0000int / (wal_seg_size as int)
}

/// The segment file name: timeline id, then the two halves of the
/// segment number, each as eight upper-case hex digits.
pub open spec fn spec_segment_name(segno: int, wal_seg_size: u64) -> Seq<char> {
    spec_hex(PG_TLI as int, 8) + spec_hex(segno / spec_segments_per_xlogid(wal_seg_size), 8)
        + spec_hex(segno % spec_segments_per_xlogid(wal_seg_size), 8)
}

/// The deterministic remote object name:
/// `<segment-file-name>_<flush_lsn as 16 hex digits>_sk<acceptor id>.partial`.
pub open spec fn spec_remote_segment_name(
    segno: int,
    flush_lsn: Lsn,
    wal_seg_size: u64,
    my_id: u64,
) -> Seq<char> {
    spec_segment_name(segno, wal_seg_size) + seq!['_'] + spec_hex(flush_lsn.0 as int, 16)
        + seq!['_', 's', 'k'] + spec_dec(my_id as int) + seq!['.', 'p', 'a', 'r', 't', 'i', 'a', 'l']
}

/// The local file name of the open segment: `<segment-file-name>.partial`.
pub open spec fn spec_local_segment_name(segno: int, wal_seg_size: u64) -> Seq<char> {
    spec_segment_name(segno, wal_seg_size) + seq!['.', 'p', 'a', 'r', 't', 'i', 'a', 'l']
}

pub proof fn lemma_segment_name_len(segno: int, wal_seg_size: u64)
    ensures
        spec_segment_name(segno, wal_seg_size).len() == 24,
        spec_segment_name(segno, wal_seg_size)[0] != '/',
{
    let per = spec_segments_per_xlogid(wal_seg_size);
    lemma_spec_hex_len(PG_TLI as int, 8);
    lemma_spec_hex_len(segno / per, 8);
    lemma_spec_hex_len(segno % per, 8);
    lemma_spec_hex_no_slash(PG_TLI as int, 8);
    assert(spec_segment_name(segno, wal_seg_size)[0] == spec_hex(PG_TLI as int, 8)[0]);
}

/// Idempotent naming: the remote object name is a pure function of
/// (segment number, flush position, acceptor id), so retrying the same
/// flush position reproduces the same name; and two different flush
/// positions never collide on a name, because the sixteen hex digits
/// at a fixed offset render the flush position faithfully.
pub proof fn lemma_remote_name_injective(
    segno1: int,
    f1: Lsn,
    segno2: int,
    f2: Lsn,
    wal_seg_size: u64,
    my_id: u64,
)
    requires
        spec_remote_segment_name(segno1, f1, wal_seg_size, my_id) == spec_remote_segment_name(
            segno2,
            f2,
            wal_seg_size,
            my_id,
        ),
    ensures
        f1 == f2,
{
    let n1 = spec_remote_segment_name(segno1, f1, wal_seg_size, my_id);
    let n2 = spec_remote_segment_name(segno2, f2, wal_seg_size, my_id);
    let h1 = spec_hex(f1.0 as int, 16);
    let h2 = spec_hex(f2.0 as int, 16);
    lemma_segment_name_len(segno1, wal_seg_size);
    lemma_segment_name_len(segno2, wal_seg_size);
    lemma_spec_hex_len(f1.0 as int, 16);
    lemma_spec_hex_len(f2.0 as int, 16);
    assert forall|i: int| 0 <= i < 16 implies n1[25 + i] == h1[i] by {
        assert((spec_segment_name(segno1, wal_seg_size) + seq!['_']).len() == 25);
    }
    assert forall|i: int| 0 <= i < 16 implies n2[25 + i] == h2[i] by {
        assert((spec_segment_name(segno2, wal_seg_size) + seq!['_']).len() == 25);
    }
    assert(h1 =~= h2);
    lemma_u64_fits_hex16(f1.0);
    lemma_u64_fits_hex16(f2.0);
    lemma_spec_hex_injective(f1.0 as int, f2.0 as int, 16);
}

/// Why a backup cycle step failed.
#[derive(Clone, Copy, PartialEq, Eq, Structural, Debug)]
pub enum BackupError {
    /// The on-disk backup list differs from the last known in-memory
    /// copy: a competing writer or a missed update. The cycle aborts
    /// and the in-memory copy adopts what the disk holds.
    Diverged,
    /// The acceptor's term changed while the upload ran, so the
    /// uploaded bytes cannot be trusted under the old term.
    TermChanged,
    /// `commit_lsn` or `flush_lsn` moved backwards versus the prepared
    /// snapshot: a fatal consistency violation.
    LsnRegressed,
}

/// What the caller must do to upload one prepared segment: copy
/// `backup_bytes` bytes from the start of the local segment file to
/// the remote object.
pub struct UploadPlan {
    pub local_path: String,
    pub remote_path: String,
    pub backup_bytes: u64,
}

/// Relies on camino's `Utf8Path::join` (std `PathBuf::push` semantics):
/// adjoining a relative, non-empty component to a non-empty path that
/// lacks a trailing separator inserts exactly one `/` between them.
#[verifier::external_body]
fn join_path(prefix: &str, name: &str) -> (r: String)
    requires
        prefix@.len() > 0,
        prefix@[prefix@.len() - 1] != '/',
        name@.len() > 0,
        name@[0] != '/',
    ensures
        r@ == prefix@ + seq!['/'] + name@,
{
    camino::Utf8Path::new(prefix).join(name).into_string()
}

/// The per-timeline partial backup engine: the deterministic part of
/// the upload cycle. The caller reads acceptor snapshots, performs
/// remote I/O and persists the control record; every decision stands
/// here, so a crash between steps replays safely.
pub struct PartialBackup {
    pub wal_seg_size: u64,
    pub my_id: u64,
    pub local_prefix: String,
    pub remote_prefix: String,
    /// Private clone of the durable backup list, reconciled against
    /// the disk copy on every mutation.
    pub state: State,
}

impl PartialBackup {
    /// Well-formedness: a known segment size that fits the name
    /// arithmetic, path prefixes that can take a component, and the
    /// durable at-most-one-`Uploaded` invariant.
    pub open spec fn wf(&self) -> bool {
        &&& 0 < self.wal_seg_size <= 0x1_0000_0000u64
        &&& self.local_prefix@.len() > 0
        &&& self.local_prefix@[self.local_prefix@.len() - 1] != '/'
        &&& self.remote_prefix@.len() > 0
        &&& self.remote_prefix@[self.remote_prefix@.len() - 1] != '/'
        &&& state_wf(self.state@)
    }

    pub fn new(
        wal_seg_size: u64,
        my_id: u64,
        local_prefix: String,
        remote_prefix: String,
        state: State,
    ) -> (r: PartialBackup)
        requires
            0 < wal_seg_size <= 0x1_0000_0000u64,
            local_prefix@.len() > 0,
            local_prefix@[local_prefix@.len() - 1] != '/',
            remote_prefix@.len() > 0,
            remote_prefix@[remote_prefix@.len() - 1] != '/',
            state_wf(state@),
        ensures
            r.wf(),
            r.wal_seg_size == wal_seg_size,
            r.my_id == my_id,
            r.local_prefix == local_prefix,
            r.remote_prefix == remote_prefix,
            r.state@ == state@,
    {
        PartialBackup { wal_seg_size, my_id, local_prefix, remote_prefix, state }
    }

    /// The file name of segment `segno`.
    pub fn segment_name(&self, segno: u64) -> (r: String)
        requires
            self.wf(),
        ensures
            r@ == spec_segment_name(segno as int, self.wal_seg_size),
    {
        let per: u64 = 0x1_0000_0000u64 / self.wal_seg_size;
        proof {
            vstd::arithmetic::div_mod::lemma_div_non_zero(
                0x1_0000_0000int,
                self.wal_seg_size as int,
            );
        }
        let mut r = format_hex(PG_TLI, 8);
        r.append(format_hex(segno / per, 8).as_str());
        r.append(format_hex(segno % per, 8).as_str());
        r
    }

    /// The deterministic remote object name for an upload of segment
    /// `segno` up to `flush_lsn`.
    pub fn remote_segment_name(&self, segno: u64, flush_lsn: Lsn) -> (r: String)
        requires
            self.wf(),
        ensures
            r@ == spec_remote_segment_name(segno as int, flush_lsn, self.wal_seg_size, self.my_id),
    {
        let mut r = self.segment_name(segno);
        r.append("_");
        r.append(format_hex(flush_lsn.0, 16).as_str());
        r.append("_sk");
        r.append(format_dec(self.my_id).as_str());
        r.append(".partial");
        proof {
            reveal_strlit("_");
            reveal_strlit("_sk");
            reveal_strlit(".partial");
            assert("_"@ =~= seq!['_']);
            assert("_sk"@ =~= seq!['_', 's', 'k']);
            assert(".partial"@ =~= seq!['.', 'p', 'a', 'r', 't', 'i', 'a', 'l']);
        }
        r
    }

    /// The local file name of the open segment `segno`.
    pub fn local_segment_name(&self, segno: u64) -> (r: String)
        requires
            self.wf(),
        ensures
            r@ == spec_local_segment_name(segno as int, self.wal_seg_size),
    {
        let mut r = self.segment_name(segno);
        r.append(".partial");
        proof {
            reveal_strlit(".partial");
            assert(".partial"@ =~= seq!['.', 'p', 'a', 'r', 't', 'i', 'a', 'l']);
        }
        r
    }

    /// Step 1 of the cycle: from a live snapshot of the acceptor,
    /// the segment that should be uploaded, named deterministically
    /// and recorded as `InProgress`.
    pub fn prepare_upload(&self, sk_info: &SafekeeperInfo) -> (r: PartialRemoteSegment)
        requires
            self.wf(),
        ensures
            r.status == UploadStatus::InProgress,
            r.commit_lsn == (Lsn(sk_info.commit_lsn)),
            r.flush_lsn == (Lsn(sk_info.flush_lsn)),
            r.term == sk_info.term,
            r.name@ == spec_remote_segment_name(
                Lsn(sk_info.flush_lsn).spec_segment_number(self.wal_seg_size),
                Lsn(sk_info.flush_lsn),
                self.wal_seg_size,
                self.my_id,
            ),
    {
        let flush_lsn = Lsn(sk_info.flush_lsn);
        let commit_lsn = Lsn(sk_info.commit_lsn);
        let term = sk_info.term;
        let segno = flush_lsn.segment_number(self.wal_seg_size);
        let name = self.remote_segment_name(segno, flush_lsn);
        PartialRemoteSegment { status: UploadStatus::InProgress, name, commit_lsn, flush_lsn, term }
    }

    /// What step 3 of the cycle, the remote copy itself, needs from
    /// the caller: bytes `[segment start, flush_lsn)` of the local
    /// segment file go to the remote object under the prepared name.
    pub fn upload_plan(&self, prepared: &PartialRemoteSegment) -> (r: UploadPlan)
        requires
            self.wf(),
            prepared.name@.len() > 0,
            prepared.name@[0] != '/',
        ensures
            r.local_path@ == self.local_prefix@ + seq!['/'] + spec_local_segment_name(
                prepared.flush_lsn.spec_segment_number(self.wal_seg_size),
                self.wal_seg_size,
            ),
            r.remote_path@ == self.remote_prefix@ + seq!['/'] + prepared.name@,
            r.backup_bytes == prepared.flush_lsn.spec_segment_offset(self.wal_seg_size),
    {
        let segno = prepared.flush_lsn.segment_number(self.wal_seg_size);
        let backup_bytes = prepared.flush_lsn.segment_offset(self.wal_seg_size);
        let local_name = self.local_segment_name(segno);
        proof {
            lemma_segment_name_len(segno as int, self.wal_seg_size);
            assert(local_name@[0] == spec_segment_name(segno as int, self.wal_seg_size)[0]);
        }
        let local_path = join_path(self.local_prefix.as_str(), local_name.as_str());
        let remote_path = join_path(self.remote_prefix.as_str(), prepared.name.as_str());
        UploadPlan { local_path, remote_path, backup_bytes }
    }

    /// After the remote copy is written: the uploaded bytes are
    /// trustworthy only if the term did not change meanwhile, and the
    /// live LSNs must not have moved backwards.
    pub fn verify_upload(&self, prepared: &PartialRemoteSegment, sk_info: &SafekeeperInfo) -> (r:
        Result<(), BackupError>)
        ensures
            r is Ok <==> (sk_info.term == prepared.term && prepared.commit_lsn.0
                <= sk_info.commit_lsn && prepared.flush_lsn.0 <= sk_info.flush_lsn),
            sk_info.term != prepared.term ==> r == Result::<(), BackupError>::Err(
                BackupError::TermChanged,
            ),
            (sk_info.term == prepared.term && !(prepared.commit_lsn.0 <= sk_info.commit_lsn
                && prepared.flush_lsn.0 <= sk_info.flush_lsn)) ==> r == Result::<
                (),
                BackupError,
            >::Err(BackupError::LsnRegressed),
    {
        if sk_info.term != prepared.term {
            return Err(BackupError::TermChanged);
        }
        if !(prepared.commit_lsn.0 <= sk_info.commit_lsn && prepared.flush_lsn.0
            <= sk_info.flush_lsn) {
            return Err(BackupError::LsnRegressed);
        }
        Ok(())
    }

    /// Write `new_state` over the durable list, compare-and-set style:
    /// `disk` is the list read back from the control record under the
    /// same lock that will write it. If it differs from the last known
    /// in-memory copy, a competing writer got between the two — the
    /// in-memory copy adopts the disk copy and the cycle aborts.
    pub fn commit_state(&mut self, disk: &State, new_state: State) -> (r: Result<
        (),
        BackupError,
    >)
        ensures
            r is Ok <==> old(self).state@ == disk@,
            r is Ok ==> final(self).state@ == new_state@,
            r is Err ==> r == Result::<(), BackupError>::Err(BackupError::Diverged) && final(self).state@ == disk@,
            final(self).wal_seg_size == old(self).wal_seg_size,
            final(self).my_id == old(self).my_id,
            final(self).local_prefix == old(self).local_prefix,
            final(self).remote_prefix == old(self).remote_prefix,
    {
        if !(self.state == *disk) {
            self.state = disk.duplicate();
            return Err(BackupError::Diverged);
        }
        self.state = new_state;
        Ok(())
    }

    /// Step 2 of the cycle: record the upload intent durably before
    /// any remote I/O, so a crash leaves a self-describing list.
    /// On success the caller persists the new in-memory list.
    pub fn start_upload(&mut self, prepared: &PartialRemoteSegment, disk: &State) -> (r: Result<
        (),
        BackupError,
    >)
        requires
            old(self).wf(),
            state_wf(disk@),
            prepared@.status == UploadStatus::InProgress,
        ensures
            r is Ok <==> old(self).state@ == disk@,
            r is Ok ==> final(self).state@ == spec_record_intent(old(self).state@, prepared@),
            r is Err ==> r == Result::<(), BackupError>::Err(BackupError::Diverged) && final(self).state@ == disk@,
            final(self).wf(),
            final(self).wal_seg_size == old(self).wal_seg_size,
            final(self).my_id == old(self).my_id,
            final(self).local_prefix == old(self).local_prefix,
            final(self).remote_prefix == old(self).remote_prefix,
    {
        let mut new_state = self.state.duplicate();
        new_state.segments.push(prepared.duplicate());
        proof {
            assert(new_state@ =~= spec_record_intent(self.state@, prepared@));
            lemma_at_most_one_uploaded(self.state@, prepared@);
        }
        self.commit_state(disk, new_state)
    }

    /// Step 4 of the cycle: after the remote copy is verified, mark
    /// every older copy `Deleting`, mark the fresh copy `Uploaded`,
    /// and persist. Requires the list to end with the prepared
    /// `InProgress` entry, as `start_upload` left it.
    pub fn finish_upload(&mut self, prepared: &PartialRemoteSegment, disk: &State) -> (r: Result<
        (),
        BackupError,
    >)
        requires
            old(self).wf(),
            state_wf(disk@),
            old(self).state@.len() > 0,
            old(self).state@.last() == prepared@,
            prepared@.status == UploadStatus::InProgress,
        ensures
            r is Ok <==> old(self).state@ == disk@,
            r is Ok ==> final(self).state@ == spec_commit_upload(
                old(self).state@.drop_last(),
                prepared@,
            ) && count_uploaded(final(self).state@) == 1,
            r is Err ==> r == Result::<(), BackupError>::Err(BackupError::Diverged) && final(self).state@ == disk@,
            final(self).wf(),
            final(self).wal_seg_size == old(self).wal_seg_size,
            final(self).my_id == old(self).my_id,
            final(self).local_prefix == old(self).local_prefix,
            final(self).remote_prefix == old(self).remote_prefix,
    {
        let ghost base = self.state@.drop_last();
        let n = self.segments_len() - 1;
        let mut segments: Vec<PartialRemoteSegment> = Vec::new();
        let mut i: usize = 0;
        while i < n
            invariant
                i <= n,
                n + 1 == self.state@.len(),
                base == self.state@.drop_last(),
                n == base.len(),
                segments.len() == i,
                forall|j: int| 0 <= j < i ==> segments.deep_view()[j] == spec_mark_deleting(
                    base,
                )[j],
            decreases n - i,
        {
            let mut seg = self.state.segments[i].duplicate();
            seg.status = UploadStatus::Deleting;
            proof {
                assert(base[i as int] == self.state@[i as int]);
                assert(seg@ == (SegView { status: UploadStatus::Deleting, ..base[i as int] }));
                assert(spec_mark_deleting(base)[i as int] == seg@);
            }
            segments.push(seg);
            i += 1;
        }
        let mut uploaded = prepared.duplicate();
        uploaded.status = UploadStatus::Uploaded;
        proof {
            assert(uploaded@ == (SegView { status: UploadStatus::Uploaded, ..prepared@ }));
        }
        segments.push(uploaded);
        let new_state = State { segments };
        proof {
            assert(new_state@ =~= spec_commit_upload(base, prepared@));
            lemma_at_most_one_uploaded(base, prepared@);
        }
        self.commit_state(disk, new_state)
    }

    fn segments_len(&self) -> (r: usize)
        ensures
            r == self.state@.len(),
    {
        self.state.segments.len()
    }

    /// Does some `Uploaded` copy in the tracked list carry this name?
    fn has_uploaded_name(&self, name: &String) -> (r: bool)
        ensures
            r == spec_has_uploaded_name(self.state@, name@),
    {
        let n = self.state.segments.len();
        let mut i: usize = 0;
        while i < n
            invariant
                i <= n,
                n == self.state@.len(),
                forall|j: int|
                    0 <= j < i ==> !((#[trigger] self.state@[j]).status == UploadStatus::Uploaded
                        && self.state@[j].name == name@),
            decreases n - i,
        {
            let seg = &self.state.segments[i];
            if seg.status == UploadStatus::Uploaded && seg.name == *name {
                proof {
                    assert((self.state@[i as int]).status == UploadStatus::Uploaded
                        && self.state@[i as int].name == name@);
                }
                return true;
            }
            i += 1;
        }
        proof {
            if spec_has_uploaded_name(self.state@, name@) {
                let w = choose|w: int|
                    0 <= w < self.state@.len() && (#[trigger] self.state@[w]).status
                        == UploadStatus::Uploaded && self.state@[w].name == name@;
                assert(false);
            }
        }
        false
    }

    /// Whether a wake must run an upload cycle at all: a tick without
    /// an intervening change — the tracked list already holds exactly
    /// the prepared segment as its single `Uploaded` copy — is a
    /// no-op.
    pub fn needs_upload(&self, prepared: &PartialRemoteSegment) -> (r: bool)
        ensures
            r == !spec_already_uploaded(self.state@, prepared@),
    {
        if self.state.segments.len() != 1 {
            proof {
                assert(self.state@.len() == self.state.segments@.len());
            }
            return true;
        }
        let seg = &self.state.segments[0];
        !(seg.status == UploadStatus::Uploaded && seg.name == prepared.name && seg.commit_lsn
            == prepared.commit_lsn && seg.flush_lsn == prepared.flush_lsn && seg.term
            == prepared.term)
    }

    /// Step 5, first half: the remote object names that must be
    /// deleted — every tracked copy not standing as `Uploaded`, except
    /// those whose name the retained copy still uses.
    pub fn gc_prepare(&self) -> (r: Vec<String>)
        ensures
            r.deep_view() == spec_gc_deleted_names(self.state@),
    {
        let mut out: Vec<String> = Vec::new();
        let n = self.state.segments.len();
        let mut i: usize = 0;
        proof {
            assert(self.state@.subrange(0, 0) =~= Seq::<SegView>::empty());
            assert(out.deep_view() =~= spec_gc_deleted_names_rec(
                self.state@.subrange(0, 0),
                self.state@,
            ));
        }
        while i < n
            invariant
                i <= n,
                n == self.state@.len(),
                out.deep_view() == spec_gc_deleted_names_rec(
                    self.state@.subrange(0, i as int),
                    self.state@,
                ),
            decreases n - i,
        {
            proof {
                assert(self.state@.subrange(0, i + 1).drop_last() =~= self.state@.subrange(
                    0,
                    i as int,
                ));
                assert(self.state@.subrange(0, i + 1).last() == self.state@[i as int]);
            }
            let seg = &self.state.segments[i];
            let retained_name = self.has_uploaded_name(&seg.name);
            if seg.status != UploadStatus::Uploaded && !retained_name {
                out.push(seg.name.clone());
                proof {
                    assert(out.deep_view() =~= spec_gc_deleted_names_rec(
                        self.state@.subrange(0, i + 1),
                        self.state@,
                    ));
                }
            } else {
                proof {
                    assert(out.deep_view() =~= spec_gc_deleted_names_rec(
                        self.state@.subrange(0, i + 1),
                        self.state@,
                    ));
                }
            }
            i += 1;
        }
        proof {
            assert(self.state@.subrange(0, self.state@.len() as int) =~= self.state@);
        }
        out
    }

    /// Step 5, second half: only after the remote delete succeeded,
    /// persist the pruned list — the retained (`Uploaded`) copies.
    pub fn gc_commit(&mut self, disk: &State) -> (r: Result<(), BackupError>)
        requires
            old(self).wf(),
            state_wf(disk@),
        ensures
            r is Ok <==> old(self).state@ == disk@,
            r is Ok ==> final(self).state@ == spec_gc_retained(old(self).state@),
            r is Err ==> r == Result::<(), BackupError>::Err(BackupError::Diverged) && final(self).state@ == disk@,
            final(self).wf(),
            final(self).wal_seg_size == old(self).wal_seg_size,
            final(self).my_id == old(self).my_id,
            final(self).local_prefix == old(self).local_prefix,
            final(self).remote_prefix == old(self).remote_prefix,
    {
        let mut segments: Vec<PartialRemoteSegment> = Vec::new();
        let n = self.state.segments.len();
        let mut i: usize = 0;
        proof {
            assert(self.state@.subrange(0, 0) =~= Seq::<SegView>::empty());
            assert(segments.deep_view() =~= spec_gc_retained(self.state@.subrange(0, 0)));
        }
        while i < n
            invariant
                i <= n,
                n == self.state@.len(),
                segments.deep_view() == spec_gc_retained(self.state@.subrange(0, i as int)),
            decreases n - i,
        {
            proof {
                assert(self.state@.subrange(0, i + 1).drop_last() =~= self.state@.subrange(
                    0,
                    i as int,
                ));
                assert(self.state@.subrange(0, i + 1).last() == self.state@[i as int]);
            }
            let seg = &self.state.segments[i];
            if seg.status == UploadStatus::Uploaded {
                segments.push(seg.duplicate());
                proof {
                    assert(segments.deep_view() =~= spec_gc_retained(
                        self.state@.subrange(0, i + 1),
                    ));
                }
            } else {
                proof {
                    assert(segments.deep_view() =~= spec_gc_retained(
                        self.state@.subrange(0, i + 1),
                    ));
                }
            }
            i += 1;
        }
        let new_state = State { segments };
        proof {
            assert(self.state@.subrange(0, self.state@.len() as int) =~= self.state@);
            lemma_count_uploaded_gc(self.state@);
        }
        self.commit_state(disk, new_state)
    }
}

} // verus!
