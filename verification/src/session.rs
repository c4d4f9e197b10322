//! The receive session: how many bytes of the announced file have arrived.
//!
//! One session is tracked at a time. It is shared by all connections that
//! carry parts of the same file; the host serialises access to it.

use vstd::prelude::*;

verus! {

/// Where a receive session stands.
#[derive(Clone, Copy, Debug, PartialEq, Eq, Structural)]
pub enum SessionState {
    /// No request has been accepted yet.
    Idle,
    /// A request was accepted and bytes are still missing.
    Receiving,
    /// Every byte of the announced file has arrived. A session for an empty
    /// file is complete as soon as it has begun.
    Completed,
}

/// The value of a receive session.
#[derive(Clone, Copy, Debug, PartialEq, Eq, Structural)]
pub struct SessionModel {
    /// Whether a request has been accepted.
    pub started: bool,
    /// The size of the file being received.
    pub total_bytes: u64,
    /// The number of bytes that have been written so far.
    pub bytes_written: u64,
}

/// What one write did to the session.
#[derive(Clone, Copy, Debug, PartialEq, Eq, Structural)]
pub struct WriteReport {
    /// The counter after the write.
    pub bytes_written: u64,
    /// The size of the file being received.
    pub total_bytes: u64,
    /// Whether this write was the one that completed the file.
    pub completed_now: bool,
}

impl SessionModel {
    /// The invariant of a session: the counter never exceeds the total, and a
    /// session that has not started counts nothing.
    pub open spec fn wf(self) -> bool {
        &&& self.bytes_written <= self.total_bytes
        &&& !self.started ==> self.total_bytes == 0
    }

    /// The session before any request.
    pub open spec fn idle() -> SessionModel {
        SessionModel { started: false, total_bytes: 0, bytes_written: 0 }
    }

    /// The session right after a request for `total` bytes was accepted.
    pub open spec fn begun(total: u64) -> SessionModel {
        SessionModel { started: true, total_bytes: total, bytes_written: 0 }
    }

    /// The counter after `count` more bytes were written. Bytes beyond the
    /// announced size are not counted.
    pub open spec fn counter_after(self, count: u64) -> u64 {
        if self.bytes_written + count <= self.total_bytes {
            (self.bytes_written + count) as u64
        } else {
            self.total_bytes
        }
    }

    /// The session after `count` more bytes were written.
    pub open spec fn after_write(self, count: u64) -> SessionModel {
        SessionModel { bytes_written: self.counter_after(count), ..self }
    }

    /// What the write of `count` bytes reports. The file is completed by the
    /// one write that takes the counter of a file of positive size from below
    /// its total to its total.
    pub open spec fn write_report(self, count: u64) -> WriteReport {
        WriteReport {
            bytes_written: self.counter_after(count),
            total_bytes: self.total_bytes,
            completed_now: self.total_bytes > 0 && self.bytes_written < self.total_bytes
                && self.counter_after(count) == self.total_bytes,
        }
    }

    /// Where the session stands.
    pub open spec fn state(self) -> SessionState {
        if !self.started {
            SessionState::Idle
        } else if self.bytes_written == self.total_bytes {
            SessionState::Completed
        } else {
            SessionState::Receiving
        }
    }

    /// The session after a series of writes, first to last.
    pub open spec fn after_writes(self, counts: Seq<u64>) -> SessionModel
        decreases counts.len(),
    {
        if counts.len() == 0 {
            self
        } else {
            self.after_writes(counts.drop_last()).after_write(counts.last())
        }
    }

    /// How many of a series of writes report the completion of the file.
    pub open spec fn completions(self, counts: Seq<u64>) -> nat
        decreases counts.len(),
    {
        if counts.len() == 0 {
            0
        } else {
            let before = self.after_writes(counts.drop_last());
            self.completions(counts.drop_last()) + if before.write_report(
                counts.last(),
            ).completed_now {
                1nat
            } else {
                0nat
            }
        }
    }
}

/// The sum of a series of byte counts.
pub open spec fn sum_of(counts: Seq<u64>) -> nat
    decreases counts.len(),
{
    if counts.len() == 0 {
        0
    } else {
        sum_of(counts.drop_last()) + counts.last() as nat
    }
}

/// The receive session of one listener.
#[derive(Debug)]
pub struct TransferSession {
    model: SessionModel,
}

impl View for TransferSession {
    type V = SessionModel;

    closed spec fn view(&self) -> SessionModel {
        self.model
    }
}

impl TransferSession {
    #[verifier::type_invariant]
    spec fn inv(self) -> bool {
        self.model.wf()
    }

    /// A session that has not seen a request.
    pub fn new() -> (session: TransferSession)
        ensures
            session@ == SessionModel::idle(),
            session@.wf(),
    {
        TransferSession { model: SessionModel { started: false, total_bytes: 0, bytes_written: 0 } }
    }

    /// Starts the session of a newly accepted request: the total is set and
    /// the counter starts again at zero, whatever the session held before.
    pub fn begin(&mut self, total_bytes: u64)
        ensures
            final(self)@ == SessionModel::begun(total_bytes),
            final(self)@.wf(),
    {
        self.model = SessionModel { started: true, total_bytes, bytes_written: 0 };
    }

    /// Counts `count` bytes that were written to the file.
    pub fn record(&mut self, count: u64) -> (report: WriteReport)
        ensures
            final(self)@ == old(self)@.after_write(count),
            report == old(self)@.write_report(count),
            old(self)@.wf(),
            final(self)@.wf(),
    {
        proof {
            use_type_invariant(&*self);
        }
        let before = self.model;
        let room = before.total_bytes - before.bytes_written;
        let after = if count <= room {
            before.bytes_written + count
        } else {
            before.total_bytes
        };
        self.model = SessionModel { bytes_written: after, ..before };
        WriteReport {
            bytes_written: after,
            total_bytes: before.total_bytes,
            completed_now: before.total_bytes > 0 && before.bytes_written < before.total_bytes
                && after == before.total_bytes,
        }
    }

    /// The size of the file being received.
    pub fn total_bytes(&self) -> (total: u64)
        ensures
            total == self@.total_bytes,
            self@.wf(),
    {
        proof {
            use_type_invariant(self);
        }
        self.model.total_bytes
    }

    /// The number of bytes written so far.
    pub fn bytes_written(&self) -> (written: u64)
        ensures
            written == self@.bytes_written,
            written <= self@.total_bytes,
            self@.wf(),
    {
        proof {
            use_type_invariant(self);
        }
        self.model.bytes_written
    }

    /// The number of bytes that are still missing.
    pub fn remaining(&self) -> (missing: u64)
        ensures
            missing == self@.total_bytes - self@.bytes_written,
            self@.wf(),
    {
        proof {
            use_type_invariant(self);
        }
        self.model.total_bytes - self.model.bytes_written
    }

    /// Where the session stands.
    pub fn state(&self) -> (state: SessionState)
        ensures
            state == self@.state(),
            self@.wf(),
    {
        proof {
            use_type_invariant(self);
        }
        if !self.model.started {
            SessionState::Idle
        } else if self.model.bytes_written == self.model.total_bytes {
            SessionState::Completed
        } else {
            SessionState::Receiving
        }
    }
}

// ---------------------------------------------------------------------------
// Laws
// ---------------------------------------------------------------------------

/// A write keeps the session well formed, keeps its total, and never lowers
/// the counter.
pub proof fn lemma_write_keeps_invariant(session: SessionModel, count: u64)
    requires
        session.wf(),
    ensures
        session.after_write(count).wf(),
        session.after_write(count).total_bytes == session.total_bytes,
        session.after_write(count).started == session.started,
        session.after_write(count).bytes_written >= session.bytes_written,
{
}

/// Through any series of writes the session stays well formed and the counter
/// holds the bytes written so far, up to the announced size.
pub proof fn lemma_writes_accumulate(session: SessionModel, counts: Seq<u64>)
    requires
        session.wf(),
    ensures
        session.after_writes(counts).wf(),
        session.after_writes(counts).total_bytes == session.total_bytes,
        session.after_writes(counts).started == session.started,
        session.after_writes(counts).bytes_written == if session.bytes_written + sum_of(counts)
            <= session.total_bytes {
            session.bytes_written + sum_of(counts)
        } else {
            session.total_bytes as int
        },
    decreases counts.len(),
{
    if counts.len() > 0 {
        lemma_writes_accumulate(session, counts.drop_last());
    }
}

/// The sum of the first `k` counts is at most the sum of all of them.
pub proof fn lemma_sum_of_prefix(counts: Seq<u64>, k: int)
    requires
        0 <= k <= counts.len(),
    ensures
        sum_of(counts.subrange(0, k)) <= sum_of(counts),
    decreases counts.len() - k,
{
    if k < counts.len() {
        lemma_sum_of_prefix(counts, k + 1);
        assert(counts.subrange(0, k + 1).drop_last() =~= counts.subrange(0, k));
    } else {
        assert(counts.subrange(0, k) =~= counts);
    }
}

/// The counter never decreases during a session: after more writes it is at
/// least what it was after fewer.
pub proof fn lemma_counter_monotonic(session: SessionModel, counts: Seq<u64>, i: int, j: int)
    requires
        session.wf(),
        0 <= i <= j <= counts.len(),
    ensures
        session.after_writes(counts.subrange(0, i)).bytes_written <= session.after_writes(
            counts.subrange(0, j),
        ).bytes_written,
{
    let upto_j = counts.subrange(0, j);
    lemma_writes_accumulate(session, counts.subrange(0, i));
    lemma_writes_accumulate(session, upto_j);
    lemma_sum_of_prefix(upto_j, i);
    assert(upto_j.subrange(0, i) =~= counts.subrange(0, i));
}

/// Completion is reported at most once in a session, and exactly once if the
/// writes bring a file of positive size from below its total up to it.
pub proof fn lemma_completion_reported_once(session: SessionModel, counts: Seq<u64>)
    requires
        session.wf(),
    ensures
        session.completions(counts) <= 1,
        session.completions(counts) == 1 <==> session.bytes_written < session.total_bytes
            && session.bytes_written + sum_of(counts) >= session.total_bytes,
    decreases counts.len(),
{
    if counts.len() > 0 {
        lemma_completion_reported_once(session, counts.drop_last());
        lemma_writes_accumulate(session, counts.drop_last());
    }
}

/// A session for an empty file is complete from the start, and no write ever
/// reports its completion.
pub proof fn lemma_empty_file_session(counts: Seq<u64>)
    ensures
        SessionModel::begun(0).state() == SessionState::Completed,
        SessionModel::begun(0).completions(counts) == 0,
{
    lemma_completion_reported_once(SessionModel::begun(0), counts);
}

/// A session is complete exactly when it has begun and nothing is missing,
/// and the write that reports the completion of a file is the one that makes
/// its session complete.
pub proof fn lemma_completion_means_complete(session: SessionModel, count: u64)
    requires
        session.wf(),
    ensures
        session.state() == SessionState::Completed <==> session.started && session.bytes_written
            == session.total_bytes,
        session.write_report(count).completed_now ==> session.state() != SessionState::Completed
            && session.after_write(count).bytes_written == session.total_bytes,
        session.started && session.write_report(count).completed_now ==> session.after_write(
            count,
        ).state() == SessionState::Completed,
{
}

} // verus!
