//! The sending side of a transfer: the handshake line, the plan that cuts a
//! file into one chunk per worker, the header of each chunk, and the state
//! machine that turns a transfer into exactly one completion report.

use crate::receiver::TransferCallback;
use crate::wire::{
    bytes_equal, decimal, join, lemma_join_written_out, push_bytes, push_decimal,
    FIELD_SEPARATOR, LINE_END,
};
use vstd::prelude::*;
use vstd::string::*;
use vstd::utf8::encode_utf8;

verus! {

/// The TCP port that transfers use unless the host chooses another.
pub const DEFAULT_TRANSFER_PORT: u16 = 4061;

/// The number of parallel streams recommended for a transfer.
pub const DEFAULT_PARALLELISM: u64 = 4;

/// The buffer size recommended for reading and writing file content.
pub const TRANSFER_BUFFER_SIZE: usize = 0x1_0000;

// ---------------------------------------------------------------------------
// The chunk plan
// ---------------------------------------------------------------------------

/// The part of a file that one worker sends over one connection.
#[derive(Clone, Copy, Debug, PartialEq, Eq, Structural)]
pub struct ChunkAssignment {
    /// Where the chunk starts in the file.
    pub offset: u64,
    /// How many bytes the chunk holds.
    pub length: u64,
}

/// The chunk of worker `index` out of `workers`, for a file of `file_size`
/// bytes: every worker gets the same share, rounded down, and the last worker
/// gets what is left as well.
pub open spec fn chunk_of(file_size: u64, workers: u64, index: int) -> ChunkAssignment
    recommends
        workers >= 1,
        0 <= index < workers,
{
    let base = file_size as int / workers as int;
    ChunkAssignment {
        offset: (index * base) as u64,
        length: if index == workers - 1 {
            (file_size - index * base) as u64
        } else {
            base as u64
        },
    }
}

/// The chunks of all workers, first to last.
pub open spec fn chunk_plan(file_size: u64, workers: u64) -> Seq<ChunkAssignment>
    recommends
        workers >= 1,
{
    Seq::new(workers as nat, |index: int| chunk_of(file_size, workers, index))
}

/// The sum of the lengths of some chunks.
pub open spec fn total_length(chunks: Seq<ChunkAssignment>) -> nat
    decreases chunks.len(),
{
    if chunks.len() == 0 {
        0
    } else {
        total_length(chunks.drop_last()) + chunks.last().length as nat
    }
}

/// Whether the chunks lie end to end from the start of the file: the first
/// starts at zero and each of the others where the one before it ends.
pub open spec fn contiguous(chunks: Seq<ChunkAssignment>) -> bool {
    &&& chunks.len() > 0 ==> chunks[0].offset == 0
    &&& forall|i: int|
        0 <= i < chunks.len() - 1 ==> (#[trigger] chunks[i + 1]).offset == chunks[i].offset
            + chunks[i].length
}

/// Whether two chunks share no byte.
pub open spec fn disjoint(a: ChunkAssignment, b: ChunkAssignment) -> bool {
    a.offset + a.length <= b.offset || b.offset + b.length <= a.offset
}

/// No worker's share, taken `index` times, reaches beyond the file.
pub proof fn lemma_share_within_file(file_size: u64, workers: u64, index: int)
    requires
        workers >= 1,
        0 <= index < workers,
    ensures
        index * (file_size as int / workers as int) + file_size as int / workers as int
            <= file_size,
        0 <= index * (file_size as int / workers as int),
{
    let size = file_size as int;
    let n = workers as int;
    let base = size / n;
    assert(base * n <= size) by (nonlinear_arith)
        requires
            base == size / n,
            n >= 1,
            size >= 0,
    ;
    assert(0 <= base) by (nonlinear_arith)
        requires
            base == size / n,
            n >= 1,
            size >= 0,
    ;
    assert((index + 1) * base <= n * base) by (nonlinear_arith)
        requires
            0 <= index < n,
            0 <= base,
    ;
    assert(index * base + base == (index + 1) * base) by (nonlinear_arith);
    assert(n * base == base * n) by (nonlinear_arith);
    assert(0 <= index * base) by (nonlinear_arith)
        requires
            0 <= index,
            0 <= base,
    ;
}

/// The chunks of a plan lie end to end, and the last ends at the end of the
/// file.
pub proof fn lemma_plan_contiguous(file_size: u64, workers: u64)
    requires
        workers >= 1,
    ensures
        chunk_plan(file_size, workers).len() == workers,
        contiguous(chunk_plan(file_size, workers)),
        chunk_plan(file_size, workers).last().offset + chunk_plan(file_size, workers).last().length
            == file_size,
{
    let plan = chunk_plan(file_size, workers);
    let base = file_size as int / workers as int;
    lemma_share_within_file(file_size, workers, 0);
    lemma_share_within_file(file_size, workers, workers - 1);
    assert forall|i: int| 0 <= i < plan.len() - 1 implies (#[trigger] plan[i + 1]).offset
        == plan[i].offset + plan[i].length by {
        lemma_share_within_file(file_size, workers, i);
        lemma_share_within_file(file_size, workers, i + 1);
        assert((i + 1) * base == i * base + base) by (nonlinear_arith);
    }
}

/// The lengths of chunks that lie end to end add up to where the last ends.
pub proof fn lemma_contiguous_total(chunks: Seq<ChunkAssignment>)
    requires
        chunks.len() > 0,
        contiguous(chunks),
    ensures
        total_length(chunks) == chunks.last().offset + chunks.last().length,
    decreases chunks.len(),
{
    let shorter = chunks.drop_last();
    if shorter.len() > 0 {
        assert(contiguous(shorter)) by {
            assert(shorter[0] == chunks[0]);
            assert forall|i: int| 0 <= i < shorter.len() - 1 implies (#[trigger] shorter[i
                + 1]).offset == shorter[i].offset + shorter[i].length by {
                assert(shorter[i + 1] == chunks[i + 1]);
                assert(shorter[i] == chunks[i]);
            }
        }
        lemma_contiguous_total(shorter);
        assert(shorter.last() == chunks[chunks.len() - 2]);
        assert(chunks.last() == chunks[(chunks.len() - 2) + 1]);
    } else {
        assert(chunks.last() == chunks[0]);
        assert(total_length(shorter) == 0);
    }
    assert(total_length(chunks) == total_length(shorter) + chunks.last().length);
}

/// In chunks that lie end to end, a later chunk starts no earlier than an
/// earlier one ends.
pub proof fn lemma_contiguous_ordered(chunks: Seq<ChunkAssignment>, i: int, j: int)
    requires
        contiguous(chunks),
        0 <= i < j < chunks.len(),
    ensures
        chunks[i].offset + chunks[i].length <= chunks[j].offset,
    decreases j - i,
{
    if j == i + 1 {
        assert(chunks[i + 1].offset == chunks[i].offset + chunks[i].length);
    } else {
        lemma_contiguous_ordered(chunks, i, j - 1);
        assert(chunks[(j - 1) + 1].offset == chunks[j - 1].offset + chunks[j - 1].length);
    }
}

/// The plan of a transfer cuts the file exactly: the lengths of the chunks
/// add up to the size of the file, and no two chunks share a byte.
pub proof fn lemma_plan_partitions_file(file_size: u64, workers: u64)
    requires
        workers >= 1,
    ensures
        total_length(chunk_plan(file_size, workers)) == file_size,
        forall|i: int, j: int|
            0 <= i < j < workers ==> disjoint(
                #[trigger] chunk_plan(file_size, workers)[i],
                #[trigger] chunk_plan(file_size, workers)[j],
            ),
{
    let plan = chunk_plan(file_size, workers);
    lemma_plan_contiguous(file_size, workers);
    lemma_contiguous_total(plan);
    assert forall|i: int, j: int| 0 <= i < j < workers implies disjoint(
        #[trigger] plan[i],
        #[trigger] plan[j],
    ) by {
        lemma_contiguous_ordered(plan, i, j);
    }
}

/// Every byte of the file lies in exactly one chunk of the plan.
pub proof fn lemma_plan_covers_file(file_size: u64, workers: u64, position: int)
    requires
        workers >= 1,
        0 <= position < file_size,
    ensures
        exists|i: int|
            0 <= i < workers && (#[trigger] chunk_plan(file_size, workers)[i]).offset <= position
                < chunk_plan(file_size, workers)[i].offset + chunk_plan(
                file_size,
                workers,
            )[i].length,
{
    let plan = chunk_plan(file_size, workers);
    lemma_plan_contiguous(file_size, workers);
    lemma_position_in_some_chunk(plan, position);
}

/// A position before the end of chunks that lie end to end is in one of them.
proof fn lemma_position_in_some_chunk(chunks: Seq<ChunkAssignment>, position: int)
    requires
        chunks.len() > 0,
        contiguous(chunks),
        0 <= position < chunks.last().offset + chunks.last().length,
    ensures
        exists|i: int|
            0 <= i < chunks.len() && (#[trigger] chunks[i]).offset <= position < chunks[i].offset
                + chunks[i].length,
    decreases chunks.len(),
{
    let last = chunks.len() - 1;
    if chunks[last].offset <= position {
        assert(chunks[last].offset <= position < chunks[last].offset + chunks[last].length);
    } else {
        assert(chunks.len() > 1);
        let shorter = chunks.drop_last();
        assert(contiguous(shorter)) by {
            assert(shorter[0] == chunks[0]);
            assert forall|i: int| 0 <= i < shorter.len() - 1 implies (#[trigger] shorter[i
                + 1]).offset == shorter[i].offset + shorter[i].length by {
                assert(shorter[i + 1] == chunks[i + 1]);
                assert(shorter[i] == chunks[i]);
            }
        }
        assert(shorter.last() == chunks[last - 1]);
        assert(chunks[(last - 1) + 1].offset == chunks[last - 1].offset + chunks[last
            - 1].length);
        lemma_position_in_some_chunk(shorter, position);
        let i = choose|i: int|
            0 <= i < shorter.len() && (#[trigger] shorter[i]).offset <= position
                < shorter[i].offset + shorter[i].length;
        assert(chunks[i] == shorter[i]);
    }
}

/// The last worker carries the remainder: its chunk is one share plus what
/// the division of the file among the workers leaves over.
pub proof fn lemma_last_chunk_carries_remainder(file_size: u64, workers: u64)
    requires
        workers >= 1,
    ensures
        chunk_of(file_size, workers, workers - 1).length == file_size as int / workers as int
            + file_size as int % workers as int,
        forall|i: int|
            0 <= i < workers - 1 ==> (#[trigger] chunk_of(file_size, workers, i)).length
                == file_size as int / workers as int,
{
    let size = file_size as int;
    let n = workers as int;
    let base = size / n;
    lemma_share_within_file(file_size, workers, n - 1);
    assert(size == n * base + size % n) by (nonlinear_arith)
        requires
            base == size / n,
            n >= 1,
    ;
    assert((n - 1) * base == n * base - base) by (nonlinear_arith);
    assert forall|i: int| 0 <= i < workers - 1 implies (#[trigger] chunk_of(
        file_size,
        workers,
        i,
    )).length == base by {
        lemma_share_within_file(file_size, workers, i);
    }
}

/// With a single worker the plan is one chunk that holds the whole file.
pub proof fn lemma_single_worker_plan(file_size: u64)
    ensures
        chunk_plan(file_size, 1) == seq![ChunkAssignment { offset: 0, length: file_size }],
{
    assert(chunk_plan(file_size, 1) =~= seq![ChunkAssignment { offset: 0, length: file_size }]);
}

/// The plan for an empty file holds only empty chunks.
pub proof fn lemma_empty_file_plan(workers: u64)
    requires
        workers >= 1,
    ensures
        forall|i: int|
            0 <= i < workers ==> (#[trigger] chunk_plan(0, workers)[i]) == (ChunkAssignment {
                offset: 0,
                length: 0,
            }),
{
    assert forall|i: int| 0 <= i < workers implies (#[trigger] chunk_plan(0, workers)[i])
        == (ChunkAssignment { offset: 0, length: 0 }) by {
        assert(0int / workers as int == 0) by (nonlinear_arith)
            requires
                workers >= 1,
        ;
        assert(i * 0 == 0) by (nonlinear_arith);
    }
}

/// Computes the chunk of one worker.
pub fn chunk_for(file_size: u64, workers: u64, index: u64) -> (chunk: ChunkAssignment)
    requires
        workers >= 1,
        index < workers,
    ensures
        chunk == chunk_of(file_size, workers, index as int),
        chunk.offset + chunk.length <= file_size,
{
    let base = file_size / workers;
    proof {
        lemma_share_within_file(file_size, workers, index as int);
    }
    let offset = index * base;
    let length = if index == workers - 1 {
        file_size - offset
    } else {
        base
    };
    ChunkAssignment { offset, length }
}

/// Computes the chunks of all workers, first to last.
pub fn plan_chunks(file_size: u64, workers: u64) -> (plan: Vec<ChunkAssignment>)
    requires
        workers >= 1,
        workers <= usize::MAX,
    ensures
        plan@ == chunk_plan(file_size, workers),
{
    let mut plan: Vec<ChunkAssignment> = Vec::new();
    let mut index: u64 = 0;
    while index < workers
        invariant
            workers >= 1,
            index <= workers,
            plan@.len() == index,
            forall|i: int| 0 <= i < index ==> plan@[i] == chunk_of(file_size, workers, i),
        decreases workers - index,
    {
        plan.push(chunk_for(file_size, workers, index));
        index = index + 1;
    }
    assert(plan@ =~= chunk_plan(file_size, workers));
    plan
}

// ---------------------------------------------------------------------------
// Frames
// ---------------------------------------------------------------------------

/// The bytes of the verb `REQ`.
pub open spec fn verb_request() -> Seq<u8> {
    "REQ".spec_bytes()
}

/// The bytes of the verb `DATA`.
pub open spec fn verb_data() -> Seq<u8> {
    "DATA".spec_bytes()
}

/// The bytes of the answer `ACC`.
pub open spec fn word_accept() -> Seq<u8> {
    "ACC".spec_bytes()
}

/// A header line: verb, file name and number, separated by `|` and ended by
/// a line end.
pub open spec fn header_line(verb: Seq<u8>, file_name: Seq<char>, number: u64) -> Seq<u8> {
    join(seq![verb, encode_utf8(file_name), decimal(number as nat)], FIELD_SEPARATOR).push(
        LINE_END,
    )
}

/// The handshake line `REQ|<file_name>|<file_size>`.
pub open spec fn request_line_of(file_name: Seq<char>, file_size: u64) -> Seq<u8> {
    header_line(verb_request(), file_name, file_size)
}

/// The chunk header `DATA|<file_name>|<offset>`.
pub open spec fn data_line_of(file_name: Seq<char>, offset: u64) -> Seq<u8> {
    header_line(verb_data(), file_name, offset)
}

/// Whether a handshake response accepts the transfer: it does if it begins
/// with `ACC`.
pub open spec fn accepts(response: Seq<u8>) -> bool {
    response.len() >= 3 && response.subrange(0, 3) == word_accept()
}

/// Writes a header line.
fn write_header(verb: &str, file_name: &str, number: u64) -> (line: Vec<u8>)
    ensures
        line@ == header_line(verb.spec_bytes(), file_name@, number),
{
    let mut line: Vec<u8> = Vec::new();
    push_bytes(&mut line, verb.as_bytes());
    line.push(FIELD_SEPARATOR);
    push_bytes(&mut line, file_name.as_bytes());
    line.push(FIELD_SEPARATOR);
    push_decimal(&mut line, number);
    proof {
        let fields = seq![verb.spec_bytes(), encode_utf8(file_name@), decimal(number as nat)];
        lemma_join_written_out(fields[0], fields[1], fields[2], fields[2], FIELD_SEPARATOR);
        assert(line@ =~= join(fields, FIELD_SEPARATOR));
    }
    line.push(LINE_END);
    line
}

/// Writes the handshake line of a transfer.
pub fn request_line(file_name: &str, file_size: u64) -> (line: Vec<u8>)
    ensures
        line@ == request_line_of(file_name@, file_size),
{
    write_header("REQ", file_name, file_size)
}

/// Writes the header of the chunk that starts at `offset`.
pub fn data_line(file_name: &str, offset: u64) -> (line: Vec<u8>)
    ensures
        line@ == data_line_of(file_name@, offset),
{
    write_header("DATA", file_name, offset)
}

/// Whether the peer's answer to the handshake accepts the transfer.
pub fn response_accepts(response: &[u8]) -> (accepted: bool)
    ensures
        accepted == accepts(response@),
{
    if response.len() < 3 {
        return false;
    }
    bytes_equal(vstd::slice::slice_subrange(response, 0, 3), "ACC".as_bytes())
}

// ---------------------------------------------------------------------------
// The course of a transfer
// ---------------------------------------------------------------------------

/// How a transfer ended.
#[derive(Clone, Copy, Debug, PartialEq, Eq, Structural)]
pub enum SendOutcome {
    /// Every worker sent its chunk.
    Sent,
    /// The file to send does not exist.
    FileMissing,
    /// The peer could not be reached for the handshake.
    ConnectFailed,
    /// The peer did not accept the request.
    Rejected,
    /// At least one worker failed.
    TransferFailed,
}

/// Where a transfer stands.
#[derive(Clone, Copy, Debug, PartialEq, Eq, Structural)]
pub enum SendPhase {
    /// Nothing has happened yet.
    Start,
    /// The handshake is under way.
    AwaitingResponse,
    /// Workers are sending; `pending` of them have not finished, and `failed`
    /// says whether one of those that have finished failed.
    Sending { pending: u64, failed: bool },
    /// The completion has been reported.
    Done,
}

/// What happened to a transfer.
#[derive(Clone, Copy, Debug, PartialEq, Eq, Structural)]
pub enum SendEvent {
    /// The file to send was not found.
    FileMissing,
    /// The file to send was found.
    FileFound,
    /// The connection for the handshake could not be made.
    ConnectFailed,
    /// The peer answered the handshake.
    Response { accepted: bool },
    /// A worker finished, well or not.
    WorkerFinished { ok: bool },
}

/// What the host does next for a transfer.
#[derive(Clone, Copy, Debug, PartialEq, Eq, Structural)]
pub enum SendAction {
    /// Connect to the peer, send the handshake line and read the answer.
    Handshake,
    /// Close the handshake connection and start one worker per chunk.
    StartWorkers,
    /// Wait for the next worker to finish.
    Wait,
    /// Report the completion of the transfer to the host, once.
    Complete { outcome: SendOutcome },
    /// Nothing: the event does not belong to this phase.
    Nothing,
}

/// The phase and the action that follow an event in a transfer with
/// `workers` workers.
pub open spec fn send_step(phase: SendPhase, event: SendEvent, workers: u64) -> (
    SendPhase,
    SendAction,
)
    recommends
        workers >= 1,
{
    match (phase, event) {
        (SendPhase::Start, SendEvent::FileMissing) => (
            SendPhase::Done,
            SendAction::Complete { outcome: SendOutcome::FileMissing },
        ),
        (SendPhase::Start, SendEvent::FileFound) => (
            SendPhase::AwaitingResponse,
            SendAction::Handshake,
        ),
        (SendPhase::AwaitingResponse, SendEvent::ConnectFailed) => (
            SendPhase::Done,
            SendAction::Complete { outcome: SendOutcome::ConnectFailed },
        ),
        (SendPhase::AwaitingResponse, SendEvent::Response { accepted }) => if !accepted {
            (SendPhase::Done, SendAction::Complete { outcome: SendOutcome::Rejected })
        } else {
            (SendPhase::Sending { pending: workers, failed: false }, SendAction::StartWorkers)
        },
        (SendPhase::Sending { pending, failed }, SendEvent::WorkerFinished { ok }) => if pending
            <= 1 {
            (
                SendPhase::Done,
                SendAction::Complete {
                    outcome: if failed || !ok {
                        SendOutcome::TransferFailed
                    } else {
                        SendOutcome::Sent
                    },
                },
            )
        } else {
            (
                SendPhase::Sending { pending: (pending - 1) as u64, failed: failed || !ok },
                SendAction::Wait,
            )
        },
        _ => (phase, SendAction::Nothing),
    }
}

/// Whether the outcome counts as a success.
pub open spec fn outcome_success(outcome: SendOutcome) -> bool {
    outcome == SendOutcome::Sent
}

/// The message that goes with an outcome.
pub open spec fn outcome_text(outcome: SendOutcome) -> Seq<char> {
    match outcome {
        SendOutcome::Sent => "send completed"@,
        SendOutcome::FileMissing => "file does not exist"@,
        SendOutcome::ConnectFailed => "connection failed"@,
        SendOutcome::Rejected => "peer rejected"@,
        SendOutcome::TransferFailed => "transfer failed"@,
    }
}

/// Advances a transfer with `workers` workers by one event.
pub fn advance(phase: SendPhase, event: SendEvent, workers: u64) -> (next: (SendPhase, SendAction))
    requires
        workers >= 1,
    ensures
        next == send_step(phase, event, workers),
{
    match phase {
        SendPhase::Start => match event {
            SendEvent::FileMissing => (
                SendPhase::Done,
                SendAction::Complete { outcome: SendOutcome::FileMissing },
            ),
            SendEvent::FileFound => (SendPhase::AwaitingResponse, SendAction::Handshake),
            _ => (phase, SendAction::Nothing),
        },
        SendPhase::AwaitingResponse => match event {
            SendEvent::ConnectFailed => (
                SendPhase::Done,
                SendAction::Complete { outcome: SendOutcome::ConnectFailed },
            ),
            SendEvent::Response { accepted } => {
                if !accepted {
                    (SendPhase::Done, SendAction::Complete { outcome: SendOutcome::Rejected })
                } else {
                    (
                        SendPhase::Sending { pending: workers, failed: false },
                        SendAction::StartWorkers,
                    )
                }
            },
            _ => (phase, SendAction::Nothing),
        },
        SendPhase::Sending { pending, failed } => match event {
            SendEvent::WorkerFinished { ok } => {
                if pending <= 1 {
                    let outcome = if failed || !ok {
                        SendOutcome::TransferFailed
                    } else {
                        SendOutcome::Sent
                    };
                    (SendPhase::Done, SendAction::Complete { outcome })
                } else {
                    (
                        SendPhase::Sending { pending: pending - 1, failed: failed || !ok },
                        SendAction::Wait,
                    )
                }
            },
            _ => (phase, SendAction::Nothing),
        },
        SendPhase::Done => (phase, SendAction::Nothing),
    }
}

/// Whether the outcome is reported to the host as a success.
pub fn is_success(outcome: SendOutcome) -> (success: bool)
    ensures
        success == outcome_success(outcome),
{
    match outcome {
        SendOutcome::Sent => true,
        _ => false,
    }
}

/// The message that is reported to the host with an outcome.
pub fn outcome_message(outcome: SendOutcome) -> (message: String)
    ensures
        message@ == outcome_text(outcome),
{
    let text = match outcome {
        SendOutcome::Sent => "send completed",
        SendOutcome::FileMissing => "file does not exist",
        SendOutcome::ConnectFailed => "connection failed",
        SendOutcome::Rejected => "peer rejected",
        SendOutcome::TransferFailed => "transfer failed",
    };
    text.to_owned()
}

/// Reports the end of a transfer to the host, with the message that goes
/// with the outcome, and says whether it was a success.
pub fn report_outcome(outcome: SendOutcome, callback: &dyn TransferCallback) -> (success: bool)
    ensures
        success == outcome_success(outcome),
{
    let success = is_success(outcome);
    callback.on_complete(success, outcome_message(outcome));
    success
}

// ---------------------------------------------------------------------------
// Laws of the course of a transfer
// ---------------------------------------------------------------------------

/// The phase after a series of events, first to last.
pub open spec fn phase_after(phase: SendPhase, events: Seq<SendEvent>, workers: u64) -> SendPhase
    decreases events.len(),
{
    if events.len() == 0 {
        phase
    } else {
        send_step(phase_after(phase, events.drop_last(), workers), events.last(), workers).0
    }
}

/// How many completions a series of events leads to.
pub open spec fn completions(phase: SendPhase, events: Seq<SendEvent>, workers: u64) -> nat
    decreases events.len(),
{
    if events.len() == 0 {
        0
    } else {
        completions(phase, events.drop_last(), workers) + if send_step(
            phase_after(phase, events.drop_last(), workers),
            events.last(),
            workers,
        ).1 is Complete {
            1nat
        } else {
            0nat
        }
    }
}

/// Whatever happens, a transfer reports its completion at most once, and it
/// has reported it exactly if it is done.
pub proof fn lemma_one_completion(events: Seq<SendEvent>, workers: u64)
    requires
        workers >= 1,
    ensures
        completions(SendPhase::Start, events, workers) <= 1,
        completions(SendPhase::Start, events, workers) == 1 <==> phase_after(
            SendPhase::Start,
            events,
            workers,
        ) is Done,
    decreases events.len(),
{
    if events.len() > 0 {
        lemma_one_completion(events.drop_last(), workers);
    }
}

/// Once all workers of an accepted transfer have finished, the transfer is
/// done and the completion reports success exactly if no worker failed.
pub proof fn lemma_workers_decide_outcome(pending: u64, failed: bool, results: Seq<bool>)
    requires
        pending >= 1,
        results.len() == pending,
    ensures
        phase_after(
            SendPhase::Sending { pending, failed },
            results.map_values(|ok: bool| SendEvent::WorkerFinished { ok }),
            pending,
        ) is Done,
        send_step(
            phase_after(
                SendPhase::Sending { pending, failed },
                results.map_values(|ok: bool| SendEvent::WorkerFinished { ok }).drop_last(),
                pending,
            ),
            SendEvent::WorkerFinished { ok: results.last() },
            pending,
        ).1 == (SendAction::Complete {
            outcome: if !failed && forall|i: int| 0 <= i < results.len() ==> results[i] {
                SendOutcome::Sent
            } else {
                SendOutcome::TransferFailed
            },
        }),
{
    let events = results.map_values(|ok: bool| SendEvent::WorkerFinished { ok });
    lemma_workers_progress(pending, failed, results, pending - 1);
    assert(events.drop_last() =~= events.subrange(0, pending - 1));
    let before = phase_after(SendPhase::Sending { pending, failed }, events.drop_last(), pending);
    assert(events.last() == SendEvent::WorkerFinished { ok: results.last() });
    let all_before = forall|i: int| 0 <= i < pending - 1 ==> results[i];
    let all = forall|i: int| 0 <= i < results.len() ==> results[i];
    assert(all <==> (all_before && results.last())) by {
        if all_before && results.last() {
            assert forall|i: int| 0 <= i < results.len() implies results[i] by {
                if i == results.len() - 1 {
                }
            }
        }
        if all {
            assert(results[results.len() - 1]);
        }
    }
}

/// While workers are still pending, the transfer keeps count of them and
/// remembers whether one has failed.
proof fn lemma_workers_progress(pending: u64, failed: bool, results: Seq<bool>, k: int)
    requires
        pending >= 1,
        results.len() == pending,
        0 <= k < pending,
    ensures
        phase_after(
            SendPhase::Sending { pending, failed },
            results.map_values(|ok: bool| SendEvent::WorkerFinished { ok }).subrange(0, k),
            pending,
        ) == (SendPhase::Sending {
            pending: (pending - k) as u64,
            failed: failed || !(forall|i: int| 0 <= i < k ==> results[i]),
        }),
    decreases k,
{
    let events = results.map_values(|ok: bool| SendEvent::WorkerFinished { ok });
    if k > 0 {
        lemma_workers_progress(pending, failed, results, k - 1);
        assert(events.subrange(0, k).drop_last() =~= events.subrange(0, k - 1));
        assert(events.subrange(0, k).last() == SendEvent::WorkerFinished { ok: results[k - 1] });
        let all_before = forall|i: int| 0 <= i < k - 1 ==> results[i];
        let all = forall|i: int| 0 <= i < k ==> results[i];
        assert(all <==> (all_before && results[k - 1])) by {
            if all_before && results[k - 1] {
                assert forall|i: int| 0 <= i < k implies results[i] by {
                    if i == k - 1 {
                    }
                }
            }
        }
    } else {
        assert(events.subrange(0, 0).len() == 0);
    }
}

} // verus!
