//! The receiving side of a transfer: reading the header line of a
//! connection, answering a request, and counting the bytes of each chunk.
//!
//! A connection starts with one header line, ended by a line end. A `REQ`
//! line asks whether a file may be sent and is answered with one line; a
//! `DATA` line is followed by the bytes of a chunk until the peer closes.

use crate::sender::{
    accepts, data_line_of, header_line, request_line_of, verb_data, verb_request, word_accept,
};
use crate::session::{SessionModel, TransferSession};
use crate::wire::{
    bytes_equal, decimal, field_text, join, lemma_ascii_in_encoding, lemma_decimal_is_digits,
    lemma_join_written_out, lemma_parse_decimal_round_trip, lemma_split_join, parse_decimal,
    parse_number, push_bytes, read_text, separator_free, split, split_fields, FIELD_SEPARATOR,
    LINE_END,
};
use vstd::prelude::*;
use vstd::string::*;
use vstd::utf8::{
    encode_utf8, encode_utf8_decode_utf8, encode_utf8_valid_utf8, is_ascii_chars_encode_utf8,
};

verus! {

/// The number of bytes after which progress is reported again: one mebibyte.
pub const PROGRESS_STEP: u64 = 0x10_0000;

/// The byte `/`.
pub const SLASH: u8 = 0x2F;

/// The byte `\`.
pub const BACKSLASH: u8 = 0x5C;

/// The byte `.`.
pub const FULL_STOP: u8 = 0x2E;

// ---------------------------------------------------------------------------
// The host's side
// ---------------------------------------------------------------------------

/// What the host implements to take part in transfers.
pub trait TransferCallback: Send + Sync {
    /// Asks whether the file that a peer offers shall be received. The
    /// connection waits for the answer.
    fn on_receive_request(&self, file_name: String, file_size: u64, sender_ip: String) -> bool;

    /// Reports how many bytes of how many have been transferred.
    fn on_progress(&self, transferred: u64, total: u64);

    /// Reports the end of a transfer, with a message for the user.
    fn on_complete(&self, success: bool, msg: String);
}

// ---------------------------------------------------------------------------
// Header lines
// ---------------------------------------------------------------------------

/// A request to send a file.
#[derive(Clone, Debug)]
pub struct TransferRequest {
    /// The name of the file, as the peer gave it. It is not to be trusted.
    pub file_name: String,
    /// The size of the file in bytes.
    pub file_size: u64,
}

/// The start of a chunk.
#[derive(Clone, Debug)]
pub struct DataHeader {
    /// The name of the file that the chunk belongs to.
    pub file_name: String,
    /// Where in the file the chunk starts.
    pub offset: u64,
}

/// What a header line says.
#[derive(Clone, Debug)]
pub enum Header {
    Request(TransferRequest),
    Data(DataHeader),
    /// A line with an unknown verb or with too few fields.
    Unknown,
}

/// The mathematical value of a `Header`.
pub enum HeaderView {
    Request { file_name: Seq<char>, file_size: u64 },
    Data { file_name: Seq<char>, offset: u64 },
    Unknown,
}

impl View for Header {
    type V = HeaderView;

    open spec fn view(&self) -> HeaderView {
        match self {
            Header::Request(request) => HeaderView::Request {
                file_name: request.file_name@,
                file_size: request.file_size,
            },
            Header::Data(data) => HeaderView::Data {
                file_name: data.file_name@,
                offset: data.offset,
            },
            Header::Unknown => HeaderView::Unknown,
        }
    }
}

/// The number that a numeric field of a header line stands for: its value if
/// it is a numeral of 64 bits, and zero otherwise.
pub open spec fn numeric_field(field: Seq<u8>) -> u64 {
    match parse_decimal(field, u64::MAX as nat) {
        Some(n) => n as u64,
        None => 0,
    }
}

/// What a header line says. The line is given without its line end. A line
/// counts as a request or as the start of a chunk if it has at least three
/// fields and begins with the verb.
pub open spec fn parsed_header(line: Seq<u8>) -> HeaderView {
    let fields = split(line, FIELD_SEPARATOR);
    if fields.len() >= 3 && fields[0] == verb_request() {
        HeaderView::Request {
            file_name: field_text(fields[1]),
            file_size: numeric_field(fields[2]),
        }
    } else if fields.len() >= 3 && fields[0] == verb_data() {
        HeaderView::Data { file_name: field_text(fields[1]), offset: numeric_field(fields[2]) }
    } else {
        HeaderView::Unknown
    }
}

/// Whether a name is one of the two that stand for a directory rather than
/// for a file in it: `.` and `..`.
pub open spec fn names_directory(file_name: Seq<char>) -> bool {
    file_name == seq!['.'] || file_name == seq!['.', '.']
}

/// Whether a file name can be used below the save directory as it stands,
/// so that the file comes to lie in that directory and nowhere else: it can
/// if it holds neither `/` nor `\` and is neither `.` nor `..`.
pub open spec fn name_is_safe(file_name: Seq<char>) -> bool {
    &&& !file_name.contains('/')
    &&& !file_name.contains('\\')
    &&& !names_directory(file_name)
}

/// The position of the first line end in `stream`, if there is one.
pub open spec fn line_end_at(stream: Seq<u8>, position: int) -> bool {
    &&& 0 <= position < stream.len()
    &&& stream[position] == LINE_END
    &&& forall|i: int| 0 <= i < position ==> stream[i] != LINE_END
}

/// Finds the end of the header line in the bytes of a connection. The header
/// is what lies before the position returned, the content what lies after it.
pub fn find_line_end(stream: &[u8]) -> (end: Option<usize>)
    ensures
        match end {
            Some(position) => line_end_at(stream@, position as int),
            None => !stream@.contains(LINE_END),
        },
{
    let mut i: usize = 0;
    while i < stream.len()
        invariant
            i <= stream.len(),
            forall|k: int| 0 <= k < i ==> stream@[k] != LINE_END,
        decreases stream.len() - i,
    {
        if stream[i] == LINE_END {
            return Some(i);
        }
        i = i + 1;
    }
    None
}

/// Reads a numeric field of a header line.
pub fn read_number(field: &[u8]) -> (number: u64)
    ensures
        number == numeric_field(field@),
{
    match parse_number(field, u64::MAX) {
        Some(n) => n,
        None => 0,
    }
}

/// Reads a header line, given without its line end.
pub fn parse_header(line: &[u8]) -> (header: Header)
    ensures
        header@ == parsed_header(line@),
{
    let fields = split_fields(line, FIELD_SEPARATOR);
    assert(fields@.len() == split(line@, FIELD_SEPARATOR).len());
    if fields.len() < 3 {
        return Header::Unknown;
    }
    assert(forall|i: int| 0 <= i < 3 ==> (#[trigger] fields@[i])@ == split(
        line@,
        FIELD_SEPARATOR,
    )[i]);
    if bytes_equal(fields[0].as_slice(), "REQ".as_bytes()) {
        Header::Request(
            TransferRequest {
                file_name: read_text(fields[1].as_slice()),
                file_size: read_number(fields[2].as_slice()),
            },
        )
    } else if bytes_equal(fields[0].as_slice(), "DATA".as_bytes()) {
        Header::Data(
            DataHeader {
                file_name: read_text(fields[1].as_slice()),
                offset: read_number(fields[2].as_slice()),
            },
        )
    } else {
        Header::Unknown
    }
}

/// Whether a file name can be used below the save directory as it stands.
pub fn file_name_is_safe(file_name: &str) -> (safe: bool)
    ensures
        safe == name_is_safe(file_name@),
{
    let bytes = file_name.as_bytes();
    proof {
        lemma_separators_in_encoding(file_name@);
        lemma_directory_names_in_encoding(file_name@);
    }
    if bytes.len() == 1 && bytes[0] == FULL_STOP {
        assert(bytes@ =~= seq![FULL_STOP]);
        return false;
    }
    if bytes.len() == 2 && bytes[0] == FULL_STOP && bytes[1] == FULL_STOP {
        assert(bytes@ =~= seq![FULL_STOP, FULL_STOP]);
        return false;
    }
    assert(!names_directory(file_name@));
    let mut i: usize = 0;
    while i < bytes.len()
        invariant
            i <= bytes.len(),
            bytes@ == encode_utf8(file_name@),
            bytes@.contains(SLASH) <==> file_name@.contains('/'),
            bytes@.contains(BACKSLASH) <==> file_name@.contains('\\'),
            !names_directory(file_name@),
            forall|k: int| 0 <= k < i ==> bytes@[k] != SLASH && bytes@[k] != BACKSLASH,
        decreases bytes.len() - i,
    {
        if bytes[i] == SLASH || bytes[i] == BACKSLASH {
            assert(bytes@.contains(bytes@[i as int]));
            return false;
        }
        i = i + 1;
    }
    true
}

/// The bytes `/` and `\` stand for the characters `/` and `\`, wherever they
/// occur in the encoding of a text.
proof fn lemma_separators_in_encoding(text: Seq<char>)
    ensures
        encode_utf8(text).contains(SLASH) <==> text.contains('/'),
        encode_utf8(text).contains(BACKSLASH) <==> text.contains('\\'),
{
    lemma_ascii_in_encoding(text, SLASH);
    lemma_ascii_in_encoding(text, BACKSLASH);
    assert(SLASH as char == '/');
    assert(BACKSLASH as char == '\\');
}

/// A text is `.` or `..` exactly if its encoding is one or two full stops.
proof fn lemma_directory_names_in_encoding(text: Seq<char>)
    ensures
        encode_utf8(text) == seq![FULL_STOP] <==> text == seq!['.'],
        encode_utf8(text) == seq![FULL_STOP, FULL_STOP] <==> text == seq!['.', '.'],
{
    let one = seq!['.'];
    let two = seq!['.', '.'];
    is_ascii_chars_encode_utf8(one);
    is_ascii_chars_encode_utf8(two);
    assert(encode_utf8(one) =~= seq![FULL_STOP]);
    assert(encode_utf8(two) =~= seq![FULL_STOP, FULL_STOP]);
    encode_utf8_decode_utf8(text);
    encode_utf8_decode_utf8(one);
    encode_utf8_decode_utf8(two);
}

// ---------------------------------------------------------------------------
// Answers to a request
// ---------------------------------------------------------------------------

/// The answer to a request.
#[derive(Clone, Copy, Debug, PartialEq, Eq, Structural)]
pub enum Response {
    /// The file may be sent: `ACC`.
    Accept,
    /// The file is not wanted: `REJ`.
    Reject,
    /// The file was wanted but could not be created: `REJ|CreateFileErr`.
    RejectCreateFailed,
}

/// The line that carries an answer.
pub open spec fn response_bytes(response: Response) -> Seq<u8> {
    match response {
        Response::Accept => "ACC\n".spec_bytes(),
        Response::Reject => "REJ\n".spec_bytes(),
        Response::RejectCreateFailed => "REJ|CreateFileErr\n".spec_bytes(),
    }
}

/// Writes the line that carries an answer.
pub fn response_line(response: Response) -> (line: Vec<u8>)
    ensures
        line@ == response_bytes(response),
{
    let mut line: Vec<u8> = Vec::new();
    match response {
        Response::Accept => push_bytes(&mut line, "ACC\n".as_bytes()),
        Response::Reject => push_bytes(&mut line, "REJ\n".as_bytes()),
        Response::RejectCreateFailed => push_bytes(&mut line, "REJ|CreateFileErr\n".as_bytes()),
    }
    assert(line@ =~= response_bytes(response));
    line
}

// ---------------------------------------------------------------------------
// The course of a connection
// ---------------------------------------------------------------------------

/// What the state machine needs to know of a header line.
#[derive(Clone, Copy, Debug, PartialEq, Eq, Structural)]
pub enum HeaderKind {
    Request { file_size: u64, name_safe: bool },
    Data { offset: u64, name_safe: bool },
    Unknown,
}

/// Where a connection stands.
#[derive(Clone, Copy, Debug, PartialEq, Eq, Structural)]
pub enum ConnPhase {
    /// The header line has not been read yet.
    AwaitingHeader,
    /// The host is being asked whether it wants the file.
    AwaitingDecision { file_size: u64 },
    /// The file is being created.
    AwaitingFile { file_size: u64 },
    /// The file is being opened for a chunk.
    AwaitingOpen,
    /// The bytes of a chunk are coming in. Progress was last reported when
    /// the session's counter stood at `last_notified`.
    Streaming { last_notified: u64 },
    /// The connection is over.
    Closed,
}

/// What happened on a connection.
#[derive(Clone, Copy, Debug, PartialEq, Eq, Structural)]
pub enum ConnEvent {
    /// The header line was read.
    Header { kind: HeaderKind },
    /// The host answered the question whether it wants the file.
    HostDecision { accepted: bool },
    /// The file was created and sized, or could not be created.
    FileCreated { ok: bool },
    /// The file was opened and positioned for a chunk, or could not be.
    FileOpened { ok: bool },
    /// `count` bytes were read from the peer and written to the file.
    Written { count: u64 },
    /// The peer closed the connection, or reading or writing failed.
    StreamEnded,
}

/// A progress report for the host.
#[derive(Clone, Copy, Debug, PartialEq, Eq, Structural)]
pub struct Progress {
    pub transferred: u64,
    pub total: u64,
}

/// What the host does next on a connection.
#[derive(Clone, Copy, Debug, PartialEq, Eq, Structural)]
pub enum ConnAction {
    /// Ask the host whether it wants the file.
    AskHost,
    /// Create the file, truncating what was there, and size it.
    CreateFile { file_size: u64 },
    /// Send the answer and close the connection.
    Respond { response: Response },
    /// Open the file for writing, without truncating it, and go to `offset`.
    OpenFile { offset: u64 },
    /// Report `progress` if there is any, report the completion of the file
    /// if `completed` says so, then read and write the next bytes.
    Receive { progress: Option<Progress>, completed: bool },
    /// Close the connection without a word.
    Close,
    /// Nothing: the event does not belong to this phase.
    Nothing,
}

/// Whether progress is due: it is when the counter has advanced by a
/// mebibyte or more since the last report, and when the file is complete.
pub open spec fn progress_due(written: u64, total: u64, last_notified: u64) -> bool {
    written - last_notified >= PROGRESS_STEP || written == total
}

/// What follows an event on a connection: the next phase, the session as it
/// is then, and the action to take.
///
/// A request is passed to the host only if its file name is safe, and is
/// answered with `ACC` only after the host agreed and the file was created;
/// that is also when the session starts anew. The bytes of a chunk are
/// counted in the session as they are written.
pub open spec fn conn_step(phase: ConnPhase, event: ConnEvent, session: SessionModel) -> (
    ConnPhase,
    SessionModel,
    ConnAction,
) {
    match (phase, event) {
        (ConnPhase::AwaitingHeader, ConnEvent::Header { kind }) => match kind {
            HeaderKind::Request { file_size, name_safe } => if name_safe {
                (ConnPhase::AwaitingDecision { file_size }, session, ConnAction::AskHost)
            } else {
                (ConnPhase::Closed, session, ConnAction::Respond { response: Response::Reject })
            },
            HeaderKind::Data { offset, name_safe } => if name_safe {
                (ConnPhase::AwaitingOpen, session, ConnAction::OpenFile { offset })
            } else {
                (ConnPhase::Closed, session, ConnAction::Close)
            },
            HeaderKind::Unknown => (ConnPhase::Closed, session, ConnAction::Close),
        },
        (ConnPhase::AwaitingDecision { file_size }, ConnEvent::HostDecision { accepted }) => if
            accepted {
            (ConnPhase::AwaitingFile { file_size }, session, ConnAction::CreateFile { file_size })
        } else {
            (ConnPhase::Closed, session, ConnAction::Respond { response: Response::Reject })
        },
        (ConnPhase::AwaitingFile { file_size }, ConnEvent::FileCreated { ok }) => if ok {
            (
                ConnPhase::Closed,
                SessionModel::begun(file_size),
                ConnAction::Respond { response: Response::Accept },
            )
        } else {
            (
                ConnPhase::Closed,
                session,
                ConnAction::Respond { response: Response::RejectCreateFailed },
            )
        },
        (ConnPhase::AwaitingOpen, ConnEvent::FileOpened { ok }) => if ok {
            (
                ConnPhase::Streaming { last_notified: 0 },
                session,
                ConnAction::Receive { progress: None, completed: false },
            )
        } else {
            (ConnPhase::Closed, session, ConnAction::Close)
        },
        (ConnPhase::Streaming { last_notified }, ConnEvent::Written { count }) => {
            let report = session.write_report(count);
            let due = progress_due(report.bytes_written, report.total_bytes, last_notified);
            (
                ConnPhase::Streaming {
                    last_notified: if due {
                        report.bytes_written
                    } else {
                        last_notified
                    },
                },
                session.after_write(count),
                ConnAction::Receive {
                    progress: if due {
                        Some(
                            Progress {
                                transferred: report.bytes_written,
                                total: report.total_bytes,
                            },
                        )
                    } else {
                        None
                    },
                    completed: report.completed_now,
                },
            )
        },
        (ConnPhase::Closed, _) => (phase, session, ConnAction::Nothing),
        (_, ConnEvent::StreamEnded) => (ConnPhase::Closed, session, ConnAction::Close),
        _ => (phase, session, ConnAction::Nothing),
    }
}

/// What the state machine needs to know of a header.
pub open spec fn header_kind(header: HeaderView) -> HeaderKind {
    match header {
        HeaderView::Request { file_name, file_size } => HeaderKind::Request {
            file_size,
            name_safe: name_is_safe(file_name),
        },
        HeaderView::Data { file_name, offset } => HeaderKind::Data {
            offset,
            name_safe: name_is_safe(file_name),
        },
        HeaderView::Unknown => HeaderKind::Unknown,
    }
}

/// Sums up a header for the state machine.
pub fn classify(header: &Header) -> (kind: HeaderKind)
    ensures
        kind == header_kind(header@),
{
    match header {
        Header::Request(request) => HeaderKind::Request {
            file_size: request.file_size,
            name_safe: file_name_is_safe(request.file_name.as_str()),
        },
        Header::Data(data) => HeaderKind::Data {
            offset: data.offset,
            name_safe: file_name_is_safe(data.file_name.as_str()),
        },
        Header::Unknown => HeaderKind::Unknown,
    }
}

/// Advances a connection by one event. The session is the one that all
/// connections of the listener share.
pub fn step(phase: ConnPhase, event: ConnEvent, session: &mut TransferSession) -> (next: (
    ConnPhase,
    ConnAction,
))
    ensures
        (next.0, final(session)@, next.1) == conn_step(phase, event, old(session)@),
        final(session)@.wf(),
{
    let ghost before = session@;
    let total = session.total_bytes();
    match phase {
        ConnPhase::AwaitingHeader => match event {
            ConnEvent::Header { kind } => match kind {
                HeaderKind::Request { file_size, name_safe } => {
                    if name_safe {
                        (ConnPhase::AwaitingDecision { file_size }, ConnAction::AskHost)
                    } else {
                        (ConnPhase::Closed, ConnAction::Respond { response: Response::Reject })
                    }
                },
                HeaderKind::Data { offset, name_safe } => {
                    if name_safe {
                        (ConnPhase::AwaitingOpen, ConnAction::OpenFile { offset })
                    } else {
                        (ConnPhase::Closed, ConnAction::Close)
                    }
                },
                HeaderKind::Unknown => (ConnPhase::Closed, ConnAction::Close),
            },
            ConnEvent::StreamEnded => (ConnPhase::Closed, ConnAction::Close),
            _ => (phase, ConnAction::Nothing),
        },
        ConnPhase::AwaitingDecision { file_size } => match event {
            ConnEvent::HostDecision { accepted } => {
                if accepted {
                    (ConnPhase::AwaitingFile { file_size }, ConnAction::CreateFile { file_size })
                } else {
                    (ConnPhase::Closed, ConnAction::Respond { response: Response::Reject })
                }
            },
            ConnEvent::StreamEnded => (ConnPhase::Closed, ConnAction::Close),
            _ => (phase, ConnAction::Nothing),
        },
        ConnPhase::AwaitingFile { file_size } => match event {
            ConnEvent::FileCreated { ok } => {
                if ok {
                    session.begin(file_size);
                    (ConnPhase::Closed, ConnAction::Respond { response: Response::Accept })
                } else {
                    (
                        ConnPhase::Closed,
                        ConnAction::Respond { response: Response::RejectCreateFailed },
                    )
                }
            },
            ConnEvent::StreamEnded => (ConnPhase::Closed, ConnAction::Close),
            _ => (phase, ConnAction::Nothing),
        },
        ConnPhase::AwaitingOpen => match event {
            ConnEvent::FileOpened { ok } => {
                if ok {
                    (
                        ConnPhase::Streaming { last_notified: 0 },
                        ConnAction::Receive { progress: None, completed: false },
                    )
                } else {
                    (ConnPhase::Closed, ConnAction::Close)
                }
            },
            ConnEvent::StreamEnded => (ConnPhase::Closed, ConnAction::Close),
            _ => (phase, ConnAction::Nothing),
        },
        ConnPhase::Streaming { last_notified } => match event {
            ConnEvent::Written { count } => {
                let report = session.record(count);
                let due = (report.bytes_written >= last_notified && report.bytes_written
                    - last_notified >= PROGRESS_STEP) || report.bytes_written
                    == report.total_bytes;
                let progress = if due {
                    Some(
                        Progress { transferred: report.bytes_written, total: report.total_bytes },
                    )
                } else {
                    None
                };
                let last = if due {
                    report.bytes_written
                } else {
                    last_notified
                };
                (
                    ConnPhase::Streaming { last_notified: last },
                    ConnAction::Receive { progress, completed: report.completed_now },
                )
            },
            ConnEvent::StreamEnded => (ConnPhase::Closed, ConnAction::Close),
            _ => (phase, ConnAction::Nothing),
        },
        ConnPhase::Closed => (phase, ConnAction::Nothing),
    }
}

/// The event that the host's answer to a request is for the connection.
pub fn host_decision(accepted: bool) -> (event: ConnEvent)
    ensures
        event == (ConnEvent::HostDecision { accepted }),
{
    ConnEvent::HostDecision { accepted }
}

/// Puts a request before the host and turns the answer into the event that
/// the connection waits for. The host is handed the file name and size of the
/// request and the sender's address; what it answers is up to the host.
pub fn ask_host(
    request: &TransferRequest,
    sender_ip: &str,
    callback: &dyn TransferCallback,
) -> (event: ConnEvent)
    ensures
        event is HostDecision,
{
    let accepted = callback.on_receive_request(
        request.file_name.clone(),
        request.file_size,
        sender_ip.to_owned(),
    );
    host_decision(accepted)
}

/// How many reports to the host an action asks for.
pub open spec fn reports_due(action: ConnAction) -> nat {
    match action {
        ConnAction::Receive { progress, completed } => (if progress is Some {
            1nat
        } else {
            0nat
        }) + (if completed {
            1nat
        } else {
            0nat
        }),
        _ => 0,
    }
}

/// Delivers the reports that an action asks for: the progress, if there is
/// any, and then the completion of the file `file_name`, if it is complete.
/// Returns the number of reports delivered.
pub fn notify_host(
    action: ConnAction,
    file_name: &str,
    callback: &dyn TransferCallback,
) -> (delivered: u8)
    ensures
        delivered == reports_due(action),
{
    match action {
        ConnAction::Receive { progress, completed } => {
            let mut delivered: u8 = 0;
            match progress {
                Some(p) => {
                    callback.on_progress(p.transferred, p.total);
                    delivered = delivered + 1;
                },
                None => {},
            }
            if completed {
                callback.on_complete(true, file_name.to_owned());
                delivered = delivered + 1;
            }
            delivered
        },
        _ => 0,
    }
}

// ---------------------------------------------------------------------------
// Laws
// ---------------------------------------------------------------------------

/// The verbs and answers of the transfer protocol as bytes.
pub proof fn lemma_transfer_words()
    ensures
        verb_request() == seq![0x52u8, 0x45, 0x51],
        verb_data() == seq![0x44u8, 0x41, 0x54, 0x41],
        word_accept() == seq![0x41u8, 0x43, 0x43],
        response_bytes(Response::Accept) == seq![0x41u8, 0x43, 0x43, 0x0A],
        response_bytes(Response::Reject) == seq![0x52u8, 0x45, 0x4A, 0x0A],
        response_bytes(Response::RejectCreateFailed) == seq![
            0x52u8,
            0x45,
            0x4A,
            0x7C,
            0x43,
            0x72,
            0x65,
            0x61,
            0x74,
            0x65,
            0x46,
            0x69,
            0x6C,
            0x65,
            0x45,
            0x72,
            0x72,
            0x0A,
        ],
{
    reveal_strlit("REQ");
    reveal_strlit("DATA");
    reveal_strlit("ACC");
    reveal_strlit("ACC\n");
    reveal_strlit("REJ\n");
    reveal_strlit("REJ|CreateFileErr\n");
    is_ascii_spec_bytes("REQ");
    is_ascii_spec_bytes("DATA");
    is_ascii_spec_bytes("ACC");
    is_ascii_spec_bytes("ACC\n");
    is_ascii_spec_bytes("REJ\n");
    is_ascii_spec_bytes("REJ|CreateFileErr\n");
    assert(verb_request() =~= seq![0x52u8, 0x45, 0x51]);
    assert(verb_data() =~= seq![0x44u8, 0x41, 0x54, 0x41]);
    assert(word_accept() =~= seq![0x41u8, 0x43, 0x43]);
    assert(response_bytes(Response::Accept) =~= seq![0x41u8, 0x43, 0x43, 0x0A]);
    assert(response_bytes(Response::Reject) =~= seq![0x52u8, 0x45, 0x4A, 0x0A]);
    assert(response_bytes(Response::RejectCreateFailed) =~= seq![
        0x52u8,
        0x45,
        0x4A,
        0x7C,
        0x43,
        0x72,
        0x65,
        0x61,
        0x74,
        0x65,
        0x46,
        0x69,
        0x6C,
        0x65,
        0x45,
        0x72,
        0x72,
        0x0A,
    ]);
}

/// The sender takes an answer for an acceptance exactly if it is one.
pub proof fn lemma_only_accept_accepts(response: Response)
    ensures
        accepts(response_bytes(response)) <==> response == Response::Accept,
{
    lemma_transfer_words();
    let line = response_bytes(response);
    if response == Response::Accept {
        assert(line.subrange(0, 3) =~= word_accept());
    } else {
        assert(line.subrange(0, 3)[0] == 0x52u8);
    }
}

/// Whether a file name can go into a header line and come out again: its
/// bytes hold neither a separator nor a line end.
pub open spec fn name_fits_header(file_name: Seq<char>) -> bool {
    !file_name.contains('|') && !file_name.contains('\n')
}

/// A header line written by the sender ends at its last byte, and what lies
/// before it reads back as the header it was written for.
pub proof fn lemma_header_round_trip(file_name: Seq<char>, number: u64)
    requires
        name_fits_header(file_name),
    ensures
        line_end_at(
            request_line_of(file_name, number),
            request_line_of(file_name, number).len() - 1,
        ),
        parsed_header(request_line_of(file_name, number).drop_last()) == (HeaderView::Request {
            file_name,
            file_size: number,
        }),
        line_end_at(data_line_of(file_name, number), data_line_of(file_name, number).len() - 1),
        parsed_header(data_line_of(file_name, number).drop_last()) == (HeaderView::Data {
            file_name,
            offset: number,
        }),
{
    lemma_transfer_words();
    lemma_header_line_reads_back(verb_request(), file_name, number);
    lemma_header_line_reads_back(verb_data(), file_name, number);
    lemma_decimal_is_digits(number as nat);
    lemma_parse_decimal_round_trip(number as nat, u64::MAX as nat);
    encode_utf8_valid_utf8(file_name);
    encode_utf8_decode_utf8(file_name);
}

/// The fields of a header line are the three it was written from, and its
/// only line end is its last byte.
proof fn lemma_header_line_reads_back(verb: Seq<u8>, file_name: Seq<char>, number: u64)
    requires
        name_fits_header(file_name),
        !verb.contains(FIELD_SEPARATOR),
        !verb.contains(LINE_END),
    ensures
        split(header_line(verb, file_name, number).drop_last(), FIELD_SEPARATOR) == seq![
            verb,
            encode_utf8(file_name),
            decimal(number as nat),
        ],
        line_end_at(
            header_line(verb, file_name, number),
            header_line(verb, file_name, number).len() - 1,
        ),
{
    let fields = seq![verb, encode_utf8(file_name), decimal(number as nat)];
    let body = join(fields, FIELD_SEPARATOR);
    let line = header_line(verb, file_name, number);
    lemma_decimal_is_digits(number as nat);
    lemma_ascii_in_encoding(file_name, FIELD_SEPARATOR);
    lemma_ascii_in_encoding(file_name, LINE_END);
    assert(FIELD_SEPARATOR as char == '|');
    assert(LINE_END as char == '\n');
    assert(separator_free(fields, FIELD_SEPARATOR));
    lemma_split_join(fields, FIELD_SEPARATOR);
    assert(line.drop_last() =~= body);
    lemma_join_written_out(fields[0], fields[1], fields[2], fields[2], FIELD_SEPARATOR);
    assert forall|i: int| 0 <= i < body.len() implies body[i] != LINE_END by {
        let a = fields[0].len();
        let b = fields[1].len();
        if i < a {
            assert(body[i] == fields[0][i]);
            assert(fields[0].contains(body[i]));
        } else if i == a {
        } else if i < a + 1 + b {
            assert(body[i] == fields[1][i - a - 1]);
            assert(fields[1].contains(body[i]));
        } else if i == a + 1 + b {
        } else {
            assert(body[i] == fields[2][i - a - b - 2]);
            assert(fields[2].contains(body[i]));
        }
    }
    assert forall|i: int| 0 <= i < line.len() - 1 implies line[i] != LINE_END by {
        assert(line[i] == body[i]);
    }
}

/// A request is answered with `ACC` only when the file has just been
/// created, and that is when the session starts anew; the file is created
/// only after the host agreed; the host is asked only about requests with a
/// safe file name.
pub proof fn lemma_handshake_order(phase: ConnPhase, event: ConnEvent, session: SessionModel)
    ensures
        conn_step(phase, event, session).2 == (ConnAction::Respond { response: Response::Accept })
            ==> phase is AwaitingFile && event == (ConnEvent::FileCreated { ok: true })
            && conn_step(phase, event, session).1 == SessionModel::begun(
            phase->AwaitingFile_file_size,
        ),
        conn_step(phase, event, session).2 is CreateFile ==> phase is AwaitingDecision && event == (
        ConnEvent::HostDecision { accepted: true }),
        conn_step(phase, event, session).2 is AskHost ==> phase is AwaitingHeader && (event
            matches ConnEvent::Header { kind: HeaderKind::Request { name_safe, .. } }
            && name_safe),
        conn_step(phase, event, session).2 is OpenFile ==> phase is AwaitingHeader && (event
            matches ConnEvent::Header { kind: HeaderKind::Data { name_safe, .. } } && name_safe),
{
}

/// A header whose file name is unsafe leads to no question to the host and
/// to no file: a request is answered with `REJ`, a chunk is dropped, and the
/// connection is over with the session as it was. That holds for every name
/// with a path separator and for the names `.` and `..`.
pub proof fn lemma_unsafe_name_refused(header: HeaderView, session: SessionModel)
    requires
        match header {
            HeaderView::Request { file_name, .. } => !name_is_safe(file_name),
            HeaderView::Data { file_name, .. } => !name_is_safe(file_name),
            HeaderView::Unknown => false,
        },
    ensures
        conn_step(
            ConnPhase::AwaitingHeader,
            ConnEvent::Header { kind: header_kind(header) },
            session,
        ) == (
            ConnPhase::Closed,
            session,
            if header is Request {
                ConnAction::Respond { response: Response::Reject }
            } else {
                ConnAction::Close
            },
        ),
        !name_is_safe(seq!['.']),
        !name_is_safe(seq!['.', '.']),
        forall|name: Seq<char>| name.contains('/') || name.contains('\\') ==> !name_is_safe(name),
{
}

/// A step keeps the session well formed and never lowers its counter, unless
/// it starts the session anew.
pub proof fn lemma_step_keeps_session(phase: ConnPhase, event: ConnEvent, session: SessionModel)
    requires
        session.wf(),
    ensures
        conn_step(phase, event, session).1.wf(),
        conn_step(phase, event, session).2 != (ConnAction::Respond { response: Response::Accept })
            ==> conn_step(phase, event, session).1.total_bytes == session.total_bytes
            && conn_step(phase, event, session).1.bytes_written >= session.bytes_written,
        !(event is Written) && !(event is FileCreated) ==> conn_step(phase, event, session).1
            == session,
{
}

/// A closed connection stays closed and asks for nothing more.
pub proof fn lemma_closed_is_final(event: ConnEvent, session: SessionModel)
    ensures
        conn_step(ConnPhase::Closed, event, session) == (
            ConnPhase::Closed,
            session,
            ConnAction::Nothing,
        ),
{
}

} // verus!
