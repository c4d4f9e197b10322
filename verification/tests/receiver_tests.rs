use localsend_core::assembly::store_at;
use localsend_core::receiver::{
    ask_host, classify, file_name_is_safe, find_line_end, host_decision, notify_host,
    parse_header, read_number, response_line, step, ConnAction, ConnEvent, ConnPhase,
    DataHeader, Header, HeaderKind, Progress, Response, TransferCallback, TransferRequest,
    PROGRESS_STEP,
};
use localsend_core::sender::{
    advance, data_line, is_success, outcome_message, plan_chunks, report_outcome,
    request_line, response_accepts, SendAction, SendEvent, SendOutcome, SendPhase,
};
use localsend_core::session::{SessionState, TransferSession};
use std::sync::Mutex;

struct Host {
    accept: bool,
    requests: Mutex<Vec<(String, u64, String)>>,
    progress: Mutex<Vec<(u64, u64)>>,
    completions: Mutex<Vec<(bool, String)>>,
}

impl Host {
    fn new(accept: bool) -> Host {
        Host {
            accept,
            requests: Mutex::new(Vec::new()),
            progress: Mutex::new(Vec::new()),
            completions: Mutex::new(Vec::new()),
        }
    }
}

impl TransferCallback for Host {
    fn on_receive_request(&self, file_name: String, file_size: u64, sender_ip: String) -> bool {
        self.requests.lock().unwrap().push((file_name, file_size, sender_ip));
        self.accept
    }

    fn on_progress(&self, transferred: u64, total: u64) {
        self.progress.lock().unwrap().push((transferred, total));
    }

    fn on_complete(&self, success: bool, msg: String) {
        self.completions.lock().unwrap().push((success, msg));
    }
}

/// A receiver that keeps its one file in memory.
struct Receiver {
    host: Host,
    session: TransferSession,
    file: Option<(String, Vec<u8>)>,
    can_create: bool,
    actions: Vec<ConnAction>,
}

impl Receiver {
    fn new(accept: bool, can_create: bool) -> Receiver {
        Receiver {
            host: Host::new(accept),
            session: TransferSession::new(),
            file: None,
            can_create,
            actions: Vec::new(),
        }
    }

    /// Serves one connection that delivers `stream` in pieces of `piece`
    /// bytes and returns what was sent back.
    fn serve(&mut self, stream: &[u8], piece: usize) -> Vec<u8> {
        let mut sent_back = Vec::new();
        let mut phase = ConnPhase::AwaitingHeader;
        let end = match find_line_end(stream) {
            Some(end) => end,
            None => {
                let (_, action) = step(phase, ConnEvent::StreamEnded, &mut self.session);
                self.actions.push(action);
                return sent_back;
            }
        };
        let header = parse_header(&stream[..end]);
        let mut body = &stream[end + 1..];
        let mut position = 0u64;
        let mut event = ConnEvent::Header { kind: classify(&header) };
        loop {
            let (next, action) = step(phase, event, &mut self.session);
            phase = next;
            self.actions.push(action);
            event = match action {
                ConnAction::AskHost => match &header {
                    Header::Request(request) => ask_host(request, "10.0.0.5", &self.host),
                    _ => unreachable!(),
                },
                ConnAction::CreateFile { file_size } => {
                    if self.can_create {
                        let name = match &header {
                            Header::Request(request) => request.file_name.clone(),
                            _ => unreachable!(),
                        };
                        self.file = Some((name, vec![0u8; file_size as usize]));
                    }
                    ConnEvent::FileCreated { ok: self.can_create }
                }
                ConnAction::Respond { response } => {
                    sent_back = response_line(response);
                    break;
                }
                ConnAction::OpenFile { offset } => {
                    let name = match &header {
                        Header::Data(data) => data.file_name.clone(),
                        _ => unreachable!(),
                    };
                    position = offset;
                    let ok = matches!(&self.file, Some((existing, _)) if *existing == name);
                    ConnEvent::FileOpened { ok }
                }
                ConnAction::Receive { .. } => {
                    let name = self.file.as_ref().unwrap().0.clone();
                    notify_host(action, &name, &self.host);
                    if body.is_empty() {
                        ConnEvent::StreamEnded
                    } else {
                        let count = piece.min(body.len());
                        let file = &mut self.file.as_mut().unwrap().1;
                        if store_at(file, position, &body[..count]) {
                            position += count as u64;
                            body = &body[count..];
                            ConnEvent::Written { count: count as u64 }
                        } else {
                            ConnEvent::StreamEnded
                        }
                    }
                }
                ConnAction::Close | ConnAction::Nothing => break,
            };
        }
        assert_eq!(phase, ConnPhase::Closed);
        sent_back
    }
}

/// Sends `source` under `name` with `workers` workers, whose connections
/// arrive in the order `order`, and returns how the transfer ended.
fn send(
    receiver: &mut Receiver,
    name: &str,
    source: &[u8],
    workers: u64,
    order: &[usize],
) -> SendOutcome {
    let (phase, action) = advance(SendPhase::Start, SendEvent::FileFound, workers);
    assert_eq!(action, SendAction::Handshake);
    let answer = receiver.serve(&request_line(name, source.len() as u64), 64);
    let accepted = response_accepts(&answer);
    let (mut phase, action) = advance(phase, SendEvent::Response { accepted }, workers);
    if let SendAction::Complete { outcome } = action {
        return outcome;
    }
    assert_eq!(action, SendAction::StartWorkers);
    let plan = plan_chunks(source.len() as u64, workers);
    let mut outcome = None;
    for &worker in order {
        let chunk = plan[worker];
        let mut stream = data_line(name, chunk.offset);
        let from = chunk.offset as usize;
        stream.extend_from_slice(&source[from..from + chunk.length as usize]);
        let answer = receiver.serve(&stream, 3);
        assert!(answer.is_empty());
        let (next, action) = advance(phase, SendEvent::WorkerFinished { ok: true }, workers);
        phase = next;
        if let SendAction::Complete { outcome: o } = action {
            assert!(outcome.is_none());
            outcome = Some(o);
        }
    }
    assert_eq!(phase, SendPhase::Done);
    outcome.unwrap()
}

// ---------------------------------------------------------------------------
// Header lines
// ---------------------------------------------------------------------------

#[test]
fn parse_header_reads_requests() {
    match parse_header(b"REQ|t.bin|7") {
        Header::Request(request) => {
            assert_eq!(request.file_name, "t.bin");
            assert_eq!(request.file_size, 7);
        }
        other => panic!("unexpected header {:?}", other),
    }
}

#[test]
fn parse_header_reads_chunk_starts() {
    match parse_header(b"DATA|t.bin|6") {
        Header::Data(data) => {
            assert_eq!(data.file_name, "t.bin");
            assert_eq!(data.offset, 6);
        }
        other => panic!("unexpected header {:?}", other),
    }
}

#[test]
fn parse_header_accepts_more_than_three_fields() {
    match parse_header(b"REQ|t.bin|7|more|fields") {
        Header::Request(request) => {
            assert_eq!(request.file_name, "t.bin");
            assert_eq!(request.file_size, 7);
        }
        other => panic!("unexpected header {:?}", other),
    }
}

#[test]
fn parse_header_rejects_short_and_unknown_lines() {
    for line in [
        &b""[..],
        b"REQ",
        b"REQ|t.bin",
        b"DATA|t.bin",
        b"FOO|t.bin|7",
        b"req|t.bin|7",
        b"ACC",
        b"|t.bin|7",
        b"REQ |t.bin|7",
    ] {
        assert!(matches!(parse_header(line), Header::Unknown), "{:?}", line);
    }
}

#[test]
fn unreadable_numbers_count_as_zero() {
    for line in [
        &b"REQ|t.bin|abc"[..],
        b"REQ|t.bin|",
        b"REQ|t.bin|-5",
        b"REQ|t.bin|18446744073709551616",
    ] {
        match parse_header(line) {
            Header::Request(request) => assert_eq!(request.file_size, 0),
            other => panic!("unexpected header {:?}", other),
        }
    }
    assert_eq!(read_number(b"18446744073709551615"), u64::MAX);
    assert_eq!(read_number(b"+12"), 12);
    assert_eq!(read_number(b"1 2"), 0);
}

#[test]
fn lines_written_by_the_sender_read_back() {
    let cases = [("t.bin", 7u64), ("my file (1).tar.gz", 0), ("\u{00FC}ber.txt", u64::MAX)];
    for (name, number) in cases {
        let line = request_line(name, number);
        let end = find_line_end(&line).unwrap();
        assert_eq!(end, line.len() - 1);
        match parse_header(&line[..end]) {
            Header::Request(request) => {
                assert_eq!(request.file_name, name);
                assert_eq!(request.file_size, number);
            }
            other => panic!("unexpected header {:?}", other),
        }
        let line = data_line(name, number);
        let end = find_line_end(&line).unwrap();
        assert_eq!(end, line.len() - 1);
        match parse_header(&line[..end]) {
            Header::Data(data) => {
                assert_eq!(data.file_name, name);
                assert_eq!(data.offset, number);
            }
            other => panic!("unexpected header {:?}", other),
        }
    }
}

#[test]
fn find_line_end_finds_the_first_line_end() {
    assert_eq!(find_line_end(b"REQ|t.bin|7\n"), Some(11));
    assert_eq!(find_line_end(b"DATA|t.bin|0\nABC\nDEF"), Some(12));
    assert_eq!(find_line_end(b"\n"), Some(0));
    assert_eq!(find_line_end(b"\n\n"), Some(0));
    assert_eq!(find_line_end(b""), None);
    assert_eq!(find_line_end(b"REQ|t.bin|7"), None);
    assert_eq!(find_line_end(b"REQ|t.bin|7\r"), None);
}

#[test]
fn names_with_path_separators_are_unsafe() {
    assert!(file_name_is_safe("t.bin"));
    assert!(file_name_is_safe("my file (1).tar.gz"));
    assert!(file_name_is_safe("\u{00FC}ber.txt"));
    assert!(file_name_is_safe(""));
    assert!(!file_name_is_safe("../secret"));
    assert!(!file_name_is_safe("a/b"));
    assert!(!file_name_is_safe("/etc/passwd"));
    assert!(!file_name_is_safe("a\\b"));
    assert!(!file_name_is_safe("..\\..\\boot.ini"));
    assert!(!file_name_is_safe("dir/"));
}

#[test]
fn names_that_stand_for_a_directory_are_unsafe() {
    assert!(!file_name_is_safe("."));
    assert!(!file_name_is_safe(".."));
    assert!(file_name_is_safe("..."));
    assert!(file_name_is_safe(".hidden"));
    assert!(file_name_is_safe("a..b"));
    assert!(file_name_is_safe("..txt"));
    assert!(file_name_is_safe("a."));
    assert!(file_name_is_safe(" .."));
    assert!(file_name_is_safe("\u{2024}\u{2024}"));
}

#[test]
fn requests_for_a_directory_name_are_rejected_without_asking() {
    for line in [&b"REQ|..|4\n"[..], b"REQ|.|4\n", b"REQ|../evil|4\n", b"REQ|..\\evil|4\n"] {
        let mut receiver = Receiver::new(true, true);
        let answer = receiver.serve(line, 64);
        assert_eq!(answer, b"REJ\n".to_vec());
        assert!(receiver.host.requests.lock().unwrap().is_empty());
        assert!(receiver.file.is_none());
        assert_eq!(receiver.session.state(), SessionState::Idle);
        assert!(!receiver.actions.iter().any(|a| matches!(a, ConnAction::CreateFile { .. })));
    }
}

#[test]
fn chunks_for_a_directory_name_are_dropped() {
    for line in [&b"DATA|..|0\nXXXX"[..], b"DATA|.|0\nXXXX", b"DATA|../evil|0\nXXXX"] {
        let mut receiver = Receiver::new(true, true);
        assert!(receiver.serve(&request_line("..", 4), 64) == b"REJ\n".to_vec());
        assert!(receiver.serve(line, 64).is_empty());
        assert!(receiver.file.is_none());
        assert!(!receiver.actions.iter().any(|a| matches!(a, ConnAction::OpenFile { .. })));
    }
}

#[test]
fn classify_sums_up_a_header() {
    let request = Header::Request(TransferRequest { file_name: "t.bin".to_string(), file_size: 7 });
    assert_eq!(classify(&request), HeaderKind::Request { file_size: 7, name_safe: true });
    let evil = Header::Request(TransferRequest { file_name: "../x".to_string(), file_size: 7 });
    assert_eq!(classify(&evil), HeaderKind::Request { file_size: 7, name_safe: false });
    let data = Header::Data(DataHeader { file_name: "t.bin".to_string(), offset: 3 });
    assert_eq!(classify(&data), HeaderKind::Data { offset: 3, name_safe: true });
    let bad_data = Header::Data(DataHeader { file_name: "a\\b".to_string(), offset: 3 });
    assert_eq!(classify(&bad_data), HeaderKind::Data { offset: 3, name_safe: false });
    assert_eq!(classify(&Header::Unknown), HeaderKind::Unknown);
}

#[test]
fn responses_have_their_lines() {
    assert_eq!(response_line(Response::Accept), b"ACC\n".to_vec());
    assert_eq!(response_line(Response::Reject), b"REJ\n".to_vec());
    assert_eq!(response_line(Response::RejectCreateFailed), b"REJ|CreateFileErr\n".to_vec());
}

#[test]
fn the_sender_accepts_only_the_accepting_line() {
    assert!(response_accepts(&response_line(Response::Accept)));
    assert!(!response_accepts(&response_line(Response::Reject)));
    assert!(!response_accepts(&response_line(Response::RejectCreateFailed)));
}

#[test]
fn host_decision_carries_the_answer() {
    assert_eq!(host_decision(true), ConnEvent::HostDecision { accepted: true });
    assert_eq!(host_decision(false), ConnEvent::HostDecision { accepted: false });
}

#[test]
fn ask_host_hands_the_request_to_the_host() {
    let request = TransferRequest { file_name: "t.bin".to_string(), file_size: 7 };
    let yes = Host::new(true);
    assert_eq!(ask_host(&request, "10.0.0.5", &yes), ConnEvent::HostDecision { accepted: true });
    assert_eq!(
        *yes.requests.lock().unwrap(),
        vec![("t.bin".to_string(), 7u64, "10.0.0.5".to_string())]
    );
    let no = Host::new(false);
    assert_eq!(ask_host(&request, "10.0.0.5", &no), ConnEvent::HostDecision { accepted: false });
    assert_eq!(no.requests.lock().unwrap().len(), 1);
}

#[test]
fn notify_host_delivers_what_the_action_asks_for() {
    let host = Host::new(true);
    let quiet = ConnAction::Receive { progress: None, completed: false };
    assert_eq!(notify_host(quiet, "t.bin", &host), 0);
    let progress = ConnAction::Receive {
        progress: Some(Progress { transferred: 3, total: 7 }),
        completed: false,
    };
    assert_eq!(notify_host(progress, "t.bin", &host), 1);
    let done = ConnAction::Receive {
        progress: Some(Progress { transferred: 7, total: 7 }),
        completed: true,
    };
    assert_eq!(notify_host(done, "t.bin", &host), 2);
    for action in [
        ConnAction::AskHost,
        ConnAction::CreateFile { file_size: 7 },
        ConnAction::Respond { response: Response::Accept },
        ConnAction::OpenFile { offset: 0 },
        ConnAction::Close,
        ConnAction::Nothing,
    ] {
        assert_eq!(notify_host(action, "t.bin", &host), 0);
    }
    assert_eq!(*host.progress.lock().unwrap(), vec![(3u64, 7u64), (7, 7)]);
    assert_eq!(*host.completions.lock().unwrap(), vec![(true, "t.bin".to_string())]);
}

#[test]
fn report_outcome_tells_the_host_once() {
    let host = Host::new(true);
    assert!(report_outcome(SendOutcome::Sent, &host));
    assert!(!report_outcome(SendOutcome::Rejected, &host));
    assert!(!report_outcome(SendOutcome::TransferFailed, &host));
    assert_eq!(
        *host.completions.lock().unwrap(),
        vec![
            (true, "send completed".to_string()),
            (false, "peer rejected".to_string()),
            (false, "transfer failed".to_string()),
        ]
    );
}

// ---------------------------------------------------------------------------
// The course of a connection
// ---------------------------------------------------------------------------

#[test]
fn request_is_accepted_after_consent_and_creation() {
    let mut session = TransferSession::new();
    let header = ConnEvent::Header { kind: HeaderKind::Request { file_size: 7, name_safe: true } };
    let (phase, action) = step(ConnPhase::AwaitingHeader, header, &mut session);
    assert_eq!((phase, action), (ConnPhase::AwaitingDecision { file_size: 7 }, ConnAction::AskHost));
    let (phase, action) = step(phase, ConnEvent::HostDecision { accepted: true }, &mut session);
    assert_eq!(
        (phase, action),
        (ConnPhase::AwaitingFile { file_size: 7 }, ConnAction::CreateFile { file_size: 7 })
    );
    assert_eq!(session.state(), SessionState::Idle);
    let (phase, action) = step(phase, ConnEvent::FileCreated { ok: true }, &mut session);
    assert_eq!(
        (phase, action),
        (ConnPhase::Closed, ConnAction::Respond { response: Response::Accept })
    );
    assert_eq!(session.state(), SessionState::Receiving);
    assert_eq!(session.total_bytes(), 7);
    assert_eq!(session.bytes_written(), 0);
}

#[test]
fn unsafe_request_is_rejected_without_asking() {
    let mut session = TransferSession::new();
    let header = ConnEvent::Header { kind: HeaderKind::Request { file_size: 7, name_safe: false } };
    assert_eq!(
        step(ConnPhase::AwaitingHeader, header, &mut session),
        (ConnPhase::Closed, ConnAction::Respond { response: Response::Reject })
    );
    assert_eq!(session.state(), SessionState::Idle);

    let mut receiver = Receiver::new(true, true);
    let answer = receiver.serve(b"REQ|../evil|3\n", 64);
    assert_eq!(answer, b"REJ\n".to_vec());
    assert!(receiver.host.requests.lock().unwrap().is_empty());
    assert!(receiver.file.is_none());
}

#[test]
fn unsafe_or_unknown_chunk_is_dropped() {
    let mut session = TransferSession::new();
    let unsafe_data = ConnEvent::Header { kind: HeaderKind::Data { offset: 0, name_safe: false } };
    assert_eq!(
        step(ConnPhase::AwaitingHeader, unsafe_data, &mut session),
        (ConnPhase::Closed, ConnAction::Close)
    );
    let unknown = ConnEvent::Header { kind: HeaderKind::Unknown };
    assert_eq!(
        step(ConnPhase::AwaitingHeader, unknown, &mut session),
        (ConnPhase::Closed, ConnAction::Close)
    );
}

#[test]
fn chunk_for_a_file_that_cannot_be_opened_is_dropped() {
    let mut session = TransferSession::new();
    let data = ConnEvent::Header { kind: HeaderKind::Data { offset: 4, name_safe: true } };
    let (phase, action) = step(ConnPhase::AwaitingHeader, data, &mut session);
    assert_eq!((phase, action), (ConnPhase::AwaitingOpen, ConnAction::OpenFile { offset: 4 }));
    assert_eq!(
        step(phase, ConnEvent::FileOpened { ok: false }, &mut session),
        (ConnPhase::Closed, ConnAction::Close)
    );
    assert_eq!(
        step(phase, ConnEvent::FileOpened { ok: true }, &mut session),
        (
            ConnPhase::Streaming { last_notified: 0 },
            ConnAction::Receive { progress: None, completed: false }
        )
    );
}

#[test]
fn peer_closing_early_closes_the_connection() {
    let mut session = TransferSession::new();
    for phase in [
        ConnPhase::AwaitingHeader,
        ConnPhase::AwaitingDecision { file_size: 7 },
        ConnPhase::AwaitingFile { file_size: 7 },
        ConnPhase::AwaitingOpen,
        ConnPhase::Streaming { last_notified: 0 },
    ] {
        assert_eq!(
            step(phase, ConnEvent::StreamEnded, &mut session),
            (ConnPhase::Closed, ConnAction::Close)
        );
    }
    assert_eq!(session.state(), SessionState::Idle);
    let mut receiver = Receiver::new(true, true);
    assert!(receiver.serve(b"REQ|t.bin|7", 64).is_empty());
    assert_eq!(receiver.actions, vec![ConnAction::Close]);
}

#[test]
fn closed_connection_ignores_everything() {
    let mut session = TransferSession::new();
    session.begin(10);
    for event in [
        ConnEvent::Header { kind: HeaderKind::Unknown },
        ConnEvent::HostDecision { accepted: true },
        ConnEvent::FileCreated { ok: true },
        ConnEvent::FileOpened { ok: true },
        ConnEvent::Written { count: 5 },
        ConnEvent::StreamEnded,
    ] {
        assert_eq!(
            step(ConnPhase::Closed, event, &mut session),
            (ConnPhase::Closed, ConnAction::Nothing)
        );
    }
    assert_eq!(session.bytes_written(), 0);
    assert_eq!(session.total_bytes(), 10);
}

#[test]
fn events_out_of_turn_are_ignored() {
    let mut session = TransferSession::new();
    session.begin(10);
    let phase = ConnPhase::AwaitingDecision { file_size: 3 };
    for event in [
        ConnEvent::Header { kind: HeaderKind::Unknown },
        ConnEvent::FileCreated { ok: true },
        ConnEvent::FileOpened { ok: true },
        ConnEvent::Written { count: 5 },
    ] {
        assert_eq!(step(phase, event, &mut session), (phase, ConnAction::Nothing));
    }
    assert_eq!(
        step(ConnPhase::AwaitingHeader, ConnEvent::Written { count: 5 }, &mut session),
        (ConnPhase::AwaitingHeader, ConnAction::Nothing)
    );
    assert_eq!(session.total_bytes(), 10);
    assert_eq!(session.bytes_written(), 0);
}

#[test]
fn progress_is_reported_every_mebibyte_and_at_the_end() {
    let half = PROGRESS_STEP / 2;
    let mut session = TransferSession::new();
    session.begin(3 * PROGRESS_STEP + 10);
    let total = session.total_bytes();
    let mut phase = ConnPhase::Streaming { last_notified: 0 };
    let mut reported = Vec::new();
    for count in [half, half, half, half - 1, 1, PROGRESS_STEP - 1, 1, 5, 5] {
        let (next, action) = step(phase, ConnEvent::Written { count }, &mut session);
        phase = next;
        match action {
            ConnAction::Receive { progress, completed } => {
                if let Some(p) = progress {
                    assert_eq!(p.total, total);
                    reported.push(p.transferred);
                }
                assert_eq!(completed, session.bytes_written() == total);
            }
            other => panic!("unexpected action {:?}", other),
        }
    }
    assert_eq!(reported, vec![PROGRESS_STEP, 2 * PROGRESS_STEP, 3 * PROGRESS_STEP, total]);
    assert_eq!(phase, ConnPhase::Streaming { last_notified: total });
}

#[test]
fn progress_is_due_at_exactly_one_mebibyte() {
    let mut session = TransferSession::new();
    session.begin(10 * PROGRESS_STEP);
    let phase = ConnPhase::Streaming { last_notified: 0 };
    let (phase, action) = step(phase, ConnEvent::Written { count: PROGRESS_STEP - 1 }, &mut session);
    assert_eq!(action, ConnAction::Receive { progress: None, completed: false });
    let (phase, action) = step(phase, ConnEvent::Written { count: 1 }, &mut session);
    assert_eq!(
        action,
        ConnAction::Receive {
            progress: Some(Progress { transferred: PROGRESS_STEP, total: 10 * PROGRESS_STEP }),
            completed: false
        }
    );
    assert_eq!(phase, ConnPhase::Streaming { last_notified: PROGRESS_STEP });
}

#[test]
fn connection_behind_the_shared_counter_reports_no_progress() {
    let mut session = TransferSession::new();
    session.begin(100 * PROGRESS_STEP);
    session.record(5);
    let phase = ConnPhase::Streaming { last_notified: 50 * PROGRESS_STEP };
    let (next, action) = step(phase, ConnEvent::Written { count: 2 * PROGRESS_STEP }, &mut session);
    assert_eq!(action, ConnAction::Receive { progress: None, completed: false });
    assert_eq!(next, phase);
}

#[test]
fn parallel_connections_share_one_counter() {
    let mut session = TransferSession::new();
    session.begin(10);
    let mut a = ConnPhase::Streaming { last_notified: 0 };
    let mut b = ConnPhase::Streaming { last_notified: 0 };
    let mut completions = 0;
    let mut last = 0;
    for (which, count) in [(0, 2u64), (1, 3), (0, 1), (1, 1), (0, 3)] {
        let phase = if which == 0 { &mut a } else { &mut b };
        let (next, action) = step(*phase, ConnEvent::Written { count }, &mut session);
        *phase = next;
        assert!(session.bytes_written() >= last);
        last = session.bytes_written();
        if let ConnAction::Receive { completed: true, progress } = action {
            completions += 1;
            assert_eq!(progress, Some(Progress { transferred: 10, total: 10 }));
        }
    }
    assert_eq!(completions, 1);
    assert_eq!(session.state(), SessionState::Completed);
}

// ---------------------------------------------------------------------------
// Transfers from end to end
// ---------------------------------------------------------------------------

#[test]
fn small_file_single_stream_transfer() {
    assert_eq!(request_line("t.bin", 7), b"REQ|t.bin|7\n".to_vec());
    let mut stream = data_line("t.bin", 0);
    stream.extend_from_slice(b"ABCDEFG");
    assert_eq!(stream, b"DATA|t.bin|0\nABCDEFG".to_vec());

    let mut receiver = Receiver::new(true, true);
    let outcome = send(&mut receiver, "t.bin", b"ABCDEFG", 1, &[0]);
    assert_eq!(outcome, SendOutcome::Sent);
    assert!(is_success(outcome));
    assert_eq!(outcome_message(outcome), "send completed");
    let (name, content) = receiver.file.as_ref().unwrap();
    assert_eq!(name, "t.bin");
    assert_eq!(content, &b"ABCDEFG".to_vec());
    assert_eq!(
        *receiver.host.requests.lock().unwrap(),
        vec![("t.bin".to_string(), 7u64, "10.0.0.5".to_string())]
    );
    assert_eq!(*receiver.host.completions.lock().unwrap(), vec![(true, "t.bin".to_string())]);
    assert_eq!(receiver.host.progress.lock().unwrap().last(), Some(&(7u64, 7u64)));
    assert_eq!(receiver.session.state(), SessionState::Completed);
}

#[test]
fn parallel_non_aligned_transfer() {
    let source = b"0123456789";
    for order in [[0usize, 1, 2, 3], [3, 2, 1, 0], [1, 3, 0, 2]] {
        let mut receiver = Receiver::new(true, true);
        let outcome = send(&mut receiver, "ten.bin", source, 4, &order);
        assert_eq!(outcome, SendOutcome::Sent);
        assert_eq!(receiver.file.as_ref().unwrap().1, source.to_vec());
        assert_eq!(receiver.host.completions.lock().unwrap().len(), 1);
        let progress = receiver.host.progress.lock().unwrap();
        for pair in progress.windows(2) {
            assert!(pair[0].0 <= pair[1].0);
        }
    }
}

#[test]
fn larger_transfer_with_many_workers() {
    let source: Vec<u8> = (0..5000u32).map(|i| (i % 253) as u8).collect();
    let mut receiver = Receiver::new(true, true);
    let order: Vec<usize> = (0..8).rev().collect();
    assert_eq!(send(&mut receiver, "big.bin", &source, 8, &order), SendOutcome::Sent);
    assert_eq!(receiver.file.as_ref().unwrap().1, source);
    assert_eq!(receiver.host.completions.lock().unwrap().len(), 1);
}

#[test]
fn rejection_by_the_host() {
    let mut receiver = Receiver::new(false, true);
    let answer = receiver.serve(&request_line("t.bin", 7), 64);
    assert_eq!(answer, b"REJ\n".to_vec());
    assert!(receiver.file.is_none());
    assert_eq!(receiver.session.state(), SessionState::Idle);
    assert!(!receiver.actions.iter().any(|a| matches!(a, ConnAction::CreateFile { .. })));

    let mut receiver = Receiver::new(false, true);
    let outcome = send(&mut receiver, "t.bin", b"ABCDEFG", 4, &[0, 1, 2, 3]);
    assert_eq!(outcome, SendOutcome::Rejected);
    assert!(!is_success(outcome));
    assert_eq!(outcome_message(outcome), "peer rejected");
    assert!(receiver.file.is_none());
    assert!(receiver.host.completions.lock().unwrap().is_empty());
}

#[test]
fn file_create_failure() {
    let mut receiver = Receiver::new(true, false);
    let answer = receiver.serve(&request_line("t.bin", 7), 64);
    assert_eq!(answer, b"REJ|CreateFileErr\n".to_vec());
    assert_eq!(receiver.session.state(), SessionState::Idle);
    assert_eq!(receiver.host.requests.lock().unwrap().len(), 1);

    let mut receiver = Receiver::new(true, false);
    let outcome = send(&mut receiver, "t.bin", b"ABCDEFG", 2, &[0, 1]);
    assert!(!is_success(outcome));
    assert_eq!(outcome, SendOutcome::Rejected);
}

#[test]
fn empty_file_is_accepted_and_complete_at_once() {
    let mut receiver = Receiver::new(true, true);
    let answer = receiver.serve(&request_line("empty.bin", 0), 64);
    assert_eq!(answer, b"ACC\n".to_vec());
    assert_eq!(receiver.file.as_ref().unwrap().1, Vec::<u8>::new());
    assert_eq!(receiver.session.state(), SessionState::Completed);
    assert_eq!(receiver.session.remaining(), 0);

    let mut receiver = Receiver::new(true, true);
    let outcome = send(&mut receiver, "empty.bin", b"", 4, &[0, 1, 2, 3]);
    assert_eq!(outcome, SendOutcome::Sent);
    assert_eq!(receiver.file.as_ref().unwrap().1, Vec::<u8>::new());
}

#[test]
fn resending_a_file_ends_with_the_source_again() {
    let source = b"The same file, sent twice over separate sessions.";
    let mut receiver = Receiver::new(true, true);
    assert_eq!(send(&mut receiver, "twice.txt", source, 4, &[0, 1, 2, 3]), SendOutcome::Sent);
    assert_eq!(receiver.file.as_ref().unwrap().1, source.to_vec());
    assert_eq!(send(&mut receiver, "twice.txt", source, 3, &[2, 0, 1]), SendOutcome::Sent);
    assert_eq!(receiver.file.as_ref().unwrap().1, source.to_vec());
    assert_eq!(receiver.host.completions.lock().unwrap().len(), 2);
}

#[test]
fn chunk_without_a_request_is_not_written() {
    let mut receiver = Receiver::new(true, true);
    let mut stream = data_line("t.bin", 0);
    stream.extend_from_slice(b"ABCDEFG");
    assert!(receiver.serve(&stream, 3).is_empty());
    assert!(receiver.file.is_none());
    assert_eq!(receiver.session.state(), SessionState::Idle);
    assert!(receiver.host.progress.lock().unwrap().is_empty());
}
