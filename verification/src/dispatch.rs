//! What the server does with a datagram.
//!
//! A datagram is handled in two steps, because the file it names has to be
//! looked up in between and this crate touches no file.
//!
//! 1. [`RequestDispatcher::process_request`] reads the datagram. A handshake,
//!    a disconnect, a datagram that cannot be read and a request that was
//!    answered before are answered at once. Any other request is handed back
//!    for its file to be looked up.
//! 2. [`RequestDispatcher::finish_request`] takes what was found at the path,
//!    carries the request out on it and says what is to be sent to the client,
//!    what the file is to hold from now on, and who is to be told of the change.
//!
//! A client need not shake hands before it asks for a file.

use crate::address::ClientAddress;
use crate::cache::{responses_after_handshake, without_client, ResponseManager};
use crate::file_ops::{
    delete, insert, offset_error, overwrite_error, range_error, read, read_range, update,
    with_deletion, with_insertion, with_overwrite,
};
use crate::monitor::{still_watching, to_be_told, MonitorInterval, MonitorManager};
use crate::request::{
    decode_file_request, FileAction, FileActionView, FileRequest, FileRequestView, RequestHandler,
};
use crate::wire::{
    int_at, is_file_operation, text, RequestOperation, ResponseMarshal, ResponseView, StatusCode,
};
use vstd::prelude::*;

verus! {

// ---------------------------------------------------------------------------
// What is found at a path
// ---------------------------------------------------------------------------

/// What the caller found at the path of a request.
#[derive(Debug, PartialEq, Eq)]
pub enum FileLookup {
    /// Nothing that is a regular file.
    Missing,
    /// A regular file that could not be opened.
    Unopenable,
    /// A regular file and what it holds.
    Contents(Vec<u8>),
}

/// What was found at a path, as a mathematical value.
pub enum FileLookupView {
    Missing,
    Unopenable,
    Contents(Seq<u8>),
}

impl View for FileLookup {
    type V = FileLookupView;

    open spec fn view(&self) -> FileLookupView {
        match *self {
            FileLookup::Missing => FileLookupView::Missing,
            FileLookup::Unopenable => FileLookupView::Unopenable,
            FileLookup::Contents(bytes) => FileLookupView::Contents(bytes@),
        }
    }
}

// ---------------------------------------------------------------------------
// Carrying out a request on what was found
// ---------------------------------------------------------------------------

/// What carrying out a request yields: the response, and what the file holds
/// afterwards if the request changed it.
pub struct ExecutionView {
    pub response: ResponseView,
    pub snapshot: Option<Seq<u8>>,
}

/// What carrying out a request yields.
#[derive(Debug, PartialEq, Eq)]
pub struct Execution {
    /// What the client is told.
    pub response: ResponseMarshal,
    /// What the file holds from now on, if the request changed it.
    pub snapshot: Option<Vec<u8>>,
}

/// The bytes of an optional byte vector.
pub open spec fn optional_bytes(bytes: Option<Vec<u8>>) -> Option<Seq<u8>> {
    match bytes {
        Some(v) => Some(v@),
        None => None,
    }
}

impl View for Execution {
    type V = ExecutionView;

    open spec fn view(&self) -> ExecutionView {
        ExecutionView { response: self.response@, snapshot: optional_bytes(self.snapshot) }
    }
}

/// A refusal with its reason.
pub open spec fn refused(reason: &str) -> ExecutionView {
    ExecutionView {
        response: ResponseView { status: StatusCode::Bad, data: text(reason) },
        snapshot: None,
    }
}

/// The response to a request that was carried out and has nothing to report.
pub open spec fn completed() -> ResponseView {
    ResponseView { status: StatusCode::Good, data: text("Operation Completed") }
}

/// A change that was carried out: the file holds `after` from now on.
pub open spec fn changed(after: Seq<u8>) -> ExecutionView {
    ExecutionView { response: completed(), snapshot: Some(after) }
}

/// What carrying out `action` on what was found at its path yields.
pub open spec fn executed(action: FileActionView, file: FileLookupView) -> ExecutionView {
    match file {
        FileLookupView::Missing => refused("Invalid File Path"),
        FileLookupView::Unopenable => refused("Could not open file"),
        FileLookupView::Contents(contents) => match action {
            FileActionView::Read { offset, amount } => match range_error(
                contents.len(),
                offset,
                amount,
            ) {
                Some(e) => refused(e.reason()),
                None => ExecutionView {
                    response: ResponseView {
                        status: StatusCode::Good,
                        data: read_range(contents, offset as int, amount as int),
                    },
                    snapshot: None,
                },
            },
            FileActionView::Insert { offset, data } => match offset_error(contents.len(), offset) {
                Some(e) => refused(e.reason()),
                None => changed(with_insertion(contents, offset as int, data)),
            },
            FileActionView::Update { offset, data } => match overwrite_error(
                contents.len(),
                offset,
                data.len(),
            ) {
                Some(e) => refused(e.reason()),
                None => changed(with_overwrite(contents, offset as int, data)),
            },
            FileActionView::Delete { offset, amount } => match range_error(
                contents.len(),
                offset,
                amount,
            ) {
                Some(e) => refused(e.reason()),
                None => changed(with_deletion(contents, offset as int, amount as int)),
            },
            FileActionView::Monitor { .. } => ExecutionView {
                response: completed(),
                snapshot: None,
            },
        },
    }
}

/// Carries out `action` on what was found at its path.
pub fn execute(action: &FileAction, file: &FileLookup) -> (done: Execution)
    ensures
        done@ == executed(action@, file@),
{
    let contents = match file {
        FileLookup::Missing => {
            return Execution { response: ResponseMarshal::bad("Invalid File Path"), snapshot: None };
        },
        FileLookup::Unopenable => {
            return Execution {
                response: ResponseMarshal::bad("Could not open file"),
                snapshot: None,
            };
        },
        FileLookup::Contents(contents) => contents,
    };
    match action {
        FileAction::Read { offset, amount } => match read(contents.as_slice(), *offset, *amount) {
            Ok(bytes) => Execution { response: ResponseMarshal::good(bytes), snapshot: None },
            Err(e) => Execution { response: ResponseMarshal::bad(e.message()), snapshot: None },
        },
        FileAction::Insert { offset, data } => match insert(
            contents.as_slice(),
            *offset,
            data.as_slice(),
        ) {
            Ok(after) => Execution {
                response: ResponseMarshal::good_text("Operation Completed"),
                snapshot: Some(after),
            },
            Err(e) => Execution { response: ResponseMarshal::bad(e.message()), snapshot: None },
        },
        FileAction::Update { offset, data } => match update(
            contents.as_slice(),
            *offset,
            data.as_slice(),
        ) {
            Ok(after) => Execution {
                response: ResponseMarshal::good_text("Operation Completed"),
                snapshot: Some(after),
            },
            Err(e) => Execution { response: ResponseMarshal::bad(e.message()), snapshot: None },
        },
        FileAction::Delete { offset, amount } => match delete(
            contents.as_slice(),
            *offset,
            *amount,
        ) {
            Ok(after) => Execution {
                response: ResponseMarshal::good_text("Operation Completed"),
                snapshot: Some(after),
            },
            Err(e) => Execution { response: ResponseMarshal::bad(e.message()), snapshot: None },
        },
        FileAction::Monitor { .. } => Execution {
            response: ResponseMarshal::good_text("Operation Completed"),
            snapshot: None,
        },
    }
}

// ---------------------------------------------------------------------------
// The first step: reading the datagram
// ---------------------------------------------------------------------------

/// What the caller is to do after the first step.
#[derive(Debug, PartialEq, Eq)]
pub enum Step {
    /// Send this response; the datagram is dealt with.
    Reply(ResponseMarshal),
    /// Look up the file of this request and go on with the second step.
    Lookup { req_no: u32, request: FileRequest },
}

/// What the caller is to do after the first step, as a mathematical value.
pub enum StepView {
    Reply(ResponseView),
    Lookup { req_no: u32, request: FileRequestView },
}

impl View for Step {
    type V = StepView;

    open spec fn view(&self) -> StepView {
        match *self {
            Step::Reply(response) => StepView::Reply(response@),
            Step::Lookup { req_no, request } => StepView::Lookup { req_no, request: request@ },
        }
    }
}

/// The request number and the operation byte of a datagram, if it is long enough for both.
pub open spec fn header(datagram: Seq<u8>) -> Option<(u32, u8)> {
    match int_at(datagram, 0) {
        Some(req_no) => if datagram.len() >= 5 {
            Some((req_no, datagram[4]))
        } else {
            None
        },
        None => None,
    }
}

/// The session that a datagram begins, if it is a complete handshake.
pub open spec fn handshake_of(datagram: Seq<u8>) -> Option<u32> {
    match header(datagram) {
        Some((_, op)) => if op == RequestOperation::HANDSHAKE {
            int_at(datagram, 5)
        } else {
            None
        },
        None => None,
    }
}

/// Whether a datagram is a disconnect.
pub open spec fn is_disconnect(datagram: Seq<u8>) -> bool {
    match header(datagram) {
        Some((_, op)) => op == RequestOperation::DISCONNECT,
        None => false,
    }
}

/// The request number of a datagram that asks for a file, if it does.
pub open spec fn file_request_number(datagram: Seq<u8>) -> Option<u32> {
    match header(datagram) {
        Some((req_no, op)) => if is_file_operation(op) {
            Some(req_no)
        } else {
            None
        },
        None => None,
    }
}

/// A response with a text.
pub open spec fn reply(status: StatusCode, message: &str) -> StepView {
    StepView::Reply(ResponseView { status, data: text(message) })
}

/// What the first step says of a datagram from `addr`, given whether
/// responses are kept and which are.
pub open spec fn step_for(
    at_most_once: bool,
    responses: Map<(ClientAddress, u32), ResponseView>,
    datagram: Seq<u8>,
    addr: ClientAddress,
) -> StepView {
    match header(datagram) {
        None => reply(StatusCode::Bad, "decode error"),
        Some((req_no, op)) => if op == RequestOperation::HANDSHAKE {
            if int_at(datagram, 5) is Some {
                reply(StatusCode::Good, "Handshake Completed. Welcome!")
            } else {
                reply(StatusCode::Bad, "decode error")
            }
        } else if op == RequestOperation::DISCONNECT {
            reply(StatusCode::Good, "Bye!")
        } else if !is_file_operation(op) {
            reply(StatusCode::Bad, "Invalid Operation")
        } else if at_most_once && responses.contains_key((addr, req_no)) {
            StepView::Reply(responses[(addr, req_no)])
        } else {
            match decode_file_request(datagram, 5, op) {
                Ok(request) => StepView::Lookup { req_no, request },
                Err(_) => reply(StatusCode::Bad, "decode error"),
            }
        },
    }
}

/// The sessions after the first step on a datagram from `addr`.
pub open spec fn sessions_after(
    sessions: Map<ClientAddress, u32>,
    datagram: Seq<u8>,
    addr: ClientAddress,
) -> Map<ClientAddress, u32> {
    if handshake_of(datagram) is Some {
        sessions.insert(addr, handshake_of(datagram)->0)
    } else if is_disconnect(datagram) {
        sessions.remove(addr)
    } else {
        sessions
    }
}

/// The responses that are kept after the first step on a datagram from
/// `addr`. The response to a handshake or to a disconnect is never kept, nor
/// that to a datagram whose operation is unknown. A request for a file that
/// cannot be read to its end is answered in this step, and that answer is kept
/// like any other answer to a request for a file.
pub open spec fn responses_after(
    at_most_once: bool,
    sessions: Map<ClientAddress, u32>,
    responses: Map<(ClientAddress, u32), ResponseView>,
    datagram: Seq<u8>,
    addr: ClientAddress,
) -> Map<(ClientAddress, u32), ResponseView> {
    if handshake_of(datagram) is Some {
        responses_after_handshake(sessions, responses, addr, handshake_of(datagram)->0)
    } else if is_disconnect(datagram) {
        without_client(responses, addr)
    } else {
        match file_request_number(datagram) {
            Some(req_no) => if at_most_once && !responses.contains_key((addr, req_no))
                && decode_file_request(datagram, 5, datagram[4]) is Err {
                responses.insert(
                    (addr, req_no),
                    ResponseView { status: StatusCode::Bad, data: text("decode error") },
                )
            } else {
                responses
            },
            None => responses,
        }
    }
}

// ---------------------------------------------------------------------------
// The second step: carrying the request out
// ---------------------------------------------------------------------------

/// What the caller is to do after the second step.
#[derive(Debug, PartialEq, Eq)]
pub struct Completion {
    /// What is sent to the client that asked.
    pub response: ResponseMarshal,
    /// What the file is to hold from now on, if the request changed it. The
    /// same bytes, as a successful response, go to each of `told`.
    pub snapshot: Option<Vec<u8>>,
    /// The clients that are told of the change, each once for each of its
    /// interests in the file.
    pub told: Vec<MonitorInterval>,
}

/// Whether carrying out `request` records an interest: it asks for one, and
/// its file was found.
pub open spec fn subscribes(request: FileRequestView, file: FileLookupView) -> bool {
    request.action is Monitor && file is Contents
}

/// The interests on record after `request` of the client at `addr` was carried out at `now_ms`.
pub open spec fn monitors_after(
    watch: Set<(Seq<char>, MonitorInterval)>,
    addr: ClientAddress,
    request: FileRequestView,
    file: FileLookupView,
    now_ms: u128,
) -> Set<(Seq<char>, MonitorInterval)> {
    if subscribes(request, file) {
        watch.insert(
            (
                request.path,
                MonitorInterval {
                    addr,
                    end_time: (now_ms + request.action->interval_ms) as u128,
                },
            ),
        )
    } else if executed(request.action, file).snapshot is Some {
        still_watching(watch, request.path, now_ms)
    } else {
        watch
    }
}

/// The interests whose clients are told that `request` was carried out at `now_ms`.
pub open spec fn told_after(
    watch: Set<(Seq<char>, MonitorInterval)>,
    request: FileRequestView,
    file: FileLookupView,
    now_ms: u128,
) -> Set<MonitorInterval> {
    if executed(request.action, file).snapshot is Some {
        to_be_told(watch, request.path, now_ms)
    } else {
        Set::empty()
    }
}

/// The notification that goes to each client that is told of a change.
pub open spec fn notification(snapshot: Seq<u8>) -> ResponseView {
    ResponseView { status: StatusCode::Good, data: snapshot }
}

impl Completion {
    /// The notification that goes to each of `told`, if anyone is to be told.
    pub fn notification(&self) -> (r: Option<ResponseMarshal>)
        ensures
            match r {
                Some(response) => self.snapshot is Some && response@ == notification(
                    self.snapshot->0@,
                ),
                None => self.snapshot is None,
            },
    {
        match &self.snapshot {
            Some(bytes) => Some(ResponseMarshal::good(bytes.clone())),
            None => None,
        }
    }
}

// ---------------------------------------------------------------------------
// The dispatcher
// ---------------------------------------------------------------------------

/// The state of the server: what it remembers of its clients, and who is to
/// be told of changes.
pub struct RequestDispatcher {
    pub responses: ResponseManager,
    pub monitors: MonitorManager,
}

impl RequestDispatcher {
    /// The invariant of the state.
    pub open spec fn wf(&self) -> bool {
        self.responses.wf() && self.monitors.wf()
    }

    /// A server that remembers nothing yet. With `at_most_once` it will keep
    /// its responses and carry out no request twice.
    pub fn new(at_most_once: bool) -> (dispatcher: Self)
        ensures
            dispatcher.wf(),
            dispatcher.responses.at_most_once() == at_most_once,
            dispatcher.responses.sessions() == Map::<ClientAddress, u32>::empty(),
            dispatcher.responses.responses() == Map::<(ClientAddress, u32), ResponseView>::empty(),
            dispatcher.monitors@ == Set::<(Seq<char>, MonitorInterval)>::empty(),
    {
        RequestDispatcher {
            responses: ResponseManager::new(at_most_once),
            monitors: MonitorManager::new(),
        }
    }

    /// The first step: reads a datagram from `addr` and says what to do with it.
    pub fn process_request(&mut self, datagram: &[u8], addr: ClientAddress) -> (step: Step)
        requires
            old(self).wf(),
        ensures
            final(self).wf(),
            step@ == step_for(
                old(self).responses.at_most_once(),
                old(self).responses.responses(),
                datagram@,
                addr,
            ),
            final(self).responses.at_most_once() == old(self).responses.at_most_once(),
            final(self).responses.sessions() == sessions_after(
                old(self).responses.sessions(),
                datagram@,
                addr,
            ),
            final(self).responses.responses() == responses_after(
                old(self).responses.at_most_once(),
                old(self).responses.sessions(),
                old(self).responses.responses(),
                datagram@,
                addr,
            ),
            final(self).monitors@ == old(self).monitors@,
    {
        let mut handler = RequestHandler::new(datagram);
        let req_no = match handler.read_int() {
            None => { return Step::Reply(ResponseMarshal::bad("decode error")); },
            Some(v) => v,
        };
        let op = match handler.read_byte() {
            None => { return Step::Reply(ResponseMarshal::bad("decode error")); },
            Some(v) => v,
        };
        if op == RequestOperation::HANDSHAKE {
            return match handler.read_int() {
                None => Step::Reply(ResponseMarshal::bad("decode error")),
                Some(session_id) => {
                    self.responses.begin_session(addr, session_id);
                    Step::Reply(ResponseMarshal::good_text("Handshake Completed. Welcome!"))
                },
            };
        }
        if op == RequestOperation::DISCONNECT {
            self.responses.flush_client(addr);
            return Step::Reply(ResponseMarshal::good_text("Bye!"));
        }
        if op < RequestOperation::READ || op > RequestOperation::MONITOR {
            return Step::Reply(ResponseMarshal::bad("Invalid Operation"));
        }
        if self.responses.has_entry(addr, req_no) {
            return Step::Reply(self.responses.get_entry(addr, req_no).clone());
        }
        match handler.parse_request(op) {
            Ok(request) => Step::Lookup { req_no, request },
            Err(_) => {
                let response = ResponseMarshal::bad("decode error");
                self.responses.add_entry(addr, req_no, response.clone());
                Step::Reply(response)
            },
        }
    }

    /// The second step: carries out `request`, number `req_no` of the client
    /// at `addr`, on what was found at its path, at `now_ms`.
    ///
    /// The response is kept if responses are kept. A request that changed the
    /// file hands back what the file holds from now on, with the clients that
    /// are told; the interests in the file that are over are forgotten. A
    /// request to be told of changes is recorded if the file was found.
    pub fn finish_request(
        &mut self,
        addr: ClientAddress,
        req_no: u32,
        request: &FileRequest,
        file: &FileLookup,
        now_ms: u128,
    ) -> (done: Completion)
        requires
            old(self).wf(),
            request@.action is Monitor ==> now_ms + request@.action->interval_ms <= u128::MAX,
        ensures
            final(self).wf(),
            done.response@ == executed(request@.action, file@).response,
            optional_bytes(done.snapshot) == executed(request@.action, file@).snapshot,
            done.told@.no_duplicates(),
            done.told@.to_set() == told_after(old(self).monitors@, request@, file@, now_ms),
            final(self).monitors@ == monitors_after(
                old(self).monitors@,
                addr,
                request@,
                file@,
                now_ms,
            ),
            final(self).responses.at_most_once() == old(self).responses.at_most_once(),
            final(self).responses.sessions() == old(self).responses.sessions(),
            final(self).responses.responses() == if old(self).responses.at_most_once() {
                old(self).responses.responses().insert((addr, req_no), done.response@)
            } else {
                old(self).responses.responses()
            },
    {
        let Execution { response, snapshot } = execute(&request.action, file);
        let mut told: Vec<MonitorInterval> = Vec::new();
        match &request.action {
            FileAction::Monitor { interval_ms } => {
                match file {
                    FileLookup::Contents(_) => {
                        self.monitors.add_interval(&request.path, addr, now_ms, *interval_ms);
                    },
                    _ => {},
                }
            },
            _ => {
                if snapshot.is_some() {
                    told = self.monitors.inform_monitors(&request.path, now_ms);
                }
            },
        }
        assert(told@.to_set() =~= told_after(old(self).monitors@, request@, file@, now_ms));
        self.responses.add_entry(addr, req_no, response.clone());
        Completion { response, snapshot, told }
    }
}

// ---------------------------------------------------------------------------
// Laws
// ---------------------------------------------------------------------------

/// Whether the range that `action` names does not fit a file of `len` bytes.
/// For an insertion the offset alone counts: the payload may be of any length.
pub open spec fn out_of_bounds(action: FileActionView, len: nat) -> bool {
    match action {
        FileActionView::Read { offset, amount } => offset >= len || offset + amount > len,
        FileActionView::Delete { offset, amount } => offset >= len || offset + amount > len,
        FileActionView::Update { offset, data } => offset >= len || offset + data.len() > len,
        FileActionView::Insert { offset, .. } => offset >= len,
        FileActionView::Monitor { .. } => false,
    }
}

/// A request whose range does not fit its file is refused and changes
/// nothing: the file keeps its contents, nobody is told, and the interests on
/// record stay as they are.
pub proof fn lemma_out_of_bounds_is_refused_and_changes_nothing(
    watch: Set<(Seq<char>, MonitorInterval)>,
    addr: ClientAddress,
    request: FileRequestView,
    contents: Seq<u8>,
    now_ms: u128,
)
    requires
        out_of_bounds(request.action, contents.len()),
    ensures
        executed(request.action, FileLookupView::Contents(contents)).response.status
            == StatusCode::Bad,
        executed(request.action, FileLookupView::Contents(contents)).snapshot is None,
        told_after(watch, request, FileLookupView::Contents(contents), now_ms) == Set::<
            MonitorInterval,
        >::empty(),
        monitors_after(watch, addr, request, FileLookupView::Contents(contents), now_ms) == watch,
{
}

/// A request whose range fits its file is carried out.
pub proof fn lemma_in_bounds_is_carried_out(action: FileActionView, contents: Seq<u8>)
    requires
        !out_of_bounds(action, contents.len()),
    ensures
        executed(action, FileLookupView::Contents(contents)).response.status == StatusCode::Good,
        executed(action, FileLookupView::Contents(contents)).snapshot is Some <==> !(action is Read
            || action is Monitor),
{
}

/// A request that is refused, whatever the reason, changes nothing.
pub proof fn lemma_refusal_changes_nothing(
    watch: Set<(Seq<char>, MonitorInterval)>,
    addr: ClientAddress,
    request: FileRequestView,
    file: FileLookupView,
    now_ms: u128,
)
    requires
        executed(request.action, file).response.status == StatusCode::Bad,
    ensures
        executed(request.action, file).snapshot is None,
        told_after(watch, request, file, now_ms) == Set::<MonitorInterval>::empty(),
        monitors_after(watch, addr, request, file, now_ms) == watch,
{
}

/// Reading changes no file, tells nobody and leaves the interests on record
/// as they are; where it succeeds it returns exactly the bytes of the range.
pub proof fn lemma_read_changes_nothing(
    watch: Set<(Seq<char>, MonitorInterval)>,
    addr: ClientAddress,
    path: Seq<char>,
    offset: u32,
    amount: u32,
    file: FileLookupView,
    now_ms: u128,
)
    ensures
        ({
            let request = FileRequestView { path, action: FileActionView::Read { offset, amount } };
            &&& executed(request.action, file).snapshot is None
            &&& told_after(watch, request, file, now_ms) == Set::<MonitorInterval>::empty()
            &&& monitors_after(watch, addr, request, file, now_ms) == watch
            &&& (file is Contents && !out_of_bounds(request.action, file->Contents_0.len()))
                ==> executed(request.action, file).response == (ResponseView {
                status: StatusCode::Good,
                data: file->Contents_0.subrange(offset as int, offset + amount),
            })
        }),
{
}

/// Where responses are kept, a request for a file that comes again under the
/// same number from the same client is answered with the response that was
/// kept, byte for byte, and is not carried out again: the first step hands
/// back no request, and it changes neither the sessions nor what is kept.
pub proof fn lemma_repetition_is_answered_from_memory(
    sessions: Map<ClientAddress, u32>,
    responses: Map<(ClientAddress, u32), ResponseView>,
    datagram: Seq<u8>,
    addr: ClientAddress,
    response: ResponseView,
)
    requires
        file_request_number(datagram) is Some,
    ensures
        ({
            let req_no = file_request_number(datagram)->0;
            let kept = responses.insert((addr, req_no), response);
            &&& step_for(true, kept, datagram, addr) == StepView::Reply(response)
            &&& responses_after(true, sessions, kept, datagram, addr) == kept
            &&& sessions_after(sessions, datagram, addr) == sessions
        }),
{
}

/// Where responses are not kept, a well-formed request for a file is handed
/// back to be carried out every time it comes, whatever was answered before.
pub proof fn lemma_without_memory_every_request_is_carried_out(
    sessions: Map<ClientAddress, u32>,
    responses: Map<(ClientAddress, u32), ResponseView>,
    datagram: Seq<u8>,
    addr: ClientAddress,
)
    requires
        file_request_number(datagram) is Some,
        decode_file_request(datagram, 5, datagram[4]) is Ok,
    ensures
        step_for(false, responses, datagram, addr) == (StepView::Lookup {
            req_no: file_request_number(datagram)->0,
            request: decode_file_request(datagram, 5, datagram[4])->Ok_0,
        }),
        responses_after(false, sessions, responses, datagram, addr) == responses,
        sessions_after(sessions, datagram, addr) == sessions,
{
}

/// The response to a handshake, to a disconnect, to a datagram whose operation
/// is unknown and to one too short to have an operation is never kept: after
/// such a datagram nothing is kept that was not kept before.
pub proof fn lemma_control_responses_are_not_kept(
    at_most_once: bool,
    sessions: Map<ClientAddress, u32>,
    responses: Map<(ClientAddress, u32), ResponseView>,
    datagram: Seq<u8>,
    addr: ClientAddress,
    k: (ClientAddress, u32),
)
    requires
        file_request_number(datagram) is None,
        responses_after(at_most_once, sessions, responses, datagram, addr).contains_key(k),
    ensures
        responses.contains_key(k),
        responses_after(at_most_once, sessions, responses, datagram, addr)[k] == responses[k],
{
}

/// A datagram that cannot be read as a handshake or a disconnect leaves the
/// sessions alone, and one whose header cannot be read leaves everything alone.
pub proof fn lemma_unreadable_datagram_touches_nothing(
    at_most_once: bool,
    sessions: Map<ClientAddress, u32>,
    responses: Map<(ClientAddress, u32), ResponseView>,
    datagram: Seq<u8>,
    addr: ClientAddress,
)
    requires
        header(datagram) is None,
    ensures
        step_for(at_most_once, responses, datagram, addr) == reply(StatusCode::Bad, "decode error"),
        sessions_after(sessions, datagram, addr) == sessions,
        responses_after(at_most_once, sessions, responses, datagram, addr) == responses,
{
}

/// After a disconnect the client has no session and nothing is kept for it.
pub proof fn lemma_disconnect_forgets(
    at_most_once: bool,
    sessions: Map<ClientAddress, u32>,
    responses: Map<(ClientAddress, u32), ResponseView>,
    datagram: Seq<u8>,
    addr: ClientAddress,
    req_no: u32,
)
    requires
        is_disconnect(datagram),
    ensures
        step_for(at_most_once, responses, datagram, addr) == reply(StatusCode::Good, "Bye!"),
        !sessions_after(sessions, datagram, addr).contains_key(addr),
        !responses_after(at_most_once, sessions, responses, datagram, addr).contains_key(
            (addr, req_no),
        ),
{
}

} // verus!
