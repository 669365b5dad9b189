//! Requests: their shape, how a datagram is read as one, and how one is
//! written as a datagram.
//!
//! A frame is the request number (four bytes), the operation (one byte) and
//! then, by operation:
//!
//! * handshake: the session identifier (four bytes);
//! * disconnect: nothing;
//! * read, delete: path, offset, amount;
//! * insert, update: path, offset, payload;
//! * monitor: path, interval in milliseconds.
//!
//! Bytes that follow a complete frame are ignored.

use crate::wire::{
    bytes_at, int_at, int_bytes, is_file_operation, lemma_bytes_round_trip, lemma_int_bytes_len,
    lemma_int_round_trip, prefixed, string_at, DecodeError, RequestOperation,
};
use vstd::prelude::*;
use vstd::slice::*;
use vstd::string::*;
use vstd::utf8::*;

verus! {

// ---------------------------------------------------------------------------
// Requests as mathematical values
// ---------------------------------------------------------------------------

/// What a request asks to be done with its file.
pub enum FileActionView {
    Read { offset: u32, amount: u32 },
    Insert { offset: u32, data: Seq<u8> },
    Update { offset: u32, data: Seq<u8> },
    Delete { offset: u32, amount: u32 },
    Monitor { interval_ms: u32 },
}

/// A request that names a file.
pub struct FileRequestView {
    pub path: Seq<char>,
    pub action: FileActionView,
}

/// The body of a request.
pub enum CommandView {
    Handshake { session_id: u32 },
    Disconnect,
    File(FileRequestView),
}

/// A whole request.
pub struct RequestView {
    pub req_no: u32,
    pub command: CommandView,
}

// ---------------------------------------------------------------------------
// Requests as values of the program
// ---------------------------------------------------------------------------

/// What a request asks to be done with its file.
#[derive(Debug, PartialEq, Eq)]
pub enum FileAction {
    /// Return `amount` bytes from `offset` on.
    Read { offset: u32, amount: u32 },
    /// Put `data` in at `offset` and move what was there to the right.
    Insert { offset: u32, data: Vec<u8> },
    /// Overwrite what starts at `offset` with `data`.
    Update { offset: u32, data: Vec<u8> },
    /// Take `amount` bytes out from `offset` on.
    Delete { offset: u32, amount: u32 },
    /// Report changes of the file for the next `interval_ms` milliseconds.
    Monitor { interval_ms: u32 },
}

impl View for FileAction {
    type V = FileActionView;

    open spec fn view(&self) -> FileActionView {
        match *self {
            FileAction::Read { offset, amount } => FileActionView::Read { offset, amount },
            FileAction::Insert { offset, data } => FileActionView::Insert { offset, data: data@ },
            FileAction::Update { offset, data } => FileActionView::Update { offset, data: data@ },
            FileAction::Delete { offset, amount } => FileActionView::Delete { offset, amount },
            FileAction::Monitor { interval_ms } => FileActionView::Monitor { interval_ms },
        }
    }
}

/// A request that names a file.
#[derive(Debug, PartialEq, Eq)]
pub struct FileRequest {
    /// The path as the client wrote it, relative to the served directory.
    pub path: String,
    pub action: FileAction,
}

impl View for FileRequest {
    type V = FileRequestView;

    open spec fn view(&self) -> FileRequestView {
        FileRequestView { path: self.path@, action: self.action@ }
    }
}

/// The body of a request.
#[derive(Debug, PartialEq, Eq)]
pub enum Command {
    /// Opens a session; the identifier tells one run of a client from the next.
    Handshake { session_id: u32 },
    /// Ends the session.
    Disconnect,
    /// Works on a file.
    File(FileRequest),
}

impl View for Command {
    type V = CommandView;

    open spec fn view(&self) -> CommandView {
        match *self {
            Command::Handshake { session_id } => CommandView::Handshake { session_id },
            Command::Disconnect => CommandView::Disconnect,
            Command::File(request) => CommandView::File(request@),
        }
    }
}

/// A whole request.
#[derive(Debug, PartialEq, Eq)]
pub struct Request {
    /// Chosen by the client; a retransmission repeats it.
    pub req_no: u32,
    pub command: Command,
}

impl View for Request {
    type V = RequestView;

    open spec fn view(&self) -> RequestView {
        RequestView { req_no: self.req_no, command: self.command@ }
    }
}

// ---------------------------------------------------------------------------
// Reading
// ---------------------------------------------------------------------------

/// What follows the path of a file request with operation `op`, read from `at` on.
pub open spec fn decode_action(b: Seq<u8>, at: int, op: u8) -> Result<FileActionView, DecodeError> {
    match int_at(b, at) {
        None => Err(DecodeError::Truncated),
        Some(first) => if op == RequestOperation::MONITOR {
            Ok(FileActionView::Monitor { interval_ms: first })
        } else if op == RequestOperation::INSERT || op == RequestOperation::UPDATE {
            match bytes_at(b, at + 4) {
                None => Err(DecodeError::Truncated),
                Some(data) => if op == RequestOperation::INSERT {
                    Ok(FileActionView::Insert { offset: first, data })
                } else {
                    Ok(FileActionView::Update { offset: first, data })
                },
            }
        } else {
            match int_at(b, at + 4) {
                None => Err(DecodeError::Truncated),
                Some(amount) => if op == RequestOperation::READ {
                    Ok(FileActionView::Read { offset: first, amount })
                } else {
                    Ok(FileActionView::Delete { offset: first, amount })
                },
            }
        },
    }
}

/// The file request with operation `op` whose path starts at `at`.
pub open spec fn decode_file_request(b: Seq<u8>, at: int, op: u8) -> Result<
    FileRequestView,
    DecodeError,
> {
    if !is_file_operation(op) {
        Err(DecodeError::UnknownOperation)
    } else {
        match string_at(b, at) {
            Err(e) => Err(e),
            Ok(path) => match decode_action(b, at + 4 + bytes_at(b, at)->0.len(), op) {
                Err(e) => Err(e),
                Ok(action) => Ok(FileRequestView { path, action }),
            },
        }
    }
}

/// The request that a datagram carries.
pub open spec fn decode_request(b: Seq<u8>) -> Result<RequestView, DecodeError> {
    match int_at(b, 0) {
        None => Err(DecodeError::Truncated),
        Some(req_no) => if b.len() < 5 {
            Err(DecodeError::Truncated)
        } else if b[4] == RequestOperation::HANDSHAKE {
            match int_at(b, 5) {
                None => Err(DecodeError::Truncated),
                Some(session_id) => Ok(
                    RequestView { req_no, command: CommandView::Handshake { session_id } },
                ),
            }
        } else if b[4] == RequestOperation::DISCONNECT {
            Ok(RequestView { req_no, command: CommandView::Disconnect })
        } else {
            match decode_file_request(b, 5, b[4]) {
                Err(e) => Err(e),
                Ok(request) => Ok(RequestView { req_no, command: CommandView::File(request) }),
            }
        },
    }
}

/// `std::str::Utf8Error`, which says where a byte string stops being UTF-8.
#[verifier::external_type_specification]
#[verifier::external_body]
pub struct ExUtf8Error(core::str::Utf8Error);

/// `core::str::from_utf8` accepts exactly the byte strings that are UTF-8, and
/// the string it returns has the bytes it was given. This is what the standard
/// library documents of it; it is taken on trust here, not proved.
pub assume_specification[ core::str::from_utf8 ](v: &[u8]) -> (r: Result<
    &str,
    core::str::Utf8Error,
>)
    ensures
        r is Ok <==> valid_utf8(v@),
        r is Ok ==> r->Ok_0.spec_bytes() == v@,
;

/// A cursor over a received datagram.
pub struct RequestHandler<'a> {
    /// The datagram.
    pub buf: &'a [u8],
    /// Where the next read starts.
    pub i: usize,
}

impl<'a> RequestHandler<'a> {
    /// A cursor at the start of `buf`.
    pub fn new(buf: &'a [u8]) -> (handler: Self)
        ensures
            handler.buf == buf,
            handler.i == 0,
    {
        RequestHandler { buf, i: 0 }
    }

    /// The integer at `at`, without moving.
    fn peek_int(&self, at: usize) -> (r: Option<u32>)
        ensures
            r == int_at(self.buf@, at as int),
            r is Some <==> at + 4 <= self.buf@.len(),
    {
        proof {
            reveal(int_at);
        }
        if self.buf.len() < 4 || at > self.buf.len() - 4 {
            return None;
        }
        let b0: u32 = self.buf[at] as u32;
        let b1: u32 = self.buf[at + 1] as u32;
        let b2: u32 = self.buf[at + 2] as u32;
        let b3: u32 = self.buf[at + 3] as u32;
        Some(b0 * 0x100_0000 + b1 * 0x1_0000 + b2 * 0x100 + b3)
    }

    /// The length-prefixed byte string at the cursor, without moving.
    fn peek_bytes(&self) -> (r: Option<&'a [u8]>)
        ensures
            r is Some <==> bytes_at(self.buf@, self.i as int) is Some,
            r is Some ==> r->0@ == bytes_at(self.buf@, self.i as int)->0,
    {
        let len: usize = self.buf.len();
        match self.peek_int(self.i) {
            None => None,
            Some(n) => {
                let start: usize = self.i + 4;
                if n as usize > len - start {
                    None
                } else {
                    let end: usize = start + n as usize;
                    Some(&self.buf[start..end])
                }
            },
        }
    }

    /// Reads one byte.
    pub fn read_byte(&mut self) -> (r: Option<u8>)
        ensures
            final(self).buf == old(self).buf,
            r is Some <==> old(self).i < old(self).buf@.len(),
            r is Some ==> r->0 == old(self).buf@[old(self).i as int] && final(self).i == old(self).i + 1,
            r is None ==> final(self).i == old(self).i,
    {
        if self.i < self.buf.len() {
            let c: u8 = self.buf[self.i];
            self.i = self.i + 1;
            Some(c)
        } else {
            None
        }
    }

    /// Reads a big-endian 32-bit integer.
    pub fn read_int(&mut self) -> (r: Option<u32>)
        ensures
            final(self).buf == old(self).buf,
            r == int_at(old(self).buf@, old(self).i as int),
            r is Some ==> final(self).i == old(self).i + 4,
            r is None ==> final(self).i == old(self).i,
    {
        let len: usize = self.buf.len();
        let r = self.peek_int(self.i);
        if r.is_some() {
            assert(self.i + 4 <= len);
            self.i = self.i + 4;
        }
        r
    }

    /// Reads a length-prefixed byte string.
    pub fn read_bytes(&mut self) -> (r: Option<Vec<u8>>)
        ensures
            final(self).buf == old(self).buf,
            match r {
                Some(data) => bytes_at(old(self).buf@, old(self).i as int) == Some(data@)
                    && final(self).i == old(self).i + 4 + data@.len(),
                None => bytes_at(old(self).buf@, old(self).i as int) is None && final(self).i
                    == old(self).i,
            },
    {
        let len: usize = self.buf.len();
        match self.peek_bytes() {
            None => None,
            Some(s) => {
                assert(self.i + 4 + s@.len() <= len);
                self.i = self.i + 4 + s.len();
                Some(slice_to_vec(s))
            },
        }
    }

    /// Reads a length-prefixed UTF-8 string.
    pub fn read_string(&mut self) -> (r: Result<String, DecodeError>)
        ensures
            final(self).buf == old(self).buf,
            match r {
                Ok(s) => string_at(old(self).buf@, old(self).i as int) == Ok::<
                    Seq<char>,
                    DecodeError,
                >(s@) && final(self).i == old(self).i + 4 + bytes_at(
                    old(self).buf@,
                    old(self).i as int,
                )->0.len(),
                Err(e) => string_at(old(self).buf@, old(self).i as int) == Err::<
                    Seq<char>,
                    DecodeError,
                >(e) && final(self).i == old(self).i,
            },
    {
        let len: usize = self.buf.len();
        match self.peek_bytes() {
            None => Err(DecodeError::Truncated),
            Some(s) => match core::str::from_utf8(s) {
                Err(_) => Err(DecodeError::InvalidPath),
                Ok(path) => {
                    proof {
                        encode_utf8_decode_utf8(path@);
                    }
                    assert(self.i + 4 + s@.len() <= len);
                    self.i = self.i + 4 + s.len();
                    Ok(path.to_owned())
                },
            },
        }
    }

    /// Reads what follows the path of a file request with operation `op`.
    fn read_action(&mut self, op: u8) -> (r: Result<FileAction, DecodeError>)
        requires
            is_file_operation(op),
        ensures
            final(self).buf == old(self).buf,
            match r {
                Ok(action) => decode_action(old(self).buf@, old(self).i as int, op) == Ok::<
                    FileActionView,
                    DecodeError,
                >(action@),
                Err(e) => decode_action(old(self).buf@, old(self).i as int, op) == Err::<
                    FileActionView,
                    DecodeError,
                >(e),
            },
    {
        let first = match self.read_int() {
            None => { return Err(DecodeError::Truncated); },
            Some(v) => v,
        };
        if op == RequestOperation::MONITOR {
            Ok(FileAction::Monitor { interval_ms: first })
        } else if op == RequestOperation::INSERT || op == RequestOperation::UPDATE {
            match self.read_bytes() {
                None => Err(DecodeError::Truncated),
                Some(data) => if op == RequestOperation::INSERT {
                    Ok(FileAction::Insert { offset: first, data })
                } else {
                    Ok(FileAction::Update { offset: first, data })
                },
            }
        } else {
            match self.read_int() {
                None => Err(DecodeError::Truncated),
                Some(amount) => if op == RequestOperation::READ {
                    Ok(FileAction::Read { offset: first, amount })
                } else {
                    Ok(FileAction::Delete { offset: first, amount })
                },
            }
        }
    }

    /// Reads the rest of a request whose operation byte was `op`: the path and
    /// what the operation takes. An `op` that names no file operation is refused
    /// before anything is read.
    pub fn parse_request(&mut self, op: u8) -> (r: Result<FileRequest, DecodeError>)
        ensures
            final(self).buf == old(self).buf,
            match r {
                Ok(request) => decode_file_request(old(self).buf@, old(self).i as int, op) == Ok::<
                    FileRequestView,
                    DecodeError,
                >(request@),
                Err(e) => decode_file_request(old(self).buf@, old(self).i as int, op) == Err::<
                    FileRequestView,
                    DecodeError,
                >(e),
            },
    {
        if op < RequestOperation::READ || op > RequestOperation::MONITOR {
            return Err(DecodeError::UnknownOperation);
        }
        let path = match self.read_string() {
            Err(e) => { return Err(e); },
            Ok(path) => path,
        };
        match self.read_action(op) {
            Err(e) => Err(e),
            Ok(action) => Ok(FileRequest { path, action }),
        }
    }
}

/// Reads a datagram as a request.
pub fn decode(datagram: &[u8]) -> (r: Result<Request, DecodeError>)
    ensures
        match r {
            Ok(request) => decode_request(datagram@) == Ok::<RequestView, DecodeError>(request@),
            Err(e) => decode_request(datagram@) == Err::<RequestView, DecodeError>(e),
        },
{
    let mut handler = RequestHandler::new(datagram);
    let req_no = match handler.read_int() {
        None => { return Err(DecodeError::Truncated); },
        Some(v) => v,
    };
    let op = match handler.read_byte() {
        None => { return Err(DecodeError::Truncated); },
        Some(v) => v,
    };
    if op == RequestOperation::HANDSHAKE {
        match handler.read_int() {
            None => Err(DecodeError::Truncated),
            Some(session_id) => Ok(Request { req_no, command: Command::Handshake { session_id } }),
        }
    } else if op == RequestOperation::DISCONNECT {
        Ok(Request { req_no, command: Command::Disconnect })
    } else {
        match handler.parse_request(op) {
            Err(e) => Err(e),
            Ok(request) => Ok(Request { req_no, command: Command::File(request) }),
        }
    }
}

// ---------------------------------------------------------------------------
// Writing
// ---------------------------------------------------------------------------

/// The operation byte of a file request.
pub open spec fn operation_of(action: FileActionView) -> u8 {
    match action {
        FileActionView::Read { .. } => RequestOperation::READ,
        FileActionView::Insert { .. } => RequestOperation::INSERT,
        FileActionView::Update { .. } => RequestOperation::UPDATE,
        FileActionView::Delete { .. } => RequestOperation::DELETE,
        FileActionView::Monitor { .. } => RequestOperation::MONITOR,
    }
}

/// What follows the path in the frame of a file request.
pub open spec fn encode_action(action: FileActionView) -> Seq<u8> {
    match action {
        FileActionView::Read { offset, amount } => int_bytes(offset) + int_bytes(amount),
        FileActionView::Insert { offset, data } => int_bytes(offset) + prefixed(data),
        FileActionView::Update { offset, data } => int_bytes(offset) + prefixed(data),
        FileActionView::Delete { offset, amount } => int_bytes(offset) + int_bytes(amount),
        FileActionView::Monitor { interval_ms } => int_bytes(interval_ms),
    }
}

/// The frame of a request.
pub open spec fn encode_request(r: RequestView) -> Seq<u8> {
    int_bytes(r.req_no) + match r.command {
        CommandView::Handshake { session_id } => seq![RequestOperation::HANDSHAKE] + int_bytes(
            session_id,
        ),
        CommandView::Disconnect => seq![RequestOperation::DISCONNECT],
        CommandView::File(request) => seq![operation_of(request.action)] + prefixed(
            encode_utf8(request.path),
        ) + encode_action(request.action),
    }
}

/// A request has a frame when its path and its payload are short enough for
/// their lengths to be written in 32 bits.
pub open spec fn well_formed(r: RequestView) -> bool {
    match r.command {
        CommandView::File(request) => encode_utf8(request.path).len() <= u32::MAX && match request.action {
            FileActionView::Insert { data, .. } => data.len() <= u32::MAX,
            FileActionView::Update { data, .. } => data.len() <= u32::MAX,
            _ => true,
        },
        _ => true,
    }
}

/// Reading the frame of a well-formed request gives the request back, whatever
/// bytes follow the frame.
pub proof fn lemma_request_round_trip(r: RequestView, tail: Seq<u8>)
    requires
        well_formed(r),
    ensures
        decode_request(encode_request(r) + tail) == Ok::<RequestView, DecodeError>(r),
        decode_request(encode_request(r)) == Ok::<RequestView, DecodeError>(r),
{
    lemma_request_round_trip_with(r, tail);
    lemma_request_round_trip_with(r, Seq::empty());
    assert(encode_request(r) + Seq::<u8>::empty() =~= encode_request(r));
}

proof fn lemma_request_round_trip_with(r: RequestView, tail: Seq<u8>)
    requires
        well_formed(r),
    ensures
        decode_request(encode_request(r) + tail) == Ok::<RequestView, DecodeError>(r),
{
    let b = encode_request(r) + tail;
    let none = Seq::<u8>::empty();
    let number = int_bytes(r.req_no);
    assert(none + number =~= number);
    match r.command {
        CommandView::Handshake { session_id } => {
            let op = seq![RequestOperation::HANDSHAKE];
            let rest = op + int_bytes(session_id) + tail;
            assert(b =~= none + number + rest);
            lemma_int_round_trip(none, r.req_no, rest);
            assert(b[4] == op[0]);
            assert(b =~= (number + op) + int_bytes(session_id) + tail);
            lemma_int_round_trip(number + op, session_id, tail);
        },
        CommandView::Disconnect => {
            let op = seq![RequestOperation::DISCONNECT];
            let rest = op + tail;
            assert(b =~= none + number + rest);
            lemma_int_round_trip(none, r.req_no, rest);
            assert(b[4] == op[0]);
        },
        CommandView::File(request) => {
            let op = seq![operation_of(request.action)];
            let body = prefixed(encode_utf8(request.path)) + encode_action(request.action);
            let rest = op + body + tail;
            assert(b =~= none + number + rest);
            lemma_int_round_trip(none, r.req_no, rest);
            assert(b[4] == op[0]);
            assert(b =~= (number + op) + body + tail);
            lemma_file_round_trip(number + op, request, tail);
        },
    }
}

proof fn lemma_file_round_trip(head: Seq<u8>, request: FileRequestView, tail: Seq<u8>)
    requires
        encode_utf8(request.path).len() <= u32::MAX,
        match request.action {
            FileActionView::Insert { data, .. } => data.len() <= u32::MAX,
            FileActionView::Update { data, .. } => data.len() <= u32::MAX,
            _ => true,
        },
    ensures
        decode_file_request(
            head + (prefixed(encode_utf8(request.path)) + encode_action(request.action)) + tail,
            head.len() as int,
            operation_of(request.action),
        ) == Ok::<FileRequestView, DecodeError>(request),
{
    let path = encode_utf8(request.path);
    assert(valid_utf8(path)) by {
        encode_utf8_valid_utf8(request.path);
    }
    assert(decode_utf8(path) == request.path) by {
        encode_utf8_decode_utf8(request.path);
    }
    lemma_path_round_trip(head, path, request.action, tail);
}

proof fn lemma_path_round_trip(
    head: Seq<u8>,
    path: Seq<u8>,
    action: FileActionView,
    tail: Seq<u8>,
)
    requires
        path.len() <= u32::MAX,
        valid_utf8(path),
        match action {
            FileActionView::Insert { data, .. } => data.len() <= u32::MAX,
            FileActionView::Update { data, .. } => data.len() <= u32::MAX,
            _ => true,
        },
    ensures
        decode_file_request(
            head + (prefixed(path) + encode_action(action)) + tail,
            head.len() as int,
            operation_of(action),
        ) == Ok::<FileRequestView, DecodeError>(
            FileRequestView { path: decode_utf8(path), action },
        ),
{
    lemma_path_found(head, path, encode_action(action), tail);
    lemma_action_found(head, path, action, tail);
}

proof fn lemma_path_found(head: Seq<u8>, path: Seq<u8>, frame: Seq<u8>, tail: Seq<u8>)
    requires
        path.len() <= u32::MAX,
    ensures
        bytes_at(head + (prefixed(path) + frame) + tail, head.len() as int) == Some(path),
{
    let b = head + (prefixed(path) + frame) + tail;
    assert(b =~= head + prefixed(path) + (frame + tail));
    lemma_bytes_round_trip(head, path, frame + tail);
}

proof fn lemma_action_found(head: Seq<u8>, path: Seq<u8>, action: FileActionView, tail: Seq<u8>)
    requires
        path.len() <= u32::MAX,
        match action {
            FileActionView::Insert { data, .. } => data.len() <= u32::MAX,
            FileActionView::Update { data, .. } => data.len() <= u32::MAX,
            _ => true,
        },
    ensures
        decode_action(
            head + (prefixed(path) + encode_action(action)) + tail,
            head.len() as int + 4 + path.len(),
            operation_of(action),
        ) == Ok::<FileActionView, DecodeError>(action),
{
    let frame = encode_action(action);
    let b = head + (prefixed(path) + frame) + tail;
    let before = head + prefixed(path);
    lemma_int_bytes_len(path.len() as u32);
    assert(b =~= before + frame + tail);
    lemma_action_round_trip(before, action, tail);
}

proof fn lemma_action_round_trip(head: Seq<u8>, action: FileActionView, tail: Seq<u8>)
    requires
        match action {
            FileActionView::Insert { data, .. } => data.len() <= u32::MAX,
            FileActionView::Update { data, .. } => data.len() <= u32::MAX,
            _ => true,
        },
    ensures
        decode_action(head + encode_action(action) + tail, head.len() as int, operation_of(action))
            == Ok::<FileActionView, DecodeError>(action),
{
    match action {
        FileActionView::Read { offset, amount } => {
            lemma_two_ints(head, offset, amount, tail);
        },
        FileActionView::Delete { offset, amount } => {
            lemma_two_ints(head, offset, amount, tail);
        },
        FileActionView::Insert { offset, data } => {
            lemma_int_then_bytes(head, offset, data, tail);
        },
        FileActionView::Update { offset, data } => {
            lemma_int_then_bytes(head, offset, data, tail);
        },
        FileActionView::Monitor { interval_ms } => {
            lemma_int_round_trip(head, interval_ms, tail);
        },
    }
}

proof fn lemma_two_ints(head: Seq<u8>, first: u32, second: u32, tail: Seq<u8>)
    ensures
        int_at(head + (int_bytes(first) + int_bytes(second)) + tail, head.len() as int) == Some(
            first,
        ),
        int_at(head + (int_bytes(first) + int_bytes(second)) + tail, head.len() as int + 4) == Some(
            second,
        ),
{
    let b = head + (int_bytes(first) + int_bytes(second)) + tail;
    lemma_int_bytes_len(first);
    assert(b =~= head + int_bytes(first) + (int_bytes(second) + tail));
    lemma_int_round_trip(head, first, int_bytes(second) + tail);
    assert(b =~= (head + int_bytes(first)) + int_bytes(second) + tail);
    lemma_int_round_trip(head + int_bytes(first), second, tail);
}

proof fn lemma_int_then_bytes(head: Seq<u8>, first: u32, data: Seq<u8>, tail: Seq<u8>)
    requires
        data.len() <= u32::MAX,
    ensures
        int_at(head + (int_bytes(first) + prefixed(data)) + tail, head.len() as int) == Some(first),
        bytes_at(head + (int_bytes(first) + prefixed(data)) + tail, head.len() as int + 4) == Some(data),
{
    let b = head + (int_bytes(first) + prefixed(data)) + tail;
    lemma_int_bytes_len(first);
    assert(b =~= head + int_bytes(first) + (prefixed(data) + tail));
    lemma_int_round_trip(head, first, prefixed(data) + tail);
    assert(b =~= (head + int_bytes(first)) + prefixed(data) + tail);
    lemma_bytes_round_trip(head + int_bytes(first), data, tail);
}

/// Appends the four big-endian bytes of `v`.
fn push_int(out: &mut Vec<u8>, v: u32)
    ensures
        final(out)@ == old(out)@ + int_bytes(v),
{
    reveal(int_bytes);
    out.push((v / 0x100_0000) as u8);
    out.push((v / 0x1_0000 % 0x100) as u8);
    out.push((v / 0x100 % 0x100) as u8);
    out.push((v % 0x100) as u8);
    assert(out@ =~= old(out)@ + int_bytes(v));
}

/// Appends a byte string behind its length, if the length can be written.
fn push_bytes(out: &mut Vec<u8>, s: &[u8]) -> (done: bool)
    ensures
        done <==> s@.len() <= u32::MAX,
        done ==> final(out)@ == old(out)@ + prefixed(s@),
        !done ==> final(out)@ == old(out)@,
{
    if s.len() > u32::MAX as usize {
        return false;
    }
    push_int(out, s.len() as u32);
    let ghost head = out@;
    out.extend_from_slice(s);
    assert(out@ =~= head + s@);
    assert(out@ =~= old(out)@ + prefixed(s@));
    true
}

impl Request {
    /// Lays the request out as a datagram, as a client does. There is none for a
    /// request whose path or payload is too long for its length to be written.
    pub fn into_bytes(&self) -> (r: Option<Vec<u8>>)
        ensures
            r is Some <==> well_formed(self@),
            r is Some ==> r->0@ == encode_request(self@),
    {
        let mut out: Vec<u8> = Vec::new();
        push_int(&mut out, self.req_no);
        match &self.command {
            Command::Handshake { session_id } => {
                out.push(RequestOperation::HANDSHAKE);
                push_int(&mut out, *session_id);
                assert(out@ =~= encode_request(self@));
                Some(out)
            },
            Command::Disconnect => {
                out.push(RequestOperation::DISCONNECT);
                assert(out@ =~= encode_request(self@));
                Some(out)
            },
            Command::File(request) => {
                let op: u8 = match &request.action {
                    FileAction::Read { .. } => RequestOperation::READ,
                    FileAction::Insert { .. } => RequestOperation::INSERT,
                    FileAction::Update { .. } => RequestOperation::UPDATE,
                    FileAction::Delete { .. } => RequestOperation::DELETE,
                    FileAction::Monitor { .. } => RequestOperation::MONITOR,
                };
                out.push(op);
                if !push_bytes(&mut out, request.path.as_str().as_bytes()) {
                    return None;
                }
                let ghost before = out@;
                let done = match &request.action {
                    FileAction::Read { offset, amount } => {
                        push_int(&mut out, *offset);
                        push_int(&mut out, *amount);
                        true
                    },
                    FileAction::Delete { offset, amount } => {
                        push_int(&mut out, *offset);
                        push_int(&mut out, *amount);
                        true
                    },
                    FileAction::Insert { offset, data } => {
                        push_int(&mut out, *offset);
                        push_bytes(&mut out, data.as_slice())
                    },
                    FileAction::Update { offset, data } => {
                        push_int(&mut out, *offset);
                        push_bytes(&mut out, data.as_slice())
                    },
                    FileAction::Monitor { interval_ms } => {
                        push_int(&mut out, *interval_ms);
                        true
                    },
                };
                if !done {
                    return None;
                }
                assert(out@ =~= before + encode_action(request@.action));
                assert(out@ =~= encode_request(self@));
                Some(out)
            },
        }
    }
}

} // verus!
