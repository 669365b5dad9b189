//! Wire format: how requests and responses are laid out in a datagram.
//!
//! Every integer on the wire is unsigned and big-endian. A byte string (a path,
//! a payload) is its length as a 32-bit integer followed by that many bytes.
//! A request starts with its number and one operation byte; what follows
//! depends on the operation. A response is one status byte followed by its
//! data, which runs to the end of the datagram.

use vstd::prelude::*;
use vstd::slice::*;
use vstd::string::*;
use vstd::utf8::*;

verus! {

/// The operation codes of the protocol.
pub struct RequestOperation;

impl RequestOperation {
    pub const HANDSHAKE: u8 = 0;

    pub const DISCONNECT: u8 = 1;

    pub const READ: u8 = 2;

    pub const INSERT: u8 = 3;

    pub const UPDATE: u8 = 4;

    pub const DELETE: u8 = 5;

    pub const MONITOR: u8 = 6;
}

/// Whether `op` is one of the five operations that name a file.
pub open spec fn is_file_operation(op: u8) -> bool {
    2 <= op <= 6
}

/// Why a datagram is not a request.
#[derive(Clone, Copy, Debug, PartialEq, Eq, Structural)]
pub enum DecodeError {
    /// The datagram ends before the frame does.
    Truncated,
    /// The path is not UTF-8.
    InvalidPath,
    /// The operation byte is none of the protocol's codes.
    UnknownOperation,
}

// ---------------------------------------------------------------------------
// Integers and byte strings
// ---------------------------------------------------------------------------

/// The 32-bit integer whose big-endian bytes start at `at`, if four bytes are there.
#[verifier::opaque]
pub open spec fn int_at(b: Seq<u8>, at: int) -> Option<u32> {
    if 0 <= at && at + 4 <= b.len() {
        Some((b[at] * 0x100_0000 + b[at + 1] * 0x1_0000 + b[at + 2] * 0x100 + b[at + 3]) as u32)
    } else {
        None
    }
}

/// The length-prefixed byte string that starts at `at`, if all of it is there.
pub open spec fn bytes_at(b: Seq<u8>, at: int) -> Option<Seq<u8>> {
    match int_at(b, at) {
        Some(n) => if at + 4 + n <= b.len() {
            Some(b.subrange(at + 4, at + 4 + n))
        } else {
            None
        },
        None => None,
    }
}

/// The length-prefixed UTF-8 string that starts at `at`.
pub open spec fn string_at(b: Seq<u8>, at: int) -> Result<Seq<char>, DecodeError> {
    match bytes_at(b, at) {
        Some(s) => if valid_utf8(s) {
            Ok(decode_utf8(s))
        } else {
            Err(DecodeError::InvalidPath)
        },
        None => Err(DecodeError::Truncated),
    }
}

/// The four big-endian bytes of `v`.
#[verifier::opaque]
pub open spec fn int_bytes(v: u32) -> Seq<u8> {
    seq![
        (v / 0x100_0000) as u8,
        (v / 0x1_0000 % 0x100) as u8,
        (v / 0x100 % 0x100) as u8,
        (v % 0x100) as u8,
    ]
}

/// A byte string behind its length.
pub open spec fn prefixed(s: Seq<u8>) -> Seq<u8> {
    int_bytes(s.len() as u32) + s
}

/// An integer takes four bytes.
pub proof fn lemma_int_bytes_len(v: u32)
    ensures
        int_bytes(v).len() == 4,
{
    reveal(int_bytes);
}

/// Reading back the bytes of an integer gives the integer, whatever follows them.
pub proof fn lemma_int_round_trip(head: Seq<u8>, v: u32, tail: Seq<u8>)
    ensures
        int_bytes(v).len() == 4,
        int_at(head + int_bytes(v) + tail, head.len() as int) == Some(v),
{
    reveal(int_at);
    reveal(int_bytes);
    let b = head + int_bytes(v) + tail;
    let at = head.len() as int;
    assert(b[at] == int_bytes(v)[0]);
    assert(b[at + 1] == int_bytes(v)[1]);
    assert(b[at + 2] == int_bytes(v)[2]);
    assert(b[at + 3] == int_bytes(v)[3]);
}

/// Reading back a length-prefixed byte string gives the string, whatever follows it.
pub proof fn lemma_bytes_round_trip(head: Seq<u8>, s: Seq<u8>, tail: Seq<u8>)
    requires
        s.len() <= u32::MAX,
    ensures
        prefixed(s).len() == 4 + s.len(),
        bytes_at(head + prefixed(s) + tail, head.len() as int) == Some(s),
{
    let b = head + prefixed(s) + tail;
    let at = head.len() as int;
    assert(b =~= head + int_bytes(s.len() as u32) + (s + tail));
    lemma_int_round_trip(head, s.len() as u32, s + tail);
    assert(b.subrange(at + 4, at + 4 + s.len()) =~= s);
}

// ---------------------------------------------------------------------------
// Responses
// ---------------------------------------------------------------------------

/// Outcome of a request as the client sees it.
#[derive(Clone, Copy, Debug, PartialEq, Eq, Structural)]
pub enum StatusCode {
    Bad,
    Good,
}

/// The byte that stands for a status on the wire.
pub open spec fn status_byte(status: StatusCode) -> u8 {
    match status {
        StatusCode::Bad => 0,
        StatusCode::Good => 1,
    }
}

/// The bytes of a text, as they go into a response.
pub open spec fn text(s: &str) -> Seq<u8> {
    s.spec_bytes()
}

/// A response as a mathematical value.
pub struct ResponseView {
    pub status: StatusCode,
    pub data: Seq<u8>,
}

/// A response: a status and the bytes that go with it.
#[derive(Debug, PartialEq, Eq)]
pub struct ResponseMarshal {
    pub status: StatusCode,
    pub data: Vec<u8>,
}

impl View for ResponseMarshal {
    type V = ResponseView;

    open spec fn view(&self) -> ResponseView {
        ResponseView { status: self.status, data: self.data@ }
    }
}

impl Clone for ResponseMarshal {
    fn clone(&self) -> (r: Self)
        ensures
            r@ == self@,
    {
        ResponseMarshal { status: self.status, data: self.data.clone() }
    }
}

/// The datagram that carries a response.
pub open spec fn response_frame(r: ResponseView) -> Seq<u8> {
    seq![status_byte(r.status)] + r.data
}

/// The response that a datagram carries, if it carries one.
pub open spec fn parse_response(frame: Seq<u8>) -> Option<ResponseView> {
    if frame.len() == 0 {
        None
    } else if frame[0] == 0 {
        Some(ResponseView { status: StatusCode::Bad, data: frame.subrange(1, frame.len() as int) })
    } else if frame[0] == 1 {
        Some(ResponseView { status: StatusCode::Good, data: frame.subrange(1, frame.len() as int) })
    } else {
        None
    }
}

/// Whoever parses the datagram of a response gets that response back.
pub proof fn lemma_response_round_trip(r: ResponseView)
    ensures
        parse_response(response_frame(r)) == Some(r),
{
    let frame = response_frame(r);
    assert(frame.subrange(1, frame.len() as int) =~= r.data);
}

impl ResponseMarshal {
    /// A successful response that carries `data`.
    pub fn good(data: Vec<u8>) -> (r: Self)
        ensures
            r@ == (ResponseView { status: StatusCode::Good, data: data@ }),
    {
        ResponseMarshal { status: StatusCode::Good, data }
    }

    /// A successful response that carries a text.
    pub fn good_text(message: &str) -> (r: Self)
        ensures
            r@ == (ResponseView { status: StatusCode::Good, data: text(message) }),
    {
        ResponseMarshal { status: StatusCode::Good, data: message.as_bytes_vec() }
    }

    /// A failure with its reason.
    pub fn bad(reason: &str) -> (r: Self)
        ensures
            r@ == (ResponseView { status: StatusCode::Bad, data: text(reason) }),
    {
        ResponseMarshal { status: StatusCode::Bad, data: reason.as_bytes_vec() }
    }

    /// Lays the response out as a datagram.
    pub fn into_bytes(&self) -> (buf: Vec<u8>)
        ensures
            buf@ == response_frame(self@),
    {
        let mut buf: Vec<u8> = Vec::new();
        let code: u8 = match self.status {
            StatusCode::Bad => 0,
            StatusCode::Good => 1,
        };
        buf.push(code);
        let ghost head = buf@;
        buf.extend_from_slice(self.data.as_slice());
        assert(buf@ =~= head + self.data@);
        buf
    }

    /// Reads a response back from its datagram, as a client does.
    pub fn from_bytes(frame: &[u8]) -> (r: Option<Self>)
        ensures
            match r {
                Some(response) => parse_response(frame@) == Some(response@),
                None => parse_response(frame@) is None,
            },
    {
        if frame.len() == 0 {
            return None;
        }
        let status = if frame[0] == 0 {
            StatusCode::Bad
        } else if frame[0] == 1 {
            StatusCode::Good
        } else {
            return None;
        };
        let data = slice_to_vec(&frame[1..frame.len()]);
        Some(ResponseMarshal { status, data })
    }
}

} // verus!
