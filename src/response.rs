//! Response frames: the head, a status and an opaque body.
use vstd::prelude::*;
use vstd::utf8::*;

use crate::error::Error;
use crate::head::{
    Head, HeadView, head_error, lemma_head_bytes_injective, lemma_head_reads_back, lemma_head_wf,
};
use crate::wire::{
    SEPARATOR_BYTE, append_bytes, be32_value, frame_bytes, frame_of, frame_ok, frame_payload,
    has_sections, lemma_frame_length, lemma_frame_of_payload, lemma_sections_of_join,
    lemma_split_unique, payload_sections, read_be32, sections, utf8_text,
};

verus! {

/// Kind byte that opens every response frame.
pub const RESPONSE_START_BYTE: u8 = 0x01;

/// Outcome of a request. Zero is success, negative codes are unrecoverable
/// errors, positive codes are recoverable ones.
#[derive(Clone, Copy, Debug, PartialEq, Eq, Structural)]
pub enum StatusType {
    OK,
    GenericError,
    NeedConnection,
    InternalServerError,
    AlreadyConnected,
    InvalidRequest,
    EventNotFound,
    ListenerNotFound,
    EventAlreadyExists,
    AlreadySubscribed,
}

/// The byte that carries a signed code: its two's complement.
pub open spec fn byte_of_code(c: i8) -> u8 {
    if c >= 0 {
        c as u8
    } else {
        (c + 256) as u8
    }
}

/// The signed code that a byte carries.
pub open spec fn code_of_byte(b: u8) -> i8 {
    if b < 128 {
        b as i8
    } else {
        (b - 256) as i8
    }
}

/// The signed code that a byte carries.
pub fn signed_code(b: u8) -> (r: i8)
    ensures
        r == code_of_byte(b),
{
    if b < 128 {
        b as i8
    } else {
        (b as i16 - 256) as i8
    }
}

/// The byte that carries a signed code.
pub fn code_byte(c: i8) -> (r: u8)
    ensures
        r == byte_of_code(c),
{
    if c >= 0 {
        c as u8
    } else {
        (c as i16 + 256) as u8
    }
}

/// The status type that a wire code stands for, if any.
pub open spec fn status_from_code(c: i8) -> Option<StatusType> {
    if c == 0 {
        Some(StatusType::OK)
    } else if c == -1 {
        Some(StatusType::GenericError)
    } else if c == -2 {
        Some(StatusType::NeedConnection)
    } else if c == -3 {
        Some(StatusType::InternalServerError)
    } else if c == 1 {
        Some(StatusType::AlreadyConnected)
    } else if c == 2 {
        Some(StatusType::InvalidRequest)
    } else if c == 3 {
        Some(StatusType::EventNotFound)
    } else if c == 4 {
        Some(StatusType::ListenerNotFound)
    } else if c == 5 {
        Some(StatusType::EventAlreadyExists)
    } else if c == 6 {
        Some(StatusType::AlreadySubscribed)
    } else {
        None
    }
}

impl StatusType {
    /// Signed wire code of the status.
    pub open spec fn spec_code(self) -> i8 {
        match self {
            StatusType::OK => 0,
            StatusType::GenericError => -1i8,
            StatusType::NeedConnection => -2i8,
            StatusType::InternalServerError => -3i8,
            StatusType::AlreadyConnected => 1,
            StatusType::InvalidRequest => 2,
            StatusType::EventNotFound => 3,
            StatusType::ListenerNotFound => 4,
            StatusType::EventAlreadyExists => 5,
            StatusType::AlreadySubscribed => 6,
        }
    }

    /// The byte that carries the code on the wire (two's complement).
    pub open spec fn spec_byte(self) -> u8 {
        byte_of_code(self.spec_code())
    }

    pub fn code(&self) -> (r: i8)
        ensures
            r == self.spec_code(),
    {
        match self {
            StatusType::OK => 0,
            StatusType::GenericError => -1,
            StatusType::NeedConnection => -2,
            StatusType::InternalServerError => -3,
            StatusType::AlreadyConnected => 1,
            StatusType::InvalidRequest => 2,
            StatusType::EventNotFound => 3,
            StatusType::ListenerNotFound => 4,
            StatusType::EventAlreadyExists => 5,
            StatusType::AlreadySubscribed => 6,
        }
    }

    pub fn from_code(c: i8) -> (r: Result<StatusType, Error>)
        ensures
            r is Ok <==> status_from_code(c) is Some,
            r matches Ok(t) ==> status_from_code(c) == Some(t),
            r matches Err(e) ==> e == Error::InvalidStatus,
    {
        match c {
            0 => Ok(StatusType::OK),
            -1 => Ok(StatusType::GenericError),
            -2 => Ok(StatusType::NeedConnection),
            -3 => Ok(StatusType::InternalServerError),
            1 => Ok(StatusType::AlreadyConnected),
            2 => Ok(StatusType::InvalidRequest),
            3 => Ok(StatusType::EventNotFound),
            4 => Ok(StatusType::ListenerNotFound),
            5 => Ok(StatusType::EventAlreadyExists),
            6 => Ok(StatusType::AlreadySubscribed),
            _ => Err(Error::InvalidStatus),
        }
    }
}

/// Each of the ten status types reads back from its code, and a code that
/// reads as a status type is that type's code: no other byte decodes.
pub proof fn lemma_status_code_bijection(s: StatusType, c: i8)
    ensures
        status_from_code(s.spec_code()) == Some(s),
        status_from_code(c) matches Some(t) ==> t.spec_code() == c,
{
}

/// A status byte reads back as its status, and is never the separator.
proof fn lemma_status_byte(s: StatusType)
    ensures
        code_of_byte(s.spec_byte()) == s.spec_code(),
        s.spec_byte() != SEPARATOR_BYTE,
{
}

/// The status section of a response.
#[derive(Clone, Copy, Debug, PartialEq, Eq, Structural)]
pub struct Status {
    pub status_type: StatusType,
}

impl Status {
    pub fn new(status_type: StatusType) -> (r: Status)
        ensures
            r.status_type == status_type,
    {
        Status { status_type }
    }

    pub fn status_type(&self) -> (r: StatusType)
        ensures
            r == self.status_type,
    {
        self.status_type
    }

    /// Reads a status from the first byte of a section; bytes after it are
    /// not looked at.
    pub fn from_bytes(b: &[u8]) -> (r: Result<Status, Error>)
        ensures
            r is Ok <==> b@.len() >= 1 && status_from_code(code_of_byte(b@[0])) is Some,
            r matches Ok(s) ==> s.status_type.spec_byte() == b@[0],
            r matches Err(e) ==> e == Error::InvalidStatus,
    {
        if b.len() == 0 {
            return Err(Error::InvalidStatus);
        }
        match StatusType::from_code(signed_code(b[0])) {
            Ok(t) => {
                proof {
                    lemma_status_code_bijection(t, code_of_byte(b@[0]));
                }
                Ok(Status { status_type: t })
            },
            Err(e) => Err(e),
        }
    }

    pub fn to_bytes(&self) -> (r: Vec<u8>)
        ensures
            r@ == seq![self.status_type.spec_byte()],
    {
        let mut out: Vec<u8> = Vec::new();
        out.push(code_byte(self.status_type.code()));
        assert(out@ =~= seq![self.status_type.spec_byte()]);
        out
    }
}

/// What a response stands for.
pub struct ResponseView {
    pub head: HeadView,
    pub status: StatusType,
    pub body: Seq<u8>,
}

impl ResponseView {
    /// Payload: head, separator, status byte, separator, body.
    pub open spec fn payload(self) -> Seq<u8> {
        self.head.spec_bytes() + seq![SEPARATOR_BYTE] + seq![self.status.spec_byte()] + seq![
            SEPARATOR_BYTE
        ] + self.body
    }

    /// The whole response frame.
    pub open spec fn spec_bytes(self) -> Seq<u8> {
        frame_bytes(RESPONSE_START_BYTE, self.payload())
    }

    /// Every field can stand in a frame and be read back unchanged.
    pub open spec fn wf(self) -> bool {
        self.head.wf()
    }

    /// The payload's length fits the frame's length field.
    pub open spec fn fits(self) -> bool {
        self.payload().len() <= u32::MAX
    }
}

/// The error, if any, of reading a status section from `s` inside a frame:
/// it must be exactly one known code.
pub open spec fn status_error(s: Seq<u8>) -> Option<Error> {
    if s.len() != 1 || status_from_code(code_of_byte(s[0])) is None {
        Some(Error::InvalidStatus)
    } else {
        None
    }
}

/// The error, if any, of reading a response frame from `b`.
pub open spec fn response_error(b: Seq<u8>) -> Option<Error> {
    if !frame_ok(b, RESPONSE_START_BYTE) || !has_sections(frame_payload(b)) {
        Some(Error::InvalidResponse)
    } else {
        let p = frame_payload(b);
        let (i, j) = sections(p);
        if head_error(p.subrange(0, i)) is Some {
            head_error(p.subrange(0, i))
        } else {
            status_error(p.subrange(i + 1, j))
        }
    }
}

/// Encoding a well-formed response and reading the bytes back gives the same
/// response: the bytes read without error, and no other well-formed response
/// has the same bytes.
pub proof fn lemma_response_round_trip(r: ResponseView, q: ResponseView)
    requires
        r.wf(),
        r.fits(),
    ensures
        response_error(r.spec_bytes()) is None,
        q.wf() && q.spec_bytes() == r.spec_bytes() ==> q == r,
{
    let b = r.spec_bytes();
    let h = r.head.spec_bytes();
    let s = seq![r.status.spec_byte()];
    lemma_frame_length(RESPONSE_START_BYTE, r.payload());
    lemma_head_wf(r.head);
    lemma_status_byte(r.status);
    assert(!s.contains(SEPARATOR_BYTE)) by {
        if s.contains(SEPARATOR_BYTE) {
            let k = choose|k: int| 0 <= k < s.len() && s[k] == SEPARATOR_BYTE;
        }
    }
    lemma_sections_of_join(h, s, r.body);
    let p = frame_payload(b);
    assert(p.subrange(0, h.len() as int) =~= h);
    assert(p.subrange(h.len() as int + 1, h.len() as int + 2) =~= s);
    lemma_head_reads_back(r.head);
    if q.wf() && q.spec_bytes() == r.spec_bytes() {
        lemma_response_bytes_injective(q, r);
    }
}

/// Two well-formed responses with the same frame are the same response.
proof fn lemma_response_bytes_injective(q: ResponseView, r: ResponseView)
    requires
        q.wf(),
        r.wf(),
        q.spec_bytes() == r.spec_bytes(),
        r.fits(),
    ensures
        q == r,
{
    let h = r.head.spec_bytes();
    let s = seq![r.status.spec_byte()];
    lemma_frame_length(RESPONSE_START_BYTE, r.payload());
    assert(q.spec_bytes().len() == q.payload().len() + 5);
    lemma_frame_length(RESPONSE_START_BYTE, q.payload());
    lemma_head_wf(r.head);
    lemma_head_wf(q.head);
    let hq = q.head.spec_bytes();
    let sq = seq![q.status.spec_byte()];
    assert(q.payload() == r.payload());
    assert(q.payload() =~= hq + seq![SEPARATOR_BYTE] + (sq + seq![SEPARATOR_BYTE] + q.body));
    assert(r.payload() =~= h + seq![SEPARATOR_BYTE] + (s + seq![SEPARATOR_BYTE] + r.body));
    lemma_split_unique(
        hq,
        sq + seq![SEPARATOR_BYTE] + q.body,
        h,
        s + seq![SEPARATOR_BYTE] + r.body,
        SEPARATOR_BYTE,
    );
    let tq = sq + seq![SEPARATOR_BYTE] + q.body;
    let tr = s + seq![SEPARATOR_BYTE] + r.body;
    assert(tq[0] == tr[0]);
    lemma_status_byte(q.status);
    lemma_status_byte(r.status);
    lemma_status_code_bijection(q.status, q.status.spec_code());
    lemma_status_code_bijection(r.status, r.status.spec_code());
    assert(q.body =~= tq.subrange(2, tq.len() as int));
    assert(r.body =~= tr.subrange(2, tr.len() as int));
    lemma_head_bytes_injective(q.head, r.head);
}

/// A response frame: head, status and body.
#[derive(Clone, Debug)]
pub struct Response {
    pub head: Head,
    pub status: Status,
    pub body: Vec<u8>,
}

impl View for Response {
    type V = ResponseView;

    open spec fn view(&self) -> ResponseView {
        ResponseView { head: self.head@, status: self.status.status_type, body: self.body@ }
    }
}

impl Response {
    pub fn new(head: Head, status: Status, body: &[u8]) -> (r: Response)
        ensures
            r@ == (ResponseView { head: head@, status: status.status_type, body: body@ }),
    {
        Response { head, status, body: vstd::slice::slice_to_vec(body) }
    }

    /// A success response to `caller`, with an empty body.
    pub fn new_ok(caller: &str) -> (r: Response)
        ensures
            r@.head.version.major == crate::head::CURRENT_MAJOR,
            r@.head.version.patch == crate::head::CURRENT_PATCH,
            r@.head.caller == caller@,
            r@.status == StatusType::OK,
            r@.body.len() == 0,
    {
        Response::with_status(caller, StatusType::OK)
    }

    /// A response to `caller` with the given status and an empty body.
    pub fn with_status(caller: &str, status_type: StatusType) -> (r: Response)
        ensures
            r@.head.version.major == crate::head::CURRENT_MAJOR,
            r@.head.version.patch == crate::head::CURRENT_PATCH,
            r@.head.caller == caller@,
            r@.status == status_type,
            r@.body.len() == 0,
    {
        Response { head: Head::new_with_version(caller), status: Status::new(status_type), body: Vec::new() }
    }

    /// An `InternalServerError` response to `caller` whose body explains it.
    pub fn new_unexpected_error(caller: &str, message: &str) -> (r: Response)
        ensures
            r@.head.version.major == crate::head::CURRENT_MAJOR,
            r@.head.version.patch == crate::head::CURRENT_PATCH,
            r@.head.caller == caller@,
            r@.status == StatusType::InternalServerError,
            r@.body == encode_utf8(message@),
    {
        Response {
            head: Head::new_with_version(caller),
            status: Status::new(StatusType::InternalServerError),
            body: vstd::slice::slice_to_vec(message.as_bytes()),
        }
    }

    pub fn head(&self) -> (r: &Head)
        ensures
            r@ == self.head@,
    {
        &self.head
    }

    pub fn status(&self) -> (r: &Status)
        ensures
            *r == self.status,
    {
        &self.status
    }

    pub fn body(&self) -> (r: &[u8])
        ensures
            r@ == self.body@,
    {
        self.body.as_slice()
    }

    /// The body as text, when it is valid UTF-8.
    pub fn body_as_str(&self) -> (r: Result<&str, std::str::Utf8Error>)
        ensures
            r is Ok <==> valid_utf8(self.body@),
            r matches Ok(s) ==> s@ == decode_utf8(self.body@),
    {
        utf8_text(self.body.as_slice())
    }

    /// Reads a whole response frame. The frame's length field must count
    /// exactly the bytes after the header; the payload splits at its first
    /// two separators, and the body is the rest, separators included.
    pub fn from_bytes(b: &[u8]) -> (r: Result<Response, Error>)
        ensures
            r is Ok <==> response_error(b@) is None,
            r matches Ok(q) ==> q@.spec_bytes() == b@ && q@.wf(),
            r matches Err(e) ==> response_error(b@) == Some(e),
    {
        if b.len() < 5 || b[0] != RESPONSE_START_BYTE {
            return Err(Error::InvalidResponse);
        }
        let len = read_be32(b, 1);
        if len != (b.len() - 5) as u64 {
            return Err(Error::InvalidResponse);
        }
        let p = &b[5..b.len()];
        assert(p@ == frame_payload(b@));
        let (i, j) = match payload_sections(p) {
            Some(s) => s,
            None => return Err(Error::InvalidResponse),
        };
        let head = match Head::from_bytes(&p[0..i]) {
            Ok(h) => h,
            Err(e) => return Err(e),
        };
        if j != i + 2 {
            return Err(Error::InvalidStatus);
        }
        let status = match Status::from_bytes(&p[i + 1..j]) {
            Ok(s) => s,
            Err(e) => return Err(e),
        };
        let body = vstd::slice::slice_to_vec(&p[j + 1..p.len()]);
        let response = Response { head, status, body };
        proof {
            lemma_status_byte(status.status_type);
            assert(response@.payload() =~= p@);
            lemma_frame_of_payload(b@, RESPONSE_START_BYTE);
            lemma_head_wf(response@.head);
        }
        Ok(response)
    }

    /// Whether the payload's length fits the frame's length field.
    pub fn fits_in_frame(&self) -> (r: bool)
        ensures
            r == self@.fits(),
    {
        let caller = self.head.caller.as_str().as_bytes().len();
        let body = self.body.len();
        if caller > 0xFFFF_FFFF || body > 0xFFFF_FFFF {
            return false;
        }
        let total = 4 + caller as u64 + 1 + 1 + 1 + body as u64;
        proof {
            let v = self@;
            assert(v.head.version.spec_bytes().len() == 4);
            assert(v.head.spec_bytes().len() == 4 + caller);
            assert(v.payload().len() == total);
        }
        total <= 0xFFFF_FFFF
    }

    /// The whole response frame, when the caller holds no separator and the
    /// payload's length fits the length field.
    pub fn encode(&self) -> (r: Option<Vec<u8>>)
        ensures
            r is Some <==> self@.wf() && self@.fits(),
            r matches Some(b) ==> b@ == self@.spec_bytes(),
    {
        if self.head.is_well_formed() && self.fits_in_frame() {
            Some(self.to_bytes())
        } else {
            None
        }
    }

    /// The whole response frame.
    pub fn to_bytes(&self) -> (r: Vec<u8>)
        requires
            self@.fits(),
        ensures
            r@ == self@.spec_bytes(),
            r@.len() == self@.payload().len() + 5,
            be32_value(r@.subrange(1, 5)) == r@.len() - 5,
    {
        let mut payload = self.head.to_bytes();
        payload.push(SEPARATOR_BYTE);
        let status_bytes = self.status.to_bytes();
        append_bytes(&mut payload, status_bytes.as_slice());
        payload.push(SEPARATOR_BYTE);
        append_bytes(&mut payload, self.body.as_slice());
        assert(payload@ =~= self@.payload());
        let out = frame_of(RESPONSE_START_BYTE, &payload);
        proof {
            lemma_frame_length(RESPONSE_START_BYTE, self@.payload());
        }
        out
    }
}

} // verus!
