//! Request frames: the head, an action naming an event, and an opaque body.
use vstd::prelude::*;
use vstd::utf8::*;

use crate::error::Error;
use crate::head::{
    Head, HeadView, head_error, lemma_head_bytes_injective, lemma_head_reads_back, lemma_head_wf,
};
use crate::wire::{
    COLON_BYTE, SEPARATOR_BYTE, append_bytes, be32_value, find_byte, frame_bytes, frame_of,
    frame_ok, frame_payload, has_sections, lemma_ascii_byte_valid, lemma_ascii_in_utf8,
    lemma_frame_length, lemma_frame_of_payload, lemma_sections_of_join, lemma_split_unique,
    payload_sections, read_be32, sections, separator_char, utf8_text,
};
verus! {

broadcast use vstd::utf8::encode_utf8_decode_utf8, vstd::utf8::decode_utf8_encode_utf8,
    vstd::utf8::encode_utf8_valid_utf8;

/// Kind byte that opens every request frame.
pub const REQUEST_START_BYTE: u8 = 0x00;

/// What a request asks the broker to do.
#[derive(Clone, Copy, Debug, PartialEq, Eq, Structural)]
pub enum ActionType {
    Connect,
    Listen,
    Invoke,
    Leave,
    Create,
    Callback,
}

/// The action type that a wire code stands for, if any.
pub open spec fn action_type_from_code(c: u8) -> Option<ActionType> {
    if c == 0 {
        Some(ActionType::Connect)
    } else if c == 1 {
        Some(ActionType::Listen)
    } else if c == 2 {
        Some(ActionType::Invoke)
    } else if c == 3 {
        Some(ActionType::Create)
    } else if c == 4 {
        Some(ActionType::Leave)
    } else if c == 5 {
        Some(ActionType::Callback)
    } else {
        None
    }
}

impl ActionType {
    /// Wire code of the action type.
    pub open spec fn spec_code(self) -> u8 {
        match self {
            ActionType::Connect => 0,
            ActionType::Listen => 1,
            ActionType::Invoke => 2,
            ActionType::Create => 3,
            ActionType::Leave => 4,
            ActionType::Callback => 5,
        }
    }

    pub fn code(&self) -> (r: u8)
        ensures
            r == self.spec_code(),
    {
        match self {
            ActionType::Connect => 0,
            ActionType::Listen => 1,
            ActionType::Invoke => 2,
            ActionType::Create => 3,
            ActionType::Leave => 4,
            ActionType::Callback => 5,
        }
    }

    pub fn from_code(c: u8) -> (r: Result<ActionType, Error>)
        ensures
            r is Ok <==> action_type_from_code(c) is Some,
            r matches Ok(t) ==> action_type_from_code(c) == Some(t),
            r matches Err(e) ==> e == Error::InvalidActionType,
    {
        match c {
            0 => Ok(ActionType::Connect),
            1 => Ok(ActionType::Listen),
            2 => Ok(ActionType::Invoke),
            3 => Ok(ActionType::Create),
            4 => Ok(ActionType::Leave),
            5 => Ok(ActionType::Callback),
            _ => Err(Error::InvalidActionType),
        }
    }

    /// Reads an action type from a section of exactly one byte.
    pub fn from_bytes(b: &[u8]) -> (r: Result<ActionType, Error>)
        ensures
            r is Ok <==> b@.len() == 1 && action_type_from_code(b@[0]) is Some,
            r matches Ok(t) ==> b@ == seq![t.spec_code()],
            r matches Err(e) ==> e == Error::InvalidActionType,
    {
        if b.len() != 1 {
            return Err(Error::InvalidActionType);
        }
        let r = ActionType::from_code(b[0]);
        proof {
            if let Ok(t) = r {
                lemma_action_code_bijection(t, b@[0]);
                assert(b@ =~= seq![t.spec_code()]);
            }
        }
        r
    }

    pub fn to_bytes(&self) -> (r: Vec<u8>)
        ensures
            r@ == seq![self.spec_code()],
    {
        let mut out: Vec<u8> = Vec::new();
        out.push(self.code());
        assert(out@ =~= seq![self.spec_code()]);
        out
    }
}

/// Each of the six action types reads back from its code, and a code that
/// reads as an action type is that type's code: no other byte decodes.
pub proof fn lemma_action_code_bijection(t: ActionType, c: u8)
    ensures
        action_type_from_code(t.spec_code()) == Some(t),
        action_type_from_code(c) matches Some(u) ==> u.spec_code() == c,
{
}

/// What an action stands for: its type and the two halves of the event name.
pub struct ActionView {
    pub action_type: ActionType,
    pub module: Seq<char>,
    pub id: Seq<char>,
}

impl ActionView {
    /// Wire form: the type code, then `module:id` in UTF-8.
    pub open spec fn spec_bytes(self) -> Seq<u8> {
        seq![self.action_type.spec_code()] + encode_utf8(self.module) + seq![COLON_BYTE]
            + encode_utf8(self.id)
    }

    /// The event the action names: `module:id`.
    pub open spec fn event_name(self) -> Seq<char> {
        self.module + seq![':'] + self.id
    }

    /// The action can stand in a frame and be read back: the module holds no
    /// `':'`, and neither half holds the separator.
    pub open spec fn wf(self) -> bool {
        &&& !self.module.contains(':')
        &&& !self.module.contains(separator_char())
        &&& !self.id.contains(separator_char())
    }
}

/// The error, if any, of reading an action section from `a`.
pub open spec fn action_error(a: Seq<u8>) -> Option<Error> {
    if a.len() == 0 || action_type_from_code(a[0]) is None {
        Some(Error::InvalidActionType)
    } else if !valid_utf8(a.subrange(1, a.len() as int)) || !a.subrange(
        1,
        a.len() as int,
    ).contains(COLON_BYTE) {
        Some(Error::InvalidAction)
    } else {
        None
    }
}

/// A text that is valid UTF-8 splits into valid UTF-8 around an ASCII byte.
proof fn lemma_utf8_split_at_ascii(b: Seq<u8>, k: int)
    requires
        valid_utf8(b),
        0 <= k < b.len(),
        b[k] < 0x80,
    ensures
        valid_utf8(b.subrange(0, k)),
        valid_utf8(b.subrange(k + 1, b.len() as int)),
{
    is_char_boundary_iff_not_is_continuation_byte(b, k);
    valid_utf8_split(b, k);
    let tail = b.subrange(k, b.len() as int);
    assert(tail[0] == b[k]);
    assert(length_of_first_scalar(tail) == 1);
    assert(pop_first_scalar(tail) =~= b.subrange(k + 1, b.len() as int));
}

/// An action whose wire form holds no separator is well formed, given that its
/// module holds no `':'`.
proof fn lemma_action_wf(a: ActionView)
    requires
        !a.module.contains(':'),
    ensures
        a.wf() <==> !a.spec_bytes().contains(SEPARATOR_BYTE),
{
    let m = encode_utf8(a.module);
    let i = encode_utf8(a.id);
    let b = a.spec_bytes();
    lemma_ascii_in_utf8(a.module, separator_char());
    lemma_ascii_in_utf8(a.id, separator_char());
    assert(a.action_type.spec_code() != SEPARATOR_BYTE);
    if b.contains(SEPARATOR_BYTE) {
        let k = choose|k: int| 0 <= k < b.len() && b[k] == SEPARATOR_BYTE;
        if k == 0 {
        } else if k < 1 + m.len() {
            assert(m[k - 1] == SEPARATOR_BYTE);
        } else if k == 1 + m.len() {
        } else {
            assert(i[k - 2 - m.len()] == SEPARATOR_BYTE);
        }
    }
    if m.contains(SEPARATOR_BYTE) {
        let k = choose|k: int| 0 <= k < m.len() && m[k] == SEPARATOR_BYTE;
        assert(b[1 + k] == SEPARATOR_BYTE);
    }
    if i.contains(SEPARATOR_BYTE) {
        let k = choose|k: int| 0 <= k < i.len() && i[k] == SEPARATOR_BYTE;
        assert(b[2 + m.len() + k] == SEPARATOR_BYTE);
    }
}

/// The wire form of an action whose module holds no `':'` reads without error.
proof fn lemma_action_reads_back(a: ActionView)
    requires
        !a.module.contains(':'),
    ensures
        action_error(a.spec_bytes()) is None,
{
    let x = a.spec_bytes();
    let m = encode_utf8(a.module);
    lemma_action_code_bijection(a.action_type, x[0]);
    assert(x.subrange(1, x.len() as int) =~= m + seq![COLON_BYTE] + encode_utf8(a.id));
    assert(x.subrange(1, x.len() as int)[m.len() as int] == COLON_BYTE);
    lemma_ascii_byte_valid(COLON_BYTE);
    valid_utf8_concat(m, seq![COLON_BYTE]);
    valid_utf8_concat(m + seq![COLON_BYTE], encode_utf8(a.id));
}

/// Two well-formed actions with the same wire form are the same action.
proof fn lemma_action_bytes_injective(a: ActionView, b: ActionView)
    requires
        a.spec_bytes() == b.spec_bytes(),
        !a.module.contains(':'),
        !b.module.contains(':'),
    ensures
        a == b,
{
    let x = a.spec_bytes();
    assert(x[0] == a.action_type.spec_code());
    assert(x[0] == b.action_type.spec_code());
    lemma_action_code_bijection(a.action_type, x[0]);
    lemma_action_code_bijection(b.action_type, x[0]);
    let rest = x.subrange(1, x.len() as int);
    assert(rest =~= encode_utf8(a.module) + seq![COLON_BYTE] + encode_utf8(a.id));
    assert(rest =~= encode_utf8(b.module) + seq![COLON_BYTE] + encode_utf8(b.id));
    lemma_ascii_in_utf8(a.module, ':');
    lemma_ascii_in_utf8(b.module, ':');
    lemma_split_unique(
        encode_utf8(a.module),
        encode_utf8(a.id),
        encode_utf8(b.module),
        encode_utf8(b.id),
        COLON_BYTE,
    );
    assert(decode_utf8(encode_utf8(a.module)) == a.module);
    assert(decode_utf8(encode_utf8(b.module)) == b.module);
    assert(decode_utf8(encode_utf8(a.id)) == a.id);
    assert(decode_utf8(encode_utf8(b.id)) == b.id);
}

/// The action section of a request: what to do, and to which event.
#[derive(Clone, Debug)]
pub struct Action {
    pub action_type: ActionType,
    pub module: String,
    pub id: String,
}

impl View for Action {
    type V = ActionView;

    open spec fn view(&self) -> ActionView {
        ActionView { action_type: self.action_type, module: self.module@, id: self.id@ }
    }
}

impl Action {
    pub fn new(action_type: ActionType, module: &str, id: &str) -> (r: Action)
        ensures
            r@ == (ActionView { action_type, module: module@, id: id@ }),
    {
        Action { action_type, module: module.to_string(), id: id.to_string() }
    }

    pub fn action_type(&self) -> (r: ActionType)
        ensures
            r == self.action_type,
    {
        self.action_type
    }

    pub fn module(&self) -> (r: &str)
        ensures
            r@ == self.module@,
    {
        self.module.as_str()
    }

    pub fn id(&self) -> (r: &str)
        ensures
            r@ == self.id@,
    {
        self.id.as_str()
    }

    /// The name of the event this action is about: `module:id`.
    pub fn event_name(&self) -> (r: String)
        ensures
            r@ == self@.event_name(),
    {
        let mut name = self.module.clone();
        name.append(":");
        name.append(self.id.as_str());
        proof {
            reveal_strlit(":");
        }
        assert(name@ =~= self@.event_name());
        name
    }

    /// Reads an action section: one type byte, then `module:id` in UTF-8,
    /// split at the first `':'`.
    pub fn from_bytes(a: &[u8]) -> (r: Result<Action, Error>)
        ensures
            r is Ok <==> action_error(a@) is None,
            r matches Ok(x) ==> x@.spec_bytes() == a@ && !x@.module.contains(':'),
            r matches Err(e) ==> action_error(a@) == Some(e),
    {
        if a.len() == 0 {
            return Err(Error::InvalidActionType);
        }
        let action_type = match ActionType::from_code(a[0]) {
            Ok(t) => t,
            Err(e) => return Err(e),
        };
        let rest = &a[1..a.len()];
        if utf8_text(rest).is_err() {
            return Err(Error::InvalidAction);
        }
        let k = match find_byte(rest, 0, COLON_BYTE) {
            Some(k) => k,
            None => {
                assert(rest@.subrange(0, rest@.len() as int) =~= rest@);
                return Err(Error::InvalidAction);
            },
        };
        assert(rest@.contains(COLON_BYTE)) by {
            assert(rest@[k as int] == COLON_BYTE);
        }
        proof {
            lemma_utf8_split_at_ascii(rest@, k as int);
        }
        let module_bytes = &rest[0..k];
        let id_bytes = &rest[k + 1..rest.len()];
        let module = match utf8_text(module_bytes) {
            Ok(s) => s.to_string(),
            Err(_) => return Err(Error::InvalidAction),
        };
        let id = match utf8_text(id_bytes) {
            Ok(s) => s.to_string(),
            Err(_) => return Err(Error::InvalidAction),
        };
        let action = Action { action_type, module, id };
        proof {
            lemma_action_code_bijection(action_type, a@[0]);
            assert(rest@ =~= module_bytes@ + seq![COLON_BYTE] + id_bytes@);
            assert(action@.spec_bytes() =~= a@);
            assert(module_bytes@ =~= rest@.subrange(0, k as int));
            lemma_ascii_in_utf8(action.module@, ':');
        }
        Ok(action)
    }

    /// Whether the action can stand in a frame and be read back.
    pub fn is_well_formed(&self) -> (r: bool)
        ensures
            r == self@.wf(),
    {
        let module = self.module.as_str().as_bytes();
        if find_byte(module, 0, COLON_BYTE).is_some() {
            proof {
                lemma_ascii_in_utf8(self@.module, ':');
            }
            return false;
        }
        proof {
            lemma_ascii_in_utf8(self@.module, ':');
            assert(module@.subrange(0, module@.len() as int) =~= module@);
            lemma_action_wf(self@);
        }
        let bytes = self.to_bytes();
        let r = find_byte(bytes.as_slice(), 0, SEPARATOR_BYTE).is_none();
        proof {
            assert(bytes@.subrange(0, bytes@.len() as int) =~= bytes@);
            if !r {
                let i = choose|i: int| 0 <= i < bytes@.len() && bytes@[i] == SEPARATOR_BYTE;
            }
        }
        r
    }

    pub fn to_bytes(&self) -> (r: Vec<u8>)
        ensures
            r@ == self@.spec_bytes(),
    {
        let mut out: Vec<u8> = Vec::new();
        out.push(self.action_type.code());
        append_bytes(&mut out, self.module.as_str().as_bytes());
        out.push(COLON_BYTE);
        append_bytes(&mut out, self.id.as_str().as_bytes());
        assert(out@ =~= self@.spec_bytes());
        out
    }
}

/// What a request stands for.
pub struct RequestView {
    pub head: HeadView,
    pub action: ActionView,
    pub body: Seq<u8>,
}

impl RequestView {
    /// Payload: head, separator, action, separator, body.
    pub open spec fn payload(self) -> Seq<u8> {
        self.head.spec_bytes() + seq![SEPARATOR_BYTE] + self.action.spec_bytes() + seq![
            SEPARATOR_BYTE
        ] + self.body
    }

    /// The whole request frame.
    pub open spec fn spec_bytes(self) -> Seq<u8> {
        frame_bytes(REQUEST_START_BYTE, self.payload())
    }

    /// Every field can stand in a frame and be read back unchanged.
    pub open spec fn wf(self) -> bool {
        self.head.wf() && self.action.wf()
    }

    /// The payload's length fits the frame's length field.
    pub open spec fn fits(self) -> bool {
        self.payload().len() <= u32::MAX
    }
}

/// The error, if any, of reading a request frame from `b`.
pub open spec fn request_error(b: Seq<u8>) -> Option<Error> {
    if !frame_ok(b, REQUEST_START_BYTE) || !has_sections(frame_payload(b)) {
        Some(Error::InvalidRequest)
    } else {
        let p = frame_payload(b);
        let (i, j) = sections(p);
        if head_error(p.subrange(0, i)) is Some {
            head_error(p.subrange(0, i))
        } else {
            action_error(p.subrange(i + 1, j))
        }
    }
}

/// Encoding a well-formed request and reading the bytes back gives the same
/// request: the bytes read without error, and no other well-formed request
/// has the same bytes.
pub proof fn lemma_request_round_trip(r: RequestView, q: RequestView)
    requires
        r.wf(),
        r.fits(),
    ensures
        request_error(r.spec_bytes()) is None,
        q.wf() && q.spec_bytes() == r.spec_bytes() ==> q == r,
{
    let b = r.spec_bytes();
    let h = r.head.spec_bytes();
    let a = r.action.spec_bytes();
    lemma_frame_length(REQUEST_START_BYTE, r.payload());
    lemma_head_wf(r.head);
    lemma_action_wf(r.action);
    lemma_sections_of_join(h, a, r.body);
    let p = frame_payload(b);
    assert(p.subrange(0, h.len() as int) =~= h);
    assert(p.subrange(h.len() as int + 1, h.len() as int + 1 + a.len()) =~= a);
    lemma_head_reads_back(r.head);
    lemma_action_reads_back(r.action);
    if q.wf() && q.spec_bytes() == r.spec_bytes() {
        lemma_request_bytes_injective(q, r);
    }
}

/// Two well-formed requests with the same frame are the same request.
proof fn lemma_request_bytes_injective(q: RequestView, r: RequestView)
    requires
        q.wf(),
        r.wf(),
        q.spec_bytes() == r.spec_bytes(),
        r.fits(),
    ensures
        q == r,
{
    let h = r.head.spec_bytes();
    let a = r.action.spec_bytes();
    lemma_frame_length(REQUEST_START_BYTE, r.payload());
    lemma_head_wf(r.head);
    lemma_action_wf(r.action);
    assert(q.spec_bytes().len() == q.payload().len() + 5);
    lemma_frame_length(REQUEST_START_BYTE, q.payload());
    lemma_head_wf(q.head);
    lemma_action_wf(q.action);
    let hq = q.head.spec_bytes();
    let aq = q.action.spec_bytes();
    assert(q.payload() == r.payload());
    assert(q.payload() =~= hq + seq![SEPARATOR_BYTE] + (aq + seq![SEPARATOR_BYTE] + q.body));
    assert(r.payload() =~= h + seq![SEPARATOR_BYTE] + (a + seq![SEPARATOR_BYTE] + r.body));
    lemma_split_unique(
        hq,
        aq + seq![SEPARATOR_BYTE] + q.body,
        h,
        a + seq![SEPARATOR_BYTE] + r.body,
        SEPARATOR_BYTE,
    );
    lemma_split_unique(aq, q.body, a, r.body, SEPARATOR_BYTE);
    lemma_head_bytes_injective(q.head, r.head);
    lemma_action_bytes_injective(q.action, r.action);
}

/// A request frame: head, action and body.
#[derive(Clone, Debug)]
pub struct Request {
    pub head: Head,
    pub action: Action,
    pub body: Vec<u8>,
}

impl View for Request {
    type V = RequestView;

    open spec fn view(&self) -> RequestView {
        RequestView { head: self.head@, action: self.action@, body: self.body@ }
    }
}

impl Request {
    pub fn new(head: Head, action: Action, body: &[u8]) -> (r: Request)
        ensures
            r@ == (RequestView { head: head@, action: action@, body: body@ }),
    {
        Request { head, action, body: vstd::slice::slice_to_vec(body) }
    }

    pub fn head(&self) -> (r: &Head)
        ensures
            r@ == self.head@,
    {
        &self.head
    }

    pub fn action(&self) -> (r: &Action)
        ensures
            r@ == self.action@,
    {
        &self.action
    }

    pub fn body(&self) -> (r: &[u8])
        ensures
            r@ == self.body@,
    {
        self.body.as_slice()
    }

    /// The body as text, when it is valid UTF-8.
    pub fn body_as_str(&self) -> (r: Result<&str, std::str::Utf8Error>)
        ensures
            r is Ok <==> valid_utf8(self.body@),
            r matches Ok(s) ==> s@ == decode_utf8(self.body@),
    {
        utf8_text(self.body.as_slice())
    }

    /// Reads a whole request frame. The frame's length field must count
    /// exactly the bytes after the header; the payload splits at its first
    /// two separators, and the body is the rest, separators included.
    pub fn from_bytes(b: &[u8]) -> (r: Result<Request, Error>)
        ensures
            r is Ok <==> request_error(b@) is None,
            r matches Ok(q) ==> q@.spec_bytes() == b@ && q@.wf(),
            r matches Err(e) ==> request_error(b@) == Some(e),
    {
        if b.len() < 5 || b[0] != REQUEST_START_BYTE {
            return Err(Error::InvalidRequest);
        }
        let len = read_be32(b, 1);
        if len != (b.len() - 5) as u64 {
            return Err(Error::InvalidRequest);
        }
        let p = &b[5..b.len()];
        assert(p@ == frame_payload(b@));
        let (i, j) = match payload_sections(p) {
            Some(s) => s,
            None => return Err(Error::InvalidRequest),
        };
        let head = match Head::from_bytes(&p[0..i]) {
            Ok(h) => h,
            Err(e) => return Err(e),
        };
        let action = match Action::from_bytes(&p[i + 1..j]) {
            Ok(a) => a,
            Err(e) => return Err(e),
        };
        let body = vstd::slice::slice_to_vec(&p[j + 1..p.len()]);
        let request = Request { head, action, body };
        proof {
            assert(request@.payload() =~= p@);
            lemma_frame_of_payload(b@, REQUEST_START_BYTE);
            lemma_head_wf(request@.head);
            lemma_action_wf(request@.action);
        }
        Ok(request)
    }

    /// Whether the payload's length fits the frame's length field.
    pub fn fits_in_frame(&self) -> (r: bool)
        ensures
            r == self@.fits(),
    {
        let caller = self.head.caller.as_str().as_bytes().len();
        let module = self.action.module.as_str().as_bytes().len();
        let id = self.action.id.as_str().as_bytes().len();
        let body = self.body.len();
        if caller > 0xFFFF_FFFF || module > 0xFFFF_FFFF || id > 0xFFFF_FFFF || body > 0xFFFF_FFFF {
            return false;
        }
        let total = 4 + caller as u64 + 1 + 1 + module as u64 + 1 + id as u64 + 1 + body as u64;
        proof {
            let v = self@;
            assert(v.head.version.spec_bytes().len() == 4);
            assert(v.head.spec_bytes().len() == 4 + caller);
            assert(v.action.spec_bytes().len() == 2 + module + id);
            assert(v.payload().len() == total);
        }
        total <= 0xFFFF_FFFF
    }

    /// The whole request frame, when every field can stand in it: the
    /// caller, module and id hold no separator, the module no `':'`, and the
    /// payload's length fits the length field.
    pub fn encode(&self) -> (r: Option<Vec<u8>>)
        ensures
            r is Some <==> self@.wf() && self@.fits(),
            r matches Some(b) ==> b@ == self@.spec_bytes(),
    {
        if self.head.is_well_formed() && self.action.is_well_formed() && self.fits_in_frame() {
            Some(self.to_bytes())
        } else {
            None
        }
    }

    /// The whole request frame.
    pub fn to_bytes(&self) -> (r: Vec<u8>)
        requires
            self@.fits(),
        ensures
            r@ == self@.spec_bytes(),
            r@.len() == self@.payload().len() + 5,
            be32_value(r@.subrange(1, 5)) == r@.len() - 5,
    {
        let mut payload = self.head.to_bytes();
        payload.push(SEPARATOR_BYTE);
        let action_bytes = self.action.to_bytes();
        append_bytes(&mut payload, action_bytes.as_slice());
        payload.push(SEPARATOR_BYTE);
        append_bytes(&mut payload, self.body.as_slice());
        assert(payload@ =~= self@.payload());
        let out = frame_of(REQUEST_START_BYTE, &payload);
        proof {
            lemma_frame_length(REQUEST_START_BYTE, self@.payload());
        }
        out
    }
}

} // verus!
