//! Calls: a head and a body, joined by one separator.
use vstd::prelude::*;
use vstd::utf8::*;

use crate::error::Error;
use crate::head::{Head, HeadView, head_error};
use crate::wire::{SEPARATOR_BYTE, append_bytes, find_byte, utf8_text};

verus! {

/// What a call stands for.
pub struct CallView {
    pub head: HeadView,
    pub body: Seq<u8>,
}

impl CallView {
    /// Wire form: head, separator, body.
    pub open spec fn spec_bytes(self) -> Seq<u8> {
        self.head.spec_bytes() + seq![SEPARATOR_BYTE] + self.body
    }
}

/// The error, if any, of reading a call from `c`: it must hold exactly one
/// separator, and a valid head before it.
pub open spec fn call_error(c: Seq<u8>) -> Option<Error> {
    if !c.contains(SEPARATOR_BYTE) {
        Some(Error::InvalidCall)
    } else {
        let i = choose|i: int| 0 <= i < c.len() && c[i] == SEPARATOR_BYTE;
        if exists|k: int| 0 <= k < c.len() && k != i && c[k] == SEPARATOR_BYTE {
            Some(Error::InvalidCall)
        } else {
            head_error(c.subrange(0, i))
        }
    }
}

/// A call: a head and a body.
#[derive(Clone, Debug)]
pub struct Call {
    pub head: Head,
    pub body: Vec<u8>,
}

impl View for Call {
    type V = CallView;

    open spec fn view(&self) -> CallView {
        CallView { head: self.head@, body: self.body@ }
    }
}

impl Call {
    pub fn new(head: Head, body: &[u8]) -> (r: Call)
        ensures
            r@ == (CallView { head: head@, body: body@ }),
    {
        Call { head, body: vstd::slice::slice_to_vec(body) }
    }

    pub fn head(&self) -> (r: &Head)
        ensures
            r@ == self.head@,
    {
        &self.head
    }

    pub fn body(&self) -> (r: &[u8])
        ensures
            r@ == self.body@,
    {
        self.body.as_slice()
    }

    /// The body as text, when it is valid UTF-8.
    pub fn body_as_str(&self) -> (r: Result<&str, std::str::Utf8Error>)
        ensures
            r is Ok <==> valid_utf8(self.body@),
            r matches Ok(s) ==> s@ == decode_utf8(self.body@),
    {
        utf8_text(self.body.as_slice())
    }

    /// Reads a call: the bytes must hold exactly one separator.
    pub fn from_bytes(c: &[u8]) -> (r: Result<Call, Error>)
        ensures
            r is Ok <==> call_error(c@) is None,
            r matches Ok(x) ==> x@.spec_bytes() == c@,
            r matches Err(e) ==> call_error(c@) == Some(e),
    {
        let i = match find_byte(c, 0, SEPARATOR_BYTE) {
            Some(i) => i,
            None => {
                assert(c@.subrange(0, c@.len() as int) =~= c@);
                return Err(Error::InvalidCall);
            },
        };
        proof {
            let x = choose|x: int| 0 <= x < c@.len() && c@[x] == SEPARATOR_BYTE;
            if x < i {
                assert(c@.subrange(0, i as int)[x] == SEPARATOR_BYTE);
            }
        }
        let n = c.len();
        assert(i < n);
        if let Some(k) = find_byte(c, i + 1, SEPARATOR_BYTE) {
            return Err(Error::InvalidCall);
        }
        proof {
            let x = choose|x: int| 0 <= x < c@.len() && c@[x] == SEPARATOR_BYTE;
            if x != i as int {
                if x < i {
                    assert(c@.subrange(0, i as int)[x] == SEPARATOR_BYTE);
                } else {
                    assert(c@.subrange(i + 1, c@.len() as int)[x - i - 1] == SEPARATOR_BYTE);
                }
            }
            assert(x == i);
            if exists|k: int| 0 <= k < c@.len() && k != i && c@[k] == SEPARATOR_BYTE {
                let k = choose|k: int| 0 <= k < c@.len() && k != i && c@[k] == SEPARATOR_BYTE;
                if k < i {
                    assert(c@.subrange(0, i as int)[k] == SEPARATOR_BYTE);
                } else {
                    assert(c@.subrange(i + 1, c@.len() as int)[k - i - 1] == SEPARATOR_BYTE);
                }
            }
        }
        let head = match Head::from_bytes(&c[0..i]) {
            Ok(h) => h,
            Err(e) => return Err(e),
        };
        let call = Call { head, body: vstd::slice::slice_to_vec(&c[i + 1..c.len()]) };
        assert(call@.spec_bytes() =~= c@);
        Ok(call)
    }

    pub fn to_bytes(&self) -> (r: Vec<u8>)
        ensures
            r@ == self@.spec_bytes(),
    {
        let mut out = self.head.to_bytes();
        out.push(SEPARATOR_BYTE);
        append_bytes(&mut out, self.body.as_slice());
        out
    }
}

} // verus!
