//! Protocol version and the head section shared by every frame.
use vstd::prelude::*;
use vstd::utf8::*;

use crate::error::Error;
use crate::wire::{
    SEPARATOR_BYTE, append_bytes, be16, find_byte, lemma_ascii_in_utf8, lemma_be16_injective, push_be16, read_be16,
    separator_char, utf8_text,
};

verus! {

broadcast use vstd::utf8::encode_utf8_decode_utf8, vstd::utf8::decode_utf8_encode_utf8,
    vstd::utf8::encode_utf8_valid_utf8;

/// Major version spoken by this broker.
pub const CURRENT_MAJOR: u16 = 1;

/// Patch version spoken by this broker.
pub const CURRENT_PATCH: u16 = 0;

/// A protocol version: peers must agree on `major`; `patch` may differ.
#[derive(Clone, Copy, Debug, PartialEq, Eq, Structural)]
pub struct Version {
    pub major: u16,
    pub patch: u16,
}

impl Version {
    /// Wire form: major then patch, each big-endian.
    pub open spec fn spec_bytes(self) -> Seq<u8> {
        be16(self.major) + be16(self.patch)
    }

    pub fn new(major: u16, patch: u16) -> (r: Self)
        ensures
            r.major == major,
            r.patch == patch,
    {
        Version { major, patch }
    }

    /// The version this broker speaks.
    pub fn actual() -> (r: Self)
        ensures
            r.major == CURRENT_MAJOR,
            r.patch == CURRENT_PATCH,
    {
        Version { major: CURRENT_MAJOR, patch: CURRENT_PATCH }
    }

    pub fn major(&self) -> (r: u16)
        ensures
            r == self.major,
    {
        self.major
    }

    pub fn patch(&self) -> (r: u16)
        ensures
            r == self.patch,
    {
        self.patch
    }

    /// Reads a version from exactly four bytes.
    pub fn from_bytes(b: &[u8]) -> (r: Result<Version, Error>)
        ensures
            r is Ok <==> b@.len() == 4,
            r matches Ok(v) ==> v.spec_bytes() == b@,
            r matches Err(e) ==> e == Error::InvalidHead,
    {
        if b.len() != 4 {
            return Err(Error::InvalidHead);
        }
        let major = read_be16(b, 0);
        let patch = read_be16(b, 2);
        let v = Version { major, patch };
        assert(v.spec_bytes() =~= b@);
        Ok(v)
    }

    pub fn to_bytes(&self) -> (r: Vec<u8>)
        ensures
            r@ == self.spec_bytes(),
    {
        let mut out: Vec<u8> = Vec::new();
        push_be16(&mut out, self.major);
        push_be16(&mut out, self.patch);
        assert(out@ =~= self.spec_bytes());
        out
    }
}

/// What a head stands for: a version and the name of the frame's originator.
pub struct HeadView {
    pub version: Version,
    pub caller: Seq<char>,
}

impl HeadView {
    /// Wire form: the version, then the caller in UTF-8, with no separator between.
    pub open spec fn spec_bytes(self) -> Seq<u8> {
        self.version.spec_bytes() + encode_utf8(self.caller)
    }

    /// The head can stand in a frame: neither its version bytes nor its caller
    /// hold the separator.
    pub open spec fn wf(self) -> bool {
        &&& !self.version.spec_bytes().contains(SEPARATOR_BYTE)
        &&& !self.caller.contains(separator_char())
    }
}

/// The error, if any, of reading a head section from `h`.
pub open spec fn head_error(h: Seq<u8>) -> Option<Error> {
    if h.len() < 4 || !valid_utf8(h.subrange(4, h.len() as int)) {
        Some(Error::InvalidHead)
    } else {
        None
    }
}

/// A head that is encoded without separators is well formed.
pub proof fn lemma_head_wf(h: HeadView)
    ensures
        h.wf() <==> !h.spec_bytes().contains(SEPARATOR_BYTE),
{
    let v = h.version.spec_bytes();
    let c = encode_utf8(h.caller);
    let b = h.spec_bytes();
    lemma_ascii_in_utf8(h.caller, separator_char());
    if b.contains(SEPARATOR_BYTE) {
        let k = choose|k: int| 0 <= k < b.len() && b[k] == SEPARATOR_BYTE;
        if k < v.len() {
            assert(v[k] == SEPARATOR_BYTE);
        } else {
            assert(c[k - v.len()] == SEPARATOR_BYTE);
        }
    }
    if v.contains(SEPARATOR_BYTE) {
        let k = choose|k: int| 0 <= k < v.len() && v[k] == SEPARATOR_BYTE;
        assert(b[k] == SEPARATOR_BYTE);
    }
    if c.contains(SEPARATOR_BYTE) {
        let k = choose|k: int| 0 <= k < c.len() && c[k] == SEPARATOR_BYTE;
        assert(b[v.len() + k] == SEPARATOR_BYTE);
    }
}

/// The wire form of a head reads without error.
pub proof fn lemma_head_reads_back(h: HeadView)
    ensures
        head_error(h.spec_bytes()) is None,
{
    let b = h.spec_bytes();
    assert(b.subrange(4, b.len() as int) =~= encode_utf8(h.caller));
}

/// Two heads with the same wire form are the same head.
pub proof fn lemma_head_bytes_injective(a: HeadView, b: HeadView)
    requires
        a.spec_bytes() == b.spec_bytes(),
    ensures
        a == b,
{
    let x = a.spec_bytes();
    assert(a.version.spec_bytes() =~= x.subrange(0, 4));
    assert(b.version.spec_bytes() =~= x.subrange(0, 4));
    assert(encode_utf8(a.caller) =~= x.subrange(4, x.len() as int));
    assert(encode_utf8(b.caller) =~= x.subrange(4, x.len() as int));
    assert(be16(a.version.major) =~= x.subrange(0, 2));
    assert(be16(b.version.major) =~= x.subrange(0, 2));
    assert(be16(a.version.patch) =~= x.subrange(2, 4));
    assert(be16(b.version.patch) =~= x.subrange(2, 4));
    lemma_be16_injective(a.version.major, b.version.major);
    lemma_be16_injective(a.version.patch, b.version.patch);
    assert(decode_utf8(encode_utf8(a.caller)) == a.caller);
    assert(decode_utf8(encode_utf8(b.caller)) == b.caller);
}

/// The first section of every frame: version and caller.
#[derive(Clone, Debug)]
pub struct Head {
    pub version: Version,
    pub caller: String,
}

impl View for Head {
    type V = HeadView;

    open spec fn view(&self) -> HeadView {
        HeadView { version: self.version, caller: self.caller@ }
    }
}

impl Head {
    pub fn new(version: Version, caller: &str) -> (r: Head)
        ensures
            r@.version == version,
            r@.caller == caller@,
    {
        Head { version, caller: caller.to_string() }
    }

    /// A head with the version this broker speaks.
    pub fn new_with_version(caller: &str) -> (r: Head)
        ensures
            r@.version.major == CURRENT_MAJOR,
            r@.version.patch == CURRENT_PATCH,
            r@.caller == caller@,
    {
        Head::new(Version::actual(), caller)
    }

    pub fn version(&self) -> (r: &Version)
        ensures
            *r == self.version,
    {
        &self.version
    }

    pub fn caller(&self) -> (r: &str)
        ensures
            r@ == self.caller@,
    {
        self.caller.as_str()
    }

    /// Reads a head section: four version bytes, then the caller in UTF-8.
    pub fn from_bytes(h: &[u8]) -> (r: Result<Head, Error>)
        ensures
            r is Ok <==> head_error(h@) is None,
            r matches Ok(head) ==> head@.spec_bytes() == h@,
            r matches Err(e) ==> head_error(h@) == Some(e),
    {
        if h.len() < 4 {
            return Err(Error::InvalidHead);
        }
        let version = match Version::from_bytes(&h[0..4]) {
            Ok(v) => v,
            Err(e) => return Err(e),
        };
        let rest = &h[4..h.len()];
        match utf8_text(rest) {
            Ok(text) => {
                let head = Head { version, caller: text.to_string() };
                assert(head@.spec_bytes() =~= h@);
                Ok(head)
            },
            Err(_) => Err(Error::InvalidHead),
        }
    }

    /// Whether the head can stand in a frame: no separator in its bytes.
    pub fn is_well_formed(&self) -> (r: bool)
        ensures
            r == self@.wf(),
    {
        let bytes = self.to_bytes();
        let r = find_byte(bytes.as_slice(), 0, SEPARATOR_BYTE).is_none();
        proof {
            lemma_head_wf(self@);
            assert(bytes@.subrange(0, bytes@.len() as int) =~= bytes@);
            if !r {
                let i = choose|i: int| 0 <= i < bytes@.len() && bytes@[i] == SEPARATOR_BYTE;
            }
        }
        r
    }

    pub fn to_bytes(&self) -> (r: Vec<u8>)
        ensures
            r@ == self@.spec_bytes(),
    {
        let mut out = self.version.to_bytes();
        append_bytes(&mut out, self.caller.as_str().as_bytes());
        out
    }
}

} // verus!
